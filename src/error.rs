use vstd::prelude::*;

verus! {

#[verifier::external_type_specification]
#[verifier::external_body]
pub struct ExParseIntError(std::num::ParseIntError);

#[verifier::external_type_specification]
#[verifier::external_body]
pub struct ExIoError(std::io::Error);

#[verifier::external_type_specification]
#[verifier::external_body]
pub struct ExUtf8Error(std::str::Utf8Error);

/// Everything that can go wrong while running a command.
#[derive(Debug)]
pub enum Error {
    /// A counter's text is not a decimal `i64`.
    Parse(std::num::ParseIntError),
    /// A required field never appeared in the reply.
    MissingField(&'static str),
    /// The connection failed.
    Io(std::io::Error),
    /// The reply is not valid UTF-8.
    Utf8(std::str::Utf8Error),
}

pub type Result<T> = std::result::Result<T, Error>;

impl From<std::num::ParseIntError> for Error {
    fn from(val: std::num::ParseIntError) -> (r: Error)
        ensures
            r == Error::Parse(val),
    {
        Error::Parse(val)
    }
}

impl vstd::std_specs::convert::FromSpecImpl<std::num::ParseIntError> for Error {
    open spec fn obeys_from_spec() -> bool {
        true
    }

    open spec fn from_spec(v: std::num::ParseIntError) -> Error {
        Error::Parse(v)
    }
}

impl From<std::io::Error> for Error {
    fn from(val: std::io::Error) -> (r: Error)
        ensures
            r == Error::Io(val),
    {
        Error::Io(val)
    }
}

impl vstd::std_specs::convert::FromSpecImpl<std::io::Error> for Error {
    open spec fn obeys_from_spec() -> bool {
        true
    }

    open spec fn from_spec(v: std::io::Error) -> Error {
        Error::Io(v)
    }
}

impl From<std::str::Utf8Error> for Error {
    fn from(val: std::str::Utf8Error) -> (r: Error)
        ensures
            r == Error::Utf8(val),
    {
        Error::Utf8(val)
    }
}

impl vstd::std_specs::convert::FromSpecImpl<std::str::Utf8Error> for Error {
    open spec fn obeys_from_spec() -> bool {
        true
    }

    open spec fn from_spec(v: std::str::Utf8Error) -> Error {
        Error::Utf8(v)
    }
}

} // verus!
