//! The client: where a command is sent, and the decoding of what comes back.
use vstd::prelude::*;
use vstd::utf8::{decode_utf8, valid_utf8};

use crate::error::{Error, Result};
use crate::text::utf8_text;
use crate::FourLetterWord;

verus! {

/// A server to send commands to. Each command opens a connection of its own.
pub struct Client {
    addr: String,
}

impl Client {
    /// The address that commands go to.
    pub closed spec fn address(&self) -> Seq<char> {
        self.addr@
    }

    /// A client for the server at `addr`, written `host:port`.
    pub fn new(addr: &str) -> (r: Client)
        ensures
            r.address() == addr@,
    {
        Client { addr: addr.to_owned() }
    }

    /// The address that commands go to, as `host:port`.
    pub fn addr(&self) -> (r: &str)
        ensures
            r@ == self.address(),
    {
        self.addr.as_str()
    }
}

/// Decodes the raw bytes that the server sent back for command `F`: they
/// must be UTF-8, and the text is then handed to `F`'s decoder.
pub fn decode_reply<F: FourLetterWord>(reply: &[u8]) -> (r: Result<F::Response>)
    ensures
        !valid_utf8(reply@) ==> match r {
            Err(Error::Utf8(_)) => true,
            _ => false,
        },
        valid_utf8(reply@) ==> F::parsed(decode_utf8(reply@), r),
{
    match utf8_text(reply) {
        Ok(text) => F::parse_response(text),
        Err(e) => Err(Error::Utf8(e)),
    }
}

} // verus!
