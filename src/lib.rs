//! Client for the "four letter word" administrative commands of a
//! ZooKeeper server, with a verified decoder for the `mntr` reply.
use vstd::prelude::*;

pub mod client;
pub mod error;
pub mod mntr;
pub mod text;

pub use error::{Error, Result};
pub use mntr::Mntr;
pub use client::{decode_reply, Client};

verus! {

/// A four letter word command: the text sent to the server and the decoder
/// of its reply.
pub trait FourLetterWord {
    /// What the reply decodes to.
    type Response;

    /// The command's text.
    spec fn command_text() -> Seq<char>;

    /// `r` is what decoding the reply `text` gives.
    spec fn parsed(text: Seq<char>, r: Result<Self::Response>) -> bool;

    /// The command's text, four ASCII letters.
    fn command() -> (r: &'static str)
        ensures
            r@ == Self::command_text(),
    ;

    /// Decodes the whole reply text.
    fn parse_response(response: &str) -> (r: Result<Self::Response>)
        ensures
            Self::parsed(response@, r),
    ;
}

} // verus!
