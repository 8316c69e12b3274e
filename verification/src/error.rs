//! Failure taxonomy: every failure surfaces to the caller as one of these
//! typed values; nothing is retried or substituted.

use vstd::prelude::*;

verus! {

/// What a capability call can fail with.
#[derive(Debug, Clone, PartialEq, Eq)]
pub enum Error {
    /// Network or connection failure, or a malformed base address or path,
    /// described in prose by the transport layer.
    Transport(String),
    /// The device answered with a non-success status; carries the status
    /// code and the raw body text, verbatim.
    HttpStatus(u16, String),
    /// The response body is not JSON of the expected shape.
    Decode,
}

impl Error {
    /// Short description of the failure kind.
    pub fn describe(&self) -> &'static str {
        match self {
            Error::Transport(_) => "transport failure",
            Error::HttpStatus(_, _) => "device rejected the request",
            Error::Decode => "response body failed to decode",
        }
    }
}

} // verus!
