//! The typed errors a synchronous command call can produce.

use vstd::prelude::*;
use vstd::string::StringExecFns;

verus! {

/// Errors surfaced by a synchronous command call.
///
/// `SocketError` carries the transport error's text, `TelloCmdFail` the text
/// of the command the device rejected, `TelloResponsIllegal` the raw reply
/// payload, and `TelloTimeout` a description of the command that timed out.
#[derive(Debug, PartialEq)]
pub enum TelloError {
    SocketError(String),
    TelloCmdFail(String),
    TelloResponsIllegal(String),
    TelloTimeout(String),
}

impl Clone for TelloError {
    fn clone(&self) -> (r: Self)
        ensures
            r == self,
    {
        match self {
            TelloError::SocketError(s) => TelloError::SocketError(s.clone()),
            TelloError::TelloCmdFail(s) => TelloError::TelloCmdFail(s.clone()),
            TelloError::TelloResponsIllegal(s) => TelloError::TelloResponsIllegal(s.clone()),
            TelloError::TelloTimeout(s) => TelloError::TelloTimeout(s.clone()),
        }
    }
}

/// The rendered text of an error, variant by variant.
pub open spec fn spec_error_message(e: TelloError) -> Seq<char> {
    match e {
        TelloError::SocketError(s) => "SocketError: "@ + s@,
        TelloError::TelloCmdFail(s) => "Tello Error: "@ + s@,
        TelloError::TelloResponsIllegal(s) => "Illegal Respons from tello.["@ + s@ + "]"@,
        TelloError::TelloTimeout(s) => "Timeout: "@ + s@,
    }
}

impl TelloError {
    /// Human-readable description of the error.
    pub fn message(&self) -> (r: String)
        ensures
            r@ == spec_error_message(*self),
    {
        match self {
            TelloError::SocketError(s) => "SocketError: ".to_owned().concat(s.as_str()),
            TelloError::TelloCmdFail(s) => "Tello Error: ".to_owned().concat(s.as_str()),
            TelloError::TelloResponsIllegal(s) => "Illegal Respons from tello.[".to_owned().concat(
                s.as_str(),
            ).concat("]"),
            TelloError::TelloTimeout(s) => "Timeout: ".to_owned().concat(s.as_str()),
        }
    }
}

} // verus!
