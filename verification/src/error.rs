//! The failure taxonomy of the administration protocol.

use vstd::prelude::*;

verus! {

/// Every way a single administrative command can fail.
///
/// `NotFound`-style outcomes (no authority account configured, no nonce
/// recorded) are not errors; they are part of the normal result types.
#[derive(Clone, Copy, Debug, PartialEq, Eq, Structural)]
pub enum AdminError {
    /// An RPC call could not complete (connection lost, malformed response).
    /// Fatal to the current command; never retried.
    Transport,
    /// Stored bytes do not match the expected scalar encoding.
    Decode,
    /// Command-line supplied text does not match an accepted grammar.
    /// Reported before any RPC call is made.
    Parse,
    /// A post-write verification read did not match what was written, or a
    /// "has key" check failed right after a successful insert: the node
    /// accepted the call but did not durably apply it.  Reported distinctly
    /// from `Transport` so an operator can tell "could not reach the node"
    /// from "the node lied".
    Consistency,
}

impl AdminError {
    /// A short human-readable name for the error, for console rendering.
    pub fn describe(&self) -> (r: &'static str)
        ensures
            r@ == match *self {
                AdminError::Transport => "transport error"@,
                AdminError::Decode => "decode error"@,
                AdminError::Parse => "parse error"@,
                AdminError::Consistency => "consistency violation"@,
            },
    {
        match self {
            AdminError::Transport => "transport error",
            AdminError::Decode => "decode error",
            AdminError::Parse => "parse error",
            AdminError::Consistency => "consistency violation",
        }
    }
}

} // verus!
