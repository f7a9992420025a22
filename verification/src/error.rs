//! Serializable domain errors of the command boundary: adapters keep the code
//! and the recovery hint.

use vstd::prelude::*;

verus! {

/// Error codes that callers can branch on.
#[derive(Debug, Clone, Copy, PartialEq, Eq, Structural)]
pub enum CommandErrorCode {
    /// Caller and core speak different IPC contract versions.
    ProtocolMismatch,
}

/// A failed core operation: the code is for branching, the message carries the
/// cause and a recovery hint for the user.
#[derive(Debug, Clone)]
pub struct CommandError {
    pub code: CommandErrorCode,
    pub message: String,
}

impl CommandError {
    /// The user-facing message.
    pub fn message(&self) -> (m: &str)
        ensures
            m@ == self.message@,
    {
        self.message.as_str()
    }
}

} // verus!
