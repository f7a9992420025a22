//! Execution phases of queued work; the clock readings are taken by the
//! caller and only carried here.

use vstd::prelude::*;

verus! {

/// A reading of the monotonic clock, carried through unchanged.
#[verifier::external_type_specification]
#[verifier::external_body]
pub struct ExInstant(std::time::Instant);

/// `Duration::clone`: `Duration` is `Copy`, so its clone is the same span.
pub assume_specification[ <std::time::Duration as Clone>::clone ](d: &std::time::Duration) -> (r:
    std::time::Duration)
    ensures
        r == *d,
;

/// Whether a job opens a new entry or reloads an existing one.
#[derive(Debug, Clone, Copy, PartialEq, Eq, Structural)]
pub enum OpenKind {
    Open,
    Reload,
}

/// Where a queued job stands; every phase after the queue keeps its start time.
#[derive(Debug, Clone, Copy)]
pub enum Execution {
    Queued,
    Running(std::time::Instant),
    Cancelling(std::time::Instant),
    Finishing(std::time::Instant),
}

impl Execution {
    /// When the job left the queue, if it has.
    pub fn started_at(self) -> (r: Option<std::time::Instant>)
        ensures
            match self {
                Execution::Queued => r is None,
                Execution::Running(at) => r == Some(at),
                Execution::Cancelling(at) => r == Some(at),
                Execution::Finishing(at) => r == Some(at),
            },
    {
        match self {
            Execution::Queued => None,
            Execution::Running(at) => Some(at),
            Execution::Cancelling(at) => Some(at),
            Execution::Finishing(at) => Some(at),
        }
    }

    /// A cancel is accepted while the job is queued or running, not once it is
    /// cancelling or finishing.
    pub fn accepts_cancel(self) -> (b: bool)
        ensures
            b == (self is Queued || self is Running),
    {
        match self {
            Execution::Queued => true,
            Execution::Running(_) => true,
            _ => false,
        }
    }
}

} // verus!
