//! Domain errors of the PSD checks; the cause of an I/O, decoder or encoder
//! failure is kept as its description.

use vstd::prelude::*;

verus! {

/// Error classes that callers can tell apart: input, capability, budget and output.
#[derive(Debug, Clone, Copy, PartialEq, Eq, Structural)]
pub enum PsdErrorCode {
    Io,
    SourceChanged,
    InvalidInput,
    Unsupported,
    ResourceLimit,
    ParseFailed,
    PreviewUnavailable,
    LayerNotFound,
    ExportUnsupported,
    EncodeFailed,
}

/// A failed PSD operation; the input file is never modified and the message
/// carries the operation context.
#[derive(Debug)]
pub struct PsdError {
    pub code: PsdErrorCode,
    pub message: String,
    pub cause: Option<String>,
}

impl PsdError {
    /// An error of the given class with a human-readable message.
    pub fn new(code: PsdErrorCode, message: &str) -> (e: PsdError)
        ensures
            e.code == code,
            e.message@ == message@,
            e.cause is None,
    {
        PsdError { code, message: message.to_owned(), cause: None }
    }

    /// An error that keeps the description of the underlying failure.
    pub fn with_cause(code: PsdErrorCode, message: &str, cause: &str) -> (e: PsdError)
        ensures
            e.code == code,
            e.message@ == message@,
            e.cause matches Some(c) && c@ == cause@,
    {
        PsdError { code, message: message.to_owned(), cause: Some(cause.to_owned()) }
    }

    /// The message text.
    pub fn message(&self) -> (m: &str)
        ensures
            m@ == self.message@,
    {
        self.message.as_str()
    }

    /// The description of the underlying failure, where there is one.
    pub fn cause(&self) -> (c: Option<&str>)
        ensures
            match self.cause {
                Some(s) => c matches Some(t) && t@ == s@,
                None => c is None,
            },
    {
        match &self.cause {
            Some(s) => Some(s.as_str()),
            None => None,
        }
    }
}

} // verus!
