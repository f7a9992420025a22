//! Document service errors; file and parse failures keep their cause.

use vstd::prelude::*;

use crate::psd::{LayerId, PsdError};

use super::model::{DocumentId, RevisionId};

verus! {

/// A filesystem path, carried through unchanged.
#[verifier::external_type_specification]
#[verifier::external_body]
pub struct ExPathBuf(std::path::PathBuf);

/// `PathBuf::clone`: a copy of the path; nothing is claimed of it here.
pub assume_specification[ <std::path::PathBuf as Clone>::clone ](p: &std::path::PathBuf) -> std::path::PathBuf;

/// An operating-system I/O failure, carried through unchanged.
#[verifier::external_type_specification]
#[verifier::external_body]
pub struct ExIoError(std::io::Error);

/// Admission, lifecycle and background execution errors that callers can match on.
#[derive(Debug)]
pub enum DocumentError {
    InvalidConfiguration(&'static str),
    Path { path: std::path::PathBuf, source: std::io::Error },
    QueueFull { limit: usize },
    ResourceLimit { resource: &'static str, limit: u64 },
    NotFound(DocumentId),
    StaleRevision,
    InvalidQuery(&'static str),
    LayerNotFound(LayerId),
    ShuttingDown,
    IdExhausted,
    WorkerStart(std::io::Error),
    WorkerPanicked,
    Parse { path: std::path::PathBuf, source: PsdError },
    Preview { document: DocumentId, revision: RevisionId, source: PsdError },
}

} // verus!
