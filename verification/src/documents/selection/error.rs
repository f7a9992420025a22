//! Selection, snapshot and task errors; a lifecycle failure never falls back
//! to the current document or the current selection.

use vstd::prelude::*;

use super::super::error::DocumentError;

verus! {

/// Why a selection, snapshot or task request was refused.
#[derive(Debug)]
pub enum SelectionError {
    Document(DocumentError),
    InvalidInput(&'static str),
    ForeignSession,
    StaleSelection,
    InactiveDocument,
    SnapshotExpired,
    EmptyTargets,
    TaskNotFound,
    TaskReleased,
    TaskInvalidated,
    RequestConflict,
}

impl From<DocumentError> for SelectionError {
    fn from(error: DocumentError) -> (r: Self) {
        SelectionError::Document(error)
    }
}

impl vstd::std_specs::convert::FromSpecImpl<DocumentError> for SelectionError {
    open spec fn obeys_from_spec() -> bool {
        true
    }

    open spec fn from_spec(v: DocumentError) -> SelectionError {
        SelectionError::Document(v)
    }
}

} // verus!
