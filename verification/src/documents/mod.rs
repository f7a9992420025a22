//! The document service: configuration, ledgers, previews, selections and tasks.

pub mod budget;
pub mod error;
pub mod inspection;
pub mod model;
pub mod preview;
pub mod registry;
pub mod selection;
pub mod state;

pub use error::DocumentError;
pub use model::{
    DocumentId, DocumentServiceConfig, DocumentSummary, JobCompletion, JobStatus, OpenJobId,
    OpenOutcome, PreviewJobId, ResourceAccounting, RevisionId,
};
pub use preview::{
    PreviewAccounting, PreviewConfig, PreviewKind, PreviewLease, PreviewOutcome, PreviewSnapshot,
};
