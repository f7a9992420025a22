//! User selections, fixed scopes and design tasks.

pub mod budget;
pub mod content;
pub mod error;
pub mod handle;
pub mod model;
pub mod normalize;

pub use budget::Budget;
pub use error::SelectionError;
pub use handle::SelectionHandle;
pub use model::{
    ContentCursor, DesignTask, DocumentReference, IntersectionKind, LayerReference, LayerRole,
    SelectionAccounting, SelectionConfig, SelectionRevision, SelectionWarning, SessionId,
    SnapshotBrief, SnapshotId, TaskId, TaskPage, TaskStatus, decimal, selection_config_error,
};
