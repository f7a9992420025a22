//! Transport contract of the read-only workspace: no UI toolkit types, parsed
//! objects or image bytes. Ids and sequence numbers travel as decimal strings
//! so that JavaScript numbers cannot lose u64 precision.

use vstd::prelude::*;

verus! {

/// A workspace command of the desktop front end.
#[derive(Debug, Clone)]
pub enum WorkspaceAction {
    Snapshot {},
    Open { path: String },
    Activate { document_id: String },
    Close { document_id: String },
    Reload { document_id: String },
    SelectLayer { document_id: String, revision: String, layer_id: Option<u32> },
    RetryPreview {},
    Cancel { job_id: String },
    DismissNotice { notice_id: String },
}

/// A workspace command with the caller's protocol version.
#[derive(Debug, Clone)]
pub struct WorkspaceRequest {
    pub protocol_version: u32,
    pub action: WorkspaceAction,
}

/// A request for the saved preview of one fixed revision.
#[derive(Debug, Clone)]
pub struct PreviewRequest {
    pub protocol_version: u32,
    pub document_id: String,
    pub revision: String,
}

/// A recoverable workspace failure for the front end.
#[derive(Debug, Clone)]
pub struct WorkspaceError {
    pub code: WorkspaceErrorCode,
    pub message: String,
}

/// Error codes that the front end branches on.
#[derive(Debug, Clone, Copy, PartialEq, Eq, Structural)]
pub enum WorkspaceErrorCode {
    ProtocolMismatch,
    InvalidInput,
    NotFound,
    Busy,
    ResourceLimit,
    OpenFailed,
    PreviewFailed,
    StalePreview,
    StaleRevision,
    ForeignSession,
    StaleSelection,
    InactiveDocument,
    SnapshotExpired,
    EmptyTargets,
    TaskReleased,
    TaskInvalidated,
    DocumentInvalidated,
    StaleCleanupPlan,
    RequestConflict,
    ShuttingDown,
    Internal,
}

/// One open document as the front end lists it.
#[derive(Debug, Clone)]
pub struct WorkspaceDocument {
    pub id: String,
    pub revision: String,
    pub name: String,
    pub path: String,
    pub width: u32,
    pub height: u32,
    pub layer_count: u32,
    pub color_mode: String,
    pub bit_depth: u16,
    pub preview_note: String,
    pub selected_layer_id: Option<u32>,
}

/// Phase of background work shown to the user.
#[derive(Debug, Clone, Copy, PartialEq, Eq, Structural)]
pub enum WorkspaceJobPhase {
    Queued,
    Running,
    Cancelling,
    Finishing,
}

/// One background job as the front end lists it.
#[derive(Debug, Clone)]
pub struct WorkspaceJob {
    pub id: String,
    pub label: String,
    pub phase: WorkspaceJobPhase,
}

/// State of the active document's preview.
#[derive(Debug, Clone)]
pub enum WorkspacePreviewState {
    Pending { job_id: Option<String>, status: WorkspaceJobPhase },
    Ready { cache_hit: bool },
    Failed { error: WorkspaceError },
    Cancelled,
}

/// The preview of one fixed revision.
#[derive(Debug, Clone)]
pub struct WorkspacePreview {
    pub document_id: String,
    pub revision: String,
    pub state: WorkspacePreviewState,
}

/// A dismissible notice.
#[derive(Debug, Clone)]
pub struct WorkspaceNotice {
    pub id: String,
    pub message: String,
}

/// Resource figures as decimal strings.
#[derive(Debug, Clone)]
pub struct WorkspaceResources {
    pub source_bytes: String,
    pub decoded_bytes: String,
    pub output_bytes: String,
    pub cache_bytes: String,
}

/// A layer read: one page of the list, or one layer's details.
#[derive(Debug, Clone, Copy, PartialEq, Eq, Structural)]
pub enum LayerQuery {
    List { offset: u32, limit: u32 },
    Details { layer_id: u32, text_start: u32 },
}

/// A layer read against one fixed revision.
#[derive(Debug, Clone)]
pub struct LayerRequest {
    pub protocol_version: u32,
    pub document_id: String,
    pub revision: String,
    pub query: LayerQuery,
}

} // verus!
