//! Document, revision and job types of the core document service, and the
//! service configuration with its admission checks.

use vstd::prelude::*;

use crate::psd::ParseLimits;

use super::error::DocumentError;
use super::preview::{PreviewConfig, preview_config_error};
use super::selection::{SelectionConfig, selection_config_error};

verus! {

/// Stable identity of a document entry; a reload keeps it.
#[derive(Debug, Clone, Copy, PartialEq, Eq, Structural)]
pub struct DocumentId(pub u64);

/// Identity of one immutable revision produced by a successful parse.
#[derive(Debug, Clone, Copy, PartialEq, Eq, Structural)]
pub struct RevisionId(pub u64);

/// Identity of an open or reload job, apart from design task ids.
#[derive(Debug, Clone, Copy, PartialEq, Eq, Structural)]
pub struct OpenJobId(pub u64);

/// Identity of a saved-composite preview job.
#[derive(Debug, Clone, Copy, PartialEq, Eq, Structural)]
pub struct PreviewJobId(pub u64);

impl DocumentId {
    /// The number, unique within one service instance.
    pub fn get(self) -> (n: u64)
        ensures
            n == self.0,
    {
        self.0
    }
}

impl RevisionId {
    /// The number, unique within one service instance.
    pub fn get(self) -> (n: u64)
        ensures
            n == self.0,
    {
        self.0
    }
}

impl OpenJobId {
    /// The number, unique within one service instance.
    pub fn get(self) -> (n: u64)
        ensures
            n == self.0,
    {
        self.0
    }
}

impl PreviewJobId {
    /// The number, unique within one service instance.
    pub fn get(self) -> (n: u64)
        ensures
            n == self.0,
    {
        self.0
    }
}

/// Rejection of zero job or revision limits.
pub const NEED_JOBS_AND_REVISIONS: &'static str = "作业和修订上限必须大于零";

/// Rejection of a zero single-file limit.
pub const NEED_FILE_LIMITS: &'static str = "单文件限制必须大于零";

/// Rejection of global quotas that cannot hold one full parse reservation.
pub const NEED_ROOM_FOR_PARSE: &'static str = "全局额度必须容纳一次完整解析预留";

/// Admission configuration of the parse and preview work; the counts are no
/// hard limit on process memory.
#[derive(Debug, Clone, Copy)]
pub struct DocumentServiceConfig {
    pub parse_limits: ParseLimits,
    /// Queued, running and cleaning jobs of opens and previews together.
    pub max_pending_jobs: usize,
    /// Published revisions still referenced plus parses in flight.
    pub max_live_revisions: u64,
    /// Quota of charged source bytes; a parse in flight reserves the file limit.
    pub max_source_bytes: u64,
    /// Quota of charged declared pixels; a parse in flight reserves the pixel limit.
    pub max_declared_pixels: u64,
    /// Separate quotas of decoding, PNG output and its cache.
    pub preview: PreviewConfig,
    /// Separate quotas of selections, snapshots and tasks.
    pub selection: SelectionConfig,
}

/// Why a service configuration is refused, if it is: the first failing rule.
pub open spec fn service_config_error(c: DocumentServiceConfig) -> Option<Seq<char>> {
    let limits = c.parse_limits;
    if c.max_pending_jobs == 0 || c.max_live_revisions == 0 {
        Some(NEED_JOBS_AND_REVISIONS@)
    } else if limits.max_file_bytes == 0 || limits.max_total_pixels == 0 || limits.max_layers == 0
        || limits.max_decoded_bytes == 0 {
        Some(NEED_FILE_LIMITS@)
    } else if c.max_source_bytes < limits.max_file_bytes || c.max_declared_pixels
        < limits.max_total_pixels {
        Some(NEED_ROOM_FOR_PARSE@)
    } else if preview_config_error(c.preview, limits.max_decoded_bytes) is Some {
        preview_config_error(c.preview, limits.max_decoded_bytes)
    } else {
        selection_config_error(c.selection)
    }
}

impl Default for DocumentServiceConfig {
    fn default() -> (c: Self)
        ensures
            c.parse_limits.max_file_bytes == 64 * 1024 * 1024,
            c.parse_limits.max_total_pixels == 16 * 1024 * 1024,
            c.parse_limits.max_layers == 4096,
            c.parse_limits.max_decoded_bytes == 128 * 1024 * 1024,
            c.max_pending_jobs == 4,
            c.max_live_revisions == 8,
            c.max_source_bytes == 256 * 1024 * 1024,
            c.max_declared_pixels == 64 * 1024 * 1024,
            c.preview == PreviewConfig::default_spec(),
            c.selection == SelectionConfig::default_spec(),
            service_config_error(c) is None,
    {
        DocumentServiceConfig {
            parse_limits: ParseLimits::default(),
            max_pending_jobs: 4,
            max_live_revisions: 8,
            max_source_bytes: 256 * 1024 * 1024,
            max_declared_pixels: 64 * 1024 * 1024,
            preview: PreviewConfig::default(),
            selection: SelectionConfig::default(),
        }
    }
}

impl DocumentServiceConfig {
    /// Checks the quotas before any worker starts: every limit is positive and
    /// the global quotas hold one full parse, preview and selection reservation.
    pub fn validate(self) -> (r: Result<Self, DocumentError>)
        ensures
            match service_config_error(self) {
                None => r matches Ok(c) && c == self,
                Some(m) => r matches Err(DocumentError::InvalidConfiguration(msg)) && msg@ == m,
            },
    {
        let limits = self.parse_limits;
        if self.max_pending_jobs == 0 || self.max_live_revisions == 0 {
            return Err(DocumentError::InvalidConfiguration(NEED_JOBS_AND_REVISIONS));
        }
        if limits.max_file_bytes == 0 || limits.max_total_pixels == 0 || limits.max_layers == 0
            || limits.max_decoded_bytes == 0 {
            return Err(DocumentError::InvalidConfiguration(NEED_FILE_LIMITS));
        }
        if self.max_source_bytes < limits.max_file_bytes || self.max_declared_pixels
            < limits.max_total_pixels {
            return Err(DocumentError::InvalidConfiguration(NEED_ROOM_FOR_PARSE));
        }
        self.preview.validate(limits.max_decoded_bytes)?;
        self.selection.validate()?;
        Ok(self)
    }
}

/// Quota in use or reserved; closing an entry does not promise an immediate zero.
#[derive(Debug, Clone, Copy, PartialEq, Eq, Structural)]
pub struct ResourceAccounting {
    pub live_revisions: u64,
    pub source_bytes: u64,
    pub declared_pixels: u64,
}

impl Default for ResourceAccounting {
    fn default() -> (a: Self)
        ensures
            a == (ResourceAccounting { live_revisions: 0, source_bytes: 0, declared_pixels: 0 }),
    {
        ResourceAccounting { live_revisions: 0, source_bytes: 0, declared_pixels: 0 }
    }
}

/// An outline without text or pixels, to show the state without copying a document.
#[derive(Debug, Clone)]
pub struct DocumentSummary {
    pub id: DocumentId,
    pub revision: RevisionId,
    pub path: std::path::PathBuf,
    pub width: u32,
    pub height: u32,
}

/// A finished job keeps only a small result, never the parsed document.
#[derive(Debug, Clone)]
pub enum OpenOutcome {
    Opened { document_id: DocumentId, revision_id: RevisionId, reused: bool },
    Cancelled,
    Failed(std::sync::Arc<DocumentError>),
}

/// Queue and execution times measured in the core.
#[derive(Debug, Clone)]
pub struct JobCompletion {
    pub outcome: OpenOutcome,
    pub queued_for: std::time::Duration,
    pub executed_for: std::time::Duration,
}

/// After a cancel is accepted a running computation may still hold its slot
/// and budget.
#[derive(Debug, Clone)]
pub enum JobStatus<C = JobCompletion> {
    Queued,
    Running,
    Cancelling,
    /// The publish decision is committed and dropped data is being released;
    /// no cancel is accepted any more.
    Finishing,
    Finished(std::sync::Arc<C>),
}

} // verus!
