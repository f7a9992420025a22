//! Result and budget contract of saved-composite previews; no CSS is produced
//! and no layer is composited again.

use vstd::prelude::*;

use std::sync::Arc;

use crate::psd::Capability;

use super::super::error::DocumentError;
use super::super::model::{DocumentId, RevisionId};

verus! {

/// Rejection of preview quotas that cannot hold one decode and one PNG.
pub const NEED_ROOM_FOR_PREVIEW: &'static str = "预览额度必须容纳一次完整解码和 PNG 输出预留";

/// Rejection of a cache quota above the output quota.
pub const CACHE_WITHIN_OUTPUT: &'static str = "预览缓存上限不得超过输出总上限";

/// Preview admission limits; decoding is measured by the parser budget and
/// excludes allocator and codec scratch memory.
#[derive(Debug, Clone, Copy, PartialEq, Eq, Structural)]
pub struct PreviewConfig {
    /// Service-wide decode reservation; each run first reserves a full file decode.
    pub max_decoded_bytes: u64,
    /// Payload and capacity limit of one PNG; checked while encoding, and an
    /// oversized result is never published.
    pub max_png_bytes: usize,
    /// Shared by the cache, outside references and outputs in flight; one
    /// output is charged once.
    pub max_output_bytes: u64,
    /// The cache is part of the output total; a zero cache limit disables it.
    pub max_cache_bytes: u64,
    pub max_cache_entries: usize,
}

impl PreviewConfig {
    /// The default preview quotas.
    pub open spec fn default_spec() -> PreviewConfig {
        PreviewConfig {
            max_decoded_bytes: 134217728u64,
            max_png_bytes: 67108864usize,
            max_output_bytes: 134217728u64,
            max_cache_bytes: 67108864u64,
            max_cache_entries: 16usize,
        }
    }
}

impl Default for PreviewConfig {
    fn default() -> (c: Self)
        ensures
            c == PreviewConfig::default_spec(),
    {
        PreviewConfig {
            max_decoded_bytes: 128 * 1024 * 1024,
            max_png_bytes: 64 * 1024 * 1024,
            max_output_bytes: 128 * 1024 * 1024,
            max_cache_bytes: 64 * 1024 * 1024,
            max_cache_entries: 16,
        }
    }
}

/// Why preview quotas are refused for a file decode limit of `decode`, if they are.
pub open spec fn preview_config_error(c: PreviewConfig, decode: u64) -> Option<Seq<char>> {
    if c.max_decoded_bytes < decode || c.max_png_bytes == 0 || c.max_output_bytes
        < c.max_png_bytes {
        Some(NEED_ROOM_FOR_PREVIEW@)
    } else if c.max_cache_bytes > c.max_output_bytes {
        Some(CACHE_WITHIN_OUTPUT@)
    } else {
        None
    }
}

impl PreviewConfig {
    /// Checks that the quotas hold one full decode of `decode` bytes and one
    /// PNG, and that the cache fits in the output quota.
    pub fn validate(self, decode: u64) -> (r: Result<(), DocumentError>)
        ensures
            match preview_config_error(self, decode) {
                None => r is Ok,
                Some(m) => r matches Err(DocumentError::InvalidConfiguration(msg)) && msg@ == m,
            },
    {
        if self.max_decoded_bytes < decode || self.max_png_bytes == 0 || self.max_output_bytes
            < self.max_png_bytes as u64 {
            return Err(DocumentError::InvalidConfiguration(NEED_ROOM_FOR_PREVIEW));
        }
        if self.max_cache_bytes > self.max_output_bytes {
            return Err(DocumentError::InvalidConfiguration(CACHE_WITHIN_OUTPUT));
        }
        Ok(())
    }
}

/// Only the full-size saved composite exists; a new render parameter must
/// extend the cache key.
#[derive(Debug, Clone, Copy, PartialEq, Eq, Structural)]
pub enum PreviewKind {
    SavedCompositePng,
}

/// What a cached image answers: one kind of preview of one fixed revision.
#[derive(Debug, Clone, Copy, PartialEq, Eq, Structural)]
pub struct Key {
    pub document: DocumentId,
    pub revision: RevisionId,
    pub kind: PreviewKind,
}

/// An encoded preview and the output capacity charged for it.
#[derive(Debug)]
pub struct Image {
    pub(crate) key: Key,
    pub(crate) width: u32,
    pub(crate) height: u32,
    pub(crate) capability: Capability,
    pub(crate) bytes: Vec<u8>,
    /// Capacity of the PNG buffer, charged to the output quota.
    pub(crate) charge: u64,
}

/// The capacity that the allocator gave `bytes`: never less than its length.
#[verifier::external_body]
fn capacity_of(bytes: &Vec<u8>) -> (n: usize)
    ensures
        n >= bytes@.len(),
{
    bytes.capacity()
}

impl Image {
    /// A charge covers at least the bytes of the PNG.
    #[verifier::type_invariant]
    spec fn charge_covers_png(self) -> bool {
        self.charge >= self.bytes@.len()
    }

    /// The cache key the image answers.
    pub closed spec fn key(self) -> Key {
        self.key
    }

    /// Width in document pixels.
    pub closed spec fn width(self) -> u32 {
        self.width
    }

    /// Height in document pixels.
    pub closed spec fn height(self) -> u32 {
        self.height
    }

    /// How far the saved preview is supported.
    pub closed spec fn capability(self) -> Capability {
        self.capability
    }

    /// The encoded PNG.
    pub closed spec fn png(self) -> Seq<u8> {
        self.bytes@
    }

    /// The amount charged to the output quota.
    pub closed spec fn charge(self) -> u64 {
        self.charge
    }

    /// The image of `key`, charged at the capacity of its PNG buffer.
    pub fn new(key: Key, width: u32, height: u32, capability: Capability, bytes: Vec<u8>) -> (r: Image)
        ensures
            r.key() == key,
            r.width() == width,
            r.height() == height,
            r.capability() == capability,
            r.png() == bytes@,
            r.charge() >= bytes@.len(),
    {
        let charge = capacity_of(&bytes) as u64;
        Image { key, width, height, capability, bytes, charge }
    }
}

/// An immutable PNG reference; it stays valid after close, reload and shutdown.
#[derive(Debug, Clone)]
pub struct PreviewLease(pub Arc<Image>);

impl PreviewLease {
    /// Another reference to the same image.
    pub fn share(&self) -> (r: PreviewLease)
        ensures
            r == *self,
    {
        PreviewLease(self.0.clone())
    }

    /// The cache key of the image.
    pub fn key(&self) -> (k: Key)
        ensures
            k == self.0.key(),
    {
        self.0.key
    }

    /// The document that produced the image, also after it was closed.
    pub fn document_id(&self) -> (d: DocumentId)
        ensures
            d == self.0.key().document,
    {
        self.0.key.document
    }

    /// The fixed revision of the image; a reload does not change it.
    pub fn revision_id(&self) -> (r: RevisionId)
        ensures
            r == self.0.key().revision,
    {
        self.0.key.revision
    }

    /// The kind of preview.
    pub fn kind(&self) -> (k: PreviewKind)
        ensures
            k == self.0.key().kind,
    {
        self.0.key.kind
    }

    /// Image width in document pixels.
    pub fn width(&self) -> (w: u32)
        ensures
            w == self.0.width(),
    {
        self.0.width
    }

    /// Image height in document pixels.
    pub fn height(&self) -> (h: u32)
        ensures
            h == self.0.height(),
    {
        self.0.height
    }

    /// How far the saved preview is supported, and why.
    pub fn capability(&self) -> (c: &Capability)
        ensures
            *c == self.0.capability(),
    {
        &self.0.capability
    }

    /// The complete encoded PNG; holds no source PSD.
    pub fn png(&self) -> (b: &[u8])
        ensures
            b@ == self.0.png(),
    {
        self.0.bytes.as_slice()
    }

    /// The allocated capacity of the PNG, which may exceed its length but is
    /// never below it; it is fixed for the lease's lifetime.
    pub fn charged_bytes(&self) -> (n: u64)
        ensures
            n == self.0.charge(),
            n >= self.0.png().len(),
    {
        proof {
            use_type_invariant(&*self.0);
        }
        self.0.charge
    }
}

/// A published result; holding the success branch keeps its output charged.
#[derive(Debug, Clone)]
pub enum PreviewOutcome {
    Ready(PreviewLease),
    Cancelled,
    Failed(Arc<DocumentError>),
}

/// Service-wide preview resources.
#[derive(Debug, Clone, Copy, PartialEq, Eq, Structural)]
pub struct PreviewAccounting {
    /// Decode quota reserved by running jobs, not live pixel memory.
    pub decoded_bytes: u64,
    /// Live PNG capacity plus the reservations of jobs in flight.
    pub output_bytes: u64,
}

impl Default for PreviewAccounting {
    fn default() -> (a: Self)
        ensures
            a == (PreviewAccounting { decoded_bytes: 0, output_bytes: 0 }),
    {
        PreviewAccounting { decoded_bytes: 0, output_bytes: 0 }
    }
}

/// Cache state and counters of one service instance.
#[derive(Debug, Clone, Copy, PartialEq, Eq, Structural)]
pub struct PreviewSnapshot {
    pub resources: PreviewAccounting,
    pub cache_entries: usize,
    pub cache_bytes: u64,
    pub cache_hits: u64,
    pub coalesced_requests: u64,
    /// Entries evicted for capacity or output admission; closing, reloading and
    /// shutting down are not counted.
    pub evictions: u64,
}

} // verus!
