//! Normalised facts shared by the PSD checks; no decoder types leak here.

use vstd::prelude::*;

use super::capability::Capability;

verus! {

/// A layer reference valid only inside the parse result that produced it;
/// neither the layer name nor the PSD-internal id addresses a layer.
#[derive(Debug, Clone, Copy, PartialEq, Eq, Structural)]
pub struct LayerId(pub u32);

/// Document pixel coordinates with the origin at the top left of the canvas;
/// negative coordinates and zero areas are kept.
#[derive(Debug, Clone, Copy, PartialEq, Eq, Structural)]
pub struct Bounds {
    pub x: i32,
    pub y: i32,
    pub width: u32,
    pub height: u32,
}

/// Source kinds that the reader recognises; recognising a kind does not mean
/// that its rendering or styles are supported.
#[derive(Debug, Clone, Copy, PartialEq, Eq, Structural)]
pub enum LayerKind {
    Group,
    Bitmap,
    Text,
    Shape,
    SmartObject,
    Adjustment,
    Unknown,
}

/// Where a diagnostic belongs; file offsets are relative to the fixed source bytes.
#[derive(Debug, Clone, Copy, PartialEq, Eq, Structural)]
pub enum DiagnosticScope {
    ImageResource,
    Document,
    Layer,
}

/// Unrecognised data, a missing capability, and behaviour still to be checked
/// against independent samples are reported apart.
#[derive(Debug, Clone, Copy, PartialEq, Eq, Structural)]
pub enum DiagnosticKind {
    Unknown,
    Unsupported,
    Unverified,
}

/// A machine-readable local diagnostic; holds no design text, layer name or raw payload.
#[derive(Debug, Clone)]
pub struct Diagnostic {
    pub scope: DiagnosticScope,
    pub kind: DiagnosticKind,
    pub tag: String,
    pub offset: u64,
    pub message: String,
}

/// An embedded ICC profile is recorded by size and fingerprint only; no colour
/// conversion is done.
#[derive(Debug, Clone)]
pub struct ColorProfileInfo {
    pub byte_length: u64,
    pub sha256: String,
    pub conversion: Capability,
}

/// Source and structure measures of the read, apart from the decode budget.
#[derive(Debug, Clone)]
pub struct ResourceUsage {
    pub source_bytes: u64,
    pub canvas_pixels: u64,
    pub total_declared_pixels: u64,
    pub layer_records: u32,
    pub max_decoded_bytes: u64,
    pub global_additional_blocks: Vec<String>,
}

/// Conservative admission limits of one parse; the defaults are protective
/// thresholds, not a performance promise for large files.
#[derive(Debug, Clone, Copy)]
pub struct ParseLimits {
    /// Upper bound of the file size in bytes; 64 MiB by default.
    pub max_file_bytes: u64,
    /// Upper bound of canvas plus all layer areas in pixels; 16 Mi pixels by default.
    pub max_total_pixels: u64,
    /// Upper bound of PSD layer records, group records included; 4096 by default.
    pub max_layers: u32,
    /// Pixel/temporary buffer budget of one decode; 128 MiB by default.
    pub max_decoded_bytes: u64,
}

impl Default for ParseLimits {
    fn default() -> (limits: Self)
        ensures
            limits.max_file_bytes == 64 * 1024 * 1024,
            limits.max_total_pixels == 16 * 1024 * 1024,
            limits.max_layers == 4096,
            limits.max_decoded_bytes == 128 * 1024 * 1024,
    {
        ParseLimits {
            max_file_bytes: 64 * 1024 * 1024,
            max_total_pixels: 16 * 1024 * 1024,
            max_layers: 4096,
            max_decoded_bytes: 128 * 1024 * 1024,
        }
    }
}

} // verus!
