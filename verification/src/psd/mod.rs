//! Read-only PSD support: the bounded container check that runs before any
//! decoder touches the bytes, together with the shared result model.

pub mod access;
pub mod capability;
pub mod document;
pub mod error;
pub mod model;
pub mod normalization;
pub mod png_output;
pub mod preflight;
pub mod preflight_spec;
pub mod text;
pub mod text_model;

pub use capability::{Capability, Support};
pub use error::{PsdError, PsdErrorCode};
pub use model::{
    Bounds, ColorProfileInfo, Diagnostic, DiagnosticKind, DiagnosticScope, LayerId, LayerKind,
    ParseLimits, ResourceUsage,
};
pub use text_model::{
    ParagraphAlignment, TextDiagnostic, TextDiagnosticCode, TextFont, TextIndexMapping,
    TextProperty, TextUnit,
};
