//! Read-only text contract: UTF-16 ranges of the source text, explicit
//! property sources and engine values whose units are not verified.

use vstd::prelude::*;

verus! {

/// How style-run indices relate to the UTF-16 source text.
#[derive(Debug, Clone, Copy, PartialEq, Eq, Structural)]
pub enum TextIndexMapping {
    /// Run ranges index the source text exactly.
    Exact,
    /// The engine text has one trailing paragraph terminator more than the source.
    TrailingParagraphTerminator,
}

/// A property value together with the engine path it was read from.
#[derive(Debug, Clone)]
pub struct TextProperty<T> {
    pub value: T,
    pub source: String,
}

/// Units of engine values, which are not CSS units.
#[derive(Debug, Clone, Copy, PartialEq, Eq, Structural)]
pub enum TextUnit {
    UnverifiedEngine,
}

/// A font entry of the engine font set; no weight is inferred.
#[derive(Debug, Clone)]
pub struct TextFont {
    pub index: u32,
    pub name: String,
    pub family: Option<String>,
    pub style: Option<String>,
}

/// Paragraph justification as the engine records it.
#[derive(Debug, Clone, Copy, PartialEq, Eq, Structural)]
pub enum ParagraphAlignment {
    Left,
    Right,
    Center,
    JustifyLeft,
    JustifyRight,
    JustifyCenter,
    JustifyAll,
}

/// Classes of text diagnostics.
#[derive(Debug, Clone, Copy, PartialEq, Eq, Structural)]
pub enum TextDiagnosticCode {
    Missing,
    Invalid,
    Unsupported,
    Unverified,
    TextMismatch,
    InvalidRange,
}

/// A text diagnostic: its class, the engine path and a message.
#[derive(Debug, Clone)]
pub struct TextDiagnostic {
    pub code: TextDiagnosticCode,
    pub path: String,
    pub message: String,
}

} // verus!
