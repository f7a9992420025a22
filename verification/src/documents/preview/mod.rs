//! Full-size saved-composite previews: their budget, results and cache.

pub mod budget;
pub mod cache;
pub mod model;

pub use model::{
    PreviewAccounting, PreviewConfig, PreviewKind, PreviewLease, PreviewOutcome, PreviewSnapshot,
    preview_config_error,
};
