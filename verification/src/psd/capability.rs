//! Support levels shared by documents, layers and text; independent of any
//! data model or decoder.

use vstd::prelude::*;

verus! {

/// Capabilities are reported per object; a limit is never hidden behind an
/// empty value or a default style.
#[derive(Debug, Clone, Copy, PartialEq, Eq, Structural)]
pub enum Support {
    Supported,
    Partial,
    Unsupported,
}

/// How far a parse or an output is supported, with the known reason.
#[derive(Debug, Clone)]
pub struct Capability {
    pub status: Support,
    pub reason: String,
}

impl Capability {
    /// Partly supported, for the given reason.
    pub fn partial(reason: &str) -> (c: Capability)
        ensures
            c.status == Support::Partial,
            c.reason@ == reason@,
    {
        Capability { status: Support::Partial, reason: reason.to_owned() }
    }

    /// Supported, with a note.
    pub fn supported(reason: &str) -> (c: Capability)
        ensures
            c.status == Support::Supported,
            c.reason@ == reason@,
    {
        Capability { status: Support::Supported, reason: reason.to_owned() }
    }

    /// Not supported, for the given reason.
    pub fn unsupported(reason: &str) -> (c: Capability)
        ensures
            c.status == Support::Unsupported,
            c.reason@ == reason@,
    {
        Capability { status: Support::Unsupported, reason: reason.to_owned() }
    }
}

} // verus!
