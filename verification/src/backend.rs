//! Decoder backend selection.

pub mod rust;

use vstd::prelude::*;

verus! {

/// Decode backend used by the decoder builder.
#[derive(Debug, Clone, Copy, PartialEq, Eq, Hash, Structural)]
pub enum BackendKind {
    /// Reference backend backed by the upstream C decoder; not available in this build.
    Libavm,
    /// The pure-Rust decoder backend.
    Rust,
}

impl Default for BackendKind {
    fn default() -> (b: Self)
        ensures
            b == BackendKind::Libavm,
    {
        BackendKind::Libavm
    }
}

impl BackendKind {
    pub open spec fn spec_name(self) -> Seq<char> {
        match self {
            BackendKind::Libavm => "libavm"@,
            BackendKind::Rust => "rust"@,
        }
    }

    /// Human-readable backend name used in logs and mismatch reports.
    pub fn as_str(self) -> (s: &'static str)
        ensures
            s@ == self.spec_name(),
    {
        match self {
            BackendKind::Libavm => "libavm",
            BackendKind::Rust => "rust",
        }
    }
}

} // verus!
