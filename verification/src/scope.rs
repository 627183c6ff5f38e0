use vstd::prelude::*;

verus! {

/// Configuration scope for preset and settings discovery.
#[derive(Debug, Clone, Copy, PartialEq, Eq, Structural)]
pub enum Scope {
    /// Default resolution: project presets shadow user presets.
    Auto,
    /// Only project-local presets.
    Project,
    /// Only user presets.
    User,
}

} // verus!
