use vstd::prelude::*;

verus! {

/// Faults that abort a call into the engine; the pile keeps its last consistent state.
#[derive(Clone, Copy, Debug, PartialEq, Eq, Structural)]
pub enum SandpileError {
    /// A coordinate outside the configured extents.
    OutOfBounds,
    /// An exponent of at most 1, or an extent below 1.
    InvalidParameter,
}

} // verus!
