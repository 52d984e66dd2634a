//! Voxel user interface layout primitives.

use vstd::prelude::*;

verus! {

/// Where to position things, on a given axis, when available space exceeds
/// required space.
#[derive(Clone, Copy, Debug, PartialEq, Eq, Hash, Structural)]
pub enum Align {
    /// All the way in the direction of the lower corner (left, down, back).
    Low,
    /// Centered, or as close as possible.
    Center,
    /// All the way in the direction of the upper corner (right, up, front).
    High,
}

} // verus!
