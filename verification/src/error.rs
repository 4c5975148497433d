//! The one way in which a request can be refused.

use vstd::prelude::*;

verus! {

/// Why the library refused to work on what it was given.
#[derive(Debug, Clone, Copy, PartialEq, Eq, Structural)]
pub enum TerrainError {
    /// A grid size outside the supported range, a noise scale that is not
    /// above zero, a height field that does not fit its size or holds a
    /// NaN, or a mesh too long for the container's 32-bit length fields.
    InvalidParameter,
}

} // verus!
