use vstd::prelude::*;

verus! {

/// Why a map or an atlas could not be built from its input.
#[derive(Debug, Clone, Copy, PartialEq, Eq, Structural)]
pub enum RenderError {
    /// The sizes do not fit together: a cell count that is not `width * height`,
    /// or an atlas whose width is not a whole multiple of its height.
    InvalidDimensions,
    /// A map cell holds something other than a digit or a blank.
    InvalidTile,
}

} // verus!
