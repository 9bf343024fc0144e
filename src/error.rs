use vstd::prelude::*;

verus! {

/// Errors raised by the grid and the occupancy queries.
#[derive(Clone, Copy, Debug, PartialEq, Eq, Structural)]
pub enum LightError {
    /// A coordinate or footprint lies outside a grid's covering rectangle.
    OutOfBoundsError,
}

} // verus!
