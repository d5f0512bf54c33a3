use vstd::prelude::*;

verus! {

/// Why an array operation was refused.
#[derive(Clone, Copy, Debug, PartialEq, Eq, Structural)]
pub enum LinalgError {
    /// A shape or a length does not fit the array it was given for.
    DimensionMismatch,
    /// The requested number of elements cannot be held.
    AllocationError,
    /// A matrix that was to be factored or inverted has a pivot that is not
    /// greater than zero.
    SingularMatrix,
}

} // verus!
