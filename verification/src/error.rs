use vstd::prelude::*;

verus! {

/// Why an operation on a composition was refused.
#[derive(Clone, Copy, Debug, PartialEq, Eq, Structural)]
pub enum CompositionError {
    /// The initial value, folded with the single part, does not give the part back.
    IdentityViolation,
    /// The two compositions differ in their initial value or in their operation.
    AlgebraMismatch,
    /// The part to be replaced is not the net of the composition that replaces it.
    DecompositionMismatch,
    /// A composition that is not commutative cannot be split.
    NonCommutativeSplit,
    /// The initial value, folded with itself, does not give itself back.
    NonIdempotentIdentity,
    /// A composition that is not commutative cannot be sorted.
    NonCommutativeSort,
    /// The position names no part.
    IndexOutOfRange,
}

} // verus!
