use vstd::prelude::*;

verus! {

/// Why an estimate or a normalization could not be made.
#[derive(Clone, Copy, Debug, PartialEq, Eq, Structural)]
pub enum EstimateError {
    /// The matrix has no rows or no columns, a row of the wrong length, or the
    /// exponent is not positive.
    InvalidShape,
    /// The vector has no nonzero entry, so it has no direction.
    DegenerateVector,
    /// An intermediate value does not fit in an `i64`.
    Overflow,
}

} // verus!
