//! The error kinds that the library's operations can raise.

use vstd::prelude::*;

verus! {

/// Every failure of the library is one of these kinds.  All of them are
/// fatal to a run: the optimisation loop stops at the first one.
#[derive(Clone, Copy, Debug, PartialEq, Eq, Structural)]
pub enum OptError {
    /// Vectors of unequal or wrong length were handed to an operation that
    /// needs matching dimensions.
    DimensionMismatch,
    /// Kernel generation was asked for a zero size or a non-positive spread.
    InvalidParameter,
    /// A fixed-point value left the representable range: an intermediate
    /// result would not fit in an `i64`, or a kernel's entire mass rounded
    /// down to zero so it could not be normalised.
    OutOfRange,
}

} // verus!
