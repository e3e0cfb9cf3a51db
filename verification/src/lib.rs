//! A verified gradient-descent experiment on fixed-point arithmetic.
//!
//! The library minimises a fixed quadratic objective over a three-component
//! state vector while adapting a weight vector alongside it, optionally
//! smoothing the gradient with a normalised one-dimensional kernel before it
//! is applied.  Every scalar is a fixed-point number: an `i64` counting units
//! of one millionth, so `1.0` is stored as `1_000_000`.  All arithmetic is
//! checked; a value that would leave the representable range surfaces as an
//! error instead of wrapping.

pub mod error;
pub mod fixed;
pub mod objective;
pub mod conv;
pub mod kernel;
pub mod optim;
