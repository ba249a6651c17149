//! Estimates the dominant right singular vector of an integer matrix by
//! repeated squaring of its Gram matrix, in exact, overflow-checked arithmetic.
use vstd::prelude::*;

pub mod error;
pub mod estimator;
pub mod matrix;
pub mod user;
pub mod vector;

verus! {

} // verus!
