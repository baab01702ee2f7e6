//! Fixed-point arithmetic on raw integer representations with a const number
//! of fractional bits, with round-half-to-even multiplication and division.
use vstd::prelude::*;

pub mod spec;
pub mod bits;
mod long_div;
pub mod int_specs;
pub mod fixed;
pub mod unsigned64;
pub mod signed32;
pub mod signed64;
pub mod ops;
pub mod laws;
pub mod op_laws;

pub use fixed::Fixed;

verus! {
} // verus!
