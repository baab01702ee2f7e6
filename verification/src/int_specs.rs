//! Contracts for the few methods of the standard integer types that the
//! arithmetic calls and that vstd leaves without a specification. Each
//! states what the standard library documentation says of the method.
use vstd::prelude::*;

verus! {

use crate::spec::abs_int;

/// `i32::wrapping_neg`: negation that wraps at the boundary of the type, so
/// that the only wrapping case, `i32::MIN`, gives `i32::MIN` back.
pub assume_specification[<i32>::wrapping_neg](x: i32) -> (r: i32)
    ensures
        r == (if x == i32::MIN {
            i32::MIN as int
        } else {
            -x
        }),
;

/// `i64::wrapping_neg`: negation that wraps at the boundary of the type, so
/// that the only wrapping case, `i64::MIN`, gives `i64::MIN` back.
pub assume_specification[<i64>::wrapping_neg](x: i64) -> (r: i64)
    ensures
        r == (if x == i64::MIN {
            i64::MIN as int
        } else {
            -x
        }),
;

/// `i32::unsigned_abs`: the absolute value as a `u32`, which neither wraps
/// nor panics.
pub assume_specification[<i32>::unsigned_abs](x: i32) -> (r: u32)
    ensures
        r == abs_int(x as int),
;

/// `i64::unsigned_abs`: the absolute value as a `u64`, which neither wraps
/// nor panics.
pub assume_specification[<i64>::unsigned_abs](x: i64) -> (r: u64)
    ensures
        r == abs_int(x as int),
;

} // verus!
