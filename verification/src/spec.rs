//! The mathematical model of fixed-point values: raw bits read as integers,
//! the wrapping of the machine integer types, and the rounding rules.
use vstd::prelude::*;

verus! {

use vstd::arithmetic::power2::pow2;

/// `x` brought into the window `[-h, m - h)` modulo `m`: with `h == 0` this
/// is unsigned wrapping, with `2 * h == m` two's-complement wrapping.
pub open spec fn wrap(x: int, m: int, h: int) -> int {
    (x + h) % m - h
}

/// `x` modulo 2^64, as a `u64` holds it.
pub open spec fn wrap_u64(x: int) -> int {
    wrap(x, 0x1_0000_0000_0000_0000, 0)
}

/// `x` modulo 2^128, as a `u128` holds it.
pub open spec fn wrap_u128(x: int) -> int {
    wrap(x, 0x1_0000_0000_0000_0000_0000_0000_0000_0000int, 0)
}

/// `x` in 32-bit two's complement, as an `i32` holds it.
pub open spec fn wrap_i32(x: int) -> int {
    wrap(x, 0x1_0000_0000, 0x8000_0000)
}

/// `x` in 64-bit two's complement, as an `i64` holds it.
pub open spec fn wrap_i64(x: int) -> int {
    wrap(x, 0x1_0000_0000_0000_0000, 0x8000_0000_0000_0000)
}

/// `x` in 128-bit two's complement, as an `i128` holds it.
pub open spec fn wrap_i128(x: int) -> int {
    wrap(
        x,
        0x1_0000_0000_0000_0000_0000_0000_0000_0000int,
        0x8000_0000_0000_0000_0000_0000_0000_0000,
    )
}

/// The largest multiple of `2^frac` that is not above `x`: the raw bits of
/// `x` with the `frac` fractional bits cleared, rounding toward minus infinity.
pub open spec fn floor_multiple(x: int, frac: nat) -> int {
    x - x % (pow2(frac) as int)
}

/// `n / d` rounded to the nearest integer, a tie going to the even
/// neighbour (banker's rounding); meant for `d > 0`.
pub open spec fn div_round_half_even(n: int, d: int) -> int {
    let q = n / d;
    let r = n % d;
    if 2 * r > d || (2 * r == d && q % 2 == 1) {
        q + 1
    } else {
        q
    }
}

/// Absolute value of an integer.
pub open spec fn abs_int(x: int) -> int {
    if x < 0 {
        -x
    } else {
        x
    }
}

/// The remainder of division rounding toward zero (the `%` of Rust on
/// signed integers): it takes the sign of the dividend.
pub open spec fn trunc_rem(a: int, b: int) -> int {
    let r = abs_int(a) % abs_int(b);
    if a < 0 {
        -r
    } else {
        r
    }
}

} // verus!
