//! Properties of the fixed-point arithmetic as a whole, stated over the model
//! that the contracts of the methods use (`crate::spec`).
use vstd::prelude::*;

verus! {

use vstd::arithmetic::power2::{pow2, lemma_pow2_pos, lemma_pow2_unfold, lemma_pow2_strictly_increases, lemma2_to64, lemma2_to64_rest};
use vstd::arithmetic::div_mod::{
    lemma_fundamental_div_mod,
    lemma_fundamental_div_mod_converse,
    lemma_mod_bound,
    lemma_mod_multiples_basic,
};
use crate::spec::{wrap, wrap_u64, wrap_u128, wrap_i32, wrap_i64, floor_multiple, div_round_half_even, abs_int, trunc_rem};
use crate::bits::{lemma_wrap_unique, lemma_wrap_small, lemma_wrap_props, lemma_pow2_128};

/// Banker's rounding rounds to nearest: the rounded quotient `v` of `n / d`,
/// scaled back by `d`, is within half of `d` from `n`; and where it is
/// exactly half of `d` away (a tie), `v` is even. This is the rounding of
/// `mul_blaze` (with `d == 2^FRAC`) and of `div_blaze`.
pub proof fn law_round_half_even_nearest(n: int, d: int)
    requires
        d > 0,
    ensures
        2 * abs_int(n - div_round_half_even(n, d) * d) <= d,
        2 * abs_int(n - div_round_half_even(n, d) * d) == d ==> div_round_half_even(n, d) % 2
            == 0,
{
    let q = n / d;
    let r = n % d;
    lemma_fundamental_div_mod(n, d);
    lemma_mod_bound(n, d);
    assert(n - q * d == r) by (nonlinear_arith)
        requires
            n == d * q + r,
    ;
    assert(n - (q + 1) * d == r - d) by (nonlinear_arith)
        requires
            n == d * q + r,
    ;
}

/// A quotient that is exact is not rounded.
pub proof fn law_round_half_even_exact(k: int, d: int)
    requires
        d > 0,
    ensures
        div_round_half_even(k * d, d) == k,
{
    lemma_fundamental_div_mod_converse(k * d, d, k, 0);
}

/// Multiplication rounds the same whichever operand comes first.
pub proof fn law_mul_commutes(a: int, b: int, frac: nat)
    ensures
        div_round_half_even(a * b, pow2(frac) as int) == div_round_half_even(b * a, pow2(frac) as int),
{
    assert(a * b == b * a) by (nonlinear_arith);
}

/// 1.0, whose raw bits are `2^frac`, is the identity of multiplication, and
/// 0 its zero: for a raw value `x` of the type whose window `wrap` describes.
pub proof fn law_mul_by_one_and_zero(x: int, frac: nat, m: int, h: int)
    requires
        0 <= h < m,
        -h <= x < m - h,
    ensures
        wrap(div_round_half_even(x * pow2(frac), pow2(frac) as int), m, h) == x,
        wrap(div_round_half_even(x * 0, pow2(frac) as int), m, h) == 0,
{
    lemma_pow2_pos(frac);
    law_round_half_even_exact(x, pow2(frac) as int);
    law_round_half_even_exact(0, pow2(frac) as int);
    lemma_wrap_small(x, m, h);
    lemma_wrap_small(0, m, h);
}

/// Wrapping addition is undone by wrapping subtraction of the same operand
/// (`(x + y) - y == x` for `add_unchecked` and `sub_unchecked`, and for
/// `+` and `-`).
pub proof fn law_add_sub_inverse(a: int, b: int, m: int, h: int)
    requires
        0 <= h < m,
        -h <= a < m - h,
    ensures
        wrap(wrap(a + b, m, h) - b, m, h) == a,
{
    lemma_wrap_props(a + b, m, h);
    let k = (a + b + h) / m;
    assert(wrap(a + b, m, h) - b - a == m * (-k)) by (nonlinear_arith)
        requires
            a + b - wrap(a + b, m, h) == m * k,
    ;
    lemma_wrap_unique(wrap(a + b, m, h) - b, a, m, h, -k);
}

/// Wrapping negation is its own inverse: `-(-x) == x`, the smallest value
/// included.
pub proof fn law_neg_involution(a: int, m: int, h: int)
    requires
        0 <= h < m,
        -h <= a < m - h,
    ensures
        wrap(-wrap(-a, m, h), m, h) == a,
{
    lemma_wrap_props(-a, m, h);
    let k = (-a + h) / m;
    assert(-wrap(-a, m, h) - a == m * k) by (nonlinear_arith)
        requires
            -a - wrap(-a, m, h) == m * k,
    ;
    lemma_wrap_unique(-wrap(-a, m, h), a, m, h, k);
}

/// `floor` gives the largest multiple of `2^frac` not above `x`: it is not
/// above `x`, less than one unit below it, a multiple of `2^frac`, and
/// flooring it again changes nothing.
pub proof fn law_floor_bounds(x: int, frac: nat)
    ensures
        floor_multiple(x, frac) <= x < floor_multiple(x, frac) + pow2(frac),
        floor_multiple(x, frac) % (pow2(frac) as int) == 0,
        floor_multiple(floor_multiple(x, frac), frac) == floor_multiple(x, frac),
{
    let p = pow2(frac) as int;
    lemma_pow2_pos(frac);
    lemma_fundamental_div_mod(x, p);
    lemma_mod_bound(x, p);
    assert(floor_multiple(x, frac) == (x / p) * p) by (nonlinear_arith)
        requires
            x == p * (x / p) + x % p,
            floor_multiple(x, frac) == x - x % p,
    ;
    lemma_mod_multiples_basic(x / p, p);
}

/// Where it does not wrap, `ceil` gives the least multiple of `2^frac` not
/// below `x`: a whole number is kept, anything else goes up to the next
/// whole number, so the result is at most one unit above `x` and at most
/// one unit above `floor`.
pub proof fn law_ceil_bounds(x: int, frac: nat)
    ensures
        ({
            let p = pow2(frac) as int;
            let c = if x % p == 0 {
                x
            } else {
                floor_multiple(x, frac) + p
            };
            &&& x <= c < x + p
            &&& c % p == 0
            &&& c == floor_multiple(x, frac) || c == floor_multiple(x, frac) + p
        }),
{
    let p = pow2(frac) as int;
    law_floor_bounds(x, frac);
    lemma_pow2_pos(frac);
    lemma_mod_bound(x, p);
    let f = floor_multiple(x, frac);
    lemma_fundamental_div_mod(f, p);
    assert((f + p) % p == 0) by {
        assert(f + p == (f / p + 1) * p) by (nonlinear_arith)
            requires
                f == p * (f / p) + f % p,
                f % p == 0,
        ;
        lemma_fundamental_div_mod_converse(f + p, p, f / p + 1, 0);
    }
}

/// Where it does not wrap, `round` gives the multiple of `2^frac` nearest to
/// `x`, a half going up: the result is above `x - 1/2` and at most
/// `x + 1/2`.
pub proof fn law_round_nearest(x: int, frac: nat)
    requires
        frac > 0,
    ensures
        ({
            let p = pow2(frac) as int;
            let half = pow2((frac - 1) as nat) as int;
            let v = floor_multiple(x + half, frac);
            &&& x - half < v <= x + half
            &&& v % p == 0
        }),
{
    lemma_pow2_unfold(frac);
    law_floor_bounds(x + pow2((frac - 1) as nat), frac);
}

/// Rust's remainder on signed values (`rem_blaze` and `%` on the signed
/// types) is smaller in size than the divisor and takes the sign of the
/// dividend.
pub proof fn law_trunc_rem_bounds(a: int, b: int)
    requires
        b != 0,
    ensures
        abs_int(trunc_rem(a, b)) < abs_int(b),
        a >= 0 ==> trunc_rem(a, b) >= 0,
        a < 0 ==> trunc_rem(a, b) <= 0,
{
    lemma_mod_bound(abs_int(a), abs_int(b));
}

/// Dividing an unsigned value by 1.0 (raw bits `2^frac`) gives it back.
pub proof fn law_div_by_one_u64(x: u64, frac: nat)
    requires
        frac < 64,
    ensures
        wrap_u64(div_round_half_even(wrap_u128(x * pow2(frac)), pow2(frac) as int)) == x,
{
    lemma_pow2_128();
    lemma_pow2_pos(frac);
    lemma_pow2_strictly_increases(frac, 64);
    assert(0 <= x * pow2(frac) < 0x1_0000_0000_0000_0000_0000_0000_0000_0000int) by (nonlinear_arith)
        requires
            x < 0x1_0000_0000_0000_0000int,
            0 < pow2(frac) < 0x1_0000_0000_0000_0000int,
    ;
    lemma_wrap_small(x * pow2(frac), 0x1_0000_0000_0000_0000_0000_0000_0000_0000int, 0);
    law_round_half_even_exact(x as int, pow2(frac) as int);
    lemma_wrap_small(x as int, 0x1_0000_0000_0000_0000int, 0);
}

/// Dividing a signed 32-bit value by 1.0 (raw bits `2^frac`, positive for
/// `frac < 31`) gives it back, the smallest value included.
pub proof fn law_div_by_one_i32(x: i32, frac: nat)
    requires
        frac < 31,
    ensures
        ({
            let v = wrap_i32(
                div_round_half_even(wrap_u64(abs_int(x as int) * pow2(frac)), pow2(frac) as int),
            );
            (if x < 0 {
                wrap_i32(-v)
            } else {
                v
            }) == x
        }),
{
    lemma2_to64();
    lemma2_to64_rest();
    lemma_pow2_pos(frac);
    lemma_pow2_strictly_increases(frac, 31);
    lemma_pow2_strictly_increases(31, 64);
    assert(0 <= abs_int(x as int) * pow2(frac) < 0x1_0000_0000_0000_0000int) by (nonlinear_arith)
        requires
            abs_int(x as int) <= 0x8000_0000,
            0 < pow2(frac) < 0x8000_0000,
    ;
    lemma_wrap_small(abs_int(x as int) * pow2(frac), 0x1_0000_0000_0000_0000int, 0);
    law_round_half_even_exact(abs_int(x as int), pow2(frac) as int);
    let m = 0x1_0000_0000int;
    let h = 0x8000_0000int;
    if x == i32::MIN {
        lemma_wrap_unique(0x8000_0000int, x as int, m, h, 1);
        lemma_wrap_unique(-(x as int), x as int, m, h, 1);
    } else {
        lemma_wrap_small(abs_int(x as int), m, h);
        lemma_wrap_small(x as int, m, h);
    }
}

/// Dividing a signed 64-bit value by 1.0 (raw bits `2^frac`, positive for
/// `frac < 63`) gives it back, the smallest value included.
pub proof fn law_div_by_one_i64(x: i64, frac: nat)
    requires
        frac < 63,
    ensures
        ({
            let v = wrap_i64(
                div_round_half_even(wrap_u128(abs_int(x as int) * pow2(frac)), pow2(frac) as int),
            );
            (if x < 0 {
                wrap_i64(-v)
            } else {
                v
            }) == x
        }),
{
    lemma_pow2_128();
    lemma2_to64_rest();
    lemma_pow2_pos(frac);
    lemma_pow2_strictly_increases(frac, 63);
    lemma_pow2_strictly_increases(63, 64);
    assert(0 <= abs_int(x as int) * pow2(frac) < 0x1_0000_0000_0000_0000_0000_0000_0000_0000int)
        by (nonlinear_arith)
        requires
            abs_int(x as int) <= 0x8000_0000_0000_0000,
            0 < pow2(frac) < 0x8000_0000_0000_0000,
    ;
    lemma_wrap_small(
        abs_int(x as int) * pow2(frac),
        0x1_0000_0000_0000_0000_0000_0000_0000_0000int,
        0,
    );
    law_round_half_even_exact(abs_int(x as int), pow2(frac) as int);
    let m = 0x1_0000_0000_0000_0000int;
    let h = 0x8000_0000_0000_0000int;
    if x == i64::MIN {
        lemma_wrap_unique(0x8000_0000_0000_0000int, x as int, m, h, 1);
        lemma_wrap_unique(-(x as int), x as int, m, h, 1);
    } else {
        lemma_wrap_small(abs_int(x as int), m, h);
        lemma_wrap_small(x as int, m, h);
    }
}

} // verus!
