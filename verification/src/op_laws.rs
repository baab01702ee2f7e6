//! What each operator of `core::ops` computes, stated as a relation between
//! its operands and its result (the result being what the operator's
//! specification in `ops.rs` says a call returns): subtraction undoes
//! addition, negation sums to zero, the remainder is the dividend less a
//! multiple of the divisor, products and quotients are the nearest
//! representable values, and shifts multiply or divide by powers of two.
use vstd::prelude::*;

verus! {

use vstd::arithmetic::power2::{pow2, lemma_pow2_pos, lemma_pow2_strictly_increases, lemma2_to64, lemma2_to64_rest};
use vstd::arithmetic::div_mod::{lemma_fundamental_div_mod, lemma_mod_bound, lemma_mod_multiples_basic};
use vstd::std_specs::ops::{AddSpec, SubSpec, MulSpec, DivSpec, RemSpec, ShlSpec, ShrSpec, NegSpec};
use crate::fixed::Fixed;
use crate::spec::{wrap, wrap_u64, wrap_i32, wrap_i64, div_round_half_even, abs_int, trunc_rem};
use crate::bits::{lemma_wrap_props, lemma_wrap_small, lemma_wrap_unique, lemma_pow2_128};
use crate::laws::{law_round_half_even_nearest, law_add_sub_inverse};

// ---------------------------------------------------------------------------
// Facts on `int` behind the operator laws
// ---------------------------------------------------------------------------

/// Wrapping subtraction is undone by wrapping addition of the subtrahend.
pub proof fn lemma_sub_add_inverse(a: int, b: int, m: int, h: int)
    requires
        0 <= h < m,
        -h <= a < m - h,
    ensures
        wrap(wrap(a - b, m, h) + b, m, h) == a,
{
    law_add_sub_inverse(a, -b, m, h);
    assert(a + -b == a - b);
    assert(wrap(a - b, m, h) - -b == wrap(a - b, m, h) + b);
}

/// A value plus its wrapped negation wraps to zero.
pub proof fn lemma_neg_sums_to_zero(a: int, m: int, h: int)
    requires
        0 <= h < m,
    ensures
        wrap(a + wrap(-a, m, h), m, h) == 0,
{
    lemma_wrap_props(-a, m, h);
    let k = (-a + h) / m;
    assert(a + wrap(-a, m, h) - 0 == m * (-k)) by (nonlinear_arith)
        requires
            -a - wrap(-a, m, h) == m * k,
    ;
    lemma_wrap_unique(a + wrap(-a, m, h), 0, m, h, -k);
}

/// The remainder of division rounding toward zero: the dividend less the
/// remainder is a multiple of the divisor, the remainder is smaller in size
/// than the divisor, and it has the sign of the dividend (or is zero).
pub proof fn law_trunc_rem(a: int, b: int)
    requires
        b != 0,
    ensures
        (a - trunc_rem(a, b)) % abs_int(b) == 0,
        abs_int(trunc_rem(a, b)) < abs_int(b),
        a >= 0 ==> trunc_rem(a, b) >= 0,
        a < 0 ==> trunc_rem(a, b) <= 0,
{
    let aa = abs_int(a);
    let bb = abs_int(b);
    lemma_fundamental_div_mod(aa, bb);
    lemma_mod_bound(aa, bb);
    let q = aa / bb;
    if a >= 0 {
        assert(a - trunc_rem(a, b) == q * bb) by (nonlinear_arith)
            requires
                aa == bb * q + aa % bb,
                a == aa,
                trunc_rem(a, b) == aa % bb,
        ;
        lemma_mod_multiples_basic(q, bb);
    } else {
        assert(a - trunc_rem(a, b) == (-q) * bb) by (nonlinear_arith)
            requires
                aa == bb * q + aa % bb,
                a == -aa,
                trunc_rem(a, b) == -(aa % bb),
        ;
        lemma_mod_multiples_basic(-q, bb);
    }
}

/// A rounded quotient of a value that lies between `lo * d` and `hi * d`
/// lies between `lo` and `hi`.
pub proof fn lemma_rounded_in_range(p: int, d: int, lo: int, hi: int)
    requires
        d > 0,
        lo * d <= p <= hi * d,
    ensures
        lo <= div_round_half_even(p, d) <= hi,
{
    law_round_half_even_nearest(p, d);
    let v = div_round_half_even(p, d);
    assert(-d <= 2 * (p - v * d) <= d);
    assert(lo <= v <= hi) by (nonlinear_arith)
        requires
            -d <= 2 * (p - v * d) <= d,
            lo * d <= p <= hi * d,
            d > 0,
    ;
}

/// A wrapped value differs from the original by a multiple of the modulus.
pub proof fn lemma_wrap_congruent(x: int, m: int, h: int)
    requires
        0 <= h < m,
    ensures
        (wrap(x, m, h) - x) % m == 0,
        -h <= wrap(x, m, h) < m - h,
{
    lemma_wrap_props(x, m, h);
    let k = (x + h) / m;
    assert(wrap(x, m, h) - x == (-k) * m) by (nonlinear_arith)
        requires
            x - wrap(x, m, h) == m * k,
    ;
    lemma_mod_multiples_basic(-k, m);
}

/// Flooring division brackets the dividend between consecutive multiples.
pub proof fn lemma_floor_div_brackets(a: int, d: int)
    requires
        d > 0,
    ensures
        (a / d) * d <= a < (a / d + 1) * d,
        a >= 0 ==> 0 <= a / d <= a,
        a < 0 ==> a <= a / d < 0,
{
    lemma_fundamental_div_mod(a, d);
    lemma_mod_bound(a, d);
    let q = a / d;
    assert((a / d) * d <= a < (a / d + 1) * d) by (nonlinear_arith)
        requires
            a == d * q + a % d,
            0 <= a % d < d,
            q == a / d,
    ;
    assert(a >= 0 ==> 0 <= q <= a) by (nonlinear_arith)
        requires
            a == d * q + a % d,
            0 <= a % d < d,
            d > 0,
    ;
    assert(a < 0 ==> a <= q < 0) by (nonlinear_arith)
        requires
            a == d * q + a % d,
            0 <= a % d < d,
            d > 0,
    ;
}

/// The signed quotient rule of `div_blaze`: the magnitudes are divided and
/// rounded, and the sign comes from the operands; the result `r` is then the
/// nearest value to `a * d / b`, ties to even.
pub proof fn lemma_signed_quotient_nearest(a: int, b: int, d: int, v: int, r: int)
    requires
        b != 0,
        d > 0,
        v == div_round_half_even(abs_int(a) * d, abs_int(b)),
        r == (if (a < 0) != (b < 0) {
            -v
        } else {
            v
        }),
    ensures
        2 * abs_int(a * d - r * b) <= abs_int(b),
        2 * abs_int(a * d - r * b) == abs_int(b) ==> r % 2 == 0,
{
    let t = abs_int(a) * d;
    let bb = abs_int(b);
    law_round_half_even_nearest(t, bb);
    assert(abs_int(a * d - r * b) == abs_int(t - v * bb)) by (nonlinear_arith)
        requires
            t == abs_int(a) * d,
            bb == abs_int(b),
            r == (if (a < 0) != (b < 0) {
                -v
            } else {
                v
            }),
    ;
}

// ---------------------------------------------------------------------------
// Fixed<i64, FRAC>
// ---------------------------------------------------------------------------

/// `+` and `-` on `Fixed<i64, _>` undo each other: `(a - b) + b` and
/// `(a + b) - b` both give `a` back, in 64-bit two's complement.
pub proof fn law_i64_add_sub<const FRAC: u32>(a: Fixed<i64, FRAC>, b: Fixed<i64, FRAC>)
    ensures
        wrap_i64(a.sub_spec(b).bits + b.bits) == a.bits,
        wrap_i64(a.add_spec(b).bits - b.bits) == a.bits,
{
    let m = 0x1_0000_0000_0000_0000int;
    let h = 0x8000_0000_0000_0000int;
    lemma_wrap_props(a.bits - b.bits, m, h);
    lemma_wrap_props(a.bits + b.bits, m, h);
    lemma_sub_add_inverse(a.bits as int, b.bits as int, m, h);
    law_add_sub_inverse(a.bits as int, b.bits as int, m, h);
}

/// Unary `-` on `Fixed<i64, _>` gives the additive inverse: `x + (-x)` is
/// zero in 64-bit two's complement.
pub proof fn law_i64_neg<const FRAC: u32>(x: Fixed<i64, FRAC>)
    ensures
        wrap_i64(x.bits + x.neg_spec().bits) == 0,
{
    let m = 0x1_0000_0000_0000_0000int;
    let h = 0x8000_0000_0000_0000int;
    lemma_wrap_props(-x.bits, m, h);
    lemma_neg_sums_to_zero(x.bits as int, m, h);
}

/// `%` on `Fixed<i64, _>` is the remainder of division rounding toward zero:
/// `a - (a % b)` is a multiple of `b`, `a % b` is smaller in size than `b`,
/// and it has the sign of `a`.
pub proof fn law_i64_rem<const FRAC: u32>(a: Fixed<i64, FRAC>, b: Fixed<i64, FRAC>)
    requires
        b.bits != 0,
    ensures
        (a.bits - a.rem_spec(b).bits) % abs_int(b.bits as int) == 0,
        abs_int(a.rem_spec(b).bits as int) < abs_int(b.bits as int),
        a.bits >= 0 ==> a.rem_spec(b).bits >= 0,
        a.bits < 0 ==> a.rem_spec(b).bits <= 0,
{
    law_trunc_rem(a.bits as int, b.bits as int);
}

/// `*` on `Fixed<i64, _>` commutes, and where the exact product
/// `a * b / 2^FRAC` lies in the range of the type, the result is the
/// representable value nearest to it, a tie going to the even raw value.
pub proof fn law_i64_mul<const FRAC: u32>(a: Fixed<i64, FRAC>, b: Fixed<i64, FRAC>)
    ensures
        a.mul_spec(b) == b.mul_spec(a),
        i64::MIN * pow2(FRAC as nat) <= a.bits * b.bits <= i64::MAX * pow2(FRAC as nat) ==> {
            let r = a.mul_spec(b).bits as int;
            let e = a.bits * b.bits - r * pow2(FRAC as nat);
            &&& 2 * abs_int(e) <= pow2(FRAC as nat)
            &&& 2 * abs_int(e) == pow2(FRAC as nat) ==> r % 2 == 0
        },
{
    assert(a.bits * b.bits == b.bits * a.bits) by (nonlinear_arith);
    let p = a.bits * b.bits;
    let d = pow2(FRAC as nat) as int;
    lemma_pow2_pos(FRAC as nat);
    if i64::MIN * d <= p <= i64::MAX * d {
        lemma_rounded_in_range(p, d, i64::MIN as int, i64::MAX as int);
        let v = div_round_half_even(p, d);
        lemma_wrap_small(v, 0x1_0000_0000_0000_0000int, 0x8000_0000_0000_0000int);
        law_round_half_even_nearest(p, d);
    }
}

/// `/` on `Fixed<i64, _>`: where `|a| * 2^FRAC` fits the 128-bit shift
/// (`FRAC < 64`) and the exact quotient `a * 2^FRAC / b` lies in the range
/// of the type, the result `r` is the representable value nearest to it:
/// `|a * 2^FRAC - r * b|` is at most `|b| / 2`, a tie going to an even `r`.
pub proof fn law_i64_div<const FRAC: u32>(a: Fixed<i64, FRAC>, b: Fixed<i64, FRAC>)
    requires
        b.bits != 0,
        FRAC < 64,
        abs_int(a.bits as int) * pow2(FRAC as nat) <= i64::MAX * abs_int(b.bits as int),
    ensures
        ({
            let r = a.div_spec(b).bits as int;
            let e = a.bits * pow2(FRAC as nat) - r * b.bits;
            &&& 2 * abs_int(e) <= abs_int(b.bits as int)
            &&& 2 * abs_int(e) == abs_int(b.bits as int) ==> r % 2 == 0
        }),
{
    let d = pow2(FRAC as nat) as int;
    let aa = abs_int(a.bits as int);
    let bb = abs_int(b.bits as int);
    lemma_pow2_128();
    lemma2_to64_rest();
    lemma_pow2_pos(FRAC as nat);
    lemma_pow2_strictly_increases(FRAC as nat, 64);
    assert(0 <= aa * d < 0x1_0000_0000_0000_0000_0000_0000_0000_0000int) by (nonlinear_arith)
        requires
            0 <= aa <= 0x8000_0000_0000_0000,
            0 < d < 0x1_0000_0000_0000_0000int,
    ;
    lemma_wrap_small(aa * d, 0x1_0000_0000_0000_0000_0000_0000_0000_0000int, 0);
    lemma_rounded_in_range(aa * d, bb, 0, i64::MAX as int);
    let v = div_round_half_even(aa * d, bb);
    let m = 0x1_0000_0000_0000_0000int;
    let h = 0x8000_0000_0000_0000int;
    lemma_wrap_small(v, m, h);
    lemma_wrap_small(-v, m, h);
    lemma_signed_quotient_nearest(a.bits as int, b.bits as int, d, v, a.div_spec(b).bits as int);
}

/// `<<` on `Fixed<i64, _>` multiplies the raw bits by `2^n` modulo `2^64`:
/// the result lies in the range of the type and differs from `a * 2^n` by
/// a multiple of `2^64`.
pub proof fn law_i64_shl<const FRAC: u32>(a: Fixed<i64, FRAC>, n: u32)
    ensures
        (a.shl_spec(n).bits - a.bits * pow2(n as nat)) % 0x1_0000_0000_0000_0000int == 0,
{
    let m = 0x1_0000_0000_0000_0000int;
    let h = 0x8000_0000_0000_0000int;
    lemma_wrap_congruent(a.bits * pow2(n as nat), m, h);
}

/// `>>` on `Fixed<i64, _>` divides the raw bits by `2^n` rounding toward
/// minus infinity: `r * 2^n <= a < (r + 1) * 2^n`.
pub proof fn law_i64_shr<const FRAC: u32>(a: Fixed<i64, FRAC>, n: u32)
    ensures
        a.shr_spec(n).bits * pow2(n as nat) <= a.bits < (a.shr_spec(n).bits + 1) * pow2(
            n as nat,
        ),
{
    lemma_pow2_pos(n as nat);
    lemma_floor_div_brackets(a.bits as int, pow2(n as nat) as int);
}

// ---------------------------------------------------------------------------
// Fixed<i32, FRAC>
// ---------------------------------------------------------------------------

/// `+` and `-` on `Fixed<i32, _>` undo each other: `(a - b) + b` and
/// `(a + b) - b` both give `a` back, in 32-bit two's complement.
pub proof fn law_i32_add_sub<const FRAC: u32>(a: Fixed<i32, FRAC>, b: Fixed<i32, FRAC>)
    ensures
        wrap_i32(a.sub_spec(b).bits + b.bits) == a.bits,
        wrap_i32(a.add_spec(b).bits - b.bits) == a.bits,
{
    let m = 0x1_0000_0000int;
    let h = 0x8000_0000int;
    lemma_wrap_props(a.bits - b.bits, m, h);
    lemma_wrap_props(a.bits + b.bits, m, h);
    lemma_sub_add_inverse(a.bits as int, b.bits as int, m, h);
    law_add_sub_inverse(a.bits as int, b.bits as int, m, h);
}

/// Unary `-` on `Fixed<i32, _>` gives the additive inverse: `x + (-x)` is
/// zero in 32-bit two's complement.
pub proof fn law_i32_neg<const FRAC: u32>(x: Fixed<i32, FRAC>)
    ensures
        wrap_i32(x.bits + x.neg_spec().bits) == 0,
{
    let m = 0x1_0000_0000int;
    let h = 0x8000_0000int;
    lemma_wrap_props(-x.bits, m, h);
    lemma_neg_sums_to_zero(x.bits as int, m, h);
}

/// `%` on `Fixed<i32, _>` is the remainder of division rounding toward zero:
/// `a - (a % b)` is a multiple of `b`, `a % b` is smaller in size than `b`,
/// and it has the sign of `a`.
pub proof fn law_i32_rem<const FRAC: u32>(a: Fixed<i32, FRAC>, b: Fixed<i32, FRAC>)
    requires
        b.bits != 0,
    ensures
        (a.bits - a.rem_spec(b).bits) % abs_int(b.bits as int) == 0,
        abs_int(a.rem_spec(b).bits as int) < abs_int(b.bits as int),
        a.bits >= 0 ==> a.rem_spec(b).bits >= 0,
        a.bits < 0 ==> a.rem_spec(b).bits <= 0,
{
    law_trunc_rem(a.bits as int, b.bits as int);
}

/// `*` on `Fixed<i32, _>` commutes, and where the exact product
/// `a * b / 2^FRAC` lies in the range of the type, the result is the
/// representable value nearest to it, a tie going to the even raw value.
pub proof fn law_i32_mul<const FRAC: u32>(a: Fixed<i32, FRAC>, b: Fixed<i32, FRAC>)
    ensures
        a.mul_spec(b) == b.mul_spec(a),
        i32::MIN * pow2(FRAC as nat) <= a.bits * b.bits <= i32::MAX * pow2(FRAC as nat) ==> {
            let r = a.mul_spec(b).bits as int;
            let e = a.bits * b.bits - r * pow2(FRAC as nat);
            &&& 2 * abs_int(e) <= pow2(FRAC as nat)
            &&& 2 * abs_int(e) == pow2(FRAC as nat) ==> r % 2 == 0
        },
{
    assert(a.bits * b.bits == b.bits * a.bits) by (nonlinear_arith);
    let p = a.bits * b.bits;
    let d = pow2(FRAC as nat) as int;
    lemma_pow2_pos(FRAC as nat);
    if i32::MIN * d <= p <= i32::MAX * d {
        lemma_rounded_in_range(p, d, i32::MIN as int, i32::MAX as int);
        let v = div_round_half_even(p, d);
        lemma_wrap_small(v, 0x1_0000_0000int, 0x8000_0000int);
        law_round_half_even_nearest(p, d);
    }
}

/// `/` on `Fixed<i32, _>`: where `|a| * 2^FRAC` fits the 64-bit shift
/// (`FRAC < 32`) and the exact quotient `a * 2^FRAC / b` lies in the range
/// of the type, the result `r` is the representable value nearest to it:
/// `|a * 2^FRAC - r * b|` is at most `|b| / 2`, a tie going to an even `r`.
pub proof fn law_i32_div<const FRAC: u32>(a: Fixed<i32, FRAC>, b: Fixed<i32, FRAC>)
    requires
        b.bits != 0,
        FRAC < 32,
        abs_int(a.bits as int) * pow2(FRAC as nat) <= i32::MAX * abs_int(b.bits as int),
    ensures
        ({
            let r = a.div_spec(b).bits as int;
            let e = a.bits * pow2(FRAC as nat) - r * b.bits;
            &&& 2 * abs_int(e) <= abs_int(b.bits as int)
            &&& 2 * abs_int(e) == abs_int(b.bits as int) ==> r % 2 == 0
        }),
{
    let d = pow2(FRAC as nat) as int;
    let aa = abs_int(a.bits as int);
    let bb = abs_int(b.bits as int);
    lemma2_to64();
    lemma2_to64_rest();
    lemma_pow2_pos(FRAC as nat);
    lemma_pow2_strictly_increases(FRAC as nat, 32);
    assert(0 <= aa * d < 0x1_0000_0000_0000_0000int) by (nonlinear_arith)
        requires
            0 <= aa <= 0x8000_0000,
            0 < d < 0x1_0000_0000,
    ;
    lemma_wrap_small(aa * d, 0x1_0000_0000_0000_0000int, 0);
    lemma_rounded_in_range(aa * d, bb, 0, i32::MAX as int);
    let v = div_round_half_even(aa * d, bb);
    let m = 0x1_0000_0000int;
    let h = 0x8000_0000int;
    lemma_wrap_small(v, m, h);
    lemma_wrap_small(-v, m, h);
    lemma_signed_quotient_nearest(a.bits as int, b.bits as int, d, v, a.div_spec(b).bits as int);
}

/// `<<` on `Fixed<i32, _>` multiplies the raw bits by `2^n` modulo `2^32`:
/// the result lies in the range of the type and differs from `a * 2^n` by
/// a multiple of `2^32`.
pub proof fn law_i32_shl<const FRAC: u32>(a: Fixed<i32, FRAC>, n: u32)
    ensures
        (a.shl_spec(n).bits - a.bits * pow2(n as nat)) % 0x1_0000_0000int == 0,
{
    let m = 0x1_0000_0000int;
    let h = 0x8000_0000int;
    lemma_wrap_congruent(a.bits * pow2(n as nat), m, h);
}

/// `>>` on `Fixed<i32, _>` divides the raw bits by `2^n` rounding toward
/// minus infinity: `r * 2^n <= a < (r + 1) * 2^n`.
pub proof fn law_i32_shr<const FRAC: u32>(a: Fixed<i32, FRAC>, n: u32)
    ensures
        a.shr_spec(n).bits * pow2(n as nat) <= a.bits < (a.shr_spec(n).bits + 1) * pow2(
            n as nat,
        ),
{
    lemma_pow2_pos(n as nat);
    lemma_floor_div_brackets(a.bits as int, pow2(n as nat) as int);
}

// ---------------------------------------------------------------------------
// Fixed<u64, FRAC>
// ---------------------------------------------------------------------------

/// `+` and `-` on `Fixed<u64, _>` undo each other: `(a - b) + b` and
/// `(a + b) - b` both give `a` back, modulo `2^64`.
pub proof fn law_u64_add_sub<const FRAC: u32>(a: Fixed<u64, FRAC>, b: Fixed<u64, FRAC>)
    ensures
        wrap_u64(a.sub_spec(b).bits + b.bits) == a.bits,
        wrap_u64(a.add_spec(b).bits - b.bits) == a.bits,
{
    let m = 0x1_0000_0000_0000_0000int;
    lemma_wrap_props(a.bits - b.bits, m, 0);
    lemma_wrap_props(a.bits + b.bits, m, 0);
    lemma_sub_add_inverse(a.bits as int, b.bits as int, m, 0);
    law_add_sub_inverse(a.bits as int, b.bits as int, m, 0);
}

/// `%` on `Fixed<u64, _>` is the remainder of division: `a - (a % b)` is a
/// multiple of `b`, and `a % b` is below `b`.
pub proof fn law_u64_rem<const FRAC: u32>(a: Fixed<u64, FRAC>, b: Fixed<u64, FRAC>)
    requires
        b.bits != 0,
    ensures
        (a.bits - a.rem_spec(b).bits) % (b.bits as int) == 0,
        a.rem_spec(b).bits < b.bits,
{
    law_trunc_rem(a.bits as int, b.bits as int);
}

/// `*` on `Fixed<u64, _>` commutes, and where the exact product
/// `a * b / 2^FRAC` lies in the range of the type, the result is the
/// representable value nearest to it, a tie going to the even raw value.
pub proof fn law_u64_mul<const FRAC: u32>(a: Fixed<u64, FRAC>, b: Fixed<u64, FRAC>)
    ensures
        a.mul_spec(b) == b.mul_spec(a),
        a.bits * b.bits <= u64::MAX * pow2(FRAC as nat) ==> {
            let r = a.mul_spec(b).bits as int;
            let e = a.bits * b.bits - r * pow2(FRAC as nat);
            &&& 2 * abs_int(e) <= pow2(FRAC as nat)
            &&& 2 * abs_int(e) == pow2(FRAC as nat) ==> r % 2 == 0
        },
{
    assert(a.bits * b.bits == b.bits * a.bits) by (nonlinear_arith);
    let p = a.bits * b.bits;
    let d = pow2(FRAC as nat) as int;
    lemma_pow2_pos(FRAC as nat);
    if p <= u64::MAX * d {
        assert(0 * d <= p) by (nonlinear_arith)
            requires
                p == a.bits * b.bits,
        ;
        lemma_rounded_in_range(p, d, 0, u64::MAX as int);
        let v = div_round_half_even(p, d);
        lemma_wrap_small(v, 0x1_0000_0000_0000_0000int, 0);
        law_round_half_even_nearest(p, d);
    }
}

/// `/` on `Fixed<u64, _>`: where `a * 2^FRAC` fits the 128-bit shift
/// (`FRAC < 64`) and the exact quotient `a * 2^FRAC / b` lies in the range
/// of the type, the result `r` is the representable value nearest to it:
/// `|a * 2^FRAC - r * b|` is at most `b / 2`, a tie going to an even `r`.
pub proof fn law_u64_div<const FRAC: u32>(a: Fixed<u64, FRAC>, b: Fixed<u64, FRAC>)
    requires
        b.bits != 0,
        FRAC < 64,
        a.bits * pow2(FRAC as nat) <= u64::MAX * b.bits,
    ensures
        ({
            let r = a.div_spec(b).bits as int;
            let e = a.bits * pow2(FRAC as nat) - r * b.bits;
            &&& 2 * abs_int(e) <= b.bits
            &&& 2 * abs_int(e) == b.bits ==> r % 2 == 0
        }),
{
    let d = pow2(FRAC as nat) as int;
    lemma_pow2_128();
    lemma_pow2_pos(FRAC as nat);
    lemma_pow2_strictly_increases(FRAC as nat, 64);
    assert(0 <= a.bits * d < 0x1_0000_0000_0000_0000_0000_0000_0000_0000int) by (nonlinear_arith)
        requires
            0 <= a.bits < 0x1_0000_0000_0000_0000int,
            0 < d < 0x1_0000_0000_0000_0000int,
    ;
    lemma_wrap_small(a.bits * d, 0x1_0000_0000_0000_0000_0000_0000_0000_0000int, 0);
    assert(0 * (b.bits as int) <= a.bits * d);
    lemma_rounded_in_range(a.bits * d, b.bits as int, 0, u64::MAX as int);
    let v = div_round_half_even(a.bits * d, b.bits as int);
    lemma_wrap_small(v, 0x1_0000_0000_0000_0000int, 0);
    law_round_half_even_nearest(a.bits * d, b.bits as int);
}

/// `<<` on `Fixed<u64, _>` multiplies the raw bits by `2^n` modulo `2^64`:
/// the result differs from `a * 2^n` by a multiple of `2^64`.
pub proof fn law_u64_shl<const FRAC: u32>(a: Fixed<u64, FRAC>, n: u32)
    ensures
        (a.shl_spec(n).bits - a.bits * pow2(n as nat)) % 0x1_0000_0000_0000_0000int == 0,
{
    lemma_wrap_congruent(a.bits * pow2(n as nat), 0x1_0000_0000_0000_0000int, 0);
}

/// `>>` on `Fixed<u64, _>` divides the raw bits by `2^n` rounding down:
/// `r * 2^n <= a < (r + 1) * 2^n`.
pub proof fn law_u64_shr<const FRAC: u32>(a: Fixed<u64, FRAC>, n: u32)
    ensures
        a.shr_spec(n).bits * pow2(n as nat) <= a.bits < (a.shr_spec(n).bits + 1) * pow2(
            n as nat,
        ),
{
    lemma_pow2_pos(n as nat);
    lemma_floor_div_brackets(a.bits as int, pow2(n as nat) as int);
}

} // verus!
