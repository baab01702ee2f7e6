//! Facts that tie the shift and mask operators of the machine integer types
//! to arithmetic on `int`: shifting left multiplies by a power of two and
//! wraps, shifting right divides and rounds toward minus infinity, and a
//! low-bits mask takes the remainder.
use vstd::prelude::*;

verus! {

use vstd::arithmetic::power2::*;
use vstd::arithmetic::div_mod::*;
use vstd::bits::{lemma_u64_shr_is_div, lemma_u128_shr_is_div};
use crate::spec::{wrap, wrap_u64, wrap_u128, wrap_i32, wrap_i64, wrap_i128};

// ---------------------------------------------------------------------------
// Facts on `int`
// ---------------------------------------------------------------------------

/// Floor division nests: `(x / a) / b == x / (a * b)` for positive `a`, `b`
/// and any sign of `x`.
pub proof fn lemma_div_nested(x: int, a: int, b: int)
    requires
        a > 0,
        b > 0,
    ensures
        (x / a) / b == x / (a * b),
{
    let q1 = x / a;
    let r1 = x % a;
    let q2 = q1 / b;
    let r2 = q1 % b;
    lemma_fundamental_div_mod(x, a);
    lemma_fundamental_div_mod(q1, b);
    lemma_mod_bound(x, a);
    lemma_mod_bound(q1, b);
    assert(x == (a * b) * q2 + (a * r2 + r1)) by (nonlinear_arith)
        requires
            x == a * q1 + r1,
            q1 == b * q2 + r2,
    ;
    assert(0 <= a * r2 + r1 < a * b) by (nonlinear_arith)
        requires
            0 <= r1 < a,
            0 <= r2 < b,
    ;
    lemma_fundamental_div_mod_converse(x, a * b, q2, a * r2 + r1);
}

/// The remainder does not depend on the sign of the divisor.
pub proof fn lemma_mod_neg_divisor(x: int, y: int)
    requires
        y < 0,
    ensures
        x % y == x % (-y),
{
    assert(x % y == x % (-y)) by (nonlinear_arith)
        requires
            y < 0,
    ;
}

/// A value that is already in the window is left alone by `wrap`.
pub proof fn lemma_wrap_small(x: int, m: int, h: int)
    requires
        -h <= x < m - h,
    ensures
        wrap(x, m, h) == x,
{
    lemma_small_mod((x + h) as nat, m as nat);
}

/// `wrap` lands in its window and differs from its argument by a multiple
/// of the modulus.
pub proof fn lemma_wrap_props(x: int, m: int, h: int)
    requires
        0 <= h < m,
    ensures
        -h <= wrap(x, m, h) < m - h,
        x - wrap(x, m, h) == m * ((x + h) / m),
{
    lemma_mod_bound(x + h, m);
    lemma_fundamental_div_mod(x + h, m);
}

/// Two values of one window that differ by a multiple of the modulus are
/// equal; so `wrap` gives the one value of its window congruent to `x`.
pub proof fn lemma_wrap_unique(x: int, y: int, m: int, h: int, k: int)
    requires
        0 <= h < m,
        -h <= y < m - h,
        x - y == m * k,
    ensures
        wrap(x, m, h) == y,
{
    lemma_wrap_props(x, m, h);
    let w = wrap(x, m, h);
    let j = (x + h) / m;
    assert(k == j) by (nonlinear_arith)
        requires
            x - y == m * k,
            x - w == m * j,
            -h <= y < m - h,
            -h <= w < m - h,
            m > 0,
    ;
}

/// Doubling commutes with `wrap`.
pub proof fn lemma_wrap_double(y: int, m: int, h: int)
    requires
        0 <= h < m,
    ensures
        wrap(2 * wrap(y, m, h), m, h) == wrap(2 * y, m, h),
{
    lemma_wrap_props(y, m, h);
    lemma_wrap_props(2 * wrap(y, m, h), m, h);
    let j = (y + h) / m;
    let k = (2 * wrap(y, m, h) + h) / m;
    assert(2 * y - wrap(2 * wrap(y, m, h), m, h) == m * (2 * j + k)) by (nonlinear_arith)
        requires
            y - wrap(y, m, h) == m * j,
            2 * wrap(y, m, h) - wrap(2 * wrap(y, m, h), m, h) == m * k,
    ;
    lemma_wrap_unique(2 * y, wrap(2 * wrap(y, m, h), m, h), m, h, 2 * j + k);
}

/// A sequence that halves (rounding down) at every step has, after `f`
/// steps, the value `s(0) / 2^f`.
pub proof fn lemma_halving_chain(s: spec_fn(nat) -> int, f: nat)
    requires
        forall|k: nat| k < f ==> #[trigger] s(k + 1) == s(k) / 2,
    ensures
        s(f) == s(0) / (pow2(f) as int),
    decreases f,
{
    if f == 0 {
        lemma2_to64();
        assert(s(0) / 1 == s(0));
    } else {
        let g = (f - 1) as nat;
        lemma_halving_chain(s, g);
        assert(g + 1 == f);
        assert(s(g + 1) == s(g) / 2);
        lemma_pow2_pos(g);
        lemma_div_nested(s(0), pow2(g) as int, 2);
        lemma_pow2_unfold(f);
        assert(s(f) == s(0) / (pow2(g) as int * 2));
        assert(pow2(g) as int * 2 == pow2(f) as int);
    }
}

/// A sequence that doubles and wraps at every step has, after `f` steps,
/// the value `wrap(s(0) * 2^f)`.
pub proof fn lemma_doubling_chain(s: spec_fn(nat) -> int, f: nat, m: int, h: int)
    requires
        0 <= h < m,
        -h <= s(0) < m - h,
        forall|k: nat| k < f ==> #[trigger] s(k + 1) == wrap(2 * s(k), m, h),
    ensures
        s(f) == wrap(s(0) * pow2(f), m, h),
    decreases f,
{
    if f == 0 {
        lemma2_to64();
        lemma_wrap_small(s(0), m, h);
    } else {
        let g = (f - 1) as nat;
        lemma_doubling_chain(s, g, m, h);
        assert(g + 1 == f);
        assert(s(g + 1) == wrap(2 * s(g), m, h));
        assert(s(f) == wrap(2 * wrap(s(0) * pow2(g), m, h), m, h));
        lemma_wrap_double(s(0) * pow2(g), m, h);
        lemma_pow2_unfold(f);
        assert(2 * (s(0) * pow2(g)) == s(0) * pow2(f)) by (nonlinear_arith)
            requires
                pow2(f) == 2 * pow2(g),
        ;
    }
}

/// `2^128`, the number of values of a 128-bit integer.
pub proof fn lemma_pow2_128()
    ensures
        pow2(64) == 0x1_0000_0000_0000_0000,
        pow2(128) == 0x1_0000_0000_0000_0000_0000_0000_0000_0000int,
{
    lemma2_to64_rest();
    lemma_pow2_adds(64, 64);
}

/// Powers of two up to `2^126` are below `2^127`, and so on: the bound that
/// says `1 << f` fits in a signed or unsigned integer of the given width.
pub proof fn lemma_pow2_below(f: nat, w: nat)
    requires
        f < w,
    ensures
        0 < pow2(f) < pow2(w),
        2 * pow2(f) <= pow2(w),
{
    lemma_pow2_pos(f);
    lemma_pow2_strictly_increases(f, w);
    lemma_pow2_unfold(f + 1);
    if f + 1 < w {
        lemma_pow2_strictly_increases(f + 1, w);
    }
}

/// The low `f` bits of `x`, read off by a mask, are `x % 2^f`; to be used
/// where it is known that shifting `x` right by `f` and back left gives
/// `x` minus the masked bits.
pub proof fn lemma_mask_from_shifts(x: int, f: nat, masked: int, back: int, m: int, h: int)
    requires
        0 <= h < m,
        pow2(f) <= m,
        back == wrap((x / (pow2(f) as int)) * pow2(f), m, h),
        back == x - masked,
        0 <= masked < pow2(f),
    ensures
        masked == x % (pow2(f) as int),
{
    let p = pow2(f) as int;
    let q = x / p;
    lemma_pow2_pos(f);
    lemma_fundamental_div_mod(x, p);
    lemma_mod_bound(x, p);
    lemma_wrap_props(q * p, m, h);
    let j = (q * p + h) / m;
    assert(masked - x % p == m * j) by (nonlinear_arith)
        requires
            q * p - back == m * j,
            back == x - masked,
            x == p * q + x % p,
    ;
    assert(j == 0) by (nonlinear_arith)
        requires
            masked - x % p == m * j,
            0 <= masked < p,
            0 <= x % p < p,
            p <= m,
    ;
}

// ---------------------------------------------------------------------------
// u64
// ---------------------------------------------------------------------------

proof fn lemma_u64_shl_step(y: u64, k: u32, k1: u32)
    by (bit_vector)
    requires
        k1 == k + 1,
        k1 < 64,
    ensures
        y << k1 == (y << k) << 1u32,
{
}

proof fn lemma_u64_double(y: u64)
    by (bit_vector)
    ensures
        (y << 1u32) as int == (2 * (y as int)) % 0x1_0000_0000_0000_0000,
{
}

/// Shifting a `u64` left by `f` multiplies it by `2^f`, modulo `2^64`.
pub proof fn lemma_u64_shl(x: u64, f: u32)
    requires
        f < 64,
    ensures
        (x << f) as int == wrap_u64(x * pow2(f as nat)),
{
    let s = |k: nat| (x << (k as u32)) as int;
    assert forall|k: nat| k < f implies #[trigger] s(k + 1) == wrap(
        2 * s(k),
        0x1_0000_0000_0000_0000,
        0,
    ) by {
        lemma_u64_shl_step(x, k as u32, (k + 1) as u32);
        lemma_u64_double(x << (k as u32));
    }
    assert(x << 0u32 == x) by (bit_vector);
    lemma_doubling_chain(s, f as nat, 0x1_0000_0000_0000_0000, 0);
}

/// Shifting a `u64` right by `f` divides it by `2^f`, rounding down.
pub proof fn lemma_u64_shr(x: u64, f: u32)
    requires
        f < 64,
    ensures
        (x >> f) as int == (x as int) / (pow2(f as nat) as int),
{
    lemma_u64_shr_is_div(x, f as u64);
    assert(x >> f == x >> (f as u64)) by (bit_vector)
        requires
            f < 64,
    ;
}

/// `1 << f` is `2^f` as a `u64`.
pub proof fn lemma_u64_one_shl(f: u32)
    requires
        f < 64,
    ensures
        (1u64 << f) as int == pow2(f as nat),
        (1u64 << f) >= 1,
{
    lemma_pow2_pos(f as nat);
    lemma_pow2_128();
    lemma_pow2_below(f as nat, 64);
    lemma_u64_shl(1, f);
    lemma_wrap_small(pow2(f as nat) as int, 0x1_0000_0000_0000_0000, 0);
}

/// The lowest bit of a `u64` is its parity.
pub proof fn lemma_u64_parity(y: u64)
    ensures
        (y & 1) as int == (y as int) % 2,
{
    assert(y & 1 == y % 2) by (bit_vector);
}

/// `1 << f` is `2^f`, and masking with `(1 << f) - 1` takes the remainder
/// modulo `2^f`.
pub proof fn lemma_u64_low_mask(x: u64, f: u32, mask: u64)
    requires
        f < 64,
        mask == (1u64 << f) - 1,
    ensures
        (1u64 << f) as int == pow2(f as nat),
        (x & mask) as int == (x as int) % (pow2(f as nat) as int),
        (x & !mask) as int == x - (x & mask),
{
    assert((x & !mask) as int == x - (x & mask)) by (bit_vector);
    lemma_pow2_128();
    lemma_pow2_below(f as nat, 64);
    lemma_u64_shl(1, f);
    lemma_wrap_small(pow2(f as nat) as int, 0x1_0000_0000_0000_0000, 0);
    lemma_u64_shr(x, f);
    lemma_u64_shl(x >> f, f);
    assert(((x >> f) << f) as int == x - (x & mask) && (x & mask) <= mask) by (bit_vector)
        requires
            f < 64,
            mask == (1u64 << f) - 1,
    ;
    lemma_mask_from_shifts(
        x as int,
        f as nat,
        (x & mask) as int,
        ((x >> f) << f) as int,
        0x1_0000_0000_0000_0000,
        0,
    );
}

// ---------------------------------------------------------------------------
// u128
// ---------------------------------------------------------------------------

proof fn lemma_u128_shl_step(y: u128, k: u32, k1: u32)
    by (bit_vector)
    requires
        k1 == k + 1,
        k1 < 128,
    ensures
        y << k1 == (y << k) << 1u32,
{
}

proof fn lemma_u128_double(y: u128)
    by (bit_vector)
    ensures
        (y << 1u32) as int == (2 * (y as int)) % 0x1_0000_0000_0000_0000_0000_0000_0000_0000int,
{
}

/// Shifting a `u128` left by `f` multiplies it by `2^f`, modulo `2^128`.
pub proof fn lemma_u128_shl(x: u128, f: u32)
    requires
        f < 128,
    ensures
        (x << f) as int == wrap_u128(x * pow2(f as nat)),
{
    let s = |k: nat| (x << (k as u32)) as int;
    assert forall|k: nat| k < f implies #[trigger] s(k + 1) == wrap(2 * s(k), 0x1_0000_0000_0000_0000_0000_0000_0000_0000int, 0) by {
        lemma_u128_shl_step(x, k as u32, (k + 1) as u32);
        lemma_u128_double(x << (k as u32));
    }
    assert(x << 0u32 == x) by (bit_vector);
    lemma_doubling_chain(s, f as nat, 0x1_0000_0000_0000_0000_0000_0000_0000_0000int, 0);
}

/// Shifting a `u128` right by `f` divides it by `2^f`, rounding down.
pub proof fn lemma_u128_shr(x: u128, f: u32)
    requires
        f < 128,
    ensures
        (x >> f) as int == (x as int) / (pow2(f as nat) as int),
{
    lemma_u128_shr_is_div(x, f as u128);
    assert(x >> f == x >> (f as u128)) by (bit_vector)
        requires
            f < 128,
    ;
}

/// `1 << f` is `2^f` as a `u128`.
pub proof fn lemma_u128_one_shl(f: u32)
    requires
        f < 128,
    ensures
        (1u128 << f) as int == pow2(f as nat),
        (1u128 << f) >= 1,
{
    lemma_pow2_pos(f as nat);
    lemma_pow2_128();
    lemma_pow2_below(f as nat, 128);
    lemma_u128_shl(1, f);
    lemma_wrap_small(pow2(f as nat) as int, 0x1_0000_0000_0000_0000_0000_0000_0000_0000int, 0);
}

/// The lowest bit of a `u128` is its parity.
pub proof fn lemma_u128_parity(y: u128)
    ensures
        (y & 1) as int == (y as int) % 2,
{
    assert(y & 1 == y % 2) by (bit_vector);
}

/// `1 << f` is `2^f` as a `u128`, and masking with `(1 << f) - 1` takes the
/// remainder modulo `2^f`.
pub proof fn lemma_u128_low_mask(x: u128, f: u32, mask: u128)
    requires
        f < 128,
        mask == (1u128 << f) - 1,
    ensures
        (1u128 << f) as int == pow2(f as nat),
        (x & mask) as int == (x as int) % (pow2(f as nat) as int),
{
    lemma_pow2_128();
    lemma_pow2_below(f as nat, 128);
    lemma_u128_shl(1, f);
    lemma_wrap_small(pow2(f as nat) as int, 0x1_0000_0000_0000_0000_0000_0000_0000_0000int, 0);
    lemma_u128_shr(x, f);
    lemma_u128_shl(x >> f, f);
    assert((x & mask) <= mask) by (bit_vector);
    assert(((x >> f) << f) == x & !mask) by (bit_vector)
        requires
            f < 128,
            mask == (1u128 << f) - 1,
    ;
    assert((x & !mask) as int == x - (x & mask)) by (bit_vector);
    lemma_mask_from_shifts(
        x as int,
        f as nat,
        (x & mask) as int,
        ((x >> f) << f) as int,
        0x1_0000_0000_0000_0000_0000_0000_0000_0000int,
        0,
    );
}

// ---------------------------------------------------------------------------
// i32
// ---------------------------------------------------------------------------

proof fn lemma_i32_shift_step(y: i32, k: u32, k1: u32)
    by (bit_vector)
    requires
        k1 == k + 1,
        k1 < 32,
    ensures
        y << k1 == (y << k) << 1u32,
        y >> k1 == (y >> k) >> 1u32,
{
}

proof fn lemma_i32_double(y: i32)
    by (bit_vector)
    ensures
        (y << 1u32) as int == (2 * (y as int) + 0x8000_0000int) % 0x1_0000_0000int - 0x8000_0000int,
{
}

/// Splitting off the lowest bit of a `i32`: `y == 2 * (y >> 1) + (y & 1)`.
pub proof fn lemma_i32_halve(y: i32)
    ensures
        (y >> 1u32) as int == (y as int) / 2,
        (y & 1) as int == (y as int) % 2,
{
    assert(y == 2 * (y >> 1u32) + (y & 1) && ((y & 1) == 0 || (y & 1) == 1)) by (bit_vector);
    lemma_fundamental_div_mod_converse(y as int, 2, (y >> 1u32) as int, (y & 1) as int);
}

/// Shifting a `i32` left by `f` multiplies it by `2^f`, wrapping in two's
/// complement.
pub proof fn lemma_i32_shl(x: i32, f: u32)
    requires
        f < 32,
    ensures
        (x << f) as int == wrap_i32(x * pow2(f as nat)),
{
    let s = |k: nat| (x << (k as u32)) as int;
    assert forall|k: nat| k < f implies #[trigger] s(k + 1) == wrap(2 * s(k), 0x1_0000_0000int, 0x8000_0000int) by {
        lemma_i32_shift_step(x, k as u32, (k + 1) as u32);
        lemma_i32_double(x << (k as u32));
    }
    assert(x << 0u32 == x) by (bit_vector);
    lemma_doubling_chain(s, f as nat, 0x1_0000_0000int, 0x8000_0000int);
}

/// Shifting a `i32` right by `f` (an arithmetic shift) divides it by `2^f`,
/// rounding toward minus infinity.
pub proof fn lemma_i32_shr(x: i32, f: u32)
    requires
        f < 32,
    ensures
        (x >> f) as int == (x as int) / (pow2(f as nat) as int),
{
    let s = |k: nat| (x >> (k as u32)) as int;
    assert forall|k: nat| k < f implies #[trigger] s(k + 1) == s(k) / 2 by {
        lemma_i32_shift_step(x, k as u32, (k + 1) as u32);
        lemma_i32_halve(x >> (k as u32));
    }
    assert(x >> 0u32 == x) by (bit_vector);
    lemma_halving_chain(s, f as nat);
}

/// `1 << f` is `2^f` as a `i32` while it stays positive.
pub proof fn lemma_i32_one_shl(f: u32)
    requires
        f < 32 - 1,
    ensures
        (1i32 << f) as int == pow2(f as nat),
        (1i32 << f) >= 1,
{
    lemma_pow2_128();
    lemma2_to64();
    lemma2_to64_rest();
    lemma_pow2_below(f as nat, 31);
    lemma_pow2_unfold(32);
    lemma_i32_shl(1, f);
    lemma_wrap_small(pow2(f as nat) as int, 0x1_0000_0000int, 0x8000_0000int);
}

/// `1 << f` is `2^f` as a `i32` while it stays positive, and masking with
/// `(1 << f) - 1` takes the (non-negative) remainder modulo `2^f`.
pub proof fn lemma_i32_low_mask(x: i32, f: u32, mask: i32)
    requires
        f < 32 - 1,
        mask == (1i32 << f) - 1,
    ensures
        (1i32 << f) as int == pow2(f as nat),
        (x & mask) as int == (x as int) % (pow2(f as nat) as int),
        (x & !mask) as int == x - (x & mask),
{
    lemma_pow2_128();
    lemma2_to64();
    lemma2_to64_rest();
    lemma_pow2_below(f as nat, 31);
    lemma_pow2_unfold(32);
    lemma_i32_shl(1, f);
    lemma_wrap_small(pow2(f as nat) as int, 0x1_0000_0000int, 0x8000_0000int);
    lemma_i32_shr(x, f);
    lemma_i32_shl(x >> f, f);
    assert(((x >> f) << f) as int == x - (x & mask) && 0 <= (x & mask) <= mask && (x & !mask) as int
        == x - (x & mask)) by (bit_vector)
        requires
            f < 32 - 1,
            mask == (1i32 << f) - 1,
    ;
    lemma_mask_from_shifts(
        x as int,
        f as nat,
        (x & mask) as int,
        ((x >> f) << f) as int,
        0x1_0000_0000int,
        0x8000_0000int,
    );
}

// ---------------------------------------------------------------------------
// i64
// ---------------------------------------------------------------------------

proof fn lemma_i64_shift_step(y: i64, k: u32, k1: u32)
    by (bit_vector)
    requires
        k1 == k + 1,
        k1 < 64,
    ensures
        y << k1 == (y << k) << 1u32,
        y >> k1 == (y >> k) >> 1u32,
{
}

proof fn lemma_i64_double(y: i64)
    by (bit_vector)
    ensures
        (y << 1u32) as int == (2 * (y as int) + 0x8000_0000_0000_0000int) % 0x1_0000_0000_0000_0000int - 0x8000_0000_0000_0000int,
{
}

/// Splitting off the lowest bit of a `i64`: `y == 2 * (y >> 1) + (y & 1)`.
pub proof fn lemma_i64_halve(y: i64)
    ensures
        (y >> 1u32) as int == (y as int) / 2,
        (y & 1) as int == (y as int) % 2,
{
    assert(y == 2 * (y >> 1u32) + (y & 1) && ((y & 1) == 0 || (y & 1) == 1)) by (bit_vector);
    lemma_fundamental_div_mod_converse(y as int, 2, (y >> 1u32) as int, (y & 1) as int);
}

/// Shifting a `i64` left by `f` multiplies it by `2^f`, wrapping in two's
/// complement.
pub proof fn lemma_i64_shl(x: i64, f: u32)
    requires
        f < 64,
    ensures
        (x << f) as int == wrap_i64(x * pow2(f as nat)),
{
    let s = |k: nat| (x << (k as u32)) as int;
    assert forall|k: nat| k < f implies #[trigger] s(k + 1) == wrap(2 * s(k), 0x1_0000_0000_0000_0000int, 0x8000_0000_0000_0000int) by {
        lemma_i64_shift_step(x, k as u32, (k + 1) as u32);
        lemma_i64_double(x << (k as u32));
    }
    assert(x << 0u32 == x) by (bit_vector);
    lemma_doubling_chain(s, f as nat, 0x1_0000_0000_0000_0000int, 0x8000_0000_0000_0000int);
}

/// Shifting a `i64` right by `f` (an arithmetic shift) divides it by `2^f`,
/// rounding toward minus infinity.
pub proof fn lemma_i64_shr(x: i64, f: u32)
    requires
        f < 64,
    ensures
        (x >> f) as int == (x as int) / (pow2(f as nat) as int),
{
    let s = |k: nat| (x >> (k as u32)) as int;
    assert forall|k: nat| k < f implies #[trigger] s(k + 1) == s(k) / 2 by {
        lemma_i64_shift_step(x, k as u32, (k + 1) as u32);
        lemma_i64_halve(x >> (k as u32));
    }
    assert(x >> 0u32 == x) by (bit_vector);
    lemma_halving_chain(s, f as nat);
}

/// `1 << f` is `2^f` as a `i64` while it stays positive.
pub proof fn lemma_i64_one_shl(f: u32)
    requires
        f < 64 - 1,
    ensures
        (1i64 << f) as int == pow2(f as nat),
        (1i64 << f) >= 1,
{
    lemma_pow2_128();
    lemma2_to64();
    lemma2_to64_rest();
    lemma_pow2_below(f as nat, 63);
    lemma_pow2_unfold(64);
    lemma_i64_shl(1, f);
    lemma_wrap_small(pow2(f as nat) as int, 0x1_0000_0000_0000_0000int, 0x8000_0000_0000_0000int);
}

/// `1 << f` is `2^f` as a `i64` while it stays positive, and masking with
/// `(1 << f) - 1` takes the (non-negative) remainder modulo `2^f`.
pub proof fn lemma_i64_low_mask(x: i64, f: u32, mask: i64)
    requires
        f < 64 - 1,
        mask == (1i64 << f) - 1,
    ensures
        (1i64 << f) as int == pow2(f as nat),
        (x & mask) as int == (x as int) % (pow2(f as nat) as int),
        (x & !mask) as int == x - (x & mask),
{
    lemma_pow2_128();
    lemma2_to64();
    lemma2_to64_rest();
    lemma_pow2_below(f as nat, 63);
    lemma_pow2_unfold(64);
    lemma_i64_shl(1, f);
    lemma_wrap_small(pow2(f as nat) as int, 0x1_0000_0000_0000_0000int, 0x8000_0000_0000_0000int);
    lemma_i64_shr(x, f);
    lemma_i64_shl(x >> f, f);
    assert(((x >> f) << f) as int == x - (x & mask) && 0 <= (x & mask) <= mask && (x & !mask) as int
        == x - (x & mask)) by (bit_vector)
        requires
            f < 64 - 1,
            mask == (1i64 << f) - 1,
    ;
    lemma_mask_from_shifts(
        x as int,
        f as nat,
        (x & mask) as int,
        ((x >> f) << f) as int,
        0x1_0000_0000_0000_0000int,
        0x8000_0000_0000_0000int,
    );
}

// ---------------------------------------------------------------------------
// i128
// ---------------------------------------------------------------------------

proof fn lemma_i128_shift_step(y: i128, k: u32, k1: u32)
    requires
        k1 == k + 1,
        k1 < 128,
    ensures
        y << k1 == (y << k) << 1u32,
        y >> k1 == (y >> k) >> 1u32,
{
    assert(y << k1 == (y << k) << 1u32) by (bit_vector)
        requires
            k1 == k + 1,
            k1 < 128,
    ;
    assert(y >> k1 == (y >> k) >> 1u32) by (bit_vector)
        requires
            k1 == k + 1,
            k1 < 128,
    ;
}

proof fn lemma_i128_double(y: i128)
    by (bit_vector)
    ensures
        (y << 1u32) as int == (2 * (y as int) + 0x8000_0000_0000_0000_0000_0000_0000_0000int) % 0x1_0000_0000_0000_0000_0000_0000_0000_0000int - 0x8000_0000_0000_0000_0000_0000_0000_0000int,
{
}

/// Splitting off the lowest bit of a `i128`: `y == 2 * (y >> 1) + (y & 1)`.
pub proof fn lemma_i128_halve(y: i128)
    ensures
        (y >> 1u32) as int == (y as int) / 2,
        (y & 1) as int == (y as int) % 2,
{
    assert(y == 2 * (y >> 1u32) + (y & 1) && ((y & 1) == 0 || (y & 1) == 1)) by (bit_vector);
    lemma_fundamental_div_mod_converse(y as int, 2, (y >> 1u32) as int, (y & 1) as int);
}

/// Shifting a `i128` left by `f` multiplies it by `2^f`, wrapping in two's
/// complement.
pub proof fn lemma_i128_shl(x: i128, f: u32)
    requires
        f < 128,
    ensures
        (x << f) as int == wrap_i128(x * pow2(f as nat)),
{
    let s = |k: nat| (x << (k as u32)) as int;
    assert forall|k: nat| k < f implies #[trigger] s(k + 1) == wrap(2 * s(k), 0x1_0000_0000_0000_0000_0000_0000_0000_0000int, 0x8000_0000_0000_0000_0000_0000_0000_0000int) by {
        lemma_i128_shift_step(x, k as u32, (k + 1) as u32);
        lemma_i128_double(x << (k as u32));
    }
    assert(x << 0u32 == x) by (bit_vector);
    lemma_doubling_chain(s, f as nat, 0x1_0000_0000_0000_0000_0000_0000_0000_0000int, 0x8000_0000_0000_0000_0000_0000_0000_0000int);
}

/// Shifting a `i128` right by `f` (an arithmetic shift) divides it by `2^f`,
/// rounding toward minus infinity.
pub proof fn lemma_i128_shr(x: i128, f: u32)
    requires
        f < 128,
    ensures
        (x >> f) as int == (x as int) / (pow2(f as nat) as int),
{
    let s = |k: nat| (x >> (k as u32)) as int;
    assert forall|k: nat| k < f implies #[trigger] s(k + 1) == s(k) / 2 by {
        lemma_i128_shift_step(x, k as u32, (k + 1) as u32);
        lemma_i128_halve(x >> (k as u32));
    }
    assert(x >> 0u32 == x) by (bit_vector);
    lemma_halving_chain(s, f as nat);
}

/// `1 << f` is `2^f` as a `i128` while it stays positive.
pub proof fn lemma_i128_one_shl(f: u32)
    requires
        f < 128 - 1,
    ensures
        (1i128 << f) as int == pow2(f as nat),
        (1i128 << f) >= 1,
{
    lemma_pow2_128();
    lemma2_to64();
    lemma2_to64_rest();
    lemma_pow2_below(f as nat, 127);
    lemma_pow2_unfold(128);
    lemma_i128_shl(1, f);
    lemma_wrap_small(pow2(f as nat) as int, 0x1_0000_0000_0000_0000_0000_0000_0000_0000int, 0x8000_0000_0000_0000_0000_0000_0000_0000int);
}

/// `1 << f` is `2^f` as a `i128` while it stays positive, and masking with
/// `(1 << f) - 1` takes the (non-negative) remainder modulo `2^f`.
pub proof fn lemma_i128_low_mask(x: i128, f: u32, mask: i128)
    requires
        f < 128 - 1,
        mask == (1i128 << f) - 1,
    ensures
        (1i128 << f) as int == pow2(f as nat),
        (x & mask) as int == (x as int) % (pow2(f as nat) as int),
        (x & !mask) as int == x - (x & mask),
{
    lemma_pow2_128();
    lemma2_to64();
    lemma2_to64_rest();
    lemma_pow2_below(f as nat, 127);
    lemma_pow2_unfold(128);
    lemma_i128_shl(1, f);
    lemma_wrap_small(pow2(f as nat) as int, 0x1_0000_0000_0000_0000_0000_0000_0000_0000int, 0x8000_0000_0000_0000_0000_0000_0000_0000int);
    lemma_i128_shr(x, f);
    lemma_i128_shl(x >> f, f);
    assert(0 <= (x & mask) <= mask) by (bit_vector)
        requires
            mask >= 0,
    ;
    assert(((x >> f) << f) == x & !mask) by (bit_vector)
        requires
            f < 128 - 1,
            mask == (1i128 << f) - 1,
    ;
    assert((x & !mask) as int == x - (x & mask)) by (bit_vector)
        requires
            mask >= 0,
    ;
    lemma_mask_from_shifts(
        x as int,
        f as nat,
        (x & mask) as int,
        ((x >> f) << f) as int,
        0x1_0000_0000_0000_0000_0000_0000_0000_0000int,
        0x8000_0000_0000_0000_0000_0000_0000_0000int,
    );
}


// ---------------------------------------------------------------------------
// Narrowing casts
// ---------------------------------------------------------------------------

/// `as u64` on a `u128` keeps the value modulo `2^64`.
pub proof fn lemma_u128_as_u64(q: u128)
    ensures
        (q as u64) as int == wrap_u64(q as int),
{
    assert((q as u64) as int == (q as int) % 0x1_0000_0000_0000_0000) by (bit_vector);
}

/// `as i64` on a `u128` keeps the value in 64-bit two's complement.
pub proof fn lemma_u128_as_i64(q: u128)
    ensures
        (q as i64) as int == wrap_i64(q as int),
{
    assert((q as i64) as int == ((q as int) + 0x8000_0000_0000_0000) % 0x1_0000_0000_0000_0000
        - 0x8000_0000_0000_0000) by (bit_vector);
}

/// `as i32` on a `u64` keeps the value in 32-bit two's complement.
pub proof fn lemma_u64_as_i32(q: u64)
    ensures
        (q as i32) as int == wrap_i32(q as int),
{
    assert((q as i32) as int == ((q as int) + 0x8000_0000) % 0x1_0000_0000 - 0x8000_0000)
        by (bit_vector);
}

/// `as i32` on an `i64` keeps the value in 32-bit two's complement.
pub proof fn lemma_i64_as_i32(q: i64)
    ensures
        (q as i32) as int == wrap_i32(q as int),
{
    assert((q as i32) as int == ((q as int) + 0x8000_0000) % 0x1_0000_0000 - 0x8000_0000)
        by (bit_vector);
}

/// `as i64` on an `i128` keeps the value in 64-bit two's complement.
pub proof fn lemma_i128_as_i64(q: i128)
    ensures
        (q as i64) as int == wrap_i64(q as int),
{
    assert((q as i64) as int == ((q as int) + 0x8000_0000_0000_0000) % 0x1_0000_0000_0000_0000
        - 0x8000_0000_0000_0000) by (bit_vector);
}

} // verus!
