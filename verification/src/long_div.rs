//! Restoring binary long division with round-half-to-even, the fixed-iteration
//! loop behind `div_blaze`: one bit of the dividend per step, from the top.
use vstd::prelude::*;

verus! {

use vstd::arithmetic::power2::{pow2, lemma_pow2_pos, lemma_pow2_unfold, lemma2_to64};
use vstd::arithmetic::div_mod::{
    lemma_fundamental_div_mod,
    lemma_fundamental_div_mod_converse,
    lemma_mod_bound,
    lemma_div_multiples_vanish,
    lemma_div_is_ordered_by_denominator,
    lemma_div_denominator,
};
use crate::spec::div_round_half_even;
use crate::bits::{lemma_pow2_128, lemma_u128_shr, lemma_u128_one_shl, lemma_u128_parity, lemma_u64_shr, lemma_u64_one_shl, lemma_u64_parity};

/// One step of the restoring division on integers: with the running prefix
/// `p` of the dividend extended by the bit `b`, the new remainder is
/// `2 * (p % d) + b`, less `d` where it reaches `d`, and the quotient gains
/// the corresponding bit.
proof fn lemma_division_step(p: int, b: int, d: int, raw: int)
    requires
        d > 0,
        p >= 0,
        0 <= b <= 1,
        raw == 2 * (p % d) + b,
    ensures
        raw >= d ==> (2 * p + b) % d == raw - d && (2 * p + b) / d == 2 * (p / d) + 1,
        raw < d ==> (2 * p + b) % d == raw && (2 * p + b) / d == 2 * (p / d),
{
    lemma_fundamental_div_mod(p, d);
    lemma_mod_bound(p, d);
    let q = p / d;
    assert(2 * p + b == d * (2 * q) + raw) by (nonlinear_arith)
        requires
            p == d * q + p % d,
            raw == 2 * (p % d) + b,
    ;
    if raw >= d {
        assert(2 * p + b == (2 * q + 1) * d + (raw - d)) by (nonlinear_arith)
            requires
                2 * p + b == d * (2 * q) + raw,
        ;
        lemma_fundamental_div_mod_converse(2 * p + b, d, 2 * q + 1, raw - d);
    } else {
        assert(2 * p + b == (2 * q) * d + raw) by (nonlinear_arith)
            requires
                2 * p + b == d * (2 * q) + raw,
        ;
        lemma_fundamental_div_mod_converse(2 * p + b, d, 2 * q, raw);
    }
}

/// The prefix of `t` above bit `i` is twice the prefix above bit `i + 1`,
/// plus bit `i`.
proof fn lemma_prefix_step(t: int, i: nat)
    requires
        t >= 0,
    ensures
        t / (pow2(i) as int) == 2 * (t / (pow2(i + 1) as int)) + (t / (pow2(i) as int)) % 2,
{
    lemma_pow2_pos(i);
    lemma_pow2_unfold(i + 1);
    lemma_div_denominator(t, pow2(i) as int, 2);
    lemma_fundamental_div_mod(t / (pow2(i) as int), 2);
}

/// `q * 2^(i+1)` is `(2 * q) * 2^i`, and dividing it by `2^i` gives `2 * q`.
proof fn lemma_scaled_quotient(q: int, i: nat)
    ensures
        q * pow2(i + 1) == (2 * q) * pow2(i),
        ((2 * q) * pow2(i)) / (pow2(i) as int) == 2 * q,
{
    lemma_pow2_pos(i);
    lemma_pow2_unfold(i + 1);
    assert(q * pow2(i + 1) == (2 * q) * pow2(i)) by (nonlinear_arith)
        requires
            pow2(i + 1) == 2 * pow2(i),
    ;
    lemma_div_multiples_vanish(2 * q, pow2(i) as int);
    assert((2 * q) * pow2(i) == (pow2(i) as int) * (2 * q)) by (nonlinear_arith);
}

/// The round-to-nearest, ties-to-even rule as `mul_blaze` applies it: with
/// `q` and `r` the quotient and remainder of a division by `2 * half`.
pub(crate) proof fn lemma_round_by_half(n: int, d: int, half: int, q: int, r: int, odd: bool)
    requires
        d > 0,
        d == 2 * half,
        q == n / d,
        r == n % d,
        odd == (q % 2 == 1),
    ensures
        div_round_half_even(n, d) == (if r > half {
            q + 1
        } else if r < half {
            q
        } else if odd {
            q + 1
        } else {
            q
        }),
{
}

/// Divides `t` by `den` with 128-bit restoring long division and rounds the
/// quotient to the nearest integer, ties to even.
pub fn div_round_even_u128(t: u128, den: u128) -> (q: u128)
    requires
        0 < den <= u64::MAX,
    ensures
        q == div_round_half_even(t as int, den as int),
{
    let mut quot: u128 = 0;
    let mut rem: u128 = 0;
    let total_bits = core::mem::size_of::<u128>() * 8;
    proof {
        broadcast use vstd::layout::layout_of_primitives;

        assert(core::mem::size_of::<u64>() == 8);
        lemma_pow2_128();
        assert(t as int / (pow2(128) as int) == 0);
    }
    let mut i = total_bits;
    while i > 0
        invariant
            i <= 128,
            0 < den <= u64::MAX,
            rem == (t as int / (pow2(i as nat) as int)) % (den as int),
            quot == (t as int / (pow2(i as nat) as int)) / (den as int) * pow2(i as nat),
        decreases i,
    {
        i -= 1;
        let ghost old_rem = rem;
        let ghost old_quot = quot;
        let ghost p = t as int / (pow2((i + 1) as nat) as int);
        let ghost q_old = p / (den as int);
        let bit = (t >> i) & 1;
        proof {
            let ii = i as u32;
            assert(t >> i == t >> ii && (1u128 << i) == (1u128 << ii)) by (bit_vector)
                requires
                    i < 128,
                    ii == i,
            ;
            lemma_u128_shr(t, ii);
            lemma_u128_parity(t >> ii);
            lemma2_to64();
            lemma_prefix_step(t as int, i as nat);
            lemma_mod_bound(p, den as int);
            assert(bit <= 1) by (bit_vector)
                requires
                    bit == (t >> i) & 1,
            ;
            assert((old_rem << 1) | bit == 2 * old_rem + bit) by (bit_vector)
                requires
                    old_rem < 0x1_0000_0000_0000_0000,
                    bit <= 1,
            ;
        }
        rem = (rem << 1) | bit;
        proof {
            lemma_division_step(p, bit as int, den as int, rem as int);
        }
        if rem >= den {
            rem -= den;
            proof {
                let ii = i as u32;
                lemma_scaled_quotient(q_old, i as nat);
                lemma_u128_one_shl(ii);
                lemma_pow2_pos(i as nat);
                lemma_u128_shr(old_quot, ii);
                lemma_u128_parity(old_quot >> ii);
                assert(((old_quot >> ii) & 1) == 0);
                assert(old_quot | (1u128 << i) == old_quot + (1u128 << i)) by (bit_vector)
                    requires
                        (old_quot >> ii) & 1 == 0,
                        i < 128,
                        ii == i,
                ;
                assert((2 * q_old + 1) * pow2(i as nat) == (2 * q_old) * pow2(i as nat) + pow2(
                    i as nat,
                )) by (nonlinear_arith);
            }
            quot |= 1 << i;
        } else {
            proof {
                lemma_scaled_quotient(q_old, i as nat);
            }
        }
    }
    proof {
        lemma2_to64();
        assert(t as int / 1 == t);
        assert(rem == t as int % (den as int));
        assert(pow2(i as nat) == 1);
        let qq = t as int / (den as int);
        assert(qq * 1 == qq) by (nonlinear_arith);
        assert(qq * pow2(i as nat) == qq);
        assert(quot == t as int / (den as int));
    }
    let round_up = if rem * 2 > den {
        true
    } else if rem * 2 == den {
        (quot & 1) != 0
    } else {
        false
    };
    proof {
        lemma_u128_parity(quot);
    }
    if round_up {
        proof {
            assert(den >= 2);
            lemma_div_is_ordered_by_denominator(t as int, 2, den as int);
        }
        quot += 1;
    }
    quot
}

/// Divides `t` by `den` with 64-bit restoring long division and rounds the
/// quotient to the nearest integer, ties to even.
pub fn div_round_even_u64(t: u64, den: u64) -> (q: u64)
    requires
        0 < den <= u32::MAX,
    ensures
        q == div_round_half_even(t as int, den as int),
{
    let mut quot: u64 = 0;
    let mut rem: u64 = 0;
    let total_bits = core::mem::size_of::<u64>() * 8;
    proof {
        broadcast use vstd::layout::layout_of_primitives;

        assert(core::mem::size_of::<u64>() == 8);
        lemma_pow2_128();
        assert(t as int / (pow2(64) as int) == 0);
    }
    let mut i = total_bits;
    while i > 0
        invariant
            i <= 64,
            0 < den <= u32::MAX,
            rem == (t as int / (pow2(i as nat) as int)) % (den as int),
            quot == (t as int / (pow2(i as nat) as int)) / (den as int) * pow2(i as nat),
        decreases i,
    {
        i -= 1;
        let ghost old_rem = rem;
        let ghost old_quot = quot;
        let ghost p = t as int / (pow2((i + 1) as nat) as int);
        let ghost q_old = p / (den as int);
        let bit = (t >> i) & 1;
        proof {
            let ii = i as u32;
            assert(t >> i == t >> ii && (1u64 << i) == (1u64 << ii)) by (bit_vector)
                requires
                    i < 64,
                    ii == i,
            ;
            lemma_u64_shr(t, ii);
            lemma_u64_parity(t >> ii);
            lemma2_to64();
            lemma_prefix_step(t as int, i as nat);
            lemma_mod_bound(p, den as int);
            assert(bit <= 1) by (bit_vector)
                requires
                    bit == (t >> i) & 1,
            ;
            assert((old_rem << 1) | bit == 2 * old_rem + bit) by (bit_vector)
                requires
                    old_rem < 0x1_0000_0000,
                    bit <= 1,
            ;
        }
        rem = (rem << 1) | bit;
        proof {
            lemma_division_step(p, bit as int, den as int, rem as int);
        }
        if rem >= den {
            rem -= den;
            proof {
                let ii = i as u32;
                lemma_scaled_quotient(q_old, i as nat);
                lemma_u64_one_shl(ii);
                lemma_pow2_pos(i as nat);
                lemma_u64_shr(old_quot, ii);
                lemma_u64_parity(old_quot >> ii);
                assert(((old_quot >> ii) & 1) == 0);
                assert(old_quot | (1u64 << i) == old_quot + (1u64 << i)) by (bit_vector)
                    requires
                        (old_quot >> ii) & 1 == 0,
                        i < 64,
                        ii == i,
                ;
                assert((2 * q_old + 1) * pow2(i as nat) == (2 * q_old) * pow2(i as nat) + pow2(
                    i as nat,
                )) by (nonlinear_arith);
            }
            quot |= 1 << i;
        } else {
            proof {
                lemma_scaled_quotient(q_old, i as nat);
            }
        }
    }
    proof {
        lemma2_to64();
        assert(t as int / 1 == t);
        assert(rem == t as int % (den as int));
        assert(pow2(i as nat) == 1);
        let qq = t as int / (den as int);
        assert(qq * 1 == qq) by (nonlinear_arith);
        assert(qq * pow2(i as nat) == qq);
        assert(quot == t as int / (den as int));
    }
    let round_up = if rem * 2 > den {
        true
    } else if rem * 2 == den {
        (quot & 1) != 0
    } else {
        false
    };
    proof {
        lemma_u64_parity(quot);
    }
    if round_up {
        proof {
            assert(den >= 2);
            lemma_div_is_ordered_by_denominator(t as int, 2, den as int);
        }
        quot += 1;
    }
    quot
}

} // verus!
