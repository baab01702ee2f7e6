//! Arithmetic on unsigned 64-bit fixed-point numbers, `Fixed<u64, FRAC>`,
//! with `u128` as the wide type for products and quotients.
use vstd::prelude::*;

verus! {

use vstd::arithmetic::power2::{pow2, lemma_pow2_pos, lemma_pow2_unfold, lemma_pow2_strictly_increases, lemma2_to64, lemma2_to64_rest};
use vstd::arithmetic::div_mod::{lemma_small_mod, lemma_div_is_ordered_by_denominator};
use crate::fixed::Fixed;
use crate::spec::{wrap_u64, wrap_u128, floor_multiple, div_round_half_even};
use crate::bits::{
    lemma_pow2_128,
    lemma_wrap_unique,
    lemma_u64_one_shl,
    lemma_u64_low_mask,
    lemma_u128_shl,
    lemma_u128_shr,
    lemma_u128_one_shl,
    lemma_u128_low_mask,
    lemma_u128_parity,
    lemma_u128_as_u64,
};
use crate::long_div::{div_round_even_u128, lemma_round_by_half};

/// `wrapping_add` on `u64` is addition modulo `2^64`.
proof fn lemma_u64_wrapping_add(a: u64, b: u64)
    ensures
        a.wrapping_add(b) as int == wrap_u64(a + b),
{
    lemma2_to64_rest();
    if a + b > u64::MAX {
        lemma_wrap_unique(a + b, a + b - 0x1_0000_0000_0000_0000, 0x1_0000_0000_0000_0000, 0, 1);
    } else {
        lemma_wrap_unique(a + b, a + b, 0x1_0000_0000_0000_0000, 0, 0);
    }
}

/// `wrapping_sub` on `u64` is subtraction modulo `2^64`.
proof fn lemma_u64_wrapping_sub(a: u64, b: u64)
    ensures
        a.wrapping_sub(b) as int == wrap_u64(a - b),
{
    if a - b < 0 {
        lemma_wrap_unique(a - b, a - b + 0x1_0000_0000_0000_0000, 0x1_0000_0000_0000_0000, 0, -1);
    } else {
        lemma_wrap_unique(a - b, a - b, 0x1_0000_0000_0000_0000, 0, 0);
    }
}

impl<const FRAC: u32> Fixed<u64, FRAC> {
    /// Zero.
    #[inline(always)]
    pub fn zero() -> (r: Self)
        ensures
            r.bits == 0,
    {
        Self::from_bits(0)
    }

    /// The smallest value, zero.
    #[inline(always)]
    pub fn min_value() -> (r: Self)
        ensures
            r.bits == u64::MIN,
    {
        Self::from_bits(u64::MIN)
    }

    /// The largest value, `(2^64 - 1) / 2^FRAC`.
    #[inline(always)]
    pub fn max_value() -> (r: Self)
        ensures
            r.bits == u64::MAX,
    {
        Self::from_bits(u64::MAX)
    }

    /// Whether the number is zero.
    #[inline(always)]
    pub fn is_zero(self) -> (r: bool)
        ensures
            r == (self.bits == 0),
    {
        self.bits == 0
    }

    /// The remainder of the raw representations: `self.bits % rhs.bits`.
    #[inline(always)]
    pub fn rem_blaze(self, rhs: Self) -> (r: Self)
        requires
            rhs.bits != 0,
        ensures
            r.bits == self.bits % rhs.bits,
    {
        Self::from_bits(self.bits % rhs.bits)
    }

    /// Rounds down to a whole number: the fractional bits are cleared.
    #[inline(always)]
    pub fn floor(self) -> (r: Self)
        ensures
            r.bits == floor_multiple(self.bits as int, FRAC as nat),
    {
        proof {
            broadcast use vstd::layout::layout_of_primitives;

            assert(core::mem::size_of::<u64>() == 8);
        }
        if FRAC >= core::mem::size_of::<u64>() as u32 * 8 {
            proof {
                lemma2_to64_rest();
                if FRAC > 64 {
                    lemma_pow2_strictly_increases(64, FRAC as nat);
                }
                lemma_small_mod(self.bits as nat, pow2(FRAC as nat));
            }
            return Self::zero();
        }
        if FRAC == 0 {
            proof {
                lemma2_to64();
            }
            return self;
        }
        proof {
            lemma_u64_one_shl(FRAC);
        }
        let mask = !(((1 as u64) << FRAC) - 1);
        proof {
            lemma_u64_low_mask(self.bits, FRAC, ((1u64 << FRAC) - 1) as u64);
        }
        Self::from_bits(self.bits & mask)
    }

    /// Rounds up to a whole number: an exact whole number is kept, any other
    /// value goes to the next whole number above, wrapping past the largest
    /// value. With `FRAC >= 64` the raw result is 1 for a positive number.
    #[inline(always)]
    pub fn ceil(self) -> (r: Self)
        ensures
            FRAC >= 64 ==> r.bits == (if self.bits > 0 {
                1int
            } else {
                0int
            }),
            FRAC < 64 ==> r.bits == (if (self.bits as int) % (pow2(FRAC as nat) as int) == 0 {
                self.bits as int
            } else {
                wrap_u64(floor_multiple(self.bits as int, FRAC as nat) + pow2(FRAC as nat))
            }),
    {
        proof {
            broadcast use vstd::layout::layout_of_primitives;

            assert(core::mem::size_of::<u64>() == 8);
        }
        if FRAC >= core::mem::size_of::<u64>() as u32 * 8 {
            return if self.bits > 0 {
                Self::from_bits(1)
            } else {
                Self::zero()
            };
        }
        let f = self.floor();
        if f.bits == self.bits {
            f
        } else {
            proof {
                lemma_u64_one_shl(FRAC);
                lemma_u64_wrapping_add(f.bits, (1u64 << FRAC));
            }
            Self::from_bits(f.bits.wrapping_add((1 as u64) << FRAC))
        }
    }

    /// Rounds to the nearest whole number, a half going up: the floor of
    /// `self + 1/2`, where the sum wraps past the largest value.
    #[inline(always)]
    pub fn round(self) -> (r: Self)
        ensures
            FRAC >= 64 ==> r.bits == 0,
            FRAC == 0 ==> r.bits == self.bits,
            0 < FRAC < 64 ==> r.bits == floor_multiple(
                wrap_u64(self.bits + pow2((FRAC - 1) as nat)),
                FRAC as nat,
            ),
    {
        proof {
            broadcast use vstd::layout::layout_of_primitives;

            assert(core::mem::size_of::<u64>() == 8);
        }
        if FRAC >= core::mem::size_of::<u64>() as u32 * 8 {
            return Self::zero();
        }
        if FRAC == 0 {
            return self;
        }
        let half = (1 as u64) << (FRAC - 1);
        proof {
            lemma_u64_one_shl((FRAC - 1) as u32);
            lemma_u64_wrapping_add(self.bits, half);
        }
        Self::from_bits(self.bits.wrapping_add(half)).floor()
    }

    /// Division: `(self.bits << FRAC) / rhs.bits`, the shift taken in 128
    /// bits, rounded to nearest with ties to even, then truncated to 64 bits.
    #[inline(always)]
    pub fn div_blaze(self, rhs: Self) -> (r: Self)
        requires
            rhs.bits != 0,
            FRAC < 128,
        ensures
            r.bits == wrap_u64(
                div_round_half_even(wrap_u128(self.bits * pow2(FRAC as nat)), rhs.bits as int),
            ),
    {
        let num = self.bits as u128;
        let den = rhs.bits as u128;
        let temp_num = num << FRAC;
        proof {
            lemma_u128_shl(num, FRAC);
        }
        let quot = div_round_even_u128(temp_num, den);
        proof {
            lemma_u128_as_u64(quot);
        }
        Self::from_bits(quot as u64)
    }

    /// Multiplication: the exact 128-bit product shifted right by `FRAC`,
    /// rounded to nearest with ties to even, then truncated to 64 bits.
    #[inline(always)]
    pub fn mul_blaze(self, rhs: Self) -> (r: Self)
        requires
            FRAC < 128,
        ensures
            r.bits == wrap_u64(div_round_half_even(self.bits * rhs.bits, pow2(FRAC as nat) as int)),
    {
        if FRAC == 0 {
            proof {
                lemma2_to64();
                lemma2_to64_rest();
                let p = self.bits * rhs.bits;
                assert(p / 1 == p && p % 1 == 0);
            }
            return Self::from_bits(self.bits.wrapping_mul(rhs.bits));
        }
        let a = self.bits as u128;
        let b = rhs.bits as u128;
        proof {
            lemma_pow2_128();
            assert(a * b <= 0xffff_ffff_ffff_ffff * 0xffff_ffff_ffff_ffff) by (nonlinear_arith)
                requires
                    a <= 0xffff_ffff_ffff_ffff,
                    b <= 0xffff_ffff_ffff_ffff,
            ;
        }
        let wide_prod = a * b;

        let safe_frac = if FRAC > 0 {
            FRAC
        } else {
            1
        };
        proof {
            lemma_u128_one_shl((safe_frac - 1) as u32);
            lemma_u128_one_shl(safe_frac);
        }
        let half = (1 as u128) << (safe_frac - 1);
        let frac_mask = ((1 as u128) << safe_frac) - 1;

        let shifted = wide_prod >> safe_frac;
        let fraction = wide_prod & frac_mask;
        proof {
            lemma_u128_low_mask(wide_prod, safe_frac, frac_mask);
            lemma_u128_shr(wide_prod, safe_frac);
            lemma_u128_parity(shifted);
            lemma_pow2_unfold(FRAC as nat);
            lemma_pow2_pos(FRAC as nat);
            lemma_round_by_half(
                wide_prod as int,
                pow2(FRAC as nat) as int,
                half as int,
                shifted as int,
                fraction as int,
                (shifted & 1) != 0,
            );
            lemma2_to64();
            lemma_div_is_ordered_by_denominator(wide_prod as int, 2, pow2(FRAC as nat) as int);
        }

        let rounded = if fraction > half {
            shifted + 1
        } else if fraction < half {
            shifted
        } else {
            if (shifted & 1) != 0 {
                shifted + 1
            } else {
                shifted
            }
        };
        proof {
            lemma_u128_as_u64(rounded);
        }
        Self::from_bits(rounded as u64)
    }

    /// Addition modulo `2^64` of the raw representations.
    #[inline(always)]
    pub fn add_unchecked(self, rhs: Self) -> (r: Self)
        ensures
            r.bits == wrap_u64(self.bits + rhs.bits),
    {
        proof {
            lemma_u64_wrapping_add(self.bits, rhs.bits);
        }
        Self::from_bits(self.bits.wrapping_add(rhs.bits))
    }

    /// Subtraction modulo `2^64` of the raw representations.
    #[inline(always)]
    pub fn sub_unchecked(self, rhs: Self) -> (r: Self)
        ensures
            r.bits == wrap_u64(self.bits - rhs.bits),
    {
        proof {
            lemma_u64_wrapping_sub(self.bits, rhs.bits);
        }
        Self::from_bits(self.bits.wrapping_sub(rhs.bits))
    }

    /// The smaller of the two; `other` where they are equal.
    #[inline(always)]
    pub fn min(self, other: Self) -> (r: Self)
        ensures
            r == (if self.bits < other.bits {
                self
            } else {
                other
            }),
    {
        if self.bits < other.bits {
            self
        } else {
            other
        }
    }

    /// The larger of the two; `other` where they are equal.
    #[inline(always)]
    pub fn max(self, other: Self) -> (r: Self)
        ensures
            r == (if self.bits > other.bits {
                self
            } else {
                other
            }),
    {
        if self.bits > other.bits {
            self
        } else {
            other
        }
    }
}

} // verus!
