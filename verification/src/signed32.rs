//! Arithmetic on signed 32-bit fixed-point numbers, `Fixed<i32, FRAC>`, with
//! `i64` as the wide type for products and `u64` for quotients.
use vstd::prelude::*;

verus! {

use vstd::arithmetic::power2::{pow2, lemma_pow2_pos, lemma_pow2_unfold, lemma2_to64};
use vstd::arithmetic::div_mod::{lemma_fundamental_div_mod, lemma_mod_bound};
use crate::fixed::Fixed;
use crate::spec::{wrap_i32, wrap_u64, floor_multiple, div_round_half_even, abs_int, trunc_rem};
use crate::bits::{
    lemma_wrap_unique,
    lemma_mod_neg_divisor,
    lemma_wrap_small,
    lemma_i32_one_shl,
    lemma_i32_low_mask,
    lemma_i64_one_shl,
    lemma_i64_low_mask,
    lemma_i64_shr,
    lemma_i64_halve,
    lemma_i64_as_i32,
    lemma_u64_shl,
    lemma_u64_as_i32,
};
use crate::long_div::{div_round_even_u64, lemma_round_by_half};

/// `wrapping_add` on `i32` is addition in 32-bit two's complement.
proof fn lemma_i32_wrapping_add(a: i32, b: i32)
    ensures
        a.wrapping_add(b) as int == wrap_i32(a + b),
{
    let m = 0x1_0000_0000int;
    let h = 0x8000_0000int;
    if a + b > i32::MAX {
        lemma_wrap_unique(a + b, a + b - m, m, h, 1);
    } else if a + b < i32::MIN {
        lemma_wrap_unique(a + b, a + b + m, m, h, -1);
    } else {
        lemma_wrap_unique(a + b, a + b, m, h, 0);
    }
}

/// `wrapping_sub` on `i32` is subtraction in 32-bit two's complement.
proof fn lemma_i32_wrapping_sub(a: i32, b: i32)
    ensures
        a.wrapping_sub(b) as int == wrap_i32(a - b),
{
    let m = 0x1_0000_0000int;
    let h = 0x8000_0000int;
    if a - b > i32::MAX {
        lemma_wrap_unique(a - b, a - b - m, m, h, 1);
    } else if a - b < i32::MIN {
        lemma_wrap_unique(a - b, a - b + m, m, h, -1);
    } else {
        lemma_wrap_unique(a - b, a - b, m, h, 0);
    }
}

/// `wrapping_mul` on `i32` is multiplication in 32-bit two's complement.
proof fn lemma_i32_wrapping_mul(a: i32, b: i32)
    ensures
        a.wrapping_mul(b) as int == wrap_i32(a * b),
{
    let m = 0x1_0000_0000int;
    let h = 0x8000_0000int;
    let p = a * b;
    lemma_fundamental_div_mod(p, m);
    lemma_mod_bound(p, m);
    if p % m > i32::MAX {
        lemma_wrap_unique(p, p % m - m, m, h, p / m + 1);
    } else {
        lemma_wrap_unique(p, p % m, m, h, p / m);
    }
}

/// Negation in 32-bit two's complement, which is what `wrapping_neg` does:
/// only `i32::MIN` wraps, to itself.
pub(crate) proof fn lemma_i32_neg_wraps(a: i32)
    ensures
        wrap_i32(-a) == (if a == i32::MIN {
            i32::MIN as int
        } else {
            -a
        }),
{
    let m = 0x1_0000_0000int;
    let h = 0x8000_0000int;
    if a == i32::MIN {
        lemma_wrap_unique(-a, a as int, m, h, 1);
    } else {
        lemma_wrap_small(-a, m, h);
    }
}

impl<const FRAC: u32> Fixed<i32, FRAC> {
    /// Zero.
    #[inline(always)]
    pub fn zero() -> (r: Self)
        ensures
            r.bits == 0,
    {
        Self::from_bits(0)
    }

    /// The smallest value, `-2^31 / 2^FRAC`.
    #[inline(always)]
    pub fn min_value() -> (r: Self)
        ensures
            r.bits == i32::MIN,
    {
        Self::from_bits(i32::MIN)
    }

    /// The largest value, `(2^31 - 1) / 2^FRAC`.
    #[inline(always)]
    pub fn max_value() -> (r: Self)
        ensures
            r.bits == i32::MAX,
    {
        Self::from_bits(i32::MAX)
    }

    /// Whether the number is zero.
    #[inline(always)]
    pub fn is_zero(self) -> (r: bool)
        ensures
            r == (self.bits == 0),
    {
        self.bits == 0
    }

    /// Whether the number is above zero.
    #[inline(always)]
    pub fn is_positive(self) -> (r: bool)
        ensures
            r == (self.bits > 0),
    {
        self.bits > 0
    }

    /// Whether the number is below zero.
    #[inline(always)]
    pub fn is_negative(self) -> (r: bool)
        ensures
            r == (self.bits < 0),
    {
        self.bits < 0
    }

    /// The absolute value; the smallest value, which has no positive
    /// counterpart, is its own absolute value.
    #[inline(always)]
    pub fn abs(self) -> (r: Self)
        ensures
            r.bits == (if self.bits == i32::MIN {
                i32::MIN as int
            } else {
                abs_int(self.bits as int)
            }),
    {
        Self::from_bits(
            if self.bits < 0 {
                self.bits.wrapping_neg()
            } else {
                self.bits
            },
        )
    }

    /// The remainder of the raw representations, with the sign of `self`.
    #[inline(always)]
    pub fn rem_blaze(self, rhs: Self) -> (r: Self)
        requires
            rhs.bits != 0,
            !(self.bits == i32::MIN && rhs.bits == -1),
        ensures
            r.bits == trunc_rem(self.bits as int, rhs.bits as int),
    {
        proof {
            if rhs.bits < 0 {
                lemma_mod_neg_divisor(abs_int(self.bits as int), rhs.bits as int);
            }
        }
        Self::from_bits(self.bits % rhs.bits)
    }
    /// Rounds toward minus infinity to a whole number: the fractional bits
    /// are cleared. With `FRAC >= 32` the raw result is -1 for a negative
    /// number and 0 otherwise.
    #[inline(always)]
    pub fn floor(self) -> (r: Self)
        requires
            FRAC != 31,
        ensures
            FRAC >= 32 ==> r.bits == (if self.bits < 0 {
                -1int
            } else {
                0int
            }),
            FRAC < 32 ==> r.bits == floor_multiple(self.bits as int, FRAC as nat),
    {
        proof {
            broadcast use vstd::layout::layout_of_primitives;

            assert(core::mem::size_of::<i32>() == 4);
        }
        if FRAC >= core::mem::size_of::<i32>() as u32 * 8 {
            return if self.is_negative() {
                Self::from_bits(-1)
            } else {
                Self::zero()
            };
        }
        if FRAC == 0 {
            proof {
                lemma2_to64();
            }
            return self;
        }
        proof {
            lemma_i32_one_shl(FRAC);
        }
        let mask = !(((1 as i32) << FRAC) - 1);
        proof {
            lemma_i32_low_mask(self.bits, FRAC, ((1i32 << FRAC) - 1) as i32);
        }
        Self::from_bits(self.bits & mask)
    }

    /// Rounds toward plus infinity to a whole number: an exact whole number
    /// is kept, any other value goes to the next whole number above, wrapping
    /// past the largest value. With `FRAC >= 32` the raw result is 1 for a
    /// positive number and 0 otherwise.
    #[inline(always)]
    pub fn ceil(self) -> (r: Self)
        requires
            FRAC != 31,
        ensures
            FRAC >= 32 ==> r.bits == (if self.bits > 0 {
                1int
            } else {
                0int
            }),
            FRAC < 32 ==> r.bits == (if (self.bits as int) % (pow2(FRAC as nat) as int) == 0 {
                self.bits as int
            } else {
                wrap_i32(floor_multiple(self.bits as int, FRAC as nat) + pow2(FRAC as nat))
            }),
    {
        proof {
            broadcast use vstd::layout::layout_of_primitives;

            assert(core::mem::size_of::<i32>() == 4);
        }
        if FRAC >= core::mem::size_of::<i32>() as u32 * 8 {
            return if self.is_positive() {
                Self::from_bits(1)
            } else {
                Self::zero()
            };
        }
        let f = self.floor();
        if f.bits == self.bits {
            f
        } else {
            proof {
                lemma_i32_one_shl(FRAC);
                lemma_i32_wrapping_add(f.bits, (1i32 << FRAC));
            }
            Self::from_bits(f.bits.wrapping_add((1 as i32) << FRAC))
        }
    }

    /// Rounds to the nearest whole number, a half going up (toward plus
    /// infinity): the floor of `self + 1/2`, where the sum wraps past the
    /// largest value. With `FRAC >= 32` it is `floor`.
    #[inline(always)]
    pub fn round(self) -> (r: Self)
        requires
            FRAC != 31,
        ensures
            FRAC >= 32 ==> r.bits == (if self.bits < 0 {
                -1int
            } else {
                0int
            }),
            FRAC == 0 ==> r.bits == self.bits,
            0 < FRAC < 32 ==> r.bits == floor_multiple(
                wrap_i32(self.bits + pow2((FRAC - 1) as nat)),
                FRAC as nat,
            ),
    {
        proof {
            broadcast use vstd::layout::layout_of_primitives;

            assert(core::mem::size_of::<i32>() == 4);
        }
        if FRAC >= core::mem::size_of::<i32>() as u32 * 8 {
            return self.floor();
        }
        if FRAC == 0 {
            return self;
        }
        proof {
            lemma_i32_one_shl((FRAC - 1) as u32);
        }
        let half = (1 as i32) << (FRAC - 1);
        proof {
            lemma_i32_wrapping_add(self.bits, half);
        }
        Self::from_bits(self.bits.wrapping_add(half)).floor()
    }

    /// Division: `(|self.bits| << FRAC) / |rhs.bits|` taken in 64 bits,
    /// rounded to nearest with ties to even, truncated to 32 bits, and
    /// negated where exactly one operand is negative.
    #[inline(always)]
    pub fn div_blaze(self, rhs: Self) -> (r: Self)
        requires
            rhs.bits != 0,
            FRAC < 64,
        ensures
            ({
                let v = wrap_i32(
                    div_round_half_even(
                        wrap_u64(abs_int(self.bits as int) * pow2(FRAC as nat)),
                        abs_int(rhs.bits as int),
                    ),
                );
                r.bits == (if (self.bits < 0) != (rhs.bits < 0) {
                    wrap_i32(-v)
                } else {
                    v
                })
            }),
    {
        let neg = (self.bits < 0) ^ (rhs.bits < 0);
        let num = self.bits.unsigned_abs() as u64;
        let den = rhs.bits.unsigned_abs() as u64;
        let temp_num = num << FRAC;
        proof {
            lemma_u64_shl(num, FRAC);
        }
        let quot = div_round_even_u64(temp_num, den);
        let result_bits = quot as i32;
        proof {
            lemma_u64_as_i32(quot);
            lemma_i32_neg_wraps(result_bits);
        }
        Self::from_bits(
            if neg {
                result_bits.wrapping_neg()
            } else {
                result_bits
            },
        )
    }

    /// Multiplication: the exact 64-bit product shifted right by `FRAC`
    /// (toward minus infinity), rounded to nearest with ties to even, then
    /// truncated to 32 bits.
    #[inline(always)]
    pub fn mul_blaze(self, rhs: Self) -> (r: Self)
        requires
            FRAC < 63,
        ensures
            r.bits == wrap_i32(div_round_half_even(self.bits * rhs.bits, pow2(FRAC as nat) as int)),
    {
        if FRAC == 0 {
            proof {
                lemma2_to64();
                let p = self.bits * rhs.bits;
                assert(p / 1 == p && p % 1 == 0);
                lemma_i32_wrapping_mul(self.bits, rhs.bits);
            }
            return Self::from_bits(self.bits.wrapping_mul(rhs.bits));
        }
        let a = self.bits as i64;
        let b = rhs.bits as i64;
        proof {
            assert(-0x4000_0000_0000_0000 <= a * b <= 0x4000_0000_0000_0000) by (nonlinear_arith)
                requires
                    -0x8000_0000 <= a <= 0x7fff_ffff,
                    -0x8000_0000 <= b <= 0x7fff_ffff,
            ;
        }
        let wide_prod = a * b;

        let safe_frac = if FRAC > 0 {
            FRAC
        } else {
            1
        };
        proof {
            lemma_i64_one_shl((safe_frac - 1) as u32);
            lemma_i64_one_shl(safe_frac);
        }
        let half = (1 as i64) << (safe_frac - 1);
        let frac_mask = ((1 as i64) << safe_frac) - 1;

        let shifted = wide_prod >> safe_frac;
        let fraction = wide_prod & frac_mask;
        proof {
            let d = pow2(FRAC as nat) as int;
            lemma_i64_low_mask(wide_prod, safe_frac, frac_mask);
            lemma_i64_shr(wide_prod, safe_frac);
            lemma_i64_halve(shifted);
            lemma_pow2_unfold(FRAC as nat);
            lemma_pow2_pos(FRAC as nat);
            lemma_round_by_half(
                wide_prod as int,
                d,
                half as int,
                shifted as int,
                fraction as int,
                (shifted & 1) != 0,
            );
            lemma_fundamental_div_mod(wide_prod as int, d);
            lemma_mod_bound(wide_prod as int, d);
            assert(shifted <= 0x4000_0000_0000_0000) by (nonlinear_arith)
                requires
                    wide_prod == d * shifted + fraction,
                    fraction >= 0,
                    d >= 1,
                    wide_prod <= 0x4000_0000_0000_0000,
            ;
        }

        let rounded = if fraction > half {
            shifted + 1
        } else if fraction < half {
            shifted
        } else {
            if (shifted & 1) != 0 {
                shifted + 1
            } else {
                shifted
            }
        };
        proof {
            lemma_i64_as_i32(rounded);
        }
        Self::from_bits(rounded as i32)
    }

    /// Addition in 32-bit two's complement of the raw representations.
    #[inline(always)]
    pub fn add_unchecked(self, rhs: Self) -> (r: Self)
        ensures
            r.bits == wrap_i32(self.bits + rhs.bits),
    {
        proof {
            lemma_i32_wrapping_add(self.bits, rhs.bits);
        }
        Self::from_bits(self.bits.wrapping_add(rhs.bits))
    }

    /// Subtraction in 32-bit two's complement of the raw representations.
    #[inline(always)]
    pub fn sub_unchecked(self, rhs: Self) -> (r: Self)
        ensures
            r.bits == wrap_i32(self.bits - rhs.bits),
    {
        proof {
            lemma_i32_wrapping_sub(self.bits, rhs.bits);
        }
        Self::from_bits(self.bits.wrapping_sub(rhs.bits))
    }

    /// The smaller of the two; `other` where they are equal.
    #[inline(always)]
    pub fn min(self, other: Self) -> (r: Self)
        ensures
            r == (if self.bits < other.bits {
                self
            } else {
                other
            }),
    {
        if self.bits < other.bits {
            self
        } else {
            other
        }
    }

    /// The larger of the two; `other` where they are equal.
    #[inline(always)]
    pub fn max(self, other: Self) -> (r: Self)
        ensures
            r == (if self.bits > other.bits {
                self
            } else {
                other
            }),
    {
        if self.bits > other.bits {
            self
        } else {
            other
        }
    }
}

} // verus!
