//! The operator traits of `core::ops` on the fixed-point types: each operator
//! is the corresponding `*_blaze` or `*_unchecked` method, and its compound
//! assignment applies the operator in place.
use vstd::prelude::*;

verus! {

use vstd::arithmetic::power2::pow2;
use vstd::std_specs::ops::{
    AddSpecImpl,
    SubSpecImpl,
    MulSpecImpl,
    DivSpecImpl,
    RemSpecImpl,
    ShlSpecImpl,
    ShrSpecImpl,
    NegSpecImpl,
};
use crate::fixed::Fixed;
use crate::spec::{wrap_u64, wrap_u128, wrap_i32, wrap_i64, div_round_half_even, abs_int, trunc_rem};
use crate::bits::{lemma_u64_shl, lemma_u64_shr, lemma_i32_shl, lemma_i32_shr, lemma_i64_shl, lemma_i64_shr};
use crate::signed32::lemma_i32_neg_wraps;
use crate::signed64::lemma_i64_neg_wraps;

// ---------------------------------------------------------------------------
// Fixed<u64, FRAC>
// ---------------------------------------------------------------------------

/// `self + rhs` is `add_unchecked`.
impl<const FRAC: u32> core::ops::Add for Fixed<u64, FRAC> {
    type Output = Self;

    #[inline(always)]
    fn add(self, rhs: Self) -> (r: Self::Output) {
        self.add_unchecked(rhs)
    }
}

impl<const FRAC: u32> AddSpecImpl for Fixed<u64, FRAC> {
    open spec fn obeys_add_spec() -> bool {
        true
    }

    open spec fn add_req(self, rhs: Self) -> bool {
        true
    }

    open spec fn add_spec(self, rhs: Self) -> Self::Output {
        Fixed { bits: (wrap_u64(self.bits + rhs.bits)) as u64 }
    }
}

/// `self - rhs` is `sub_unchecked`.
impl<const FRAC: u32> core::ops::Sub for Fixed<u64, FRAC> {
    type Output = Self;

    #[inline(always)]
    fn sub(self, rhs: Self) -> (r: Self::Output) {
        self.sub_unchecked(rhs)
    }
}

impl<const FRAC: u32> SubSpecImpl for Fixed<u64, FRAC> {
    open spec fn obeys_sub_spec() -> bool {
        true
    }

    open spec fn sub_req(self, rhs: Self) -> bool {
        true
    }

    open spec fn sub_spec(self, rhs: Self) -> Self::Output {
        Fixed { bits: (wrap_u64(self.bits - rhs.bits)) as u64 }
    }
}

/// `self * rhs` is `mul_blaze`.
impl<const FRAC: u32> core::ops::Mul for Fixed<u64, FRAC> {
    type Output = Self;

    #[inline(always)]
    fn mul(self, rhs: Self) -> (r: Self::Output) {
        self.mul_blaze(rhs)
    }
}

impl<const FRAC: u32> MulSpecImpl for Fixed<u64, FRAC> {
    open spec fn obeys_mul_spec() -> bool {
        true
    }

    open spec fn mul_req(self, rhs: Self) -> bool {
        FRAC < 128
    }

    open spec fn mul_spec(self, rhs: Self) -> Self::Output {
        Fixed { bits: (wrap_u64(div_round_half_even(self.bits * rhs.bits, pow2(FRAC as nat) as int))) as u64 }
    }
}

/// `self / rhs` is `div_blaze`.
impl<const FRAC: u32> core::ops::Div for Fixed<u64, FRAC> {
    type Output = Self;

    #[inline(always)]
    fn div(self, rhs: Self) -> (r: Self::Output) {
        self.div_blaze(rhs)
    }
}

impl<const FRAC: u32> DivSpecImpl for Fixed<u64, FRAC> {
    open spec fn obeys_div_spec() -> bool {
        true
    }

    open spec fn div_req(self, rhs: Self) -> bool {
        rhs.bits != 0 && FRAC < 128
    }

    open spec fn div_spec(self, rhs: Self) -> Self::Output {
        Fixed { bits: (wrap_u64(div_round_half_even(wrap_u128(self.bits * pow2(FRAC as nat)), rhs.bits as int))) as u64 }
    }
}

/// `self % rhs` is `rem_blaze`.
impl<const FRAC: u32> core::ops::Rem for Fixed<u64, FRAC> {
    type Output = Self;

    #[inline(always)]
    fn rem(self, rhs: Self) -> (r: Self::Output) {
        self.rem_blaze(rhs)
    }
}

impl<const FRAC: u32> RemSpecImpl for Fixed<u64, FRAC> {
    open spec fn obeys_rem_spec() -> bool {
        true
    }

    open spec fn rem_req(self, rhs: Self) -> bool {
        rhs.bits != 0
    }

    open spec fn rem_spec(self, rhs: Self) -> Self::Output {
        Fixed { bits: (self.bits % rhs.bits) as u64 }
    }
}

/// `self << n` shifts the raw bits left, wrapping`.
impl<const FRAC: u32> core::ops::Shl<u32> for Fixed<u64, FRAC> {
    type Output = Self;

    #[inline(always)]
    fn shl(self, rhs: u32) -> (r: Self::Output) {
        proof {
            lemma_u64_shl(self.bits, rhs);
        }
        Self::from_bits(self.bits << rhs)
    }
}

impl<const FRAC: u32> ShlSpecImpl<u32> for Fixed<u64, FRAC> {
    open spec fn obeys_shl_spec() -> bool {
        true
    }

    open spec fn shl_req(self, rhs: u32) -> bool {
        rhs < 64
    }

    open spec fn shl_spec(self, rhs: u32) -> Self::Output {
        Fixed { bits: (wrap_u64(self.bits * pow2(rhs as nat))) as u64 }
    }
}

/// `self >> n` shifts the raw bits right, rounding toward minus infinity`.
impl<const FRAC: u32> core::ops::Shr<u32> for Fixed<u64, FRAC> {
    type Output = Self;

    #[inline(always)]
    fn shr(self, rhs: u32) -> (r: Self::Output) {
        proof {
            lemma_u64_shr(self.bits, rhs);
        }
        Self::from_bits(self.bits >> rhs)
    }
}

impl<const FRAC: u32> ShrSpecImpl<u32> for Fixed<u64, FRAC> {
    open spec fn obeys_shr_spec() -> bool {
        true
    }

    open spec fn shr_req(self, rhs: u32) -> bool {
        rhs < 64
    }

    open spec fn shr_spec(self, rhs: u32) -> Self::Output {
        Fixed { bits: ((self.bits as int) / (pow2(rhs as nat) as int)) as u64 }
    }
}

impl<const FRAC: u32> core::ops::AddAssign for Fixed<u64, FRAC> {
    #[inline(always)]
    fn add_assign(&mut self, rhs: Self)
        ensures
            final(self).bits == wrap_u64(old(self).bits + rhs.bits),
    {
        *self = *self + rhs;
    }
}

impl<const FRAC: u32> core::ops::SubAssign for Fixed<u64, FRAC> {
    #[inline(always)]
    fn sub_assign(&mut self, rhs: Self)
        ensures
            final(self).bits == wrap_u64(old(self).bits - rhs.bits),
    {
        *self = *self - rhs;
    }
}

impl<const FRAC: u32> core::ops::MulAssign for Fixed<u64, FRAC> {
    #[inline(always)]
    fn mul_assign(&mut self, rhs: Self)
        requires
            FRAC < 128,
        ensures
            final(self).bits == wrap_u64(div_round_half_even(old(self).bits * rhs.bits, pow2(FRAC as nat) as int)),
    {
        *self = *self * rhs;
    }
}

impl<const FRAC: u32> core::ops::DivAssign for Fixed<u64, FRAC> {
    #[inline(always)]
    fn div_assign(&mut self, rhs: Self)
        requires
            rhs.bits != 0,
            FRAC < 128,
        ensures
            final(self).bits == wrap_u64(div_round_half_even(wrap_u128(old(self).bits * pow2(FRAC as nat)), rhs.bits as int)),
    {
        *self = *self / rhs;
    }
}

impl<const FRAC: u32> core::ops::RemAssign for Fixed<u64, FRAC> {
    #[inline(always)]
    fn rem_assign(&mut self, rhs: Self)
        requires
            rhs.bits != 0,
        ensures
            final(self).bits == old(self).bits % rhs.bits,
    {
        *self = *self % rhs;
    }
}

impl<const FRAC: u32> core::ops::ShlAssign<u32> for Fixed<u64, FRAC> {
    #[inline(always)]
    fn shl_assign(&mut self, rhs: u32)
        requires
            rhs < 64,
        ensures
            final(self).bits == wrap_u64(old(self).bits * pow2(rhs as nat)),
    {
        *self = *self << rhs;
    }
}

impl<const FRAC: u32> core::ops::ShrAssign<u32> for Fixed<u64, FRAC> {
    #[inline(always)]
    fn shr_assign(&mut self, rhs: u32)
        requires
            rhs < 64,
        ensures
            final(self).bits == (old(self).bits as int) / (pow2(rhs as nat) as int),
    {
        proof {
            lemma_u64_shr(self.bits, rhs);
        }
        *self = *self >> rhs;
    }
}

// ---------------------------------------------------------------------------
// Fixed<i32, FRAC>
// ---------------------------------------------------------------------------

/// `self + rhs` is `add_unchecked`.
impl<const FRAC: u32> core::ops::Add for Fixed<i32, FRAC> {
    type Output = Self;

    #[inline(always)]
    fn add(self, rhs: Self) -> (r: Self::Output) {
        self.add_unchecked(rhs)
    }
}

impl<const FRAC: u32> AddSpecImpl for Fixed<i32, FRAC> {
    open spec fn obeys_add_spec() -> bool {
        true
    }

    open spec fn add_req(self, rhs: Self) -> bool {
        true
    }

    open spec fn add_spec(self, rhs: Self) -> Self::Output {
        Fixed { bits: (wrap_i32(self.bits + rhs.bits)) as i32 }
    }
}

/// `self - rhs` is `sub_unchecked`.
impl<const FRAC: u32> core::ops::Sub for Fixed<i32, FRAC> {
    type Output = Self;

    #[inline(always)]
    fn sub(self, rhs: Self) -> (r: Self::Output) {
        self.sub_unchecked(rhs)
    }
}

impl<const FRAC: u32> SubSpecImpl for Fixed<i32, FRAC> {
    open spec fn obeys_sub_spec() -> bool {
        true
    }

    open spec fn sub_req(self, rhs: Self) -> bool {
        true
    }

    open spec fn sub_spec(self, rhs: Self) -> Self::Output {
        Fixed { bits: (wrap_i32(self.bits - rhs.bits)) as i32 }
    }
}

/// `self * rhs` is `mul_blaze`.
impl<const FRAC: u32> core::ops::Mul for Fixed<i32, FRAC> {
    type Output = Self;

    #[inline(always)]
    fn mul(self, rhs: Self) -> (r: Self::Output) {
        self.mul_blaze(rhs)
    }
}

impl<const FRAC: u32> MulSpecImpl for Fixed<i32, FRAC> {
    open spec fn obeys_mul_spec() -> bool {
        true
    }

    open spec fn mul_req(self, rhs: Self) -> bool {
        FRAC < 63
    }

    open spec fn mul_spec(self, rhs: Self) -> Self::Output {
        Fixed { bits: (wrap_i32(div_round_half_even(self.bits * rhs.bits, pow2(FRAC as nat) as int))) as i32 }
    }
}

/// `self / rhs` is `div_blaze`.
impl<const FRAC: u32> core::ops::Div for Fixed<i32, FRAC> {
    type Output = Self;

    #[inline(always)]
    fn div(self, rhs: Self) -> (r: Self::Output) {
        self.div_blaze(rhs)
    }
}

impl<const FRAC: u32> DivSpecImpl for Fixed<i32, FRAC> {
    open spec fn obeys_div_spec() -> bool {
        true
    }

    open spec fn div_req(self, rhs: Self) -> bool {
        rhs.bits != 0 && FRAC < 64
    }

    open spec fn div_spec(self, rhs: Self) -> Self::Output {
        Fixed { bits: (if (self.bits < 0) != (rhs.bits < 0) {
            wrap_i32(-wrap_i32(div_round_half_even(wrap_u64(abs_int(self.bits as int) * pow2(FRAC as nat)), abs_int(rhs.bits as int))))
        } else {
            wrap_i32(div_round_half_even(wrap_u64(abs_int(self.bits as int) * pow2(FRAC as nat)), abs_int(rhs.bits as int)))
        }) as i32 }
    }
}

/// `self % rhs` is `rem_blaze`.
impl<const FRAC: u32> core::ops::Rem for Fixed<i32, FRAC> {
    type Output = Self;

    #[inline(always)]
    fn rem(self, rhs: Self) -> (r: Self::Output) {
        self.rem_blaze(rhs)
    }
}

impl<const FRAC: u32> RemSpecImpl for Fixed<i32, FRAC> {
    open spec fn obeys_rem_spec() -> bool {
        true
    }

    open spec fn rem_req(self, rhs: Self) -> bool {
        rhs.bits != 0 && !(self.bits == i32::MIN && rhs.bits == -1)
    }

    open spec fn rem_spec(self, rhs: Self) -> Self::Output {
        Fixed { bits: (trunc_rem(self.bits as int, rhs.bits as int)) as i32 }
    }
}

/// `self << n` shifts the raw bits left, wrapping`.
impl<const FRAC: u32> core::ops::Shl<u32> for Fixed<i32, FRAC> {
    type Output = Self;

    #[inline(always)]
    fn shl(self, rhs: u32) -> (r: Self::Output) {
        proof {
            lemma_i32_shl(self.bits, rhs);
        }
        Self::from_bits(self.bits << rhs)
    }
}

impl<const FRAC: u32> ShlSpecImpl<u32> for Fixed<i32, FRAC> {
    open spec fn obeys_shl_spec() -> bool {
        true
    }

    open spec fn shl_req(self, rhs: u32) -> bool {
        rhs < 32
    }

    open spec fn shl_spec(self, rhs: u32) -> Self::Output {
        Fixed { bits: (wrap_i32(self.bits * pow2(rhs as nat))) as i32 }
    }
}

/// `self >> n` shifts the raw bits right, rounding toward minus infinity`.
impl<const FRAC: u32> core::ops::Shr<u32> for Fixed<i32, FRAC> {
    type Output = Self;

    #[inline(always)]
    fn shr(self, rhs: u32) -> (r: Self::Output) {
        proof {
            lemma_i32_shr(self.bits, rhs);
        }
        Self::from_bits(self.bits >> rhs)
    }
}

impl<const FRAC: u32> ShrSpecImpl<u32> for Fixed<i32, FRAC> {
    open spec fn obeys_shr_spec() -> bool {
        true
    }

    open spec fn shr_req(self, rhs: u32) -> bool {
        rhs < 32
    }

    open spec fn shr_spec(self, rhs: u32) -> Self::Output {
        Fixed { bits: ((self.bits as int) / (pow2(rhs as nat) as int)) as i32 }
    }
}

impl<const FRAC: u32> core::ops::AddAssign for Fixed<i32, FRAC> {
    #[inline(always)]
    fn add_assign(&mut self, rhs: Self)
        ensures
            final(self).bits == wrap_i32(old(self).bits + rhs.bits),
    {
        *self = *self + rhs;
    }
}

impl<const FRAC: u32> core::ops::SubAssign for Fixed<i32, FRAC> {
    #[inline(always)]
    fn sub_assign(&mut self, rhs: Self)
        ensures
            final(self).bits == wrap_i32(old(self).bits - rhs.bits),
    {
        *self = *self - rhs;
    }
}

impl<const FRAC: u32> core::ops::MulAssign for Fixed<i32, FRAC> {
    #[inline(always)]
    fn mul_assign(&mut self, rhs: Self)
        requires
            FRAC < 63,
        ensures
            final(self).bits == wrap_i32(div_round_half_even(old(self).bits * rhs.bits, pow2(FRAC as nat) as int)),
    {
        *self = *self * rhs;
    }
}

impl<const FRAC: u32> core::ops::DivAssign for Fixed<i32, FRAC> {
    #[inline(always)]
    fn div_assign(&mut self, rhs: Self)
        requires
            rhs.bits != 0,
            FRAC < 64,
        ensures
            final(self).bits == if (old(self).bits < 0) != (rhs.bits < 0) {
            wrap_i32(-wrap_i32(div_round_half_even(wrap_u64(abs_int(old(self).bits as int) * pow2(FRAC as nat)), abs_int(rhs.bits as int))))
        } else {
            wrap_i32(div_round_half_even(wrap_u64(abs_int(old(self).bits as int) * pow2(FRAC as nat)), abs_int(rhs.bits as int)))
        },
    {
        *self = *self / rhs;
    }
}

impl<const FRAC: u32> core::ops::RemAssign for Fixed<i32, FRAC> {
    #[inline(always)]
    fn rem_assign(&mut self, rhs: Self)
        requires
            rhs.bits != 0,
            !(old(self).bits == i32::MIN && rhs.bits == -1),
        ensures
            final(self).bits == trunc_rem(old(self).bits as int, rhs.bits as int),
    {
        *self = *self % rhs;
    }
}

impl<const FRAC: u32> core::ops::ShlAssign<u32> for Fixed<i32, FRAC> {
    #[inline(always)]
    fn shl_assign(&mut self, rhs: u32)
        requires
            rhs < 32,
        ensures
            final(self).bits == wrap_i32(old(self).bits * pow2(rhs as nat)),
    {
        *self = *self << rhs;
    }
}

impl<const FRAC: u32> core::ops::ShrAssign<u32> for Fixed<i32, FRAC> {
    #[inline(always)]
    fn shr_assign(&mut self, rhs: u32)
        requires
            rhs < 32,
        ensures
            final(self).bits == (old(self).bits as int) / (pow2(rhs as nat) as int),
    {
        proof {
            lemma_i32_shr(self.bits, rhs);
        }
        *self = *self >> rhs;
    }
}

/// `-self` negates the raw bits, wrapping: the smallest value is its own
/// negation.
impl<const FRAC: u32> core::ops::Neg for Fixed<i32, FRAC> {
    type Output = Self;

    #[inline(always)]
    fn neg(self) -> (r: Self::Output) {
        proof {
            lemma_i32_neg_wraps(self.bits);
        }
        Self::from_bits(self.bits.wrapping_neg())
    }
}

impl<const FRAC: u32> NegSpecImpl for Fixed<i32, FRAC> {
    open spec fn obeys_neg_spec() -> bool {
        true
    }

    open spec fn neg_req(self) -> bool {
        true
    }

    open spec fn neg_spec(self) -> Self::Output {
        Fixed { bits: wrap_i32(-self.bits) as i32 }
    }
}

// ---------------------------------------------------------------------------
// Fixed<i64, FRAC>
// ---------------------------------------------------------------------------

/// `self + rhs` is `add_unchecked`.
impl<const FRAC: u32> core::ops::Add for Fixed<i64, FRAC> {
    type Output = Self;

    #[inline(always)]
    fn add(self, rhs: Self) -> (r: Self::Output) {
        self.add_unchecked(rhs)
    }
}

impl<const FRAC: u32> AddSpecImpl for Fixed<i64, FRAC> {
    open spec fn obeys_add_spec() -> bool {
        true
    }

    open spec fn add_req(self, rhs: Self) -> bool {
        true
    }

    open spec fn add_spec(self, rhs: Self) -> Self::Output {
        Fixed { bits: (wrap_i64(self.bits + rhs.bits)) as i64 }
    }
}

/// `self - rhs` is `sub_unchecked`.
impl<const FRAC: u32> core::ops::Sub for Fixed<i64, FRAC> {
    type Output = Self;

    #[inline(always)]
    fn sub(self, rhs: Self) -> (r: Self::Output) {
        self.sub_unchecked(rhs)
    }
}

impl<const FRAC: u32> SubSpecImpl for Fixed<i64, FRAC> {
    open spec fn obeys_sub_spec() -> bool {
        true
    }

    open spec fn sub_req(self, rhs: Self) -> bool {
        true
    }

    open spec fn sub_spec(self, rhs: Self) -> Self::Output {
        Fixed { bits: (wrap_i64(self.bits - rhs.bits)) as i64 }
    }
}

/// `self * rhs` is `mul_blaze`.
impl<const FRAC: u32> core::ops::Mul for Fixed<i64, FRAC> {
    type Output = Self;

    #[inline(always)]
    fn mul(self, rhs: Self) -> (r: Self::Output) {
        self.mul_blaze(rhs)
    }
}

impl<const FRAC: u32> MulSpecImpl for Fixed<i64, FRAC> {
    open spec fn obeys_mul_spec() -> bool {
        true
    }

    open spec fn mul_req(self, rhs: Self) -> bool {
        FRAC < 127
    }

    open spec fn mul_spec(self, rhs: Self) -> Self::Output {
        Fixed { bits: (wrap_i64(div_round_half_even(self.bits * rhs.bits, pow2(FRAC as nat) as int))) as i64 }
    }
}

/// `self / rhs` is `div_blaze`.
impl<const FRAC: u32> core::ops::Div for Fixed<i64, FRAC> {
    type Output = Self;

    #[inline(always)]
    fn div(self, rhs: Self) -> (r: Self::Output) {
        self.div_blaze(rhs)
    }
}

impl<const FRAC: u32> DivSpecImpl for Fixed<i64, FRAC> {
    open spec fn obeys_div_spec() -> bool {
        true
    }

    open spec fn div_req(self, rhs: Self) -> bool {
        rhs.bits != 0 && FRAC < 128
    }

    open spec fn div_spec(self, rhs: Self) -> Self::Output {
        Fixed { bits: (if (self.bits < 0) != (rhs.bits < 0) {
            wrap_i64(-wrap_i64(div_round_half_even(wrap_u128(abs_int(self.bits as int) * pow2(FRAC as nat)), abs_int(rhs.bits as int))))
        } else {
            wrap_i64(div_round_half_even(wrap_u128(abs_int(self.bits as int) * pow2(FRAC as nat)), abs_int(rhs.bits as int)))
        }) as i64 }
    }
}

/// `self % rhs` is `rem_blaze`.
impl<const FRAC: u32> core::ops::Rem for Fixed<i64, FRAC> {
    type Output = Self;

    #[inline(always)]
    fn rem(self, rhs: Self) -> (r: Self::Output) {
        self.rem_blaze(rhs)
    }
}

impl<const FRAC: u32> RemSpecImpl for Fixed<i64, FRAC> {
    open spec fn obeys_rem_spec() -> bool {
        true
    }

    open spec fn rem_req(self, rhs: Self) -> bool {
        rhs.bits != 0 && !(self.bits == i64::MIN && rhs.bits == -1)
    }

    open spec fn rem_spec(self, rhs: Self) -> Self::Output {
        Fixed { bits: (trunc_rem(self.bits as int, rhs.bits as int)) as i64 }
    }
}

/// `self << n` shifts the raw bits left, wrapping`.
impl<const FRAC: u32> core::ops::Shl<u32> for Fixed<i64, FRAC> {
    type Output = Self;

    #[inline(always)]
    fn shl(self, rhs: u32) -> (r: Self::Output) {
        proof {
            lemma_i64_shl(self.bits, rhs);
        }
        Self::from_bits(self.bits << rhs)
    }
}

impl<const FRAC: u32> ShlSpecImpl<u32> for Fixed<i64, FRAC> {
    open spec fn obeys_shl_spec() -> bool {
        true
    }

    open spec fn shl_req(self, rhs: u32) -> bool {
        rhs < 64
    }

    open spec fn shl_spec(self, rhs: u32) -> Self::Output {
        Fixed { bits: (wrap_i64(self.bits * pow2(rhs as nat))) as i64 }
    }
}

/// `self >> n` shifts the raw bits right, rounding toward minus infinity`.
impl<const FRAC: u32> core::ops::Shr<u32> for Fixed<i64, FRAC> {
    type Output = Self;

    #[inline(always)]
    fn shr(self, rhs: u32) -> (r: Self::Output) {
        proof {
            lemma_i64_shr(self.bits, rhs);
        }
        Self::from_bits(self.bits >> rhs)
    }
}

impl<const FRAC: u32> ShrSpecImpl<u32> for Fixed<i64, FRAC> {
    open spec fn obeys_shr_spec() -> bool {
        true
    }

    open spec fn shr_req(self, rhs: u32) -> bool {
        rhs < 64
    }

    open spec fn shr_spec(self, rhs: u32) -> Self::Output {
        Fixed { bits: ((self.bits as int) / (pow2(rhs as nat) as int)) as i64 }
    }
}

impl<const FRAC: u32> core::ops::AddAssign for Fixed<i64, FRAC> {
    #[inline(always)]
    fn add_assign(&mut self, rhs: Self)
        ensures
            final(self).bits == wrap_i64(old(self).bits + rhs.bits),
    {
        *self = *self + rhs;
    }
}

impl<const FRAC: u32> core::ops::SubAssign for Fixed<i64, FRAC> {
    #[inline(always)]
    fn sub_assign(&mut self, rhs: Self)
        ensures
            final(self).bits == wrap_i64(old(self).bits - rhs.bits),
    {
        *self = *self - rhs;
    }
}

impl<const FRAC: u32> core::ops::MulAssign for Fixed<i64, FRAC> {
    #[inline(always)]
    fn mul_assign(&mut self, rhs: Self)
        requires
            FRAC < 127,
        ensures
            final(self).bits == wrap_i64(div_round_half_even(old(self).bits * rhs.bits, pow2(FRAC as nat) as int)),
    {
        *self = *self * rhs;
    }
}

impl<const FRAC: u32> core::ops::DivAssign for Fixed<i64, FRAC> {
    #[inline(always)]
    fn div_assign(&mut self, rhs: Self)
        requires
            rhs.bits != 0,
            FRAC < 128,
        ensures
            final(self).bits == if (old(self).bits < 0) != (rhs.bits < 0) {
            wrap_i64(-wrap_i64(div_round_half_even(wrap_u128(abs_int(old(self).bits as int) * pow2(FRAC as nat)), abs_int(rhs.bits as int))))
        } else {
            wrap_i64(div_round_half_even(wrap_u128(abs_int(old(self).bits as int) * pow2(FRAC as nat)), abs_int(rhs.bits as int)))
        },
    {
        *self = *self / rhs;
    }
}

impl<const FRAC: u32> core::ops::RemAssign for Fixed<i64, FRAC> {
    #[inline(always)]
    fn rem_assign(&mut self, rhs: Self)
        requires
            rhs.bits != 0,
            !(old(self).bits == i64::MIN && rhs.bits == -1),
        ensures
            final(self).bits == trunc_rem(old(self).bits as int, rhs.bits as int),
    {
        *self = *self % rhs;
    }
}

impl<const FRAC: u32> core::ops::ShlAssign<u32> for Fixed<i64, FRAC> {
    #[inline(always)]
    fn shl_assign(&mut self, rhs: u32)
        requires
            rhs < 64,
        ensures
            final(self).bits == wrap_i64(old(self).bits * pow2(rhs as nat)),
    {
        *self = *self << rhs;
    }
}

impl<const FRAC: u32> core::ops::ShrAssign<u32> for Fixed<i64, FRAC> {
    #[inline(always)]
    fn shr_assign(&mut self, rhs: u32)
        requires
            rhs < 64,
        ensures
            final(self).bits == (old(self).bits as int) / (pow2(rhs as nat) as int),
    {
        proof {
            lemma_i64_shr(self.bits, rhs);
        }
        *self = *self >> rhs;
    }
}

/// `-self` negates the raw bits, wrapping: the smallest value is its own
/// negation.
impl<const FRAC: u32> core::ops::Neg for Fixed<i64, FRAC> {
    type Output = Self;

    #[inline(always)]
    fn neg(self) -> (r: Self::Output) {
        proof {
            lemma_i64_neg_wraps(self.bits);
        }
        Self::from_bits(self.bits.wrapping_neg())
    }
}

impl<const FRAC: u32> NegSpecImpl for Fixed<i64, FRAC> {
    open spec fn obeys_neg_spec() -> bool {
        true
    }

    open spec fn neg_req(self) -> bool {
        true
    }

    open spec fn neg_spec(self) -> Self::Output {
        Fixed { bits: wrap_i64(-self.bits) as i64 }
    }
}

} // verus!
