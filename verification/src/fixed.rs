//! The fixed-point number: raw bits `T` with `FRAC` fractional bits, so that
//! the value it stands for is `bits / 2^FRAC`.
use vstd::prelude::*;

verus! {

/// A fixed-point number stored in the integer `bits`, whose lowest `FRAC`
/// bits are the fraction: it stands for `bits / 2^FRAC`.
#[derive(Debug, Clone, Copy, PartialEq, Eq, PartialOrd, Ord)]
pub struct Fixed<T, const FRAC: u32> {
    pub bits: T,
}

impl<T: Copy, const FRAC: u32> Fixed<T, FRAC> {
    /// The number whose raw representation is `bits`.
    #[inline(always)]
    pub fn from_bits(bits: T) -> (r: Self)
        ensures
            r.bits == bits,
    {
        Self { bits }
    }

    /// The raw representation of the number.
    #[inline(always)]
    pub fn to_bits(self) -> (r: T)
        ensures
            r == self.bits,
    {
        self.bits
    }
}

impl<const FRAC: u32> Default for Fixed<u64, FRAC> {
    fn default() -> (r: Self)
        ensures
            r.bits == 0,
    {
        Fixed { bits: 0 }
    }
}

impl<const FRAC: u32> Default for Fixed<i32, FRAC> {
    fn default() -> (r: Self)
        ensures
            r.bits == 0,
    {
        Fixed { bits: 0 }
    }
}

impl<const FRAC: u32> Default for Fixed<i64, FRAC> {
    fn default() -> (r: Self)
        ensures
            r.bits == 0,
    {
        Fixed { bits: 0 }
    }
}

} // verus!
