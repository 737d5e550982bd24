//! Weights in grams as they are stored: the bits of an IEEE 754 single. The
//! library carries and compares them; the arithmetic is the application's.

use vstd::prelude::*;

verus! {

/// A weight in grams, by the bits of an IEEE 754 single.
#[derive(Clone, Copy, Debug)]
pub struct Grams {
    pub bits: u32,
}

impl Grams {
    /// Exponent all ones and a mantissa: not a number.
    pub open spec fn is_nan(self) -> bool {
        self.bits % 0x8000_0000 > 0x7f80_0000
    }

    /// Plus zero or minus zero.
    pub open spec fn is_zero(self) -> bool {
        self.bits % 0x8000_0000 == 0
    }

    /// Equality of IEEE numbers: what is not a number equals nothing, and the two
    /// zeros equal each other.
    pub open spec fn equals(self, other: Grams) -> bool {
        !self.is_nan() && !other.is_nan() && (self.bits == other.bits || (self.is_zero() && other.is_zero()))
    }

    /// Zero grams.
    pub fn zero() -> (r: Grams)
        ensures
            r.bits == 0,
            r.is_zero(),
    {
        Grams { bits: 0 }
    }

    /// Whether the weight is zero.
    pub fn zero_grams(&self) -> (r: bool)
        ensures
            r == self.is_zero(),
    {
        self.bits % 0x8000_0000 == 0
    }

    /// Whether two weights are equal as numbers.
    pub fn same_as(&self, other: &Grams) -> (r: bool)
        ensures
            r == self.equals(*other),
    {
        self.bits % 0x8000_0000 <= 0x7f80_0000 && other.bits % 0x8000_0000 <= 0x7f80_0000 && (self.bits
            == other.bits || (self.bits % 0x8000_0000 == 0 && other.bits % 0x8000_0000 == 0))
    }
}

/// The two zeros are zero, and nothing else is. What lies beyond infinity, on either side,
/// is not a number. Numbers are equal where their bits are, but for the two zeros.
pub proof fn weights_compare_as_numbers(a: Grams, b: Grams)
    ensures
        a.is_zero() <==> a.bits == 0 || a.bits == 0x8000_0000,
        a.is_nan() <==> (0x7f80_0000 < a.bits < 0x8000_0000) || 0xff80_0000 < a.bits,
        a.equals(b) <==> !((0x7f80_0000 < a.bits < 0x8000_0000) || 0xff80_0000 < a.bits) && (a.bits == b.bits || ((a.bits
            == 0 || a.bits == 0x8000_0000) && (b.bits == 0 || b.bits == 0x8000_0000))),
{
}

} // verus!
