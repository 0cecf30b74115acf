//! Floating point numbers as their bits.
//!
//! The library stores, copies, compares and clamps such numbers, and flips
//! their sign; all of this can be read off the bits. Arithmetic is left to
//! whoever turns them back into floating point numbers.
use vstd::prelude::*;

pub mod whole;

verus! {

/// A number, as the bits of its 64-bit IEEE 754 representation.
#[derive(Clone, Copy, Debug, Hash)]
pub struct Number {
    pub bits: u64,
}

/// The bits of a number without its sign.
pub open spec fn magnitude_bits(bits: u64) -> u64 {
    bits & 0x7FFF_FFFF_FFFF_FFFF
}

/// IEEE equality: what is no number equals nothing, the two zeros equal each
/// other.
pub open spec fn ieee_equal(a: u64, b: u64) -> bool {
    Number { bits: a }.same(Number { bits: b })
}

/// How many units a value amounts to, to the nearest; halfway, to the nearest even
/// number of them.
pub open spec fn rounded(value: int, unit: int) -> int {
    let quotient = value / unit;
    let rest = value % unit;
    if 2 * rest > unit || 2 * rest == unit && quotient % 2 == 1 {
        quotient + 1
    } else {
        quotient
    }
}

/// The bits of the number that is nearest to a natural number of 64 digits: those
/// of the power of two, and as many units above it as the last digit that is kept
/// is worth.
pub open spec fn large_bits(value: u64) -> int {
    0x43E0_0000_0000_0000 + rounded(value - 0x8000_0000_0000_0000, 2048)
}

/// The number is as near as it can be: off by no more than half of what its last
/// digit is worth.
pub proof fn law_large_number_is_nearest(value: u64)
    requires
        value >= 0x8000_0000_0000_0000,
    ensures
        ({
            let units = large_bits(value) - 0x43E0_0000_0000_0000;
            let represented = (0x10_0000_0000_0000 + units) * 2048;
            -1024 <= represented - value <= 1024
        }),
{
}

impl Number {
    /// The absolute value.
    pub open spec fn spec_abs(self) -> Number {
        Number { bits: magnitude_bits(self.bits) }
    }

    /// The number nearest to a natural number of 64 digits.
    pub fn from_large(value: u64) -> (number: Number)
        requires
            value >= 0x8000_0000_0000_0000,
        ensures
            number.bits == large_bits(value),
    {
        let above: u64 = value - 0x8000_0000_0000_0000;
        let quotient: u64 = above / 2048;
        let rest: u64 = above % 2048;
        let units: u64 = if rest > 1024 || rest == 1024 && quotient % 2 == 1 {
            quotient + 1
        } else {
            quotient
        };
        Number { bits: 0x43E0_0000_0000_0000 + units }
    }

    /// Not a number.
    pub open spec fn is_nan(self) -> bool {
        magnitude_bits(self.bits) > 0x7FF0_0000_0000_0000
    }

    /// Neither infinite nor NaN.
    pub open spec fn is_finite(self) -> bool {
        magnitude_bits(self.bits) < 0x7FF0_0000_0000_0000
    }

    /// Where the number is in the order of all numbers: the representation is
    /// such that numbers of one sign are ordered as their bits are.
    pub open spec fn key(self) -> int {
        if self.bits < 0x8000_0000_0000_0000 {
            magnitude_bits(self.bits) as int
        } else {
            -(magnitude_bits(self.bits) as int)
        }
    }

    /// `self < other`, as numbers.
    pub open spec fn below(self, other: Number) -> bool {
        !self.is_nan() && !other.is_nan() && self.key() < other.key()
    }

    /// `self <= other`, as numbers.
    pub open spec fn at_most(self, other: Number) -> bool {
        !self.is_nan() && !other.is_nan() && self.key() <= other.key()
    }

    /// `self == other`, as numbers.
    pub open spec fn same(self, other: Number) -> bool {
        !self.is_nan() && !other.is_nan() && self.key() == other.key()
    }

    /// The number closest to `self` from `lower` to `upper`.
    pub open spec fn spec_clamp(self, lower: Number, upper: Number) -> Number {
        if self.below(lower) {
            lower
        } else if upper.below(self) {
            upper
        } else {
            self
        }
    }

    /// The number with the other sign.
    pub open spec fn spec_negated(self) -> Number {
        Number { bits: self.bits ^ 0x8000_0000_0000_0000 }
    }

    /// Zero.
    pub fn zero() -> (zero: Number)
        ensures
            zero == (Number { bits: 0 }),
    {
        Number { bits: 0 }
    }

    /// One half.
    pub fn half() -> (half: Number)
        ensures
            half == (Number { bits: 0x3FE0_0000_0000_0000 }),
    {
        Number { bits: 0x3FE0_0000_0000_0000 }
    }

    /// The absolute value.
    pub fn abs(self) -> (abs: Number)
        ensures
            abs == self.spec_abs(),
    {
        Number { bits: self.bits & 0x7FFF_FFFF_FFFF_FFFF }
    }

    /// Whether this is not a number.
    pub fn nan(self) -> (nan: bool)
        ensures
            nan == self.is_nan(),
    {
        (self.bits & 0x7FFF_FFFF_FFFF_FFFF) > 0x7FF0_0000_0000_0000
    }

    /// Whether this is neither infinite nor NaN.
    pub fn finite(self) -> (finite: bool)
        ensures
            finite == self.is_finite(),
    {
        (self.bits & 0x7FFF_FFFF_FFFF_FFFF) < 0x7FF0_0000_0000_0000
    }

    fn place(self) -> (place: i64)
        ensures
            place == self.key(),
    {
        let magnitude: u64 = self.bits & 0x7FFF_FFFF_FFFF_FFFF;
        let bits: u64 = self.bits;
        assert(bits & 0x7FFF_FFFF_FFFF_FFFF <= 0x7FFF_FFFF_FFFF_FFFF) by (bit_vector);
        if self.bits < 0x8000_0000_0000_0000 {
            magnitude as i64
        } else {
            -(magnitude as i64)
        }
    }

    /// `self < other`, as numbers.
    pub fn less_than(self, other: Number) -> (less: bool)
        ensures
            less == self.below(other),
    {
        !self.nan() && !other.nan() && self.place() < other.place()
    }

    /// `self <= other`, as numbers.
    pub fn no_more_than(self, other: Number) -> (no_more: bool)
        ensures
            no_more == self.at_most(other),
    {
        !self.nan() && !other.nan() && self.place() <= other.place()
    }

    /// The number closest to `self` from `lower` to `upper`.
    pub fn clamp(self, lower: Number, upper: Number) -> (clamped: Number)
        requires
            lower.at_most(upper),
        ensures
            clamped == self.spec_clamp(lower, upper),
            !self.is_nan() ==> lower.at_most(clamped) && clamped.at_most(upper),
    {
        if self.less_than(lower) {
            lower
        } else if upper.less_than(self) {
            upper
        } else {
            self
        }
    }

    /// The number with the other sign.
    pub fn negated(self) -> (negated: Number)
        ensures
            negated == self.spec_negated(),
    {
        Number { bits: self.bits ^ 0x8000_0000_0000_0000 }
    }
}

impl PartialEq for Number {
    fn eq(&self, other: &Self) -> (equal: bool) {
        !self.nan() && !other.nan() && self.place() == other.place()
    }
}

impl vstd::std_specs::cmp::PartialEqSpecImpl for Number {
    open spec fn obeys_eq_spec() -> bool {
        true
    }

    open spec fn eq_spec(&self, other: &Self) -> bool {
        self.same(*other)
    }
}

} // verus!
