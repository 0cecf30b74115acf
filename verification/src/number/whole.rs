//! Whole numbers as floating point numbers, and back.
use vstd::arithmetic::power2::*;
use vstd::prelude::*;

use crate::number::Number;

verus! {

/// What one stands for in the digits of a number: the numbers from one to two
/// differ by this part of one.
pub const UNIT: u64 = 0x10_0000_0000_0000;

/// Where the sign is.
pub const SIGN: u64 = 0x8000_0000_0000_0000;

/// How many binary digits a natural number has behind its first.
pub open spec fn exponent(a: nat) -> nat
    decreases a,
{
    if a < 2 {
        0
    } else {
        1 + exponent(a / 2)
    }
}

/// The size of a whole number.
pub open spec fn size(x: int) -> int {
    if x < 0 {
        -x
    } else {
        x
    }
}

/// The bits of a whole number that fits in 32 of them: its sign, the power of two
/// that is its first digit, and the digits behind that.
pub open spec fn whole_bits(x: i32) -> int {
    let a = size(x as int);
    if a == 0 {
        0
    } else {
        let e = exponent(a as nat);
        (if x < 0 {
            SIGN as int
        } else {
            0
        }) + (1023 + e) * UNIT + (a - pow2(e)) * pow2((52 - e) as nat)
    }
}

/// The whole part of a number without its sign, no larger than a whole number that
/// fits in 32 bits can be.
pub open spec fn whole_part(magnitude: int) -> int {
    let e = magnitude / UNIT as int;
    let digits = magnitude % UNIT as int;
    if e < 1023 {
        0
    } else if e > 1053 {
        0x8000_0000
    } else {
        (UNIT + digits) / pow2((1075 - e) as nat) as int
    }
}

/// The first digit of a natural number is the power of two that is no larger.
pub proof fn lemma_exponent(a: nat)
    requires
        a > 0,
    ensures
        pow2(exponent(a)) <= a < 2 * pow2(exponent(a)),
    decreases a,
{
    lemma2_to64();
    if a >= 2 {
        lemma_exponent(a / 2);
        lemma_pow2_unfold(exponent(a));
    }
}

/// No other power of two is.
proof fn lemma_exponent_unique(a: nat, e: nat)
    requires
        pow2(e) <= a < 2 * pow2(e),
    ensures
        e == exponent(a),
    decreases a,
{
    lemma2_to64();
    if e == 0 {
    } else {
        lemma_pow2_unfold(e);
        lemma_pow2_pos((e - 1) as nat);
        lemma_exponent_unique(a / 2, (e - 1) as nat);
    }
}

impl Number {
    /// The whole number as a floating point number.
    pub open spec fn spec_from_whole(x: i32) -> Number {
        Number { bits: whole_bits(x) as u64 }
    }

    /// What is left of a number without the digits behind the point: as near as 32
    /// bits let it be, and zero where it is none.
    pub open spec fn spec_truncated(self) -> int {
        let negative = self.bits >= SIGN;
        let magnitude = if negative {
            self.bits - SIGN
        } else {
            self.bits as int
        };
        if magnitude > 0x7FF0_0000_0000_0000 {
            0
        } else if negative {
            -whole_part(magnitude)
        } else if whole_part(magnitude) > i32::MAX {
            i32::MAX as int
        } else {
            whole_part(magnitude)
        }
    }

    /// The whole number as a floating point number.
    pub fn from_whole(x: i32) -> (number: Number)
        ensures
            number == Self::spec_from_whole(x),
            number.bits == whole_bits(x),
    {
        let wide: i64 = x as i64;
        let a: u64 = if wide < 0 {
            (-wide) as u64
        } else {
            wide as u64
        };
        if a == 0 {
            return Number { bits: 0 };
        }
        let mut first: u64 = 1;
        let mut unit: u64 = UNIT;
        let mut e: u64 = 0;
        proof {
            lemma2_to64();
            lemma2_to64_rest();
        }
        while 2 * first <= a
            invariant
                a <= 0x8000_0000,
                e <= 31,
                first == pow2(e as nat),
                unit == pow2((52 - e) as nat),
                0 < first <= a,
                first * unit == UNIT,
            decreases a - first,
        {
            proof {
                lemma_pow2_unfold((e + 1) as nat);
                lemma_pow2_unfold((52 - e) as nat);
                lemma_pow2_pos((51 - e) as nat);
                let half = pow2((51 - e) as nat) as int;
                assert((2 * first) * half == first * (2 * half)) by (nonlinear_arith);
                if e == 31 {
                    lemma2_to64();
                }
            }
            first = 2 * first;
            unit = unit / 2;
            e = e + 1;
        }
        proof {
            lemma_exponent_unique(a as nat, e as nat);
            lemma_pow2_pos((52 - e) as nat);
            assert(0 <= (a - first) * unit < first * unit) by (nonlinear_arith)
                requires
                    0 <= a - first < first,
                    unit > 0,
            ;
            assert((1023 + e) * UNIT <= 1054 * UNIT) by (nonlinear_arith)
                requires
                    e <= 31,
            ;
        }
        let digits: u64 = (a - first) * unit;
        let bits: u64 = (1023 + e) * UNIT + digits;
        if wide < 0 {
            Number { bits: SIGN + bits }
        } else {
            Number { bits }
        }
    }

    /// What is left of the number without the digits behind the point.
    pub fn truncated(self) -> (whole: i32)
        ensures
            whole == self.spec_truncated(),
    {
        let negative = self.bits >= SIGN;
        let magnitude: u64 = if negative {
            self.bits - SIGN
        } else {
            self.bits
        };
        if magnitude > 0x7FF0_0000_0000_0000 {
            return 0;
        }
        let e: u64 = magnitude / UNIT;
        let digits: u64 = magnitude % UNIT;
        if e < 1023 {
            return 0;
        }
        if e > 1053 {
            return if negative {
                i32::MIN
            } else {
                i32::MAX
            };
        }
        let places: u64 = 1075 - e;
        let all: u64 = UNIT + digits;
        let whole: u64 = all >> places;
        proof {
            vstd::bits::lemma_u64_shr_is_div(all, places);
            lemma_part_fits(all as int, places as nat);
        }
        if negative {
            -(whole as i32)
        } else {
            whole as i32
        }
    }
}

/// A number below two to the thirty-first has a whole part that fits.
proof fn lemma_part_fits(all: int, places: nat)
    requires
        0 <= all < 2 * UNIT,
        22 <= places <= 52,
    ensures
        0 <= all / pow2(places) as int <= i32::MAX,
{
    lemma2_to64();
    lemma_pow2_adds((places - 22) as nat, 22);
    lemma_pow2_pos((places - 22) as nat);
    let p = pow2(places) as int;
    let q = pow2((places - 22) as nat) as int;
    assert(p >= 0x40_0000) by (nonlinear_arith)
        requires
            p == q * 0x40_0000,
            q >= 1,
    ;
    assert(0 <= all / p <= 0x7FFF_FFFF) by (nonlinear_arith)
        requires
            0 <= all < 0x20_0000_0000_0000,
            p >= 0x40_0000,
    ;
}

/// A whole number comes back as it was.
pub proof fn law_whole_number_comes_back(x: i32)
    ensures
        0 <= whole_bits(x) <= u64::MAX,
        Number::spec_from_whole(x).spec_truncated() == x,
{
    let a = size(x as int);
    if a > 0 {
        let e = exponent(a as nat);
        lemma_exponent(a as nat);
        lemma2_to64();
        if e > 31 {
            lemma_pow2_strictly_increases(31, e);
        }
        let first = pow2(e) as int;
        let unit = pow2((52 - e) as nat) as int;
        lemma_pow2_adds(e, (52 - e) as nat);
        lemma_pow2_pos((52 - e) as nat);
        lemma2_to64_rest();
        assert(first * unit == UNIT);
        let digits = (a - first) * unit;
        assert(0 <= digits < first * unit) by (nonlinear_arith)
            requires
                digits == (a - first) * unit,
                0 <= a - first < first,
                unit > 0,
        ;
        assert(UNIT + digits == a * unit) by (nonlinear_arith)
            requires
                digits == (a - first) * unit,
                first * unit == UNIT,
        ;
        let magnitude = (1023 + e) * UNIT + digits;
        assert(magnitude / UNIT as int == 1023 + e && magnitude % UNIT as int == digits)
            by (nonlinear_arith)
            requires
                magnitude == (1023 + e) * UNIT + digits,
                0 <= digits < UNIT,
        ;
        assert((a * unit) / unit == a) by (nonlinear_arith)
            requires
                unit > 0,
        ;
        if e == 31 {
            assert(a == 0x8000_0000);
        }
    }
}

} // verus!
