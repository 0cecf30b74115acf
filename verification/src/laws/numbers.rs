//! The order of numbers.
use vstd::arithmetic::power2::{lemma2_to64, lemma2_to64_rest, lemma_pow2_adds, lemma_pow2_pos};
use vstd::arithmetic::power2::{lemma_pow2_strictly_increases, lemma_pow2_unfold, pow2};
use vstd::prelude::*;

use crate::number::whole;
use crate::number::Number;

verus! {

/// Numbers above zero are in the order of their bits, and a number below zero is below
/// all of them.
pub proof fn law_numbers_are_in_order(a: Number, b: Number)
    ensures
        a.bits < b.bits <= 0x7FF0_0000_0000_0000 ==> a.below(b) && !b.below(a),
        0x8000_0000_0000_0000 < a.bits <= 0xFFF0_0000_0000_0000 && b.bits
            <= 0x7FF0_0000_0000_0000 ==> a.below(b) && !b.below(a),
        a.below(b) ==> a.at_most(b) && !b.at_most(a) && !a.same(b),
        !a.is_nan() && !b.is_nan() ==> a.below(b) || b.below(a) || a.same(b),
        a.is_nan() || b.is_nan() ==> !a.below(b) && !a.at_most(b),
{
    let (x, y) = (a.bits, b.bits);
    assert(x < 0x8000_0000_0000_0000 ==> x & 0x7FFF_FFFF_FFFF_FFFF == x) by (bit_vector);
    assert(y < 0x8000_0000_0000_0000 ==> y & 0x7FFF_FFFF_FFFF_FFFF == y) by (bit_vector);
    assert(x >= 0x8000_0000_0000_0000 ==> x & 0x7FFF_FFFF_FFFF_FFFF == x - 0x8000_0000_0000_0000)
        by (bit_vector);
}

/// The other sign turns the order round, and turns back into itself.
pub proof fn law_other_sign_turns_the_order_round(a: Number, b: Number)
    ensures
        a.spec_negated().spec_negated() == a,
        a.below(b) ==> b.spec_negated().below(a.spec_negated()),
        a.spec_abs() == a.spec_negated().spec_abs(),
{
    let (x, y) = (a.bits, b.bits);
    assert((x ^ 0x8000_0000_0000_0000) ^ 0x8000_0000_0000_0000 == x) by (bit_vector);
    assert((x ^ 0x8000_0000_0000_0000) & 0x7FFF_FFFF_FFFF_FFFF == x & 0x7FFF_FFFF_FFFF_FFFF)
        by (bit_vector);
    assert((y ^ 0x8000_0000_0000_0000) & 0x7FFF_FFFF_FFFF_FFFF == y & 0x7FFF_FFFF_FFFF_FFFF)
        by (bit_vector);
    assert(x < 0x8000_0000_0000_0000 <==> (x ^ 0x8000_0000_0000_0000) >= 0x8000_0000_0000_0000)
        by (bit_vector);
    assert(y < 0x8000_0000_0000_0000 <==> (y ^ 0x8000_0000_0000_0000) >= 0x8000_0000_0000_0000)
        by (bit_vector);
}

/// A number that is moved between two others is the nearer of them where it is outside,
/// and itself where it is not.
pub proof fn law_clamped_number_is_nearest(x: Number, low: Number, high: Number)
    requires
        low.at_most(high),
    ensures
        x.below(low) ==> x.spec_clamp(low, high) == low,
        high.below(x) ==> x.spec_clamp(low, high) == high,
        low.at_most(x) && x.at_most(high) ==> x.spec_clamp(low, high) == x,
{
}

/// The digits behind the first are worth less than one more of it.
proof fn lemma_digits_are_less(a: nat)
    requires
        0 < a <= 0x8000_0000,
    ensures
        whole::exponent(a) <= 31,
        0 <= (a - pow2(whole::exponent(a))) * pow2((52 - whole::exponent(a)) as nat),
        (a - pow2(whole::exponent(a))) * pow2((52 - whole::exponent(a)) as nat)
            < 0x10_0000_0000_0000,
{
    let e = whole::exponent(a);
    whole::lemma_exponent(a);
    lemma2_to64();
    lemma2_to64_rest();
    if e > 31 {
        lemma_pow2_strictly_increases(31, e);
    }
    lemma_pow2_adds(e, (52 - e) as nat);
    lemma_pow2_pos((52 - e) as nat);
    let (p, q, d) = (pow2(e) as int, pow2((52 - e) as nat) as int, a - pow2(e));
    assert(d * q < p * q) by (nonlinear_arith)
        requires
            d < p,
            q > 0,
    ;
    assert(0 <= d * q) by (nonlinear_arith)
        requires
            d >= 0,
            q > 0,
    ;
}

/// The bits of a larger natural number are larger.
proof fn lemma_bits_rise(a: nat, b: nat)
    requires
        0 < a < b <= 0x8000_0000,
    ensures
        ({
            let (e, f) = (whole::exponent(a), whole::exponent(b));
            (1023 + e) * 0x10_0000_0000_0000 + (a - pow2(e)) * pow2((52 - e) as nat) < (1023 + f)
                * 0x10_0000_0000_0000 + (b - pow2(f)) * pow2((52 - f) as nat)
        }),
{
    let (e, f) = (whole::exponent(a), whole::exponent(b));
    lemma_digits_are_less(a);
    lemma_digits_are_less(b);
    whole::lemma_exponent(a);
    whole::lemma_exponent(b);
    if e > f {
        lemma_pow2_unfold((f + 1) as nat);
        if e > f + 1 {
            lemma_pow2_strictly_increases((f + 1) as nat, e);
        }
    }
    if e == f {
        let q = pow2((52 - e) as nat) as int;
        lemma_pow2_pos((52 - e) as nat);
        let (x, y) = (a - pow2(e), b - pow2(e));
        assert(x * q < y * q) by (nonlinear_arith)
            requires
                x < y,
                q > 0,
        ;
    }
}

/// Whole numbers keep their order as floating point numbers.
pub proof fn law_whole_numbers_keep_their_order(a: i32, b: i32)
    requires
        0 <= a < b,
    ensures
        Number::spec_from_whole(a).below(Number::spec_from_whole(b)),
{
    whole::law_whole_number_comes_back(a);
    whole::law_whole_number_comes_back(b);
    lemma_digits_are_less(b as nat);
    if a > 0 {
        lemma_bits_rise(a as nat, b as nat);
    }
    law_numbers_are_in_order(Number::spec_from_whole(a), Number::spec_from_whole(b));
}

} // verus!
