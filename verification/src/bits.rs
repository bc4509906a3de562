//! Single-precision numbers carried as their bits, and the few questions that can be answered of
//! one by looking at them.

use vstd::prelude::*;

verus! {

/// The bits of the number one.
pub const ONE: u32 = 0x3f80_0000;

/// The bit that makes a number negative, which alone is negative zero.
pub const SIGN: u32 = 0x8000_0000;

/// The bits of infinity: past these, and without the sign, a number is none.
pub const INFINITY: u32 = 0x7f80_0000;

/// The bits of negative infinity: past these and with the sign set, a number is none.
pub const NEGATIVE_INFINITY: u32 = 0xff80_0000;

/// Whether the number equals zero, of either sign.
pub open spec fn is_zero(bits: u32) -> bool {
    bits == 0 || bits == SIGN
}

/// Whether the number is less than one.
pub open spec fn is_below_one(bits: u32) -> bool {
    if bits >= SIGN {
        bits <= NEGATIVE_INFINITY
    } else {
        bits < ONE
    }
}

/// Whether the number is zero or more.
pub open spec fn is_at_least_zero(bits: u32) -> bool {
    bits <= INFINITY || bits == SIGN
}

/// Whether the two are the same number, zeros of either sign being so and what is no number never.
pub open spec fn same_number(one: u32, two: u32) -> bool {
    ||| is_zero(one) && is_zero(two)
    ||| one == two && (one <= INFINITY || SIGN <= one <= NEGATIVE_INFINITY)
}

/// The number with both zeros made the same.
pub open spec fn one_zero(bits: u32) -> u32 {
    if is_zero(bits) {
        0
    } else {
        bits
    }
}

/// The number with its sign inverted.
pub open spec fn negated(bits: u32) -> u32 {
    if bits >= SIGN {
        (bits - SIGN) as u32
    } else {
        (bits + SIGN) as u32
    }
}

/// Whether the number equals zero, of either sign.
pub fn zero(bits: u32) -> (answer: bool)
    ensures
        answer == is_zero(bits),
{
    bits == 0 || bits == SIGN
}

/// Whether the number is less than one.
pub fn below_one(bits: u32) -> (answer: bool)
    ensures
        answer == is_below_one(bits),
{
    if bits >= SIGN {
        bits <= NEGATIVE_INFINITY
    } else {
        bits < ONE
    }
}

/// Whether the number is zero or more.
pub fn at_least_zero(bits: u32) -> (answer: bool)
    ensures
        answer == is_at_least_zero(bits),
{
    bits <= INFINITY || bits == SIGN
}

/// Whether the two are the same number.
pub fn equal(one: u32, two: u32) -> (answer: bool)
    ensures
        answer == same_number(one, two),
{
    (zero(one) && zero(two)) || (one == two && (one <= INFINITY || (SIGN <= one && one
        <= NEGATIVE_INFINITY)))
}

/// The number with both zeros made the same.
pub fn normalize(bits: u32) -> (same: u32)
    ensures
        same == one_zero(bits),
{
    if zero(bits) {
        0
    } else {
        bits
    }
}

/// The number with its sign inverted.
pub fn negate(bits: u32) -> (other: u32)
    ensures
        other == negated(bits),
{
    if bits >= SIGN {
        bits - SIGN
    } else {
        bits + SIGN
    }
}

/// Which patterns are zero: the one without any bit, and the one with the sign alone. A number and
/// its negation are zero together, and of all others neither is.
pub proof fn law_zeros_differ_by_their_sign(bits: u32)
    ensures
        is_zero(bits) <==> bits % 0x8000_0000 == 0,
        is_zero(bits) == is_zero(negated(bits)),
{
}

/// Inverting the sign moves a number to the other half of the patterns and keeps its magnitude, so
/// it is never nothing and twice is nothing.
pub proof fn law_negation_keeps_the_magnitude(bits: u32)
    ensures
        negated(bits) % 0x8000_0000 == bits % 0x8000_0000,
        bits < 0x8000_0000 <==> negated(bits) >= 0x8000_0000,
        negated(negated(bits)) == bits,
{
}

/// Numbers without a sign are ordered as their bits, and one with a sign is below all of them: what
/// is below one is so with every smaller number, and one itself is not. What is no number is not.
pub proof fn law_below_one_is_an_order(bits: u32, smaller: u32)
    ensures
        bits < 0x8000_0000 ==> (is_below_one(bits) <==> bits < 0x3f80_0000),
        0x8000_0000 <= bits <= 0xff80_0000 ==> is_below_one(bits),
        bits > 0xff80_0000 ==> !is_below_one(bits),
        smaller <= bits < 0x8000_0000 && is_below_one(bits) ==> is_below_one(smaller),
{
}

/// A number is zero or more, its negation is, or neither is a number; both are for zero alone.
pub proof fn law_signs_part_the_numbers(bits: u32)
    ensures
        is_at_least_zero(bits) && is_at_least_zero(negated(bits)) <==> is_zero(bits),
        is_at_least_zero(bits) || is_at_least_zero(negated(bits)) <==> bits % 0x8000_0000
            <= 0x7f80_0000,
        bits < 0x8000_0000 && is_at_least_zero(bits) <==> bits <= 0x7f80_0000,
{
}

/// Being the same number is an equivalence among numbers: what is no number is not even the same as
/// itself, zeros are the same whatever their sign, and any other number is the same as itself
/// alone.
pub proof fn law_same_number_is_an_equivalence(one: u32, two: u32, three: u32)
    ensures
        same_number(one, one) <==> one % 0x8000_0000 <= 0x7f80_0000,
        same_number(one, two) == same_number(two, one),
        same_number(one, two) && same_number(two, three) ==> same_number(one, three),
        same_number(one, two) && one != two ==> is_zero(one) && is_zero(two),
        is_zero(one) && is_zero(two) ==> same_number(one, two),
{
}

/// Making both zeros the same changes nothing else: two patterns become one exactly where they were
/// one or both are zero, and doing it twice does no more.
pub proof fn law_one_zero_joins_only_zeros(one: u32, two: u32)
    ensures
        one_zero(one) == one_zero(two) <==> one == two || (is_zero(one) && is_zero(two)),
        one_zero(one_zero(one)) == one_zero(one),
        one % 0x8000_0000 != 0 ==> one_zero(one) == one,
        is_zero(one) ==> one_zero(one) == 0,
{
}

} // verus!
