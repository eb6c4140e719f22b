//! Numbers of the language: IEEE 754 binary64 values, held by their bit
//! pattern. Comparison, equality and negation are decided on the bits.
use vstd::prelude::*;

verus! {

/// The sign bit of a binary64 pattern.
pub const SIGN_BIT: u64 = 0x8000_0000_0000_0000;

/// All bits of a binary64 pattern but the sign.
pub const MAGNITUDE_BITS: u64 = 0x7fff_ffff_ffff_ffff;

/// The pattern of positive infinity: every exponent bit set, no fraction bit.
pub const INFINITY_BITS: u64 = 0x7ff0_0000_0000_0000;

/// The pattern without its sign bit.
pub open spec fn magnitude(bits: u64) -> u64 {
    bits & MAGNITUDE_BITS
}

/// Whether the sign bit is set.
pub open spec fn is_negative(bits: u64) -> bool {
    bits & SIGN_BIT != 0
}

/// Whether the pattern is a NaN: exponent all ones and a fraction that is not zero.
pub open spec fn is_nan(bits: u64) -> bool {
    magnitude(bits) > INFINITY_BITS
}

/// The place of a pattern that is no NaN on the number line: patterns of
/// larger numbers have larger ranks, and the two zeros share rank 0.
pub open spec fn rank(bits: u64) -> int {
    if is_negative(bits) {
        -(magnitude(bits) as int)
    } else {
        magnitude(bits) as int
    }
}

/// IEEE equality: a NaN equals nothing, the two zeros are equal.
pub open spec fn same_number(a: u64, b: u64) -> bool {
    !is_nan(a) && !is_nan(b) && rank(a) == rank(b)
}

/// IEEE `<`: false whenever a NaN takes part.
pub open spec fn less(a: u64, b: u64) -> bool {
    !is_nan(a) && !is_nan(b) && rank(a) < rank(b)
}

/// IEEE `<=`: false whenever a NaN takes part.
pub open spec fn less_or_same(a: u64, b: u64) -> bool {
    !is_nan(a) && !is_nan(b) && rank(a) <= rank(b)
}

/// The pattern with its sign bit flipped.
pub open spec fn negation(bits: u64) -> u64 {
    bits ^ SIGN_BIT
}

pub fn number_is_nan(bits: u64) -> (r: bool)
    ensures
        r == is_nan(bits),
{
    (bits & MAGNITUDE_BITS) > INFINITY_BITS
}

pub fn numbers_equal(a: u64, b: u64) -> (r: bool)
    ensures
        r == same_number(a, b),
{
    if number_is_nan(a) || number_is_nan(b) {
        return false;
    }
    let ma: u64 = a & MAGNITUDE_BITS;
    let mb: u64 = b & MAGNITUDE_BITS;
    let na: bool = (a & SIGN_BIT) != 0;
    let nb: bool = (b & SIGN_BIT) != 0;
    if na == nb {
        ma == mb
    } else {
        ma == 0 && mb == 0
    }
}

pub fn number_less(a: u64, b: u64) -> (r: bool)
    ensures
        r == less(a, b),
{
    if number_is_nan(a) || number_is_nan(b) {
        return false;
    }
    let ma: u64 = a & MAGNITUDE_BITS;
    let mb: u64 = b & MAGNITUDE_BITS;
    let na: bool = (a & SIGN_BIT) != 0;
    let nb: bool = (b & SIGN_BIT) != 0;
    if na {
        if nb {
            mb < ma
        } else {
            ma != 0 || mb != 0
        }
    } else {
        if nb {
            false
        } else {
            ma < mb
        }
    }
}

pub fn number_less_or_equal(a: u64, b: u64) -> (r: bool)
    ensures
        r == less_or_same(a, b),
{
    number_less(a, b) || numbers_equal(a, b)
}

pub fn number_negated(bits: u64) -> (r: u64)
    ensures
        r == negation(bits),
{
    bits ^ SIGN_BIT
}

/// Numbers are in order: of two that are no NaN, either one is less than
/// the other or they are the same number, and only one of the three holds.
/// `<=` is `<` or the same number.
pub proof fn numbers_are_ordered(a: u64, b: u64)
    ensures
        !is_nan(a) && !is_nan(b) ==> (less(a, b) || same_number(a, b) || less(b, a)),
        !(less(a, b) && same_number(a, b)),
        !(less(a, b) && less(b, a)),
        less_or_same(a, b) == (less(a, b) || same_number(a, b)),
        same_number(a, b) == same_number(b, a),
{
}

/// The order of numbers is transitive.
pub proof fn order_is_transitive(a: u64, b: u64, c: u64)
    ensures
        less(a, b) && less(b, c) ==> less(a, c),
        less_or_same(a, b) && less_or_same(b, c) ==> less_or_same(a, c),
        same_number(a, b) && same_number(b, c) ==> same_number(a, c),
{
}

/// Two patterns are the same number only where they are one pattern or the
/// two zeros.
pub proof fn same_number_means_same_bits(a: u64, b: u64)
    ensures
        same_number(a, b) ==> a == b || (magnitude(a) == 0 && magnitude(b) == 0),
{
    assert(a & 0x8000_0000_0000_0000u64 != 0 && b & 0x8000_0000_0000_0000u64 != 0 && a
        & 0x7fff_ffff_ffff_ffffu64 == b & 0x7fff_ffff_ffff_ffffu64 ==> a == b) by (bit_vector);
    assert(a & 0x8000_0000_0000_0000u64 == 0 && b & 0x8000_0000_0000_0000u64 == 0 && a
        & 0x7fff_ffff_ffff_ffffu64 == b & 0x7fff_ffff_ffff_ffffu64 ==> a == b) by (bit_vector);
}

/// Negation keeps the magnitude and flips the sign, so it mirrors the rank
/// and turns no number into a NaN.
pub proof fn negation_mirrors(bits: u64)
    ensures
        magnitude(negation(bits)) == magnitude(bits),
        is_negative(negation(bits)) == !is_negative(bits),
        is_nan(negation(bits)) == is_nan(bits),
        negation(negation(bits)) == bits,
        rank(negation(bits)) == -rank(bits),
{
    assert((bits ^ 0x8000_0000_0000_0000u64) & 0x7fff_ffff_ffff_ffffu64 == bits
        & 0x7fff_ffff_ffff_ffffu64) by (bit_vector);
    assert(((bits ^ 0x8000_0000_0000_0000u64) & 0x8000_0000_0000_0000u64 != 0) == !(bits
        & 0x8000_0000_0000_0000u64 != 0)) by (bit_vector);
    assert((bits ^ 0x8000_0000_0000_0000u64) ^ 0x8000_0000_0000_0000u64 == bits) by (bit_vector);
}

} // verus!
