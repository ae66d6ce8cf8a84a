//! Numbers are IEEE-754 doubles, held as their 64-bit patterns: one sign bit,
//! eleven exponent bits, fifty-two fraction bits. This module reads such a
//! pattern: whether it is zero or not a number, how two of them compare, and
//! whether one has a fractional part. It never rounds.
use vstd::prelude::*;

verus! {

/// The sign bit of a pattern.
pub const SIGN: u64 = 0x8000_0000_0000_0000;

/// The pattern of positive infinity: every pattern whose magnitude is above it
/// is not a number.
pub const INFINITY: u64 = 0x7ff0_0000_0000_0000;

/// The pattern of the number one.
pub const ONE: u64 = 0x3ff0_0000_0000_0000;

/// The pattern of positive zero.
pub const ZERO: u64 = 0;

/// The value of the lowest exponent bit.
pub const FRACTION_RANGE: u64 = 0x0010_0000_0000_0000;

/// The pattern without its sign bit.
pub open spec fn magnitude(bits: u64) -> u64 {
    if bits >= SIGN {
        (bits - SIGN) as u64
    } else {
        bits
    }
}

/// Whether the sign bit is set.
pub open spec fn negative(bits: u64) -> bool {
    bits >= SIGN
}

/// Not a number: the exponent is all ones and the fraction is not zero.
pub open spec fn nan(bits: u64) -> bool {
    magnitude(bits) > INFINITY
}

/// Positive or negative zero.
pub open spec fn zero(bits: u64) -> bool {
    magnitude(bits) == 0
}

/// Where a number that is not NaN stands among the others: doubles of one
/// sign are ordered as their magnitudes are, and the two zeros fall together.
pub open spec fn rank(bits: u64) -> int {
    if negative(bits) {
        -(magnitude(bits) as int)
    } else {
        magnitude(bits) as int
    }
}

/// Numeric equality: NaN equals nothing, the two zeros equal each other.
pub open spec fn equal(a: u64, b: u64) -> bool {
    !nan(a) && !nan(b) && rank(a) == rank(b)
}

/// Numeric order: false whenever either side is NaN.
pub open spec fn less(a: u64, b: u64) -> bool {
    !nan(a) && !nan(b) && rank(a) < rank(b)
}

/// The number with its sign changed, NaN included.
pub open spec fn negated(bits: u64) -> u64 {
    if bits >= SIGN {
        (bits - SIGN) as u64
    } else {
        (bits + SIGN) as u64
    }
}

/// The biased exponent, from 0 to 2047.
pub open spec fn exponent(bits: u64) -> u64 {
    magnitude(bits) / FRACTION_RANGE
}

/// The fifty-two fraction bits.
pub open spec fn fraction(bits: u64) -> u64 {
    magnitude(bits) % FRACTION_RANGE
}

/// Whether a number differs from the nearest whole number. Infinities and NaN
/// do not: their difference from themselves is not a positive number.
/// A finite number below one in magnitude does unless it is zero; one with an
/// exponent of 1075 or more has no fraction bits below the unit; between
/// them the `1075 - exponent` low bits of the fraction lie below the unit.
pub open spec fn fractional(bits: u64) -> bool {
    let e = exponent(bits);
    if e < 1023 {
        !zero(bits)
    } else if e >= 1075 {
        false
    } else {
        fraction(bits) % low_range(e) != 0
    }
}

/// For an exponent from 1023 to 1074, two to the number of fraction bits that
/// lie below the unit.
pub open spec fn low_range(e: u64) -> u64
    recommends
        1023 <= e < 1075,
{
    1u64 << ((1075 - e) as u64)
}

/// Whether the pattern is not a number.
pub fn is_nan(bits: u64) -> (r: bool)
    ensures
        r == nan(bits),
{
    abs(bits) > INFINITY
}

/// Whether the number is positive or negative zero.
pub fn is_zero(bits: u64) -> (r: bool)
    ensures
        r == zero(bits),
{
    abs(bits) == 0
}

/// Clears the sign bit.
pub fn abs(bits: u64) -> (r: u64)
    ensures
        r == magnitude(bits),
        r < SIGN,
{
    if bits >= SIGN {
        bits - SIGN
    } else {
        bits
    }
}

/// Flips the sign bit.
pub fn negate(bits: u64) -> (r: u64)
    ensures
        r == negated(bits),
{
    if bits >= SIGN {
        bits - SIGN
    } else {
        bits + SIGN
    }
}

/// Whether two numbers are equal as doubles are.
pub fn eq(a: u64, b: u64) -> (r: bool)
    ensures
        r == equal(a, b),
{
    if is_nan(a) || is_nan(b) {
        false
    } else if a == b {
        true
    } else {
        is_zero(a) && is_zero(b)
    }
}

/// Whether the first number is less than the second.
pub fn lt(a: u64, b: u64) -> (r: bool)
    ensures
        r == less(a, b),
{
    if is_nan(a) || is_nan(b) {
        return false;
    }
    let x = abs(a);
    let y = abs(b);
    if a >= SIGN {
        if b >= SIGN {
            y < x
        } else {
            x != 0 || y != 0
        }
    } else {
        if b >= SIGN {
            false
        } else {
            x < y
        }
    }
}

/// Whether the first number is greater than the second.
pub fn gt(a: u64, b: u64) -> (r: bool)
    ensures
        r == less(b, a),
{
    lt(b, a)
}

/// Whether the number differs from the nearest whole number.
pub fn has_fraction(bits: u64) -> (r: bool)
    ensures
        r == fractional(bits),
{
    let m = abs(bits);
    let e = m / FRACTION_RANGE;
    if e < 1023 {
        m != 0
    } else if e >= 1075 {
        false
    } else {
        let f = m % FRACTION_RANGE;
        let shift: u64 = 1075 - e;
        let range: u64 = 1u64 << shift;
        assert(range != 0) by (bit_vector)
            requires
                1 <= shift <= 52,
                range == 1u64 << shift,
        ;
        f % range != 0
    }
}

/// Negating twice gives the number back, and negating changes neither whether
/// a number is NaN or zero, nor whether it has a fractional part.
pub proof fn lemma_negate(bits: u64)
    ensures
        negated(negated(bits)) == bits,
        magnitude(negated(bits)) == magnitude(bits),
        negative(negated(bits)) == !negative(bits),
        nan(negated(bits)) == nan(bits),
        zero(negated(bits)) == zero(bits),
        fractional(negated(bits)) == fractional(bits),
{
}

/// Numeric equality and order fit together: of two numbers neither of which
/// is NaN exactly one of less, equal and greater holds; equality is symmetric;
/// order is transitive and never holds of a number and itself.
pub proof fn lemma_order(a: u64, b: u64, c: u64)
    ensures
        !nan(a) && !nan(b) ==> (less(a, b) || equal(a, b) || less(b, a)),
        !(less(a, b) && equal(a, b)),
        !(less(a, b) && less(b, a)),
        equal(a, b) == equal(b, a),
        less(a, b) && less(b, c) ==> less(a, c),
        !less(a, a),
        equal(a, a) == !nan(a),
        nan(a) ==> !equal(a, b) && !less(a, b) && !less(b, a),
{
}

} // verus!
