//! Numbers of the machine.
//!
//! A number is an IEEE-754 double, carried as its 64 bits. The machine never
//! computes a sum or a product itself: arithmetic is the host's work. What it
//! does decide by itself is how two numbers compare, which is a plain function
//! of the two bit patterns.

use vstd::prelude::*;

verus! {

/// The bit that holds the sign.
pub const SIGN_BIT: u64 = 0x8000_0000_0000_0000;

/// The magnitude of an infinity: every exponent bit set, no fraction bit.
pub const INFINITY_MAGNITUDE: u64 = 0x7FF0_0000_0000_0000;

/// The bits of `x` without the sign.
pub open spec fn magnitude(x: u64) -> int {
    if x >= SIGN_BIT {
        x - SIGN_BIT
    } else {
        x as int
    }
}

/// Whether `x` is one of the bit patterns that are not a number.
pub open spec fn is_nan(x: u64) -> bool {
    magnitude(x) > INFINITY_MAGNITUDE
}

/// Where `x` stands on the number line, for every `x` that is a number:
/// the two zeros share a place, and a larger magnitude lies further out.
pub open spec fn rank(x: u64) -> int {
    if x >= SIGN_BIT {
        -magnitude(x)
    } else {
        magnitude(x)
    }
}

/// `a == b` as doubles compare: nothing equals a NaN, the two zeros are equal.
pub open spec fn number_eq(a: u64, b: u64) -> bool {
    !is_nan(a) && !is_nan(b) && rank(a) == rank(b)
}

/// `a < b` as doubles compare: a NaN is below nothing and nothing is below it.
pub open spec fn number_lt(a: u64, b: u64) -> bool {
    !is_nan(a) && !is_nan(b) && rank(a) < rank(b)
}

/// The bits of `x` without the sign.
pub fn magnitude_of(x: u64) -> (m: u64)
    ensures
        m == magnitude(x),
{
    if x >= SIGN_BIT {
        x - SIGN_BIT
    } else {
        x
    }
}

/// Whether `x` is not a number.
pub fn is_not_a_number(x: u64) -> (r: bool)
    ensures
        r == is_nan(x),
{
    magnitude_of(x) > INFINITY_MAGNITUDE
}

/// Compares two numbers for equality, as doubles.
pub fn numbers_equal(a: u64, b: u64) -> (r: bool)
    ensures
        r == number_eq(a, b),
{
    if is_not_a_number(a) || is_not_a_number(b) {
        false
    } else {
        let ma: u64 = magnitude_of(a);
        let mb: u64 = magnitude_of(b);
        ma == mb && (ma == 0 || (a >= SIGN_BIT) == (b >= SIGN_BIT))
    }
}

/// Decides `a < b`, as doubles.
pub fn number_less(a: u64, b: u64) -> (r: bool)
    ensures
        r == number_lt(a, b),
{
    if is_not_a_number(a) || is_not_a_number(b) {
        false
    } else {
        let ma: u64 = magnitude_of(a);
        let mb: u64 = magnitude_of(b);
        let a_negative: bool = a >= SIGN_BIT;
        let b_negative: bool = b >= SIGN_BIT;
        if a_negative {
            if b_negative {
                ma > mb
            } else {
                ma > 0 || mb > 0
            }
        } else {
            !b_negative && ma < mb
        }
    }
}

} // verus!
