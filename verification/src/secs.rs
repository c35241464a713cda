//! Timestamps in seconds, held as the bit pattern of an IEEE 754 double.
//!
//! Object paths carry their creation and expiry times as decimal seconds.
//! Whoever builds a value parses that text into a double and hands its bit
//! pattern here; the library orders and compares those patterns exactly as
//! the double values compare.

use vstd::prelude::*;

verus! {

/// 2^52: the unit of the exponent field.
pub const EXP_UNIT: u64 = 0x10_0000_0000_0000;

/// 2^63: the sign bit.
pub const SIGN_BIT: u64 = 0x8000_0000_0000_0000;

/// Bit pattern of `0.0`.
pub const ZERO: u64 = 0;

/// Bit pattern of `1.0`.
pub const ONE: u64 = 0x3ff0_0000_0000_0000;

/// Bit pattern of `10.0`.
pub const TEN: u64 = 0x4024_0000_0000_0000;

/// Bit pattern of `f64::MIN`.
pub const MIN: u64 = 0xffef_ffff_ffff_ffff;

/// Bit pattern of `f64::MAX`.
pub const MAX: u64 = 0x7fef_ffff_ffff_ffff;

/// The exponent field of a double.
pub open spec fn exponent(b: u64) -> int {
    ((b % SIGN_BIT) / EXP_UNIT) as int
}

/// The fraction field of a double.
pub open spec fn fraction(b: u64) -> int {
    (b % EXP_UNIT) as int
}

/// Not a number: all exponent bits set and a non-zero fraction.
pub open spec fn is_nan(b: u64) -> bool {
    exponent(b) == 2047 && fraction(b) != 0
}

/// Positive or negative zero.
pub open spec fn is_zero(b: u64) -> bool {
    b % SIGN_BIT == 0
}

/// The key of IEEE 754 total order (`f64::total_cmp`): negative values have
/// their bits reversed, positive ones get the top bit set.
pub open spec fn total_key(b: u64) -> int {
    if b >= SIGN_BIT {
        u64::MAX - b
    } else {
        b + SIGN_BIT
    }
}

/// `a < b` on the doubles that `a` and `b` encode.
pub open spec fn lt(a: u64, b: u64) -> bool {
    !is_nan(a) && !is_nan(b) && !(is_zero(a) && is_zero(b)) && total_key(a) < total_key(b)
}

/// `a == b` on the doubles that `a` and `b` encode.
pub open spec fn eq(a: u64, b: u64) -> bool {
    !is_nan(a) && !is_nan(b) && (a == b || (is_zero(a) && is_zero(b)))
}

/// `a <= b` on the doubles that `a` and `b` encode.
pub open spec fn le(a: u64, b: u64) -> bool {
    lt(a, b) || eq(a, b)
}

/// Total order key of a bit pattern.
pub fn order_key(b: u64) -> (k: u64)
    ensures
        k == total_key(b),
{
    if b >= SIGN_BIT {
        u64::MAX - b
    } else {
        b + SIGN_BIT
    }
}

/// Tests for not-a-number.
pub fn nan(b: u64) -> (r: bool)
    ensures
        r == is_nan(b),
{
    (b % SIGN_BIT) / EXP_UNIT == 2047 && b % EXP_UNIT != 0
}

/// Tests for positive or negative zero.
pub fn zero(b: u64) -> (r: bool)
    ensures
        r == is_zero(b),
{
    b % SIGN_BIT == 0
}

/// Double `a < b`.
pub fn less(a: u64, b: u64) -> (r: bool)
    ensures
        r == lt(a, b),
{
    !nan(a) && !nan(b) && !(zero(a) && zero(b)) && order_key(a) < order_key(b)
}

/// Double `a == b`.
pub fn equal(a: u64, b: u64) -> (r: bool)
    ensures
        r == eq(a, b),
{
    !nan(a) && !nan(b) && (a == b || (zero(a) && zero(b)))
}

/// Double `a <= b`.
pub fn less_eq(a: u64, b: u64) -> (r: bool)
    ensures
        r == le(a, b),
{
    less(a, b) || equal(a, b)
}

/// Distinct bit patterns have distinct total order keys.
pub proof fn lemma_total_key_injective(a: u64, b: u64)
    ensures
        total_key(a) == total_key(b) ==> a == b,
        0 <= total_key(a) <= u64::MAX,
{
}

} // verus!
