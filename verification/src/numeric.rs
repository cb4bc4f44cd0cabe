//! Bit-level view of IEEE-754 double-precision numbers.
//!
//! The calculator carries every number as the 64-bit pattern of a double.
//! The format fixes what a pattern means — sign bit, 11 exponent bits, 52
//! fraction bits — so the tests the evaluator needs (is the value zero,
//! negative, NaN, infinite, an integer, above the factorial bound) are pure
//! functions of the pattern and are computed and verified here, without any
//! floating-point arithmetic.

use vstd::prelude::*;

verus! {

/// Mask of the sign bit.
pub const SIGN_MASK: u64 = 0x8000_0000_0000_0000;

/// Mask of everything but the sign bit: the magnitude.
pub const MAGNITUDE_MASK: u64 = 0x7FFF_FFFF_FFFF_FFFF;

/// Mask of the 52 fraction bits.
pub const FRACTION_MASK: u64 = 0x000F_FFFF_FFFF_FFFF;

/// The biased exponent field of an all-ones exponent: NaN or infinity.
pub const EXPONENT_SPECIAL: u64 = 0x7FF;

/// Bit pattern of the double closest to the circle constant pi.
pub const F64_PI_BITS: u64 = 0x4009_21FB_5444_2D18;

/// Bit pattern of the double closest to Euler's number e.
pub const F64_E_BITS: u64 = 0x4005_BF0A_8B14_5769;

/// Bit pattern of the double 170.0, the largest factorial argument whose
/// factorial is a finite double.
pub const F64_170_BITS: u64 = 0x4065_4000_0000_0000;

/// The biased exponent field of a pattern.
pub open spec fn spec_exponent_field(b: u64) -> u64 {
    (b >> 52) & 0x7FF
}

/// The fraction field of a pattern.
pub open spec fn spec_fraction_field(b: u64) -> u64 {
    b & FRACTION_MASK
}

/// Whether the pattern denotes positive or negative zero.
pub open spec fn spec_is_zero(b: u64) -> bool {
    b & MAGNITUDE_MASK == 0
}

/// Whether the pattern denotes a NaN.
pub open spec fn spec_is_nan(b: u64) -> bool {
    spec_exponent_field(b) == EXPONENT_SPECIAL && spec_fraction_field(b) != 0
}

/// Whether the pattern denotes positive or negative infinity.
pub open spec fn spec_is_infinite(b: u64) -> bool {
    spec_exponent_field(b) == EXPONENT_SPECIAL && spec_fraction_field(b) == 0
}

/// Whether the pattern denotes a value strictly below zero. Negative zero
/// and NaN are not below zero.
pub open spec fn spec_is_negative(b: u64) -> bool {
    b & SIGN_MASK != 0 && !spec_is_zero(b) && !spec_is_nan(b)
}

/// Whether the pattern denotes a finite value with no fractional part.
/// NaN and the infinities do not count; both zeros do. A finite value is an
/// integer exactly when its biased exponent reaches 1075 (every mantissa bit
/// then weighs at least one) or the fraction bits below the ones place are
/// all zero.
pub open spec fn spec_is_integer(b: u64) -> bool {
    if spec_exponent_field(b) == EXPONENT_SPECIAL {
        false
    } else if spec_is_zero(b) {
        true
    } else if spec_exponent_field(b) >= 1075 {
        true
    } else if spec_exponent_field(b) < 1023 {
        false
    } else {
        spec_fraction_field(b) & low_bits_mask_u64(((1075 - spec_exponent_field(b) as int)) as u64)
            == 0
    }
}

/// A mask of the lowest `k` bits, for `k` at most 63.
pub open spec fn low_bits_mask_u64(k: u64) -> u64
    recommends
        k < 64,
{
    (((1u64 << k) as int) - 1) as u64
}

/// The numeric value of a pattern that denotes a non-negative integer small
/// enough for its mantissa shift to stay in range (at most 2^52).
pub open spec fn spec_small_int(b: u64) -> u64
    recommends
        spec_is_integer(b),
        !spec_is_negative(b),
        spec_exponent_field(b) <= 1075,
{
    if spec_is_zero(b) {
        0
    } else {
        ((1u64 << 52) | spec_fraction_field(b)) >> (((1075 - spec_exponent_field(b) as int)) as u64)
    }
}

/// Whether the pattern denotes positive or negative zero.
pub fn is_zero_bits(b: u64) -> (r: bool)
    ensures
        r == spec_is_zero(b),
{
    b & MAGNITUDE_MASK == 0
}

/// Whether the pattern denotes a NaN.
pub fn is_nan_bits(b: u64) -> (r: bool)
    ensures
        r == spec_is_nan(b),
{
    (b >> 52) & 0x7FF == EXPONENT_SPECIAL && b & FRACTION_MASK != 0
}

/// Whether the pattern denotes positive or negative infinity.
pub fn is_infinite_bits(b: u64) -> (r: bool)
    ensures
        r == spec_is_infinite(b),
{
    (b >> 52) & 0x7FF == EXPONENT_SPECIAL && b & FRACTION_MASK == 0
}

/// Whether the pattern denotes a value strictly below zero.
pub fn is_negative_bits(b: u64) -> (r: bool)
    ensures
        r == spec_is_negative(b),
{
    b & SIGN_MASK != 0 && !is_zero_bits(b) && !is_nan_bits(b)
}

/// Whether the pattern denotes a finite value with no fractional part.
pub fn is_integer_bits(b: u64) -> (r: bool)
    ensures
        r == spec_is_integer(b),
{
    let exponent: u64 = (b >> 52) & 0x7FF;
    if exponent == EXPONENT_SPECIAL {
        false
    } else if b & MAGNITUDE_MASK == 0 {
        true
    } else if exponent >= 1075 {
        true
    } else if exponent < 1023 {
        false
    } else {
        let k: u64 = 1075 - exponent;
        proof {
            assert(1u64 << k >= 1) by (bit_vector)
                requires
                    k <= 52,
            ;
        }
        (b & FRACTION_MASK) & ((1u64 << k) - 1) == 0
    }
}

/// Whether the magnitude of the pattern exceeds 170.0. For a value that is
/// not negative and not NaN this is exactly the comparison against 170.0,
/// because non-negative doubles order as their bit patterns do.
pub fn exceeds_factorial_bound(b: u64) -> (r: bool)
    ensures
        r == (b & MAGNITUDE_MASK > F64_170_BITS),
{
    b & MAGNITUDE_MASK > F64_170_BITS
}

/// The numeric value of a pattern that denotes a non-negative integer of at
/// most 170: the mantissa shifted down to the ones place.
pub fn small_int_of_bits(b: u64) -> (n: u64)
    requires
        spec_is_integer(b),
        !spec_is_negative(b),
        b & MAGNITUDE_MASK <= F64_170_BITS,
    ensures
        n == spec_small_int(b),
        n <= 170,
{
    if b & MAGNITUDE_MASK == 0 {
        0
    } else {
        let exponent: u64 = (b >> 52) & 0x7FF;
        assert(b & 0x8000_0000_0000_0000 == 0 && 1023 <= exponent <= 1030) by (bit_vector)
            requires
                b & 0x7FFF_FFFF_FFFF_FFFF != 0,
                b & 0x7FFF_FFFF_FFFF_FFFF <= 0x4065_4000_0000_0000,
                !(b & 0x8000_0000_0000_0000 != 0 && !(b & 0x7FFF_FFFF_FFFF_FFFF == 0) && !((b
                    >> 52) & 0x7FF == 0x7FF && b & 0x000F_FFFF_FFFF_FFFF != 0)),
                exponent == (b >> 52) & 0x7FF,
                !((b >> 52) & 0x7FF == 0x7FF),
                !((b >> 52) & 0x7FF < 1023 && b & 0x7FFF_FFFF_FFFF_FFFF != 0),
        ;
        let shift: u64 = 1075 - exponent;
        let n: u64 = ((1u64 << 52) | (b & FRACTION_MASK)) >> shift;
        assert(n <= 170) by (bit_vector)
            requires
                n == ((1u64 << 52) | (b & 0x000F_FFFF_FFFF_FFFF)) >> shift,
                shift + exponent == 1075,
                exponent == (b >> 52) & 0x7FF,
                b & 0x7FFF_FFFF_FFFF_FFFF <= 0x4065_4000_0000_0000,
                b & 0x8000_0000_0000_0000 == 0,
                1023 <= exponent <= 1030,
        ;
        n
    }
}

} // verus!
