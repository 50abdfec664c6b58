//! The mathematical model of binary32 numbers.
//!
//! A finite number with bit pattern `b` stands for the rational
//! `value(b) / 2^149`: every finite binary32 number is a whole multiple of
//! the smallest subnormal, `2^-149`, which is the unit of this module.
//! Results of arithmetic are defined by rounding an exact rational, given as
//! a numerator and a denominator in that unit, to the nearest representable
//! magnitude, ties going to the even significand.

use vstd::prelude::*;
use vstd::arithmetic::power2::pow2;

verus! {

/// The sign bit of a bit pattern.
pub const SIGN_BIT: u32 = 0x8000_0000;

/// The bit pattern of positive infinity.
pub const INF_BITS: u32 = 0x7f80_0000;

/// The bit pattern of the quiet NaN that every invalid operation returns.
pub const NAN_BITS: u32 = 0x7fc0_0000;

/// The weight of the implicit leading bit of a normal significand.
pub const HIDDEN_BIT: u32 = 0x80_0000;

/// Whether the sign bit is set.
pub open spec fn is_negative(b: u32) -> bool {
    b >= SIGN_BIT
}

/// The bit pattern with its sign bit cleared.
pub open spec fn abs_bits(b: u32) -> nat {
    if b >= SIGN_BIT {
        (b - SIGN_BIT) as nat
    } else {
        b as nat
    }
}

/// Whether the bit pattern stands for no number.
pub open spec fn is_nan(b: u32) -> bool {
    abs_bits(b) > INF_BITS
}

/// Whether the bit pattern stands for an infinity.
pub open spec fn is_infinite(b: u32) -> bool {
    abs_bits(b) == INF_BITS
}

/// Whether the bit pattern stands for a number other than an infinity.
pub open spec fn is_finite(b: u32) -> bool {
    abs_bits(b) < INF_BITS
}

/// Whether the bit pattern stands for one of the two zeros.
pub open spec fn is_zero(b: u32) -> bool {
    abs_bits(b) == 0
}

/// The integer significand: the fraction field, with the implicit bit for a
/// normal number.
pub open spec fn significand(b: u32) -> nat {
    let a = abs_bits(b);
    if a < HIDDEN_BIT {
        a
    } else {
        (HIDDEN_BIT + a % (HIDDEN_BIT as nat)) as nat
    }
}

/// The power of two by which the significand is scaled, in the unit `2^-149`.
pub open spec fn scale(b: u32) -> nat {
    let a = abs_bits(b);
    if a < HIDDEN_BIT {
        0
    } else {
        (a / (HIDDEN_BIT as nat) - 1) as nat
    }
}

/// The absolute value in the unit `2^-149`. For an infinity this gives
/// `2^277`, above every finite magnitude.
pub open spec fn magnitude(b: u32) -> nat {
    significand(b) * pow2(scale(b))
}

/// The signed value in the unit `2^-149`.
pub open spec fn value(b: u32) -> int {
    if is_negative(b) {
        -(magnitude(b) as int)
    } else {
        magnitude(b) as int
    }
}

/// Puts a sign on a magnitude's bit pattern.
pub open spec fn with_sign(negative: bool, abs: nat) -> u32 {
    if negative {
        (abs + SIGN_BIT) as u32
    } else {
        abs as u32
    }
}

/// The exponent of the spacing of representable numbers around `num / den`:
/// the least `j` with `num / den < 2^(24 + j)`.
pub open spec fn quantum(num: nat, den: nat) -> nat
    decreases
        (if den > 0 && num >= 0x100_0000 * den {
            num - 0x100_0000 * den + 1
        } else {
            0
        }),
{
    if den > 0 && num >= 0x100_0000 * den {
        1 + quantum(num, 2 * den)
    } else {
        0
    }
}

/// The integer nearest to `num / den`, the even one of two equally near.
pub open spec fn nearest_even(num: nat, den: nat) -> nat {
    let q = num / den;
    let r = num % den;
    if 2 * r > den || (2 * r == den && q % 2 == 1) {
        q + 1
    } else {
        q
    }
}

/// The bit pattern of the magnitude nearest to `num / den`, ties to even;
/// infinity where that lies beyond the largest finite number.
pub open spec fn round_magnitude(num: nat, den: nat) -> nat {
    let j = quantum(num, den);
    let b = j * 0x80_0000 + nearest_even(num, den * pow2(j));
    if b >= INF_BITS {
        INF_BITS as nat
    } else {
        b
    }
}

/// The bit pattern with its sign bit flipped.
pub open spec fn negated_bits(b: u32) -> u32 {
    with_sign(!is_negative(b), abs_bits(b))
}

/// `a < b` as IEEE 754 orders numbers: false where either is NaN.
#[verifier::opaque]
pub open spec fn less_bits(a: u32, b: u32) -> bool {
    !is_nan(a) && !is_nan(b) && value(a) < value(b)
}

/// `a == b` as IEEE 754 compares numbers: false where either is NaN, and
/// true of the two zeros.
#[verifier::opaque]
pub open spec fn equal_bits(a: u32, b: u32) -> bool {
    !is_nan(a) && !is_nan(b) && value(a) == value(b)
}

/// The sum, correctly rounded.
#[verifier::opaque]
pub open spec fn sum_bits(a: u32, b: u32) -> u32 {
    if is_nan(a) || is_nan(b) {
        NAN_BITS
    } else if is_infinite(a) {
        if is_infinite(b) && is_negative(a) != is_negative(b) {
            NAN_BITS
        } else {
            a
        }
    } else if is_infinite(b) {
        b
    } else {
        let s = value(a) + value(b);
        if s == 0 {
            with_sign(is_negative(a) && is_negative(b), 0)
        } else if s < 0 {
            with_sign(true, round_magnitude((-s) as nat, 1))
        } else {
            with_sign(false, round_magnitude(s as nat, 1))
        }
    }
}

/// The product, correctly rounded.
#[verifier::opaque]
pub open spec fn product_bits(a: u32, b: u32) -> u32 {
    let negative = is_negative(a) != is_negative(b);
    if is_nan(a) || is_nan(b) {
        NAN_BITS
    } else if is_infinite(a) || is_infinite(b) {
        if is_zero(a) || is_zero(b) {
            NAN_BITS
        } else {
            with_sign(negative, INF_BITS as nat)
        }
    } else {
        with_sign(negative, round_magnitude(magnitude(a) * magnitude(b), pow2(149)))
    }
}

/// The quotient, correctly rounded.
#[verifier::opaque]
pub open spec fn quotient_bits(a: u32, b: u32) -> u32 {
    let negative = is_negative(a) != is_negative(b);
    if is_nan(a) || is_nan(b) {
        NAN_BITS
    } else if is_infinite(a) {
        if is_infinite(b) {
            NAN_BITS
        } else {
            with_sign(negative, INF_BITS as nat)
        }
    } else if is_infinite(b) {
        with_sign(negative, 0)
    } else if is_zero(b) {
        if is_zero(a) {
            NAN_BITS
        } else {
            with_sign(negative, INF_BITS as nat)
        }
    } else {
        with_sign(negative, round_magnitude(magnitude(a) * pow2(149), magnitude(b)))
    }
}

/// The exponent of the spacing of representable numbers around the square
/// root of `x`: the least `j` with `x < 4^(24 + j)`.
pub open spec fn root_quantum(x: nat) -> nat
    decreases x,
{
    if x >= 0x1_0000_0000_0000 {
        1 + root_quantum(x / 4)
    } else {
        0
    }
}

/// Whether `r` is the integer part of the square root of `y`.
pub open spec fn is_floor_sqrt(y: nat, r: nat) -> bool {
    r * r <= y && y < (r + 1) * (r + 1)
}

/// The integer part of the square root of `y`.
pub open spec fn floor_sqrt(y: nat) -> nat {
    choose|r: nat| is_floor_sqrt(y, r)
}

/// The bit pattern of the magnitude nearest to the square root of `x`,
/// ties to even: the root is compared with the number halfway between the
/// two nearest, by their squares.
pub open spec fn round_root(x: nat) -> nat {
    let j = root_quantum(x);
    let n = floor_sqrt(x / pow2(2 * j));
    let halfway = (2 * n + 1) * (2 * n + 1) * pow2(2 * j);
    if 4 * x > halfway || (4 * x == halfway && n % 2 == 1) {
        j * 0x80_0000 + n + 1
    } else {
        j * 0x80_0000 + n
    }
}

/// The square root, correctly rounded.
#[verifier::opaque]
pub open spec fn root_bits(a: u32) -> u32 {
    if is_nan(a) {
        NAN_BITS
    } else if is_zero(a) {
        a
    } else if is_negative(a) {
        NAN_BITS
    } else if is_infinite(a) {
        INF_BITS
    } else {
        round_root(magnitude(a) * pow2(149)) as u32
    }
}

/// The number nearest to the rational `num / den`.
#[verifier::opaque]
pub open spec fn ratio_bits(num: int, den: nat) -> u32 {
    if num < 0 {
        with_sign(true, round_magnitude(((-num) as nat) * pow2(149), den))
    } else {
        with_sign(false, round_magnitude((num as nat) * pow2(149), den))
    }
}

/// The integer part, cut off at the ends of the range of `u32`; 0 for NaN.
#[verifier::opaque]
pub open spec fn truncated_bits(a: u32) -> u32 {
    if is_nan(a) || is_negative(a) {
        0
    } else if magnitude(a) / pow2(149) >= 0xffff_ffff {
        0xffff_ffff
    } else {
        (magnitude(a) / pow2(149)) as u32
    }
}

} // verus!
