//! Doubles as bit patterns: what the library itself finds out about them.
use vstd::arithmetic::power2::{lemma2_to64, lemma_pow2_strictly_increases, pow2};
use vstd::bits::{lemma_u64_shl_is_mul, lemma_u64_shr_is_div};
use vstd::prelude::*;

verus! {

/// The five arithmetic operations of the language.
#[derive(Clone, Copy, Debug, PartialEq, Eq, Structural)]
pub enum ArithOp {
    Add,
    Sub,
    Mul,
    Div,
    Rem,
}

/// An operand of an arithmetic operation: an integer, or a double given by
/// its bits.
#[derive(Clone, Copy, Debug, PartialEq, Eq, Structural)]
pub enum Number {
    Integer(i64),
    Float(u64),
}

/// The exponent field of a double, all ones for infinities and NaNs.
pub const EXPONENT_MASK: u64 = 0x7ff0_0000_0000_0000;

/// The fraction field of a double.
pub const FRACTION_MASK: u64 = 0x000f_ffff_ffff_ffff;

/// The sign bit of a double.
pub const SIGN_MASK: u64 = 0x8000_0000_0000_0000;

/// Whether the bits are those of a NaN: exponent all ones, fraction not zero.
pub open spec fn is_nan(bits: u64) -> bool {
    bits & EXPONENT_MASK == EXPONENT_MASK && bits & FRACTION_MASK != 0
}

/// Whether the bits are those of a zero, of either sign.
pub open spec fn is_zero(bits: u64) -> bool {
    bits & !SIGN_MASK == 0
}

/// IEEE 754 equality on bit patterns: a NaN equals nothing, the two zeros
/// equal each other, and any other two doubles are equal when their bits are.
pub open spec fn float_eq(a: u64, b: u64) -> bool {
    !is_nan(a) && !is_nan(b) && (a == b || (is_zero(a) && is_zero(b)))
}

/// Compares two doubles, given by their bits, as IEEE 754 does.
pub fn floats_equal(a: u64, b: u64) -> (r: bool)
    ensures
        r == float_eq(a, b),
{
    let a_nan = a & EXPONENT_MASK == EXPONENT_MASK && a & FRACTION_MASK != 0;
    let b_nan = b & EXPONENT_MASK == EXPONENT_MASK && b & FRACTION_MASK != 0;
    if a_nan || b_nan {
        false
    } else {
        a == b || (a & !SIGN_MASK == 0 && b & !SIGN_MASK == 0)
    }
}

/// The biased exponent of a double: a number from 0 to 2047.
pub open spec fn exponent_of(bits: u64) -> nat {
    ((bits & EXPONENT_MASK) >> 52) as nat
}

/// The significand of a normal double as an integer: the fraction with the
/// hidden one in front of it.
pub open spec fn significand_of(bits: u64) -> nat {
    (0x10_0000_0000_0000 + (bits & FRACTION_MASK)) as nat
}

/// The integer that a double becomes when it is cut off toward zero.
///
/// A NaN gives 0. A double of magnitude below one gives 0. One of magnitude
/// 2^63 or more, an infinity too, gives the nearest end of the range of
/// `i64`. Any other double is its significand times 2^(exponent - 1075),
/// without the part behind the point, with its sign.
pub open spec fn float_trunc(bits: u64) -> int {
    let negative = bits & SIGN_MASK != 0;
    let exponent = exponent_of(bits);
    if is_nan(bits) || exponent < 1023 {
        0
    } else if exponent >= 1086 {
        if negative {
            i64::MIN as int
        } else {
            i64::MAX as int
        }
    } else {
        let magnitude = if exponent >= 1075 {
            significand_of(bits) * pow2((exponent - 1075) as nat)
        } else {
            significand_of(bits) / pow2((1075 - exponent) as nat)
        };
        if negative {
            -(magnitude as int)
        } else {
            magnitude as int
        }
    }
}

/// Cuts a double, given by its bits, off toward zero.
pub fn truncate(bits: u64) -> (r: i64)
    ensures
        r == float_trunc(bits),
{
    let negative = bits & SIGN_MASK != 0;
    let exponent: u64 = (bits & EXPONENT_MASK) >> 52;
    let fraction: u64 = bits & FRACTION_MASK;
    assert(exponent <= 2047 && fraction <= 0xf_ffff_ffff_ffff) by (bit_vector)
        requires
            exponent == (bits & 0x7ff0_0000_0000_0000) >> 52,
            fraction == bits & 0x000f_ffff_ffff_ffff,
    ;
    assert((exponent == 2047) == (bits & 0x7ff0_0000_0000_0000 == 0x7ff0_0000_0000_0000))
        by (bit_vector)
        requires
            exponent == (bits & 0x7ff0_0000_0000_0000) >> 52,
    ;
    if (exponent == 2047 && fraction != 0) || exponent < 1023 {
        0
    } else if exponent >= 1086 {
        if negative {
            i64::MIN
        } else {
            i64::MAX
        }
    } else {
        let significand: u64 = 0x10_0000_0000_0000 + fraction;
        let magnitude: u64 = if exponent >= 1075 {
            let shift: u64 = exponent - 1075;
            proof {
                lemma2_to64();
                if shift < 10 {
                    lemma_pow2_strictly_increases(shift as nat, 10);
                }
                assert(significand * pow2(shift as nat) < 0x8000_0000_0000_0000)
                    by (nonlinear_arith)
                    requires
                        significand < 0x20_0000_0000_0000,
                        0 < pow2(shift as nat) <= 0x400,
                ;
                lemma_u64_shl_is_mul(significand, shift);
            }
            significand << shift
        } else {
            let shift: u64 = 1075 - exponent;
            proof {
                lemma_u64_shr_is_div(significand, shift);
                assert(significand >> shift <= significand) by (bit_vector);
            }
            significand >> shift
        };
        if negative {
            -(magnitude as i64)
        } else {
            magnitude as i64
        }
    }
}

} // verus!
