//! Arithmetic on the integers of the language.
use crate::error::LispError;
use crate::float::ArithOp;
use vstd::prelude::*;

verus! {

/// The `i64` that differs from `x` by a multiple of 2^64.
pub open spec fn wrap(x: int) -> i64 {
    if x % 0x1_0000_0000_0000_0000 > i64::MAX as int {
        (x % 0x1_0000_0000_0000_0000 - 0x1_0000_0000_0000_0000) as i64
    } else {
        (x % 0x1_0000_0000_0000_0000) as i64
    }
}

/// The quotient of two integers, rounded toward zero; the divisor is not zero.
pub open spec fn quotient(a: int, b: int) -> int {
    let q = (if a < 0 {
        -a
    } else {
        a
    }) / (if b < 0 {
        -b
    } else {
        b
    });
    if (a < 0) != (b < 0) {
        -q
    } else {
        q
    }
}

/// Whether `a / b` has no value in `i64`: `b` is zero, or the quotient is 2^63.
pub open spec fn undivisible(a: i64, b: i64) -> bool {
    b == 0 || (a == i64::MIN && b == -1)
}

/// What an operation gives on two integers.
///
/// Sums, differences and products wrap round at the ends of `i64`. A
/// quotient is rounded toward zero and a remainder has the sign of the
/// dividend; both fail where the quotient has no value in `i64`.
pub open spec fn int_arith(op: ArithOp, a: i64, b: i64) -> Result<i64, LispError> {
    match op {
        ArithOp::Add => Ok(wrap(a + b)),
        ArithOp::Sub => Ok(wrap(a - b)),
        ArithOp::Mul => Ok(wrap(a * b)),
        ArithOp::Div => if undivisible(a, b) {
            Err(LispError::Division)
        } else {
            Ok(quotient(a as int, b as int) as i64)
        },
        ArithOp::Rem => if undivisible(a, b) {
            Err(LispError::Division)
        } else {
            Ok((a - b * quotient(a as int, b as int)) as i64)
        },
    }
}

/// Applies an operation to two integers.
pub fn integer_arith(op: ArithOp, a: i64, b: i64) -> (r: Result<i64, LispError>)
    ensures
        r == int_arith(op, a, b),
{
    match op {
        ArithOp::Add => Ok(a.wrapping_add(b)),
        ArithOp::Sub => Ok(a.wrapping_sub(b)),
        ArithOp::Mul => Ok(a.wrapping_mul(b)),
        ArithOp::Div => match a.checked_div(b) {
            Some(q) => Ok(q),
            None => {
                proof {
                    if b != 0 {
                        lemma_quotient_in_range(a, b);
                    }
                }
                Err(LispError::Division)
            },
        },
        ArithOp::Rem => match a.checked_rem(b) {
            Some(q) => {
                proof {
                    lemma_remainder(a, b);
                }
                Ok(q)
            },
            None => Err(LispError::Division),
        },
    }
}

/// Where the quotient has a value in `i64`, it lies in the range of `i64`.
pub proof fn lemma_quotient_in_range(a: i64, b: i64)
    requires
        b != 0,
    ensures
        !undivisible(a, b) ==> i64::MIN <= quotient(a as int, b as int) <= i64::MAX,
{
    let x = if a < 0 {
        -(a as int)
    } else {
        a as int
    };
    let y = if b < 0 {
        -(b as int)
    } else {
        b as int
    };
    assert(0 <= x / y <= x) by (nonlinear_arith)
        requires
            0 <= x,
            0 < y,
    ;
    if a == i64::MIN && y > 1 {
        assert(x / y < x) by (nonlinear_arith)
            requires
                0 < x,
                1 < y,
        ;
    }
}

/// The remainder that goes with the quotient rounded toward zero: that of
/// the magnitudes, with the sign of the dividend.
pub proof fn lemma_remainder(a: i64, b: i64)
    requires
        !undivisible(a, b),
    ensures
        ({
            let x = a as int;
            let d = b as int;
            let r = x - d * quotient(x, d);
            &&& x >= 0 && d > 0 ==> r == x % d
            &&& x >= 0 && d < 0 ==> r == x % (d * -1)
            &&& x < 0 && d > 0 ==> r == ((x * -1) % d) * -1
            &&& x < 0 && d < 0 ==> r == ((x * -1) % (d * -1)) * -1
        }),
{
    let x = if a < 0 {
        -(a as int)
    } else {
        a as int
    };
    let y = if b < 0 {
        -(b as int)
    } else {
        b as int
    };
    assert(x == y * (x / y) + x % y) by (nonlinear_arith)
        requires
            0 < y,
    ;
    let q = x / y;
    assert(b * (-q) == -(b * q)) by (nonlinear_arith);
    assert((-y) * q == -(y * q)) by (nonlinear_arith);
}

} // verus!
