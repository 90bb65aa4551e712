//! Python's arithmetic on two integers, exact at any width: floor division and modulo round
//! towards negative infinity, a zero divisor raises, and a power is planned before anything
//! is multiplied. A true quotient or a negative power leaves the integers for floating
//! point, which the caller takes.

use vstd::prelude::*;

use num_bigint::BigInt;
use num_integer::Integer;
use num_traits::{One, Signed, ToPrimitive, Zero};

use crate::python::{
    power_limit, power_limit_reason, power_plan, spec_power_plan, zero_division,
    zero_division_reason, BinaryOp, PowerPlan, MAX_INTEGER_BITS,
};
use crate::teaching::EvalError;

verus! {

#[verifier::external_type_specification]
#[verifier::external_body]
pub struct ExBigInt(BigInt);

/// The integer a `BigInt` holds, as its `Display` writes it.
pub uninterp spec fn big_value(n: BigInt) -> int;

/// The fewest bits that write `n`.
pub open spec fn bit_len(n: nat) -> nat
    decreases n,
{
    if n == 0 {
        0
    } else {
        1 + bit_len(n / 2)
    }
}

pub open spec fn magnitude(v: int) -> nat {
    if v < 0 {
        (-v) as nat
    } else {
        v as nat
    }
}

/// The quotient rounded towards negative infinity.
pub open spec fn floor_div(a: int, b: int) -> int {
    if b > 0 {
        a / b
    } else {
        (-a) / (-b)
    }
}

/// The remainder that goes with [`floor_div`]: it takes the divisor's sign.
pub open spec fn floor_mod(a: int, b: int) -> int {
    a - b * floor_div(a, b)
}

/// `+` on two `BigInt`s: their sum.
#[verifier::external_body]
fn big_add(a: BigInt, b: BigInt) -> (r: BigInt)
    ensures
        big_value(r) == big_value(a) + big_value(b),
{
    a + b
}

/// `-` on two `BigInt`s: their difference.
#[verifier::external_body]
fn big_sub(a: BigInt, b: BigInt) -> (r: BigInt)
    ensures
        big_value(r) == big_value(a) - big_value(b),
{
    a - b
}

/// `*` on two `BigInt`s: their product.
#[verifier::external_body]
fn big_mul(a: BigInt, b: BigInt) -> (r: BigInt)
    ensures
        big_value(r) == big_value(a) * big_value(b),
{
    a * b
}

/// `Integer::div_floor`: the quotient rounded towards negative infinity. It panics on a
/// zero divisor, which is left out.
#[verifier::external_body]
fn big_div_floor(a: &BigInt, b: &BigInt) -> (r: BigInt)
    requires
        big_value(*b) != 0,
    ensures
        big_value(r) == floor_div(big_value(*a), big_value(*b)),
{
    a.div_floor(b)
}

/// `Integer::mod_floor`: the remainder with the divisor's sign. It panics on a zero
/// divisor, which is left out.
#[verifier::external_body]
fn big_mod_floor(a: &BigInt, b: &BigInt) -> (r: BigInt)
    requires
        big_value(*b) != 0,
    ensures
        big_value(r) == floor_mod(big_value(*a), big_value(*b)),
{
    a.mod_floor(b)
}

/// `BigInt::pow`: the base raised to `exponent`. Only powers within the width limit are
/// asked for, so the multiplying ends in bounded time and space.
#[verifier::external_body]
fn big_pow(a: &BigInt, exponent: u32) -> (r: BigInt)
    requires
        exponent * (bit_len(magnitude(big_value(*a))) - 1) < MAX_INTEGER_BITS,
    ensures
        big_value(r) == vstd::arithmetic::power::pow(big_value(*a), exponent as nat),
{
    a.pow(exponent)
}

/// `Zero::is_zero`.
#[verifier::external_body]
fn big_is_zero(a: &BigInt) -> (r: bool)
    ensures
        r == (big_value(*a) == 0),
{
    a.is_zero()
}

/// `Signed::is_negative`.
#[verifier::external_body]
fn big_is_negative(a: &BigInt) -> (r: bool)
    ensures
        r == (big_value(*a) < 0),
{
    a.is_negative()
}

/// `Integer::is_odd`: the magnitude is odd.
#[verifier::external_body]
fn big_is_odd(a: &BigInt) -> (r: bool)
    ensures
        r == (big_value(*a) % 2 == 1),
{
    a.is_odd()
}

/// `ToPrimitive::to_u32`: the value where it fits a `u32`.
#[verifier::external_body]
fn big_to_u32(a: &BigInt) -> (r: Option<u32>)
    ensures
        r == (if 0 <= big_value(*a) <= u32::MAX {
            Some(big_value(*a) as u32)
        } else {
            None
        }),
{
    a.to_u32()
}

/// `Signed::abs`: the magnitude.
#[verifier::external_body]
fn big_abs(a: &BigInt) -> (r: BigInt)
    ensures
        big_value(r) == magnitude(big_value(*a)),
{
    a.abs()
}

/// `One::is_one`.
#[verifier::external_body]
fn big_is_one(a: &BigInt) -> (r: bool)
    ensures
        r == (big_value(*a) == 1),
{
    a.is_one()
}

/// `BigInt::bits`: the fewest bits that write the magnitude.
#[verifier::external_body]
fn big_bits(a: &BigInt) -> (r: u64)
    ensures
        r == bit_len(magnitude(big_value(*a))),
{
    a.bits()
}

/// `One::one`.
#[verifier::external_body]
fn big_one() -> (r: BigInt)
    ensures
        big_value(r) == 1,
{
    BigInt::one()
}

/// `Zero::zero`.
#[verifier::external_body]
fn big_zero() -> (r: BigInt)
    ensures
        big_value(r) == 0,
{
    BigInt::zero()
}

/// Negation of a `BigInt`.
#[verifier::external_body]
fn big_neg(a: BigInt) -> (r: BigInt)
    ensures
        big_value(r) == -big_value(a),
{
    -a
}

/// Floor division and modulo as Python defines them: the quotient times the divisor plus
/// the remainder gives back the dividend, and the remainder takes the divisor's sign and is
/// smaller than it; so `-7 // 2` is -4 and `-7 % 2` is 1.
pub proof fn law_floor_division(a: int, b: int)
    requires
        b != 0,
    ensures
        floor_div(a, b) * b + floor_mod(a, b) == a,
        b > 0 ==> 0 <= floor_mod(a, b) < b,
        b < 0 ==> b < floor_mod(a, b) <= 0,
{
    assert(floor_div(a, b) * b == b * floor_div(a, b)) by (nonlinear_arith);
    if b > 0 {
        assert(a == b * (a / b) + (a % b) && 0 <= a % b < b) by (nonlinear_arith)
            requires
                b > 0,
        ;
    } else {
        let m = -b;
        let x = -a;
        assert(x == m * (x / m) + (x % m) && 0 <= x % m < m) by (nonlinear_arith)
            requires
                m > 0,
        ;
        assert(b * (x / m) == -(m * (x / m))) by (nonlinear_arith)
            requires
                m == -b,
        ;
    }
}

proof fn lemma_bit_len_positive(n: nat)
    requires
        n > 0,
    ensures
        bit_len(n) >= 1,
{
}

/// What integer arithmetic comes to: an exact integer, or a result that must be taken in
/// floating point (a true quotient, or a negative power).
pub enum IntegerOutcome {
    Exact(BigInt),
    Float,
}

/// The plan for `left ** right`, from the facts about the operands that decide it.
pub open spec fn spec_plan(left: int, right: int) -> PowerPlan {
    spec_power_plan(
        right < 0,
        right == 0,
        right % 2 == 1,
        if 0 <= right <= u32::MAX {
            Some(right as u32)
        } else {
            None
        },
        left == 0,
        magnitude(left) == 1,
        left < 0,
        bit_len(magnitude(left)) as u64,
    )
}

/// `left op right` on Python integers. `+`, `-` and `*` are exact; `/`, `//` and `%` raise
/// `ZeroDivisionError` on a zero divisor, `//` and `%` round towards negative infinity, and
/// `/` leaves the integers; `**` follows its plan: floating point for a negative exponent,
/// 1, 0 or -1 without multiplying, the power where it stays within the width limit, and
/// the width limit's error beyond. A base wider than the limit never reaches a power.
pub fn integer_binary(op: BinaryOp, left: BigInt, right: BigInt) -> (result: Result<
    IntegerOutcome,
    EvalError,
>)
    requires
        op is Power ==> bit_len(magnitude(big_value(left))) <= MAX_INTEGER_BITS,
    ensures
        ({
            let (l, r) = (big_value(left), big_value(right));
            match op {
                BinaryOp::Add => result matches Ok(IntegerOutcome::Exact(v)) && big_value(v) == l + r,
                BinaryOp::Subtract => result matches Ok(IntegerOutcome::Exact(v)) && big_value(v)
                    == l - r,
                BinaryOp::Multiply => result matches Ok(IntegerOutcome::Exact(v)) && big_value(v)
                    == l * r,
                BinaryOp::Divide => if r == 0 {
                    result matches Err(EvalError::Raised { name, reason }) && name@
                        == "ZeroDivisionError"@ && reason@ == zero_division_reason()
                } else {
                    result matches Ok(IntegerOutcome::Float)
                },
                BinaryOp::FloorDivide => if r == 0 {
                    result matches Err(EvalError::Raised { name, reason }) && name@
                        == "ZeroDivisionError"@ && reason@ == zero_division_reason()
                } else {
                    result matches Ok(IntegerOutcome::Exact(v)) && big_value(v) == floor_div(l, r)
                },
                BinaryOp::Modulo => if r == 0 {
                    result matches Err(EvalError::Raised { name, reason }) && name@
                        == "ZeroDivisionError"@ && reason@ == zero_division_reason()
                } else {
                    result matches Ok(IntegerOutcome::Exact(v)) && big_value(v) == floor_mod(l, r)
                },
                BinaryOp::Power => match spec_plan(l, r) {
                    PowerPlan::Float => result matches Ok(IntegerOutcome::Float),
                    PowerPlan::One => result matches Ok(IntegerOutcome::Exact(v)) && big_value(v)
                        == 1,
                    PowerPlan::Zero => result matches Ok(IntegerOutcome::Exact(v)) && big_value(v)
                        == 0,
                    PowerPlan::MinusOne => result matches Ok(IntegerOutcome::Exact(v))
                        && big_value(v) == -1,
                    PowerPlan::Raise(e) => result matches Ok(IntegerOutcome::Exact(v))
                        && big_value(v) == vstd::arithmetic::power::pow(l, e as nat),
                    PowerPlan::TooWide => result matches Err(EvalError::Limit(reason)) && reason@
                        == power_limit_reason(),
                },
            }
        }),
{
    let value: BigInt = match op {
        BinaryOp::Add => big_add(left, right),
        BinaryOp::Subtract => big_sub(left, right),
        BinaryOp::Multiply => big_mul(left, right),
        BinaryOp::Divide | BinaryOp::FloorDivide | BinaryOp::Modulo => {
            if big_is_zero(&right) {
                return Err(zero_division());
            }
            match op {
                BinaryOp::FloorDivide => big_div_floor(&left, &right),
                BinaryOp::Modulo => big_mod_floor(&left, &right),
                _ => return Ok(IntegerOutcome::Float),
            }
        },
        BinaryOp::Power => {
            let base_zero: bool = big_is_zero(&left);
            let base_bits: u64 = big_bits(&left);
            proof {
                if !base_zero {
                    lemma_bit_len_positive(magnitude(big_value(left)));
                }
            }
            let plan: PowerPlan = power_plan(
                big_is_negative(&right),
                big_is_zero(&right),
                big_is_odd(&right),
                big_to_u32(&right),
                base_zero,
                big_is_one(&big_abs(&left)),
                big_is_negative(&left),
                base_bits,
            );
            match plan {
                PowerPlan::Float => return Ok(IntegerOutcome::Float),
                PowerPlan::One => big_one(),
                PowerPlan::Zero => big_zero(),
                PowerPlan::MinusOne => big_neg(big_one()),
                PowerPlan::Raise(exponent) => big_pow(&left, exponent),
                PowerPlan::TooWide => return Err(power_limit()),
            }
        },
    };
    Ok(IntegerOutcome::Exact(value))
}

} // verus!
