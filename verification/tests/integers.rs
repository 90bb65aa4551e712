use num_bigint::BigInt;
use stepwise::python::integers::{integer_binary, IntegerOutcome};
use stepwise::python::BinaryOp;
use stepwise::teaching::EvalError;

fn exact(op: BinaryOp, left: i64, right: i64) -> BigInt {
    match integer_binary(op, BigInt::from(left), BigInt::from(right)) {
        Ok(IntegerOutcome::Exact(value)) => value,
        _ => panic!("an exact integer"),
    }
}

#[test]
fn floor_division_and_modulo_round_towards_negative_infinity() {
    assert_eq!(exact(BinaryOp::FloorDivide, 7, 2), BigInt::from(3));
    assert_eq!(exact(BinaryOp::FloorDivide, -7, 2), BigInt::from(-4));
    assert_eq!(exact(BinaryOp::FloorDivide, 7, -2), BigInt::from(-4));
    assert_eq!(exact(BinaryOp::Modulo, -7, 2), BigInt::from(1));
    assert_eq!(exact(BinaryOp::Modulo, 7, -2), BigInt::from(-1));
    assert_eq!(exact(BinaryOp::Add, 2, 3), BigInt::from(5));
    assert_eq!(exact(BinaryOp::Subtract, 2, 3), BigInt::from(-1));
    assert_eq!(exact(BinaryOp::Multiply, -4, 3), BigInt::from(-12));
}

#[test]
fn a_zero_divisor_raises_and_a_true_quotient_leaves_the_integers() {
    for op in [BinaryOp::Divide, BinaryOp::FloorDivide, BinaryOp::Modulo] {
        match integer_binary(op, BigInt::from(1), BigInt::from(0)) {
            Err(EvalError::Raised { name, .. }) => assert_eq!(name, "ZeroDivisionError"),
            _ => panic!("ZeroDivisionError"),
        }
    }
    assert!(matches!(integer_binary(BinaryOp::Divide, BigInt::from(7), BigInt::from(2)), Ok(IntegerOutcome::Float)));
}

#[test]
fn powers_follow_their_plan() {
    assert_eq!(exact(BinaryOp::Power, 2, 10), BigInt::from(1024));
    assert_eq!(exact(BinaryOp::Power, -1, 3), BigInt::from(-1));
    assert_eq!(exact(BinaryOp::Power, -1, 1_000_000_000_000), BigInt::from(1));
    assert_eq!(exact(BinaryOp::Power, 0, 0), BigInt::from(1));
    assert_eq!(exact(BinaryOp::Power, 0, 5), BigInt::from(0));
    assert!(matches!(integer_binary(BinaryOp::Power, BigInt::from(2), BigInt::from(-1)), Ok(IntegerOutcome::Float)));
    assert!(matches!(integer_binary(BinaryOp::Power, BigInt::from(3), BigInt::from(100_000)), Err(EvalError::Limit(_))));
}
