use clar2wasm::arithmetic::GeneratorError;
use clar2wasm::value::ClarityType;
use clar2wasm::arithmetic::{Add, Div, Log2, Modulo, Mul, Power, Sqrti, Sub};
use clar2wasm::error_map::ErrorMap;

#[test]
fn test_add() {
    assert_eq!(Add.eval_int(&vec![1, 2, 3]), Ok(6));
}

#[test]
fn test_overflow() {
    assert_eq!(Add.eval_uint(&vec![u128::MAX, 1]), Err(ErrorMap::ArithmeticOverflow));
    assert_eq!(ErrorMap::ArithmeticOverflow.code(), 0);
}

#[test]
fn test_underflow() {
    assert_eq!(Sub.eval_uint(&vec![0, 1]), Err(ErrorMap::ArithmeticUnderflow));
}

#[test]
fn test_sub() {
    assert_eq!(Sub.eval_int(&vec![1, 2, 3]), Ok(-4));
}

#[test]
fn test_mul() {
    assert_eq!(Mul.eval_int(&vec![1, 2, 3]), Ok(6));
}

#[test]
fn test_div() {
    assert_eq!(Div.eval_int(&vec![8, 2, 2]), Ok(2));
}

#[test]
fn test_mod() {
    assert_eq!(Modulo.eval_int(8, 3), Ok(2));
}

#[test]
fn test_log2() {
    assert_eq!(Log2.eval_int(8), Ok(3));
}

#[test]
fn test_pow() {
    assert_eq!(Power.eval_int(2, 3), Ok(8));
}

#[test]
fn test_sqrti() {
    assert_eq!(Sqrti.eval_int(8), Ok(2));
}

#[test]
fn signed_division_rounds_toward_zero() {
    assert_eq!(Div.eval_int(&vec![-7, 2]), Ok(-3));
    assert_eq!(Modulo.eval_int(-7, 2), Ok(-1));
    assert_eq!(Div.eval_int(&vec![i128::MIN, -1]), Err(ErrorMap::ArithmeticOverflow));
    assert_eq!(Modulo.eval_int(i128::MIN, -1), Ok(0));
}

#[test]
fn division_by_zero_traps() {
    assert_eq!(Div.eval_int(&vec![1, 0]), Err(ErrorMap::DivisionByZero));
    assert_eq!(Div.eval_uint(&vec![1, 0]), Err(ErrorMap::DivisionByZero));
    assert_eq!(Modulo.eval_uint(1, 0), Err(ErrorMap::DivisionByZero));
}

#[test]
fn undefined_inputs_trap() {
    assert_eq!(Log2.eval_int(0), Err(ErrorMap::ArithmeticLog2Error));
    assert_eq!(Log2.eval_uint(0), Err(ErrorMap::ArithmeticLog2Error));
    assert_eq!(Sqrti.eval_int(-1), Err(ErrorMap::ArithmeticSqrtiError));
    assert_eq!(Power.eval_int(2, -1), Err(ErrorMap::ArithmeticPowError));
    assert_eq!(Power.eval_uint(2, 1 << 40), Err(ErrorMap::ArithmeticPowError));
}

#[test]
fn power_edges() {
    assert_eq!(Power.eval_int(-2, 127), Ok(i128::MIN));
    assert_eq!(Power.eval_int(2, 127), Err(ErrorMap::ArithmeticOverflow));
    assert_eq!(Power.eval_int(-1, 4_000_000_001), Ok(-1));
    assert_eq!(Power.eval_uint(2, 127), Ok(1u128 << 127));
    assert_eq!(Power.eval_uint(2, 128), Err(ErrorMap::ArithmeticOverflow));
    assert_eq!(Power.eval_uint(0, 0), Ok(1));
}

#[test]
fn large_roots_and_logs() {
    assert_eq!(Sqrti.eval_uint(u128::MAX), Ok(u64::MAX as u128));
    assert_eq!(Log2.eval_uint(u128::MAX), Ok(127));
    assert_eq!(Log2.eval_int(1), Ok(0));
}

#[test]
fn error_codes_round_trip() {
    for code in -1..=13 {
        assert_eq!(ErrorMap::from(code).code(), code);
    }
    assert_eq!(ErrorMap::from(42), ErrorMap::NotMapped);
    assert_eq!(ErrorMap::NotMapped.code(), 99);
}

#[test]
fn stdlib_calls_follow_result_type() {
    assert_eq!(Add.visit(3, &ClarityType::Int), Ok(("stdlib.add-int", 2)));
    assert_eq!(Div.visit(2, &ClarityType::UInt), Ok(("stdlib.div-uint", 1)));
    assert_eq!(Mul.visit(2, &ClarityType::Bool), Err(GeneratorError::TypeError));
    assert_eq!(Power.visit(&ClarityType::UInt), Ok("stdlib.pow-uint"));
    assert_eq!(Sqrti.visit(&ClarityType::Int), Ok("stdlib.sqrti-int"));
    assert_eq!(Modulo.visit(&ClarityType::Principal), Err(GeneratorError::TypeError));
}

#[test]
fn test_evaluate_snippet() {
    assert_eq!(Add.eval_int(&vec![1, 2]), Ok(3));
}
