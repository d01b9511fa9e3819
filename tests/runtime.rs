use clar2wasm::assets::{
    BurnFungibleToken, BurnNonFungibleToken, MintFungibleToken, MintNonFungibleToken,
    MintTokenErrorCodes, StxBurn, StxErrorCodes, StxTransfer, TransferAssetErrorCodes,
    TransferFungibleToken, TransferNonFungibleToken, TransferTokenErrorCodes,
};
use clar2wasm::equal::IsEq;
use clar2wasm::error_map::ErrorMap;
use clar2wasm::eval::{crosscheck_compare_only, Expr, Function};
use clar2wasm::memory::{filter_elements, CallStack, LiteralKind, LiteralPool};
use clar2wasm::traps::{ArithmeticError, from_runtime_error_code, parse_decimal, RuntimeError, TrapGlobals};
use clar2wasm::value::{ClarityType, Principal, Value};
use clar2wasm::words::{IsNone, IsSome};

fn principal(b: u8) -> Principal {
    Principal { version: 26, hash: vec![b; 20], name: vec![] }
}

#[test]
fn stx_burn_outcomes() {
    let me = principal(1);
    let other = principal(2);
    assert_eq!(StxBurn.eval(100, &me, &me, 100), Ok(0));
    assert_eq!(StxBurn.eval(0, &me, &me, 100), Err(StxErrorCodes::NON_POSITIVE_AMOUNT));
    assert_eq!(StxErrorCodes::NON_POSITIVE_AMOUNT.code(), 3);
    assert_eq!(StxBurn.eval(5000000000, &me, &me, 100), Err(StxErrorCodes::NOT_ENOUGH_BALANCE));
    assert_eq!(StxBurn.eval(100, &other, &me, 100), Err(StxErrorCodes::SENDER_IS_NOT_TX_SENDER));
    assert_eq!(StxErrorCodes::SENDER_IS_NOT_TX_SENDER.code(), 4);
}

#[test]
fn stx_transfer_outcomes() {
    let me = principal(1);
    let other = principal(2);
    assert_eq!(StxTransfer.eval(100, &me, &other, &me, 1000, 5), Ok((900, 105)));
    assert_eq!(StxTransfer.eval(5000000000, &me, &other, &me, 1000, 5), Err(StxErrorCodes::NOT_ENOUGH_BALANCE));
    assert_eq!(StxTransfer.eval(5000000000, &me, &me, &me, 1000, 5), Err(StxErrorCodes::SENDER_IS_RECIPIENT));
    assert_eq!(StxTransfer.eval(0, &me, &other, &me, 1000, 5), Err(StxErrorCodes::NON_POSITIVE_AMOUNT));
    assert_eq!(StxTransfer.eval(100, &other, &me, &me, 1000, 5), Err(StxErrorCodes::SENDER_IS_NOT_TX_SENDER));
}

#[test]
fn token_outcomes() {
    let me = principal(1);
    let other = principal(2);
    assert_eq!(MintFungibleToken.eval(0, 10, None, 0), Ok(Err(MintTokenErrorCodes::NON_POSITIVE_AMOUNT)));
    assert_eq!(MintFungibleToken.eval(10, 10, Some(15), 0), Err(ErrorMap::ArithmeticOverflow));
    assert_eq!(MintFungibleToken.eval(5, 10, Some(15), 1), Ok(Ok((15, 6))));
    assert_eq!(
        TransferFungibleToken.eval(5, &me, &me, 10, 0),
        Ok(Err(TransferTokenErrorCodes::SENDER_IS_RECIPIENT))
    );
    assert_eq!(TransferFungibleToken.eval(5, &me, &other, 10, 0), Ok(Ok((5, 5))));
    assert!(BurnFungibleToken.eval(11, 20, 10).unwrap().is_err());
    assert_eq!(BurnFungibleToken.eval(4, 20, 10), Ok(Ok((16, 6))));
    assert!(MintNonFungibleToken.eval(&Some(me.clone())).is_err());
    assert!(MintNonFungibleToken.eval(&None).is_ok());
    assert_eq!(
        TransferNonFungibleToken.eval(&None, &me, &other),
        Err(TransferAssetErrorCodes::DOES_NOT_EXIST)
    );
    assert_eq!(
        TransferNonFungibleToken.eval(&Some(other.clone()), &me, &other),
        Err(TransferAssetErrorCodes::NOT_OWNED_BY)
    );
    assert!(TransferNonFungibleToken.eval(&Some(me.clone()), &me, &other).is_ok());
    assert!(BurnNonFungibleToken.eval(&Some(me.clone()), &me).is_ok());
    assert!(BurnNonFungibleToken.eval(&Some(other.clone()), &me).is_err());
}

fn ok_err_list(ok: i128, err: i128) -> Value {
    Value::List(vec![
        Value::Response(true, Box::new(Value::Int(ok))),
        Value::Response(false, Box::new(Value::Int(err))),
    ])
}

#[test]
fn is_eq_on_lists_of_responses() {
    assert!(IsEq.eval(&vec![ok_err_list(1, 2), ok_err_list(1, 2)]));
    assert!(!IsEq.eval(&vec![ok_err_list(1, 2), ok_err_list(3, 2)]));
    assert!(!IsEq.eval(&vec![ok_err_list(1, 2), ok_err_list(1, 3)]));
    let swapped = Value::List(vec![
        Value::Response(false, Box::new(Value::Int(1))),
        Value::Response(true, Box::new(Value::Int(2))),
    ]);
    assert!(!IsEq.eval(&vec![ok_err_list(1, 2), swapped]));
    assert!(IsEq.eval(&vec![Value::Int(4), Value::Int(4), Value::Int(4)]));
    assert!(!IsEq.eval(&vec![Value::Int(4), Value::Int(4), Value::Int(5)]));
}

#[test]
fn is_some_and_is_none_check_arity() {
    let p: Vec<Function> = Vec::new();
    let mut store = Vec::new();
    let env = Vec::new();
    match IsSome.eval(&p, 100, &env, &mut store, vec![]) {
        clar2wasm::eval::Outcome::Trap(e) => assert_eq!(e, ErrorMap::ArgumentCountMismatch),
        other => panic!("unexpected {:?}", other),
    }
    let two = vec![Expr::Local(b"x".to_vec()), Expr::Local(b"y".to_vec())];
    match IsNone.eval(&p, 100, &env, &mut store, two) {
        clar2wasm::eval::Outcome::Trap(e) => assert_eq!(e, ErrorMap::ArgumentCountMismatch),
        other => panic!("unexpected {:?}", other),
    }
    match IsNone.eval(&p, 100, &env, &mut store, vec![Expr::Literal(Value::Optional(None))]) {
        clar2wasm::eval::Outcome::Value(Value::Bool(b)) => assert!(b),
        other => panic!("unexpected {:?}", other),
    }
}

#[test]
fn call_stack_restores_pointer() {
    let mut stack = CallStack::new(4096);
    let regions = stack.call_frame(&vec![16, 8, 32]);
    assert_eq!(regions, vec![(4096, 16), (4112, 8), (4120, 32)]);
    assert_eq!(stack.stack_pointer, 4096);
    let saved = stack.enter();
    stack.allocate(100);
    stack.exit(saved);
    assert_eq!(stack.stack_pointer, 4096);
}

#[test]
fn literal_pool_deduplicates_by_kind_and_bytes() {
    let mut pool = LiteralPool::new(1024);
    let a = pool.add_literal(LiteralKind::StringAscii, &b"hello".to_vec());
    let b = pool.add_literal(LiteralKind::Buffer, &b"hello".to_vec());
    let c = pool.add_literal(LiteralKind::StringAscii, &b"hello".to_vec());
    assert_eq!(a, (1024, 5));
    assert_eq!(b, (1029, 5));
    assert_eq!(c, a);
    assert_eq!(pool.end_offset(), 1034);
}

#[test]
fn traps_resolve_to_typed_errors() {
    let mem = vec![0u8; 64];
    let g = TrapGlobals { code: 0, value_offset: 0, arg_offset: 0, arg_len: 0 };
    assert!(matches!(from_runtime_error_code(&g, &mem, &ClarityType::Int), Ok(RuntimeError::ArithmeticOverflow)));
    let g = TrapGlobals { code: 99, ..g };
    assert!(matches!(from_runtime_error_code(&g, &mem, &ClarityType::Int), Ok(RuntimeError::Unsupported(99))));

    let mut mem = vec![0u8; 64];
    mem[0] = 42;
    let g = TrapGlobals { code: 12, value_offset: 0, arg_offset: 0, arg_len: 0 };
    match from_runtime_error_code(&g, &mem, &ClarityType::Int) {
        Ok(RuntimeError::ExpectedValue(Value::Int(42))) => {}
        other => panic!("unexpected {:?}", other),
    }
    let g = TrapGlobals { code: 10, ..g };
    match from_runtime_error_code(&g, &mem, &ClarityType::Int) {
        Ok(RuntimeError::ExpectedValue(Value::Response(false, v))) => assert!(matches!(*v, Value::Int(42))),
        other => panic!("unexpected {:?}", other),
    }

    let mut mem = vec![0u8; 64];
    let text = b"expected: 3 got: 2";
    mem[8..8 + text.len()].copy_from_slice(text);
    let g = TrapGlobals { code: 13, value_offset: 0, arg_offset: 8, arg_len: text.len() as u32 };
    match from_runtime_error_code(&g, &mem, &ClarityType::Int) {
        Ok(RuntimeError::IncorrectArgumentCount(3, 2)) => {}
        other => panic!("unexpected {:?}", other),
    }

    let mut mem = vec![0u8; 64];
    mem[4..7].copy_from_slice(b"map");
    let g = TrapGlobals { code: 9, value_offset: 0, arg_offset: 4, arg_len: 3 };
    match from_runtime_error_code(&g, &mem, &ClarityType::Int) {
        Ok(RuntimeError::NameAlreadyUsed(n)) => assert_eq!(n, b"map".to_vec()),
        other => panic!("unexpected {:?}", other),
    }
}

#[test]
fn literal_reference_cell() {
    let mut pool = LiteralPool::new(1024);
    let (off, len) = pool.add_literal(LiteralKind::StringAscii, &b"hi".to_vec());
    let cell = pool.add_reference(off, len);
    assert_eq!(cell, 1026);
    assert_eq!(&pool.bytes[2..10], &[0x00, 0x04, 0, 0, 2, 0, 0, 0]);
    assert_eq!(pool.end_offset(), 1034);
}

#[test]
fn equality_of_values_in_memory() {
    let ty = ClarityType::Optional(Box::new(ClarityType::Buffer(4)));
    let mut mem = vec![0u8; 256];
    let v = Value::Optional(Some(Box::new(Value::Buffer(vec![1, 2]))));
    let w = Value::Optional(Some(Box::new(Value::Buffer(vec![1, 3]))));
    clar2wasm::marshal::write_to_wasm(&mut mem, &ty, 0, 100, &v, true).unwrap();
    clar2wasm::marshal::write_to_wasm(&mut mem, &ty, 16, 120, &v, true).unwrap();
    clar2wasm::marshal::write_to_wasm(&mut mem, &ty, 32, 140, &w, true).unwrap();
    assert_eq!(clar2wasm::equal::is_eq_in_memory(&mem, &ty, 0, 16), Ok(true));
    assert_eq!(clar2wasm::equal::is_eq_in_memory(&mem, &ty, 0, 32), Ok(false));
}

#[test]
fn decimal_parsing() {
    assert_eq!(parse_decimal(&b"1234".to_vec()), Some(1234));
    assert_eq!(parse_decimal(&b"".to_vec()), None);
    assert_eq!(parse_decimal(&b"12a".to_vec()), None);
    assert_eq!(parse_decimal(&b"99999999999999999999999".to_vec()), None);
}

#[test]
fn evaluation_is_deterministic() {
    let p: Vec<Function> = Vec::new();
    let store = vec![(b"cursor".to_vec(), Value::Int(6))];
    let e = Expr::VarSet(b"cursor".to_vec(), Box::new(Expr::Literal(Value::Int(9))));
    assert!(crosscheck_compare_only(&p, 100, &store, &e));
}

#[test]
fn filter_copies_kept_elements_in_order() {
    let mut mem = vec![0u8; 64];
    for i in 0..4u8 {
        mem[4 * i as usize] = i + 1;
    }
    let keep = vec![false, false, true, true];
    let out_len = filter_elements(&mut mem, 0, 4, &keep, 32);
    assert_eq!(out_len, 8);
    assert_eq!(&mem[32..40], &[3, 0, 0, 0, 4, 0, 0, 0]);
    assert_eq!(&mem[0..16], &[1, 0, 0, 0, 2, 0, 0, 0, 3, 0, 0, 0, 4, 0, 0, 0]);
    assert_eq!(filter_elements(&mut mem, 0, 4, &vec![false; 4], 48), 0);
}

#[test]
fn arithmetic_error_messages() {
    assert_eq!(ArithmeticError::Log2.message(), "log2 must be passed a positive integer");
    assert_eq!(ArithmeticError::Sqrti.message(), "sqrti must be passed a positive integer");
    assert_eq!(ArithmeticError::Pow.message(), "Power argument to (pow ...) must be a u32 integer");
}
