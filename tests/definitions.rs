use clar2wasm::arithmetic::ArithOp;
use clar2wasm::assets::{StxBurn, StxErrorCodes, StxTransfer, StxTransferMemo};
use clar2wasm::error_map::ErrorMap;
use clar2wasm::eval::{run, Expr, Function, Outcome};
use clar2wasm::value::{Principal, Value};
use clar2wasm::words::{DefineConstant, DefineDataVar};

fn name(s: &str) -> Vec<u8> {
    s.as_bytes().to_vec()
}

fn four() -> Expr {
    Expr::Arith(ArithOp::Add, vec![Expr::Literal(Value::Int(2)), Expr::Literal(Value::Int(2))])
}

fn is_trap(o: &Outcome, code: ErrorMap) -> bool {
    matches!(o, Outcome::Trap(e) if *e == code)
}

#[test]
fn validate_define_const() {
    let p: Vec<Function> = Vec::new();
    let mut store = Vec::new();
    let reserved = DefineConstant.eval(&p, 100, &mut store, &name("map"), &four(), true);
    assert!(is_trap(&reserved, ErrorMap::NameAlreadyUsed));
    assert!(store.is_empty());
    let first = DefineConstant.eval(&p, 100, &mut store, &name("a"), &four(), false);
    assert!(matches!(first, Outcome::Value(Value::Int(4))));
    let again = DefineConstant.eval(&p, 100, &mut store, &name("a"), &four(), false);
    assert!(is_trap(&again, ErrorMap::NameAlreadyUsed));
    assert_eq!(store.len(), 1);
}

#[test]
fn validate_define_data_var() {
    let p: Vec<Function> = Vec::new();
    let mut store = Vec::new();
    let zero = Expr::Literal(Value::Int(0));
    let reserved = DefineDataVar.eval(&p, 100, &mut store, &name("map"), &zero, true);
    assert!(is_trap(&reserved, ErrorMap::NameAlreadyUsed));
    let first = DefineDataVar.eval(&p, 100, &mut store, &name("a"), &zero, false);
    assert!(matches!(first, Outcome::Value(Value::Int(0))));
    let again = DefineDataVar.eval(&p, 100, &mut store, &name("a"), &zero, false);
    assert!(is_trap(&again, ErrorMap::NameAlreadyUsed));
}

fn simple(body: Expr) -> Vec<Function> {
    vec![Function { name: name("simple"), params: vec![], body }]
}

#[test]
fn test_var_get() {
    let p = simple(Expr::OkOf(Box::new(Expr::VarGet(name("something")))));
    let mut store = Vec::new();
    DefineDataVar.eval(&p, 100, &mut store, &name("something"), &Expr::Literal(Value::Int(123)), false);
    match run(&p, 100, &Vec::new(), &mut store, &Expr::Call(name("simple"), vec![])) {
        Outcome::Value(Value::Response(true, v)) => assert!(matches!(*v, Value::Int(123))),
        other => panic!("unexpected {:?}", other),
    }
}

#[test]
fn test_var_set() {
    let body = Expr::Begin(vec![
        Expr::VarSet(name("something"), Box::new(Expr::Literal(Value::Int(5368002525449479521366)))),
        Expr::OkOf(Box::new(Expr::VarGet(name("something")))),
    ]);
    let p = simple(body);
    let mut store = Vec::new();
    DefineDataVar.eval(&p, 100, &mut store, &name("something"), &Expr::Literal(Value::Int(123)), false);
    match run(&p, 100, &Vec::new(), &mut store, &Expr::Call(name("simple"), vec![])) {
        Outcome::Value(Value::Response(true, v)) => {
            assert!(matches!(*v, Value::Int(5368002525449479521366)))
        }
        other => panic!("unexpected {:?}", other),
    }
}

fn sender() -> Principal {
    Principal { version: 26, hash: vec![0x11; 20], name: vec![] }
}

fn other() -> Principal {
    Principal { version: 26, hash: vec![0x22; 20], name: vec![] }
}

const SENDER_BALANCE: u128 = 1_000_000;

#[test]
fn stx_test_burn_ok() {
    assert_eq!(StxBurn.eval(100, &sender(), &sender(), SENDER_BALANCE), Ok(SENDER_BALANCE - 100));
}

#[test]
fn stx_test_burn_err_1() {
    let r = StxBurn.eval(5000000000, &sender(), &sender(), SENDER_BALANCE);
    assert_eq!(r.map_err(|e| e.code()), Err(1));
}

#[test]
fn stx_test_burn_err_3() {
    let r = StxBurn.eval(0, &other(), &sender(), 0);
    assert_eq!(r.map_err(|e| e.code()), Err(3));
}

#[test]
fn stx_test_burn_err_4() {
    let r = StxBurn.eval(100, &other(), &sender(), 0);
    assert_eq!(r.map_err(|e| e.code()), Err(4));
}

#[test]
fn stx_transfer_ok() {
    let r = StxTransfer.eval(100, &sender(), &other(), &sender(), SENDER_BALANCE, 0);
    assert_eq!(r, Ok((SENDER_BALANCE - 100, 100)));
}

#[test]
fn stx_transfer_err_1() {
    let r = StxTransfer.eval(5000000000, &sender(), &other(), &sender(), SENDER_BALANCE, 0);
    assert_eq!(r.map_err(|e| e.code()), Err(1));
}

#[test]
fn stx_transfer_err_2() {
    let r = StxTransfer.eval(5000000000, &sender(), &sender(), &sender(), SENDER_BALANCE, SENDER_BALANCE);
    assert_eq!(r, Err(StxErrorCodes::SENDER_IS_RECIPIENT));
}

#[test]
fn stx_transfer_err_3() {
    let r = StxTransfer.eval(0, &sender(), &other(), &sender(), SENDER_BALANCE, 0);
    assert_eq!(r.map_err(|e| e.code()), Err(3));
}

#[test]
fn stx_transfer_err_4() {
    let r = StxTransfer.eval(100, &other(), &sender(), &sender(), 0, SENDER_BALANCE);
    assert_eq!(r.map_err(|e| e.code()), Err(4));
}

fn constant_then(name_s: &str, init: Expr) -> (Vec<Function>, Vec<(Vec<u8>, Value)>) {
    let p = vec![Function {
        name: name("get-constant"),
        params: vec![],
        body: Expr::OkOf(Box::new(Expr::VarGet(name(name_s)))),
    }];
    let mut store = Vec::new();
    let out = DefineConstant.eval(&p, 100, &mut store, &name(name_s), &init, false);
    assert!(matches!(out, Outcome::Value(_)));
    (p, store)
}

fn call_get_constant(p: &Vec<Function>, store: &mut Vec<(Vec<u8>, Value)>) -> Value {
    match run(p, 100, &Vec::new(), store, &Expr::Call(name("get-constant"), vec![])) {
        Outcome::Value(Value::Response(true, v)) => *v,
        other => panic!("unexpected {:?}", other),
    }
}

#[test]
fn define_constant_const() {
    let (p, mut store) = constant_then("four", Expr::Literal(Value::Int(4)));
    assert!(matches!(call_get_constant(&p, &mut store), Value::Int(4)));
}

#[test]
fn define_constant_function() {
    let (p, mut store) = constant_then("four", four());
    assert!(matches!(call_get_constant(&p, &mut store), Value::Int(4)));
}

#[test]
fn define_constant_list() {
    let list = Expr::ListOf(vec![Expr::Literal(Value::Int(1)), Expr::Literal(Value::Int(1))]);
    let (p, mut store) = constant_then("list-of-2-int", list);
    match call_get_constant(&p, &mut store) {
        Value::List(items) => {
            assert_eq!(items.len(), 2);
            assert!(items.iter().all(|v| matches!(v, Value::Int(1))));
        }
        other => panic!("unexpected {:?}", other),
    }
}

#[test]
fn test_int_constant() {
    let (p, mut store) = constant_then("small-int", Expr::Literal(Value::Int(1)));
    assert!(matches!(call_get_constant(&p, &mut store), Value::Int(1)));
}

#[test]
fn test_large_uint_constant() {
    let big: u128 = 338770000845734292516042252062085074415;
    let (p, mut store) = constant_then("large-uint", Expr::Literal(Value::UInt(big)));
    match call_get_constant(&p, &mut store) {
        Value::UInt(x) => assert_eq!(x, big),
        other => panic!("unexpected {:?}", other),
    }
}

#[test]
fn test_string_constant() {
    let s = Value::StringAscii(b"hello world".to_vec());
    let (p, mut store) = constant_then("string", Expr::Literal(s));
    match call_get_constant(&p, &mut store) {
        Value::StringAscii(b) => assert_eq!(b, b"hello world".to_vec()),
        other => panic!("unexpected {:?}", other),
    }
}

#[test]
fn test_string_utf8_constant() {
    let mut scalars: Vec<u32> = "hello world".chars().map(|c| c as u32).collect();
    scalars.push(0x1F98A);
    let (p, mut store) = constant_then("string-utf8", Expr::Literal(Value::StringUtf8(scalars.clone())));
    match call_get_constant(&p, &mut store) {
        Value::StringUtf8(c) => assert_eq!(c, scalars),
        other => panic!("unexpected {:?}", other),
    }
}

#[test]
fn test_bytes_constant() {
    let (p, mut store) = constant_then("bytes", Expr::Literal(Value::Buffer(vec![0x12, 0x34, 0x56, 0x78])));
    match call_get_constant(&p, &mut store) {
        Value::Buffer(b) => assert_eq!(b, vec![0x12, 0x34, 0x56, 0x78]),
        other => panic!("unexpected {:?}", other),
    }
}

#[test]
fn stx_transfer_memo_ok() {
    let r = StxTransferMemo.eval(100, &sender(), &other(), &sender(), &vec![0x12, 0x34, 0x56, 0x78], SENDER_BALANCE, 0);
    assert_eq!(r, Ok((SENDER_BALANCE - 100, 100)));
}
