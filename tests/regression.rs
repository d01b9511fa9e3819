use clar2wasm::consensus::to_consensus_buff;
use clar2wasm::equal::{values_equal, IsEq};
use clar2wasm::eval::{crosscheck_compare_only, run, Expr, Function, Outcome};
use clar2wasm::marshal::{read_from_wasm_indirect, write_to_wasm};
use clar2wasm::value::{ClarityType, Value};

const BIG: u128 = 115911259112154807243168097824046874107;

fn int_lit(x: i128) -> Expr {
    Expr::Literal(Value::Int(x))
}

fn uint_lit(x: u128) -> Expr {
    Expr::Literal(Value::UInt(x))
}

fn evaluate(e: &Expr) -> Value {
    let p: Vec<Function> = Vec::new();
    match run(&p, 1000, &Vec::new(), &mut Vec::new(), e) {
        Outcome::Value(v) => v,
        other => panic!("expected a value, got {:?}", other),
    }
}

/// Evaluates the expression, passes the value through linear memory with its
/// type, and checks that it comes back unchanged.
fn evaluate_expression(e: Expr, ty: ClarityType) {
    let p: Vec<Function> = Vec::new();
    assert!(crosscheck_compare_only(&p, 1000, &Vec::new(), &e));
    let v = evaluate(&e);
    let mut mem = vec![0u8; 2048];
    write_to_wasm(&mut mem, &ty, 16, 512, &v, true).expect("fits");
    let back = read_from_wasm_indirect(&mem, &ty, 16).expect("readable");
    assert!(values_equal(&back, &v));
}

fn nested_response() -> ClarityType {
    ClarityType::Response(Box::new(ClarityType::Int), Box::new(ClarityType::UInt))
}

#[test]
fn list_ok_response() {
    let e = Expr::ListOf(vec![
        Expr::OkOf(Box::new(Expr::OkOf(Box::new(int_lit(-1475))))),
        Expr::OkOf(Box::new(Expr::ErrOf(Box::new(uint_lit(BIG))))),
    ]);
    let ty = ClarityType::List(
        Box::new(ClarityType::Response(Box::new(nested_response()), Box::new(ClarityType::NoType))),
        2,
    );
    evaluate_expression(e, ty);
}

#[test]
fn list_err_response() {
    let e = Expr::ListOf(vec![
        Expr::ErrOf(Box::new(Expr::OkOf(Box::new(int_lit(-1475))))),
        Expr::ErrOf(Box::new(Expr::ErrOf(Box::new(uint_lit(BIG))))),
    ]);
    let ty = ClarityType::List(
        Box::new(ClarityType::Response(Box::new(ClarityType::NoType), Box::new(nested_response()))),
        2,
    );
    evaluate_expression(e, ty);
}

#[test]
fn list_some_response() {
    let e = Expr::ListOf(vec![
        Expr::SomeOf(Box::new(Expr::OkOf(Box::new(int_lit(-1475))))),
        Expr::SomeOf(Box::new(Expr::ErrOf(Box::new(uint_lit(BIG))))),
    ]);
    let ty = ClarityType::List(Box::new(ClarityType::Optional(Box::new(nested_response()))), 2);
    evaluate_expression(e, ty);
}

fn from_hex(s: &str) -> Vec<u8> {
    (0..s.len())
        .step_by(2)
        .map(|i| u8::from_str_radix(&s[i..i + 2], 16).unwrap())
        .collect()
}

#[test]
fn to_consensus_buff_1() {
    let v = Value::Response(
        false,
        Box::new(Value::Tuple(vec![(b"a".to_vec(), Value::Int(1))])),
    );
    assert_eq!(
        to_consensus_buff(&v),
        Some(from_hex("080c0000000101610000000000000000000000000000000001"))
    );
}

#[test]
fn consensus_prefixes() {
    assert_eq!(to_consensus_buff(&Value::Bool(true)), Some(vec![0x03]));
    assert_eq!(to_consensus_buff(&Value::Optional(None)), Some(vec![0x09]));
    assert_eq!(
        to_consensus_buff(&Value::Int(-1)),
        Some([vec![0x00], vec![0xff; 16]].concat())
    );
    assert_eq!(
        to_consensus_buff(&Value::StringUtf8(vec![0x1F98A])),
        Some(vec![0x0e, 0, 0, 0, 4, 0xf0, 0x9f, 0xa6, 0x8a])
    );
    assert_eq!(
        to_consensus_buff(&Value::Buffer(vec![0x12, 0x34])),
        Some(vec![0x02, 0, 0, 0, 2, 0x12, 0x34])
    );
}

#[test]
fn is_eq_list_opt_resp() {
    let l = || {
        Expr::ListOf(vec![
            Expr::Literal(Value::Optional(None)),
            Expr::SomeOf(Box::new(Expr::OkOf(Box::new(int_lit(1))))),
        ])
    };
    match evaluate(&Expr::IsEq(vec![l(), l()])) {
        Value::Bool(b) => assert!(b),
        other => panic!("unexpected {:?}", other),
    }
    assert!(IsEq.eval(&vec![evaluate(&l()), evaluate(&l())]));
}
