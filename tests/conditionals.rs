use clar2wasm::arithmetic::ArithOp;
use clar2wasm::equal::values_equal;
use clar2wasm::eval::{run, CompareOp, Expr, Function, Outcome};
use clar2wasm::value::Value;
use clar2wasm::words::{And, DefineDataVar, Filter, If, Match, Or, Unwrap};

fn name(s: &str) -> Vec<u8> {
    s.as_bytes().to_vec()
}

fn int_lit(x: i128) -> Expr {
    Expr::Literal(Value::Int(x))
}

fn boolean(b: bool) -> Expr {
    Expr::Literal(Value::Bool(b))
}

fn eval_with(p: &Vec<Function>, store: &mut Vec<(Vec<u8>, Value)>, e: &Expr) -> Outcome {
    run(p, 1000, &Vec::new(), store, e)
}

fn value_of(o: Outcome) -> Value {
    match o {
        Outcome::Value(v) => v,
        other => panic!("expected a value, got {:?}", other),
    }
}

fn assert_int(o: Outcome, expected: i128) {
    match value_of(o) {
        Value::Int(x) => assert_eq!(x, expected),
        other => panic!("expected an int, got {:?}", other),
    }
}

fn incr_cursor() -> Expr {
    Expr::VarSet(
        name("cursor"),
        Box::new(Expr::Arith(
            ArithOp::Add,
            vec![Expr::VarGet(name("cursor")), int_lit(1)],
        )),
    )
}

fn define_cursor(p: &Vec<Function>, store: &mut Vec<(Vec<u8>, Value)>) {
    let out = DefineDataVar.eval(p, 1000, store, &name("cursor"), &int_lit(6), false);
    assert_int(out, 6);
}

#[test]
fn trivial() {
    let p = Vec::new();
    match value_of(eval_with(&p, &mut Vec::new(), &boolean(true))) {
        Value::Bool(b) => assert!(b),
        other => panic!("unexpected {:?}", other),
    }
}

#[test]
fn what_if() {
    let p = Vec::new();
    let mut store = Vec::new();
    let out = If.eval(&p, 1000, &Vec::new(), &mut store, vec![boolean(true), boolean(true), boolean(false)]);
    match value_of(out) {
        Value::Bool(b) => assert!(b),
        other => panic!("unexpected {:?}", other),
    }
}

fn sum(a: i128, b: i128) -> Expr {
    Expr::Arith(ArithOp::Add, vec![int_lit(a), int_lit(b)])
}

#[test]
fn what_if_complex() {
    let p = Vec::new();
    let mut store = Vec::new();
    let out = If.eval(&p, 1000, &Vec::new(), &mut store, vec![boolean(true), sum(1, 1), sum(2, 2)]);
    assert_int(out, 2);
    let out = If.eval(&p, 1000, &Vec::new(), &mut store, vec![boolean(false), sum(1, 1), sum(2, 2)]);
    assert_int(out, 4);
}

#[test]
fn what_if_extensive_condition() {
    let p = Vec::new();
    let mut store = Vec::new();
    let cond = Expr::Compare(CompareOp::Gt, Box::new(int_lit(9001)), Box::new(int_lit(9000)));
    let out = If.eval(&p, 1000, &Vec::new(), &mut store, vec![cond, sum(1, 1), sum(2, 2)]);
    assert_int(out, 2);
}

#[test]
fn filter() {
    let p = vec![Function {
        name: name("is-great"),
        params: vec![name("number")],
        body: Expr::Compare(
            CompareOp::Gt,
            Box::new(Expr::Local(name("number"))),
            Box::new(int_lit(2)),
        ),
    }];
    let mut store = Vec::new();
    let list = Expr::ListOf(vec![int_lit(1), int_lit(2), int_lit(3), int_lit(4)]);
    let out = Filter.eval(&p, 1000, &Vec::new(), &mut store, vec![Expr::Local(name("is-great")), list]);
    let expected = eval_with(&p, &mut store, &Expr::ListOf(vec![int_lit(3), int_lit(4)]));
    assert!(values_equal(&value_of(out), &value_of(expected)));
}

#[test]
fn and() {
    let p = Vec::new();
    let mut store = Vec::new();
    define_cursor(&p, &mut store);
    let args = vec![incr_cursor(), boolean(true), incr_cursor(), boolean(false), incr_cursor()];
    let out = And.eval(&p, 1000, &Vec::new(), &mut store, args);
    match value_of(out) {
        Value::Bool(b) => assert!(!b),
        other => panic!("unexpected {:?}", other),
    }
    let cursor = eval_with(&p, &mut store, &Expr::VarGet(name("cursor")));
    assert_int(cursor, 8);
}

#[test]
fn or() {
    let p = Vec::new();
    let mut store = Vec::new();
    define_cursor(&p, &mut store);
    let args = vec![
        Expr::Begin(vec![incr_cursor(), boolean(false)]),
        boolean(false),
        incr_cursor(),
        incr_cursor(),
    ];
    let out = Or.eval(&p, 1000, &Vec::new(), &mut store, args);
    match value_of(out) {
        Value::Bool(b) => assert!(b),
        other => panic!("unexpected {:?}", other),
    }
    let cursor = eval_with(&p, &mut store, &Expr::VarGet(name("cursor")));
    assert_int(cursor, 8);
}

fn add_10_response() -> Vec<Function> {
    let ok_arm = Expr::Arith(ArithOp::Add, vec![Expr::Local(name("val")), int_lit(10)]);
    let err_arm = Expr::Arith(ArithOp::Add, vec![Expr::Local(name("err")), int_lit(107)]);
    let body = Expr::MatchResponse(
        Box::new(Expr::Local(name("x"))),
        name("val"),
        Box::new(ok_arm),
        name("err"),
        Box::new(err_arm),
    );
    vec![Function { name: name("add-10"), params: vec![name("x")], body }]
}

#[test]
fn clar_match_a() {
    let p = add_10_response();
    let mut store = Vec::new();
    let call = Expr::Call(name("add-10"), vec![Expr::OkOf(Box::new(int_lit(115)))]);
    assert_int(eval_with(&p, &mut store, &call), 125);
    let call = Expr::Call(name("add-10"), vec![Expr::ErrOf(Box::new(int_lit(18)))]);
    assert_int(eval_with(&p, &mut store, &call), 125);
}

fn add_10_optional() -> Vec<Function> {
    let body = Expr::MatchOptional(
        Box::new(Expr::Local(name("x"))),
        name("val"),
        Box::new(Expr::Local(name("val"))),
        Box::new(int_lit(1001)),
    );
    vec![Function { name: name("add-10"), params: vec![name("x")], body }]
}

#[test]
fn clar_match_b() {
    let p = add_10_optional();
    let mut store = Vec::new();
    let call = Expr::Call(name("add-10"), vec![Expr::Literal(Value::Optional(None))]);
    assert_int(eval_with(&p, &mut store, &call), 1001);
    let call = Expr::Call(name("add-10"), vec![Expr::SomeOf(Box::new(int_lit(10)))]);
    assert_int(eval_with(&p, &mut store, &call), 10);
}

#[test]
fn match_word_on_optional() {
    let p = Vec::new();
    let mut store = Vec::new();
    let args = vec![
        Expr::SomeOf(Box::new(int_lit(10))),
        Expr::Local(name("v")),
        Expr::Local(name("v")),
        int_lit(1001),
    ];
    assert_int(Match.eval(&p, 1000, &Vec::new(), &mut store, args), 10);
    let args = vec![
        Expr::Literal(Value::Optional(None)),
        Expr::Local(name("v")),
        Expr::Local(name("v")),
        int_lit(1001),
    ];
    assert_int(Match.eval(&p, 1000, &Vec::new(), &mut store, args), 1001);
}

fn unwrapper() -> Vec<Function> {
    let body = Expr::Arith(
        ArithOp::Add,
        vec![
            Expr::Unwrap(Box::new(Expr::Local(name("x"))), Box::new(int_lit(23))),
            int_lit(10),
        ],
    );
    vec![Function { name: name("unwrapper"), params: vec![name("x")], body }]
}

#[test]
fn clar_unwrap_a() {
    let p = unwrapper();
    let mut store = Vec::new();
    let call = Expr::Call(name("unwrapper"), vec![Expr::Literal(Value::Optional(None))]);
    assert_int(eval_with(&p, &mut store, &call), 23);
    let call = Expr::Call(name("unwrapper"), vec![Expr::SomeOf(Box::new(int_lit(10)))]);
    assert_int(eval_with(&p, &mut store, &call), 20);
}

#[test]
fn clar_unwrap_b() {
    let p = unwrapper();
    let mut store = Vec::new();
    let call = Expr::Call(name("unwrapper"), vec![Expr::ErrOf(Box::new(int_lit(9999)))]);
    assert_int(eval_with(&p, &mut store, &call), 23);
    let call = Expr::Call(name("unwrapper"), vec![Expr::OkOf(Box::new(int_lit(10)))]);
    assert_int(eval_with(&p, &mut store, &call), 20);
}

#[test]
fn unwrap_err_returns_early_from_function() {
    let body = Expr::Unwrap(Box::new(Expr::ErrOf(Box::new(int_lit(23)))), Box::new(int_lit(42)));
    let p = vec![Function { name: name("f"), params: vec![], body }];
    let mut store = Vec::new();
    assert_int(eval_with(&p, &mut store, &Expr::Call(name("f"), vec![])), 42);
    let direct = Unwrap.eval(&p, 1000, &Vec::new(), &mut store, vec![Expr::ErrOf(Box::new(int_lit(23))), int_lit(42)]);
    match direct {
        Outcome::Return(Value::Int(42)) => {}
        other => panic!("expected an early return of 42, got {:?}", other),
    }
}
