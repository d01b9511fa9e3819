use vstd::prelude::*;
use crate::arithmetic::{ArithOp, fold_args, int_binop, uint_binop, ints, uints, fold_int, fold_uint};
use crate::error_map::ErrorMap;
use crate::equal::{IsEq, all_equal};
use crate::value::{
    SValue, Value, view_value, view_values, view_fields, lemma_view_values, lemma_view_fields,
    bytes_equal, copy_bytes,
};

verus! {

/// Comparison operators on integers.
#[derive(Debug, Clone, Copy, PartialEq, Eq, Structural)]
pub enum CompareOp {
    Lt,
    Le,
    Gt,
    Ge,
}

/// A type-checked expression of the language.
#[derive(Debug)]
pub enum Expr {
    Literal(Value),
    /// A function parameter or a name bound by `match`.
    Local(Vec<u8>),
    Arith(ArithOp, Vec<Expr>),
    Compare(CompareOp, Box<Expr>, Box<Expr>),
    If(Box<Expr>, Box<Expr>, Box<Expr>),
    And(Vec<Expr>),
    Or(Vec<Expr>),
    Begin(Vec<Expr>),
    VarGet(Vec<u8>),
    VarSet(Vec<u8>, Box<Expr>),
    ListOf(Vec<Expr>),
    /// The name of a one-argument function that returns `Bool`, and a list.
    Filter(Vec<u8>, Box<Expr>),
    Call(Vec<u8>, Vec<Expr>),
    SomeOf(Box<Expr>),
    OkOf(Box<Expr>),
    ErrOf(Box<Expr>),
    /// Scrutinee, name bound in the `some` arm, `some` arm, `none` arm.
    MatchOptional(Box<Expr>, Vec<u8>, Box<Expr>, Box<Expr>),
    /// Scrutinee, ok name, ok arm, err name, err arm.
    MatchResponse(Box<Expr>, Vec<u8>, Box<Expr>, Vec<u8>, Box<Expr>),
    /// `unwrap!`: the input, and the value returned early from the enclosing
    /// function when the input is `none` or an err.
    Unwrap(Box<Expr>, Box<Expr>),
    IsSome(Box<Expr>),
    IsNone(Box<Expr>),
    IsEq(Vec<Expr>),
}

/// A user-defined function.
#[derive(Debug)]
pub struct Function {
    pub name: Vec<u8>,
    pub params: Vec<Vec<u8>>,
    pub body: Expr,
}

/// How the evaluation of an expression ended.
#[derive(Debug)]
pub enum Outcome {
    Value(Value),
    /// An early return out of the enclosing function (`unwrap!`).
    Return(Value),
    /// A runtime trap with its error code.
    Trap(ErrorMap),
    /// The step budget ran out.
    OutOfFuel,
}

pub enum SOutcome {
    Value(SValue),
    Return(SValue),
    Trap(ErrorMap),
    OutOfFuel,
}

pub open spec fn view_outcome(o: Outcome) -> SOutcome {
    match o {
        Outcome::Value(v) => SOutcome::Value(v@),
        Outcome::Return(v) => SOutcome::Return(v@),
        Outcome::Trap(e) => SOutcome::Trap(e),
        Outcome::OutOfFuel => SOutcome::OutOfFuel,
    }
}

/// Named values: data variables, or local bindings.
pub type Bindings = Seq<(Seq<u8>, SValue)>;

/// The index of the last binding of `n`, or -1.
pub open spec fn index_of(b: Bindings, n: Seq<u8>) -> int
    decreases b.len(),
{
    if b.len() == 0 {
        -1
    } else if b.last().0 == n {
        b.len() - 1
    } else {
        index_of(b.drop_last(), n)
    }
}

pub open spec fn fn_index(p: Seq<Function>, n: Seq<u8>) -> int
    decreases p.len(),
{
    if p.len() == 0 {
        -1
    } else if p.last().name@ == n {
        p.len() - 1
    } else {
        fn_index(p.drop_last(), n)
    }
}

pub open spec fn all_int(vs: Seq<SValue>) -> bool {
    forall|i: int| 0 <= i < vs.len() ==> (#[trigger] vs[i]) is Int
}

pub open spec fn all_uint(vs: Seq<SValue>) -> bool {
    forall|i: int| 0 <= i < vs.len() ==> (#[trigger] vs[i]) is UInt
}

pub open spec fn int_parts(vs: Seq<SValue>) -> Seq<int> {
    vs.map_values(|v: SValue| v->Int_0)
}

pub open spec fn uint_parts(vs: Seq<SValue>) -> Seq<int> {
    vs.map_values(|v: SValue| v->UInt_0)
}

/// Multi-argument arithmetic over evaluated arguments of one integer type.
pub open spec fn arith_spec(op: ArithOp, vs: Seq<SValue>) -> SOutcome {
    if vs.len() == 0 {
        SOutcome::Trap(ErrorMap::BadTypeConstruction)
    } else if all_int(vs) {
        match fold_args(|a: int, b: int| int_binop(op, a, b), int_parts(vs)) {
            Ok(x) => SOutcome::Value(SValue::Int(x)),
            Err(e) => SOutcome::Trap(e),
        }
    } else if all_uint(vs) {
        match fold_args(|a: int, b: int| uint_binop(op, a, b), uint_parts(vs)) {
            Ok(x) => SOutcome::Value(SValue::UInt(x)),
            Err(e) => SOutcome::Trap(e),
        }
    } else {
        SOutcome::Trap(ErrorMap::BadTypeConstruction)
    }
}

pub open spec fn compare_ints(op: CompareOp, a: int, b: int) -> bool {
    match op {
        CompareOp::Lt => a < b,
        CompareOp::Le => a <= b,
        CompareOp::Gt => a > b,
        CompareOp::Ge => a >= b,
    }
}

pub open spec fn compare_spec(op: CompareOp, a: SValue, b: SValue) -> SOutcome {
    match (a, b) {
        (SValue::Int(x), SValue::Int(y)) => SOutcome::Value(SValue::Bool(compare_ints(op, x, y))),
        (SValue::UInt(x), SValue::UInt(y)) => SOutcome::Value(SValue::Bool(compare_ints(op, x, y))),
        _ => SOutcome::Trap(ErrorMap::BadTypeConstruction),
    }
}

/// Evaluates arguments left to right; the first outcome that is not a value
/// stops the evaluation.
pub open spec fn eval_args(
    p: Seq<Function>,
    fuel: nat,
    env: Bindings,
    store: Bindings,
    es: Seq<Expr>,
    i: int,
) -> (Result<Seq<SValue>, SOutcome>, Bindings)
    decreases fuel, es.len() - i, 1nat,
{
    if i < 0 || i >= es.len() {
        (Ok(Seq::empty()), store)
    } else {
        let (o, s1) = eval_expr(p, fuel, env, store, es[i]);
        match o {
            SOutcome::Value(v) => {
                let (rest, s2) = eval_args(p, fuel, env, s1, es, i + 1);
                match rest {
                    Ok(vs) => (Ok(seq![v] + vs), s2),
                    Err(o2) => (Err(o2), s2),
                }
            },
            _ => (Err(o), s1),
        }
    }
}

/// The short-circuit chain of `and` (`stop_on` false) and `or` (`stop_on`
/// true): an operand equal to `stop_on` ends the chain and the operands
/// after it are never evaluated.
pub open spec fn eval_chain(
    p: Seq<Function>,
    fuel: nat,
    env: Bindings,
    store: Bindings,
    es: Seq<Expr>,
    i: int,
    stop_on: bool,
) -> (SOutcome, Bindings)
    decreases fuel, es.len() - i, 1nat,
{
    if i < 0 || i >= es.len() {
        (SOutcome::Value(SValue::Bool(!stop_on)), store)
    } else {
        let (o, s1) = eval_expr(p, fuel, env, store, es[i]);
        match o {
            SOutcome::Value(SValue::Bool(b)) => if b == stop_on {
                (SOutcome::Value(SValue::Bool(stop_on)), s1)
            } else {
                eval_chain(p, fuel, env, s1, es, i + 1, stop_on)
            },
            SOutcome::Value(_) => (SOutcome::Trap(ErrorMap::BadTypeConstruction), s1),
            _ => (o, s1),
        }
    }
}

/// Calls a function on evaluated arguments; an early return ends the call
/// with its value.
pub open spec fn call_fn(p: Seq<Function>, fuel: nat, store: Bindings, f: Seq<u8>, args: Seq<
    SValue,
>) -> (SOutcome, Bindings)
    decreases fuel, 0nat, 0nat,
{
    let k = fn_index(p, f);
    if k < 0 || k >= p.len() || p[k].params@.len() != args.len() {
        (SOutcome::Trap(ErrorMap::ArgumentCountMismatch), store)
    } else if fuel == 0 {
        (SOutcome::OutOfFuel, store)
    } else {
        let env = Seq::new(args.len(), |j: int| (p[k].params@[j]@, args[j]));
        let (o, s1) = eval_expr(p, (fuel - 1) as nat, env, store, p[k].body);
        match o {
            SOutcome::Return(v) => (SOutcome::Value(v), s1),
            _ => (o, s1),
        }
    }
}

/// Keeps the elements, in order, on which the function returns true.
pub open spec fn eval_filter(
    p: Seq<Function>,
    fuel: nat,
    store: Bindings,
    f: Seq<u8>,
    vs: Seq<SValue>,
    i: int,
) -> (Result<Seq<SValue>, SOutcome>, Bindings)
    decreases fuel, vs.len() - i, 1nat,
{
    if i < 0 || i >= vs.len() {
        (Ok(Seq::empty()), store)
    } else {
        let (o, s1) = call_fn(p, fuel, store, f, seq![vs[i]]);
        match o {
            SOutcome::Value(SValue::Bool(keep)) => {
                let (rest, s2) = eval_filter(p, fuel, s1, f, vs, i + 1);
                match rest {
                    Ok(kept) => (Ok(if keep { seq![vs[i]] + kept } else { kept }), s2),
                    Err(o2) => (Err(o2), s2),
                }
            },
            SOutcome::Value(_) => (Err(SOutcome::Trap(ErrorMap::BadTypeConstruction)), s1),
            _ => (Err(o), s1),
        }
    }
}

/// The meaning of an expression: its outcome and the data variables after it.
pub open spec fn eval_expr(p: Seq<Function>, fuel: nat, env: Bindings, store: Bindings, e: Expr) -> (
    SOutcome,
    Bindings,
)
    decreases fuel, 0nat, 2nat,
{
    if fuel == 0 {
        (SOutcome::OutOfFuel, store)
    } else {
        let f = (fuel - 1) as nat;
        match e {
            Expr::Literal(v) => (SOutcome::Value(v@), store),
            Expr::Local(n) => {
                let k = index_of(env, n@);
                if 0 <= k < env.len() {
                    (SOutcome::Value(env[k].1), store)
                } else {
                    (SOutcome::Trap(ErrorMap::BadTypeConstruction), store)
                }
            },
            Expr::VarGet(n) => {
                let k = index_of(store, n@);
                if 0 <= k < store.len() {
                    (SOutcome::Value(store[k].1), store)
                } else {
                    (SOutcome::Trap(ErrorMap::BadTypeConstruction), store)
                }
            },
            Expr::VarSet(n, x) => {
                let (o, s1) = eval_expr(p, f, env, store, *x);
                match o {
                    SOutcome::Value(v) => {
                        let k = index_of(s1, n@);
                        if 0 <= k < s1.len() {
                            (SOutcome::Value(SValue::Bool(true)), s1.update(k, (n@, v)))
                        } else {
                            (SOutcome::Trap(ErrorMap::BadTypeConstruction), s1)
                        }
                    },
                    _ => (o, s1),
                }
            },
            Expr::Arith(op, es) => {
                let (r, s1) = eval_args(p, f, env, store, es@, 0);
                match r {
                    Ok(vs) => (arith_spec(op, vs), s1),
                    Err(o) => (o, s1),
                }
            },
            Expr::Compare(op, a, b) => {
                let (oa, s1) = eval_expr(p, f, env, store, *a);
                match oa {
                    SOutcome::Value(va) => {
                        let (ob, s2) = eval_expr(p, f, env, s1, *b);
                        match ob {
                            SOutcome::Value(vb) => (compare_spec(op, va, vb), s2),
                            _ => (ob, s2),
                        }
                    },
                    _ => (oa, s1),
                }
            },
            Expr::If(c, t, el) => {
                let (oc, s1) = eval_expr(p, f, env, store, *c);
                match oc {
                    SOutcome::Value(SValue::Bool(b)) => if b {
                        eval_expr(p, f, env, s1, *t)
                    } else {
                        eval_expr(p, f, env, s1, *el)
                    },
                    SOutcome::Value(_) => (SOutcome::Trap(ErrorMap::BadTypeConstruction), s1),
                    _ => (oc, s1),
                }
            },
            Expr::And(es) => eval_chain(p, f, env, store, es@, 0, false),
            Expr::Or(es) => eval_chain(p, f, env, store, es@, 0, true),
            Expr::Begin(es) => {
                let (r, s1) = eval_args(p, f, env, store, es@, 0);
                match r {
                    Ok(vs) => if vs.len() == 0 {
                        (SOutcome::Trap(ErrorMap::BadTypeConstruction), s1)
                    } else {
                        (SOutcome::Value(vs.last()), s1)
                    },
                    Err(o) => (o, s1),
                }
            },
            Expr::ListOf(es) => {
                let (r, s1) = eval_args(p, f, env, store, es@, 0);
                match r {
                    Ok(vs) => (SOutcome::Value(SValue::List(vs)), s1),
                    Err(o) => (o, s1),
                }
            },
            Expr::Filter(g, x) => {
                let (o, s1) = eval_expr(p, f, env, store, *x);
                match o {
                    SOutcome::Value(SValue::List(vs)) => {
                        let (r, s2) = eval_filter(p, f, s1, g@, vs, 0);
                        match r {
                            Ok(kept) => (SOutcome::Value(SValue::List(kept)), s2),
                            Err(o2) => (o2, s2),
                        }
                    },
                    SOutcome::Value(_) => (SOutcome::Trap(ErrorMap::BadTypeConstruction), s1),
                    _ => (o, s1),
                }
            },
            Expr::Call(g, es) => {
                let (r, s1) = eval_args(p, f, env, store, es@, 0);
                match r {
                    Ok(vs) => call_fn(p, f, s1, g@, vs),
                    Err(o) => (o, s1),
                }
            },
            Expr::SomeOf(x) => {
                let (o, s1) = eval_expr(p, f, env, store, *x);
                match o {
                    SOutcome::Value(v) => (SOutcome::Value(SValue::Optional(Some(Box::new(v)))), s1),
                    _ => (o, s1),
                }
            },
            Expr::OkOf(x) => {
                let (o, s1) = eval_expr(p, f, env, store, *x);
                match o {
                    SOutcome::Value(v) => (SOutcome::Value(SValue::Response(true, Box::new(v))), s1),
                    _ => (o, s1),
                }
            },
            Expr::ErrOf(x) => {
                let (o, s1) = eval_expr(p, f, env, store, *x);
                match o {
                    SOutcome::Value(v) => (SOutcome::Value(SValue::Response(false, Box::new(v))), s1),
                    _ => (o, s1),
                }
            },
            Expr::MatchOptional(x, n, some_arm, none_arm) => {
                let (o, s1) = eval_expr(p, f, env, store, *x);
                match o {
                    SOutcome::Value(SValue::Optional(Some(v))) => eval_expr(
                        p,
                        f,
                        env.push((n@, *v)),
                        s1,
                        *some_arm,
                    ),
                    SOutcome::Value(SValue::Optional(None)) => eval_expr(p, f, env, s1, *none_arm),
                    SOutcome::Value(_) => (SOutcome::Trap(ErrorMap::BadTypeConstruction), s1),
                    _ => (o, s1),
                }
            },
            Expr::MatchResponse(x, okn, ok_arm, errn, err_arm) => {
                let (o, s1) = eval_expr(p, f, env, store, *x);
                match o {
                    SOutcome::Value(SValue::Response(ok, v)) => if ok {
                        eval_expr(p, f, env.push((okn@, *v)), s1, *ok_arm)
                    } else {
                        eval_expr(p, f, env.push((errn@, *v)), s1, *err_arm)
                    },
                    SOutcome::Value(_) => (SOutcome::Trap(ErrorMap::BadTypeConstruction), s1),
                    _ => (o, s1),
                }
            },
            Expr::Unwrap(x, thrown) => {
                let (o, s1) = eval_expr(p, f, env, store, *x);
                match o {
                    SOutcome::Value(SValue::Optional(Some(v))) => (SOutcome::Value(*v), s1),
                    SOutcome::Value(SValue::Response(true, v)) => (SOutcome::Value(*v), s1),
                    SOutcome::Value(SValue::Optional(None)) | SOutcome::Value(
                        SValue::Response(false, _),
                    ) => {
                        let (ot, s2) = eval_expr(p, f, env, s1, *thrown);
                        match ot {
                            SOutcome::Value(t) => (SOutcome::Return(t), s2),
                            _ => (ot, s2),
                        }
                    },
                    SOutcome::Value(_) => (SOutcome::Trap(ErrorMap::BadTypeConstruction), s1),
                    _ => (o, s1),
                }
            },
            Expr::IsSome(x) => {
                let (o, s1) = eval_expr(p, f, env, store, *x);
                match o {
                    SOutcome::Value(SValue::Optional(v)) => (SOutcome::Value(SValue::Bool(v is Some)), s1),
                    SOutcome::Value(_) => (SOutcome::Trap(ErrorMap::BadTypeConstruction), s1),
                    _ => (o, s1),
                }
            },
            Expr::IsNone(x) => {
                let (o, s1) = eval_expr(p, f, env, store, *x);
                match o {
                    SOutcome::Value(SValue::Optional(v)) => (SOutcome::Value(SValue::Bool(v is None)), s1),
                    SOutcome::Value(_) => (SOutcome::Trap(ErrorMap::BadTypeConstruction), s1),
                    _ => (o, s1),
                }
            },
            Expr::IsEq(es) => {
                let (r, s1) = eval_args(p, f, env, store, es@, 0);
                match r {
                    Ok(vs) => if vs.len() == 0 {
                        (SOutcome::Trap(ErrorMap::BadTypeConstruction), s1)
                    } else {
                        (SOutcome::Value(SValue::Bool(all_equal(vs))), s1)
                    },
                    Err(o) => (o, s1),
                }
            },
        }
    }
}

pub open spec fn view_args(r: Result<Vec<Value>, Outcome>) -> Result<Seq<SValue>, SOutcome> {
    match r {
        Ok(vs) => Ok(view_values(vs@)),
        Err(o) => Err(view_outcome(o)),
    }
}

proof fn lemma_view_values_prepend(v: Value, s: Seq<Value>)
    ensures
        view_values(seq![v] + s) == seq![view_value(v)] + view_values(s),
{
    lemma_view_values(seq![v] + s);
    lemma_view_values(s);
    assert(view_values(seq![v] + s) =~= seq![view_value(v)] + view_values(s));
}

proof fn lemma_view_fields_update(s: Seq<(Vec<u8>, Value)>, k: int, x: (Vec<u8>, Value))
    requires
        0 <= k < s.len(),
    ensures
        view_fields(s.update(k, x)) == view_fields(s).update(k, (x.0@, view_value(x.1))),
{
    lemma_view_fields(s.update(k, x));
    lemma_view_fields(s);
    assert(view_fields(s.update(k, x)) =~= view_fields(s).update(k, (x.0@, view_value(x.1))));
}

proof fn lemma_view_fields_push(s: Seq<(Vec<u8>, Value)>, x: (Vec<u8>, Value))
    ensures
        view_fields(s.push(x)) == view_fields(s).push((x.0@, view_value(x.1))),
{
    assert(s.push(x).drop_last() =~= s);
}

/// The position of the last binding of `n`.
fn find_binding(b: &Vec<(Vec<u8>, Value)>, n: &Vec<u8>) -> (r: Option<usize>)
    ensures
        match r {
            Some(k) => index_of(view_fields(b@), n@) == k as int && k < b.len(),
            None => index_of(view_fields(b@), n@) == -1,
        },
{
    let mut i: usize = b.len();
    proof {
        lemma_view_fields(b@);
        assert(view_fields(b@).take(i as int) =~= view_fields(b@));
    }
    while i > 0
        invariant
            0 <= i <= b.len(),
            view_fields(b@).len() == b.len(),
            forall|j: int| 0 <= j < b.len() ==> #[trigger] view_fields(b@)[j] == (b@[j].0@, view_value(b@[j].1)),
            index_of(view_fields(b@), n@) == index_of(view_fields(b@).take(i as int), n@),
        decreases i,
    {
        let ghost t = view_fields(b@).take(i as int);
        assert(t.last() == view_fields(b@)[i - 1]);
        if bytes_equal(&b[i - 1].0, n) {
            return Some(i - 1);
        }
        assert(t.drop_last() =~= view_fields(b@).take(i - 1));
        i = i - 1;
    }
    None
}

fn find_function(p: &Vec<Function>, n: &Vec<u8>) -> (r: Option<usize>)
    ensures
        match r {
            Some(k) => fn_index(p@, n@) == k as int && k < p.len(),
            None => fn_index(p@, n@) == -1,
        },
{
    let mut i: usize = p.len();
    assert(p@.take(i as int) =~= p@);
    while i > 0
        invariant
            0 <= i <= p.len(),
            fn_index(p@, n@) == fn_index(p@.take(i as int), n@),
        decreases i,
    {
        let ghost t = p@.take(i as int);
        assert(t.last() == p@[i - 1]);
        if bytes_equal(&p[i - 1].name, n) {
            return Some(i - 1);
        }
        assert(t.drop_last() =~= p@.take(i - 1));
        i = i - 1;
    }
    None
}

/// A copy of a list of bindings.
pub fn copy_bindings(env: &Vec<(Vec<u8>, Value)>) -> (r: Vec<(Vec<u8>, Value)>)
    ensures
        view_fields(r@) == view_fields(env@),
{
    let mut r: Vec<(Vec<u8>, Value)> = Vec::new();
    let mut i: usize = 0;
    while i < env.len()
        invariant
            0 <= i <= env.len(),
            r@.len() == i,
            forall|j: int|
                0 <= j < i ==> (#[trigger] r@[j]).0@ == env@[j].0@ && view_value(r@[j].1)
                    == view_value(env@[j].1),
        decreases env.len() - i,
    {
        r.push((copy_bytes(&env[i].0), env[i].1.deep_copy()));
        i = i + 1;
    }
    proof {
        lemma_view_fields(r@);
        lemma_view_fields(env@);
        assert(view_fields(r@) =~= view_fields(env@));
    }
    r
}

/// A copy of the bindings with one more binding at the end.
fn extend(env: &Vec<(Vec<u8>, Value)>, n: &Vec<u8>, v: Value) -> (r: Vec<(Vec<u8>, Value)>)
    ensures
        view_fields(r@) == view_fields(env@).push((n@, v@)),
{
    let mut r = copy_bindings(env);
    let ghost before = r@;
    r.push((copy_bytes(n), v));
    proof {
        lemma_view_fields_push(before, r@.last());
    }
    r
}

fn as_ints(vals: &Vec<Value>) -> (r: Option<Vec<i128>>)
    ensures
        r is Some <==> all_int(view_values(vals@)),
        r is Some ==> ints(r->Some_0@) == int_parts(view_values(vals@)),
{
    proof {
        lemma_view_values(vals@);
    }
    let mut xs: Vec<i128> = Vec::new();
    let mut i: usize = 0;
    while i < vals.len()
        invariant
            0 <= i <= vals.len(),
            view_values(vals@).len() == vals.len(),
            forall|j: int| 0 <= j < vals.len() ==> #[trigger] view_values(vals@)[j] == view_value(vals@[j]),
            xs@.len() == i,
            forall|j: int| 0 <= j < i ==> (#[trigger] view_values(vals@)[j]) is Int && xs@[j] as int
                == view_values(vals@)[j]->Int_0,
        decreases vals.len() - i,
    {
        match &vals[i] {
            Value::Int(x) => {
                assert(view_values(vals@)[i as int] == SValue::Int(*x as int));
                xs.push(*x);
            },
            _ => {
                assert(!(view_values(vals@)[i as int] is Int));
                return None;
            },
        }
        i = i + 1;
    }
    assert(ints(xs@) =~= int_parts(view_values(vals@)));
    Some(xs)
}

fn as_uints(vals: &Vec<Value>) -> (r: Option<Vec<u128>>)
    ensures
        r is Some <==> all_uint(view_values(vals@)),
        r is Some ==> uints(r->Some_0@) == uint_parts(view_values(vals@)),
{
    proof {
        lemma_view_values(vals@);
    }
    let mut xs: Vec<u128> = Vec::new();
    let mut i: usize = 0;
    while i < vals.len()
        invariant
            0 <= i <= vals.len(),
            view_values(vals@).len() == vals.len(),
            forall|j: int| 0 <= j < vals.len() ==> #[trigger] view_values(vals@)[j] == view_value(vals@[j]),
            xs@.len() == i,
            forall|j: int| 0 <= j < i ==> (#[trigger] view_values(vals@)[j]) is UInt && xs@[j] as int
                == view_values(vals@)[j]->UInt_0,
        decreases vals.len() - i,
    {
        match &vals[i] {
            Value::UInt(x) => {
                assert(view_values(vals@)[i as int] == SValue::UInt(*x as int));
                xs.push(*x);
            },
            _ => {
                assert(!(view_values(vals@)[i as int] is UInt));
                return None;
            },
        }
        i = i + 1;
    }
    assert(uints(xs@) =~= uint_parts(view_values(vals@)));
    Some(xs)
}

fn arith(op: ArithOp, vals: &Vec<Value>) -> (r: Outcome)
    ensures
        view_outcome(r) == arith_spec(op, view_values(vals@)),
{
    proof {
        lemma_view_values(vals@);
    }
    if vals.len() == 0 {
        return Outcome::Trap(ErrorMap::BadTypeConstruction);
    }
    match as_ints(vals) {
        Some(xs) => {
            return match fold_int(op, &xs) {
                Ok(x) => Outcome::Value(Value::Int(x)),
                Err(e) => Outcome::Trap(e),
            };
        },
        None => {},
    }
    match as_uints(vals) {
        Some(xs) => match fold_uint(op, &xs) {
            Ok(x) => Outcome::Value(Value::UInt(x)),
            Err(e) => Outcome::Trap(e),
        },
        None => Outcome::Trap(ErrorMap::BadTypeConstruction),
    }
}

fn compare(op: CompareOp, a: &Value, b: &Value) -> (r: Outcome)
    ensures
        view_outcome(r) == compare_spec(op, a@, b@),
{
    match (a, b) {
        (Value::Int(x), Value::Int(y)) => {
            let c = match op {
                CompareOp::Lt => *x < *y,
                CompareOp::Le => *x <= *y,
                CompareOp::Gt => *x > *y,
                CompareOp::Ge => *x >= *y,
            };
            Outcome::Value(Value::Bool(c))
        },
        (Value::UInt(x), Value::UInt(y)) => {
            let c = match op {
                CompareOp::Lt => *x < *y,
                CompareOp::Le => *x <= *y,
                CompareOp::Gt => *x > *y,
                CompareOp::Ge => *x >= *y,
            };
            Outcome::Value(Value::Bool(c))
        },
        _ => Outcome::Trap(ErrorMap::BadTypeConstruction),
    }
}

/// Evaluates arguments left to right, from position `i`.
fn run_args(
    p: &Vec<Function>,
    fuel: u64,
    env: &Vec<(Vec<u8>, Value)>,
    store: &mut Vec<(Vec<u8>, Value)>,
    es: &Vec<Expr>,
    i: usize,
) -> (r: Result<Vec<Value>, Outcome>)
    requires
        i <= es.len(),
    ensures
        (view_args(r), view_fields(final(store)@)) == eval_args(
            p@,
            fuel as nat,
            view_fields(env@),
            view_fields(old(store)@),
            es@,
            i as int,
        ),
    decreases fuel, es.len() - i, 1nat,
{
    if i >= es.len() {
        let r: Vec<Value> = Vec::new();
        assert(view_values(r@) =~= Seq::<SValue>::empty());
        return Ok(r);
    }
    let o = run(p, fuel, env, store, &es[i]);
    match o {
        Outcome::Value(v) => {
            let rest = run_args(p, fuel, env, store, es, i + 1);
            match rest {
                Ok(mut vs) => {
                    let ghost before = vs@;
                    vs.insert(0, v);
                    proof {
                        assert(vs@ =~= seq![v] + before);
                        lemma_view_values_prepend(v, before);
                    }
                    Ok(vs)
                },
                Err(o2) => Err(o2),
            }
        },
        _ => Err(o),
    }
}

/// The `and` / `or` chain from position `i`.
fn run_chain(
    p: &Vec<Function>,
    fuel: u64,
    env: &Vec<(Vec<u8>, Value)>,
    store: &mut Vec<(Vec<u8>, Value)>,
    es: &Vec<Expr>,
    i: usize,
    stop_on: bool,
) -> (r: Outcome)
    requires
        i <= es.len(),
    ensures
        (view_outcome(r), view_fields(final(store)@)) == eval_chain(
            p@,
            fuel as nat,
            view_fields(env@),
            view_fields(old(store)@),
            es@,
            i as int,
            stop_on,
        ),
    decreases fuel, es.len() - i, 1nat,
{
    if i >= es.len() {
        return Outcome::Value(Value::Bool(!stop_on));
    }
    let o = run(p, fuel, env, store, &es[i]);
    match o {
        Outcome::Value(Value::Bool(b)) => if b == stop_on {
            Outcome::Value(Value::Bool(stop_on))
        } else {
            run_chain(p, fuel, env, store, es, i + 1, stop_on)
        },
        Outcome::Value(_) => Outcome::Trap(ErrorMap::BadTypeConstruction),
        _ => o,
    }
}

/// Calls function `f` on `args`.
fn run_call(
    p: &Vec<Function>,
    fuel: u64,
    store: &mut Vec<(Vec<u8>, Value)>,
    f: &Vec<u8>,
    args: Vec<Value>,
) -> (r: Outcome)
    ensures
        (view_outcome(r), view_fields(final(store)@)) == call_fn(
            p@,
            fuel as nat,
            view_fields(old(store)@),
            f@,
            view_values(args@),
        ),
    decreases fuel, 0nat, 0nat,
{
    proof {
        lemma_view_values(args@);
    }
    let k = match find_function(p, f) {
        Some(k) => k,
        None => {
            return Outcome::Trap(ErrorMap::ArgumentCountMismatch);
        },
    };
    let func = &p[k];
    if func.params.len() != args.len() {
        return Outcome::Trap(ErrorMap::ArgumentCountMismatch);
    }
    if fuel == 0 {
        return Outcome::OutOfFuel;
    }
    let mut env: Vec<(Vec<u8>, Value)> = Vec::new();
    let mut j: usize = 0;
    while j < args.len()
        invariant
            0 <= j <= args.len(),
            func.params.len() == args.len(),
            view_values(args@).len() == args.len(),
            forall|q: int| 0 <= q < args.len() ==> #[trigger] view_values(args@)[q] == view_value(args@[q]),
            env@.len() == j,
            forall|q: int|
                0 <= q < j ==> (#[trigger] env@[q]).0@ == func.params@[q]@ && view_value(env@[q].1)
                    == view_value(args@[q]),
        decreases args.len() - j,
    {
        env.push((copy_bytes(&func.params[j]), args[j].deep_copy()));
        j = j + 1;
    }
    proof {
        lemma_view_fields(env@);
        assert(view_fields(env@) =~= Seq::new(
            view_values(args@).len(),
            |q: int| (p@[k as int].params@[q]@, view_values(args@)[q]),
        ));
    }
    let o = run(p, fuel - 1, &env, store, &func.body);
    match o {
        Outcome::Return(v) => Outcome::Value(v),
        _ => o,
    }
}

/// Keeps, in order, the elements of `vs` from position `i` on which `f` returns true.
fn run_filter(
    p: &Vec<Function>,
    fuel: u64,
    store: &mut Vec<(Vec<u8>, Value)>,
    f: &Vec<u8>,
    vs: &Vec<Value>,
    i: usize,
) -> (r: Result<Vec<Value>, Outcome>)
    requires
        i <= vs.len(),
    ensures
        (view_args(r), view_fields(final(store)@)) == eval_filter(
            p@,
            fuel as nat,
            view_fields(old(store)@),
            f@,
            view_values(vs@),
            i as int,
        ),
    decreases fuel, vs.len() - i, 1nat,
{
    proof {
        lemma_view_values(vs@);
    }
    if i >= vs.len() {
        let r: Vec<Value> = Vec::new();
        assert(view_values(r@) =~= Seq::<SValue>::empty());
        return Ok(r);
    }
    let arg = vs[i].deep_copy();
    let args = vec![arg];
    proof {
        assert(args@ =~= seq![arg]);
        lemma_view_values_prepend(arg, Seq::empty());
        assert(seq![arg] + Seq::<Value>::empty() =~= seq![arg]);
        assert(view_values(Seq::<Value>::empty()) =~= Seq::<SValue>::empty());
        assert(seq![view_value(arg)] + Seq::<SValue>::empty() =~= seq![view_values(vs@)[i as int]]);
    }
    let o = run_call(p, fuel, store, f, args);
    match o {
        Outcome::Value(Value::Bool(keep)) => {
            let rest = run_filter(p, fuel, store, f, vs, i + 1);
            match rest {
                Ok(mut kept) => {
                    if keep {
                        let ghost before = kept@;
                        let e = vs[i].deep_copy();
                        kept.insert(0, e);
                        proof {
                            assert(kept@ =~= seq![e] + before);
                            lemma_view_values_prepend(e, before);
                        }
                    }
                    Ok(kept)
                },
                Err(o2) => Err(o2),
            }
        },
        Outcome::Value(_) => Err(Outcome::Trap(ErrorMap::BadTypeConstruction)),
        _ => Err(o),
    }
}

/// Evaluates an expression with at most `fuel` nested steps, against the
/// functions `p`, the local bindings `env` and the data variables `store`.
pub fn run(
    p: &Vec<Function>,
    fuel: u64,
    env: &Vec<(Vec<u8>, Value)>,
    store: &mut Vec<(Vec<u8>, Value)>,
    e: &Expr,
) -> (r: Outcome)
    ensures
        (view_outcome(r), view_fields(final(store)@)) == eval_expr(
            p@,
            fuel as nat,
            view_fields(env@),
            view_fields(old(store)@),
            *e,
        ),
    decreases fuel, 0nat, 2nat,
{
    if fuel == 0 {
        return Outcome::OutOfFuel;
    }
    let f = fuel - 1;
    proof {
        lemma_view_fields(env@);
        lemma_view_fields(store@);
    }
    match e {
        Expr::Literal(v) => Outcome::Value(v.deep_copy()),
        Expr::Local(n) => match find_binding(env, n) {
            Some(k) => Outcome::Value(env[k].1.deep_copy()),
            None => Outcome::Trap(ErrorMap::BadTypeConstruction),
        },
        Expr::VarGet(n) => match find_binding(store, n) {
            Some(k) => Outcome::Value(store[k].1.deep_copy()),
            None => Outcome::Trap(ErrorMap::BadTypeConstruction),
        },
        Expr::VarSet(n, x) => {
            let o = run(p, f, env, store, x);
            match o {
                Outcome::Value(v) => {
                    proof {
                        lemma_view_fields(store@);
                    }
                    match find_binding(store, n) {
                        Some(k) => {
                            let ghost before = store@;
                            let entry = (copy_bytes(n), v);
                            store.set(k, entry);
                            proof {
                                lemma_view_fields_update(before, k as int, entry);
                            }
                            Outcome::Value(Value::Bool(true))
                        },
                        None => Outcome::Trap(ErrorMap::BadTypeConstruction),
                    }
                },
                _ => o,
            }
        },
        Expr::Arith(op, es) => {
            let r = run_args(p, f, env, store, es, 0);
            match r {
                Ok(vs) => arith(*op, &vs),
                Err(o) => o,
            }
        },
        Expr::Compare(op, a, b) => {
            let oa = run(p, f, env, store, a);
            match oa {
                Outcome::Value(va) => {
                    let ob = run(p, f, env, store, b);
                    match ob {
                        Outcome::Value(vb) => compare(*op, &va, &vb),
                        _ => ob,
                    }
                },
                _ => oa,
            }
        },
        Expr::If(c, t, el) => {
            let oc = run(p, f, env, store, c);
            match oc {
                Outcome::Value(Value::Bool(b)) => if b {
                    run(p, f, env, store, t)
                } else {
                    run(p, f, env, store, el)
                },
                Outcome::Value(_) => Outcome::Trap(ErrorMap::BadTypeConstruction),
                _ => oc,
            }
        },
        Expr::And(es) => run_chain(p, f, env, store, es, 0, false),
        Expr::Or(es) => run_chain(p, f, env, store, es, 0, true),
        Expr::Begin(es) => {
            let r = run_args(p, f, env, store, es, 0);
            match r {
                Ok(mut vs) => {
                    proof {
                        lemma_view_values(vs@);
                    }
                    match vs.pop() {
                        Some(last) => Outcome::Value(last),
                        None => Outcome::Trap(ErrorMap::BadTypeConstruction),
                    }
                },
                Err(o) => o,
            }
        },
        Expr::ListOf(es) => {
            let r = run_args(p, f, env, store, es, 0);
            match r {
                Ok(vs) => Outcome::Value(Value::List(vs)),
                Err(o) => o,
            }
        },
        Expr::Filter(g, x) => {
            let o = run(p, f, env, store, x);
            match o {
                Outcome::Value(Value::List(vs)) => {
                    let r = run_filter(p, f, store, g, &vs, 0);
                    match r {
                        Ok(kept) => Outcome::Value(Value::List(kept)),
                        Err(o2) => o2,
                    }
                },
                Outcome::Value(_) => Outcome::Trap(ErrorMap::BadTypeConstruction),
                _ => o,
            }
        },
        Expr::Call(g, es) => {
            let r = run_args(p, f, env, store, es, 0);
            match r {
                Ok(vs) => run_call(p, f, store, g, vs),
                Err(o) => o,
            }
        },
        Expr::SomeOf(x) => {
            let o = run(p, f, env, store, x);
            match o {
                Outcome::Value(v) => Outcome::Value(Value::Optional(Some(Box::new(v)))),
                _ => o,
            }
        },
        Expr::OkOf(x) => {
            let o = run(p, f, env, store, x);
            match o {
                Outcome::Value(v) => Outcome::Value(Value::Response(true, Box::new(v))),
                _ => o,
            }
        },
        Expr::ErrOf(x) => {
            let o = run(p, f, env, store, x);
            match o {
                Outcome::Value(v) => Outcome::Value(Value::Response(false, Box::new(v))),
                _ => o,
            }
        },
        Expr::MatchOptional(x, n, some_arm, none_arm) => {
            let o = run(p, f, env, store, x);
            match o {
                Outcome::Value(Value::Optional(Some(v))) => {
                    let env2 = extend(env, n, *v);
                    run(p, f, &env2, store, some_arm)
                },
                Outcome::Value(Value::Optional(None)) => run(p, f, env, store, none_arm),
                Outcome::Value(_) => Outcome::Trap(ErrorMap::BadTypeConstruction),
                _ => o,
            }
        },
        Expr::MatchResponse(x, okn, ok_arm, errn, err_arm) => {
            let o = run(p, f, env, store, x);
            match o {
                Outcome::Value(Value::Response(ok, v)) => if ok {
                    let env2 = extend(env, okn, *v);
                    run(p, f, &env2, store, ok_arm)
                } else {
                    let env2 = extend(env, errn, *v);
                    run(p, f, &env2, store, err_arm)
                },
                Outcome::Value(_) => Outcome::Trap(ErrorMap::BadTypeConstruction),
                _ => o,
            }
        },
        Expr::Unwrap(x, thrown) => {
            let o = run(p, f, env, store, x);
            match o {
                Outcome::Value(Value::Optional(Some(v))) => Outcome::Value(*v),
                Outcome::Value(Value::Response(true, v)) => Outcome::Value(*v),
                Outcome::Value(Value::Optional(None)) | Outcome::Value(Value::Response(false, _)) => {
                    let ot = run(p, f, env, store, thrown);
                    match ot {
                        Outcome::Value(t) => Outcome::Return(t),
                        _ => ot,
                    }
                },
                Outcome::Value(_) => Outcome::Trap(ErrorMap::BadTypeConstruction),
                _ => o,
            }
        },
        Expr::IsSome(x) => {
            let o = run(p, f, env, store, x);
            match o {
                Outcome::Value(Value::Optional(v)) => Outcome::Value(Value::Bool(v.is_some())),
                Outcome::Value(_) => Outcome::Trap(ErrorMap::BadTypeConstruction),
                _ => o,
            }
        },
        Expr::IsNone(x) => {
            let o = run(p, f, env, store, x);
            match o {
                Outcome::Value(Value::Optional(v)) => Outcome::Value(Value::Bool(v.is_none())),
                Outcome::Value(_) => Outcome::Trap(ErrorMap::BadTypeConstruction),
                _ => o,
            }
        },
        Expr::IsEq(es) => {
            let r = run_args(p, f, env, store, es, 0);
            match r {
                Ok(vs) => {
                    proof {
                        lemma_view_values(vs@);
                    }
                    if vs.len() == 0 {
                        Outcome::Trap(ErrorMap::BadTypeConstruction)
                    } else {
                        Outcome::Value(Value::Bool(IsEq.eval(&vs)))
                    }
                },
                Err(o) => o,
            }
        },
    }
}

/// Whether two outcomes are the same, values compared structurally.
pub fn outcomes_equal(a: &Outcome, b: &Outcome) -> (r: bool)
    ensures
        r == (view_outcome(*a) == view_outcome(*b)),
{
    match (a, b) {
        (Outcome::Value(x), Outcome::Value(y)) => crate::equal::values_equal(x, y),
        (Outcome::Return(x), Outcome::Return(y)) => crate::equal::values_equal(x, y),
        (Outcome::Trap(x), Outcome::Trap(y)) => *x == *y,
        (Outcome::OutOfFuel, Outcome::OutOfFuel) => true,
        _ => false,
    }
}

/// Whether two lists of bindings hold the same names and values, in order.
pub fn bindings_equal(a: &Vec<(Vec<u8>, Value)>, b: &Vec<(Vec<u8>, Value)>) -> (r: bool)
    ensures
        r == (view_fields(a@) == view_fields(b@)),
{
    proof {
        lemma_view_fields(a@);
        lemma_view_fields(b@);
    }
    if a.len() != b.len() {
        return false;
    }
    let mut i: usize = 0;
    while i < a.len()
        invariant
            0 <= i <= a.len(),
            a.len() == b.len(),
            view_fields(a@).len() == a.len(),
            view_fields(b@).len() == b.len(),
            forall|j: int| 0 <= j < a.len() ==> #[trigger] view_fields(a@)[j] == (a@[j].0@, view_value(a@[j].1)),
            forall|j: int| 0 <= j < b.len() ==> #[trigger] view_fields(b@)[j] == (b@[j].0@, view_value(b@[j].1)),
            forall|j: int| 0 <= j < i ==> #[trigger] view_fields(a@)[j] == view_fields(b@)[j],
        decreases a.len() - i,
    {
        if !bytes_equal(&a[i].0, &b[i].0) || !crate::equal::values_equal(&a[i].1, &b[i].1) {
            assert(view_fields(a@)[i as int] != view_fields(b@)[i as int]);
            return false;
        }
        i = i + 1;
    }
    assert(view_fields(a@) =~= view_fields(b@));
    true
}

/// Runs an expression twice with this evaluator, each time from its own copy
/// of the data variables, and tells whether both runs gave the same outcome
/// and left the same data variables. It witnesses that evaluation is
/// deterministic, so it always answers true; it does not compare compiled code
/// with an interpreter.
pub fn crosscheck_compare_only(
    p: &Vec<Function>,
    fuel: u64,
    store: &Vec<(Vec<u8>, Value)>,
    e: &Expr,
) -> (r: bool)
    ensures
        r,
{
    let env: Vec<(Vec<u8>, Value)> = Vec::new();
    let mut first = copy_bindings(store);
    let mut second = copy_bindings(store);
    let o1 = run(p, fuel, &env, &mut first, e);
    let o2 = run(p, fuel, &env, &mut second, e);
    outcomes_equal(&o1, &o2) && bindings_equal(&first, &second)
}

/// `and` stops at an operand that is false: the operands after it are never
/// evaluated, so their effects on the data variables never happen.
pub proof fn lemma_and_short_circuits(
    p: Seq<Function>,
    fuel: nat,
    env: Bindings,
    store: Bindings,
    es: Vec<Expr>,
    s1: Bindings,
)
    requires
        fuel >= 1,
        es@.len() >= 1,
        eval_expr(p, (fuel - 1) as nat, env, store, es@[0]) == (
            SOutcome::Value(SValue::Bool(false)),
            s1,
        ),
    ensures
        eval_expr(p, fuel, env, store, Expr::And(es)) == (SOutcome::Value(SValue::Bool(false)), s1),
{
    let f = (fuel - 1) as nat;
    assert(eval_chain(p, f, env, store, es@, 0, false) == (SOutcome::Value(SValue::Bool(false)), s1));
    assert(eval_expr(p, fuel, env, store, Expr::And(es)) == eval_chain(p, f, env, store, es@, 0, false));
}

/// `or` stops at an operand that is true: the operands after it are never
/// evaluated.
pub proof fn lemma_or_short_circuits(
    p: Seq<Function>,
    fuel: nat,
    env: Bindings,
    store: Bindings,
    es: Vec<Expr>,
    s1: Bindings,
)
    requires
        fuel >= 1,
        es@.len() >= 1,
        eval_expr(p, (fuel - 1) as nat, env, store, es@[0]) == (
            SOutcome::Value(SValue::Bool(true)),
            s1,
        ),
    ensures
        eval_expr(p, fuel, env, store, Expr::Or(es)) == (SOutcome::Value(SValue::Bool(true)), s1),
{
    let f = (fuel - 1) as nat;
    assert(eval_chain(p, f, env, store, es@, 0, true) == (SOutcome::Value(SValue::Bool(true)), s1));
    assert(eval_expr(p, fuel, env, store, Expr::Or(es)) == eval_chain(p, f, env, store, es@, 0, true));
}

/// Once an `and`/`or` chain has stopped (an operand equal to the stopping
/// value, or a trap, early return or exhausted budget) within `prefix`,
/// operands written after it are never evaluated: appending them changes
/// neither the outcome nor the data variables.
pub proof fn lemma_chain_ignores_rest(
    p: Seq<Function>,
    fuel: nat,
    env: Bindings,
    store: Bindings,
    prefix: Seq<Expr>,
    rest: Seq<Expr>,
    i: int,
    stop_on: bool,
)
    requires
        0 <= i,
        eval_chain(p, fuel, env, store, prefix, i, stop_on).0 != SOutcome::Value(SValue::Bool(!stop_on)),
    ensures
        eval_chain(p, fuel, env, store, prefix + rest, i, stop_on) == eval_chain(p, fuel, env, store, prefix, i, stop_on),
    decreases prefix.len() - i,
{
    if i < prefix.len() {
        assert((prefix + rest)[i] == prefix[i]);
        let (o, s1) = eval_expr(p, fuel, env, store, prefix[i]);
        match o {
            SOutcome::Value(SValue::Bool(b)) => {
                if b != stop_on {
                    lemma_chain_ignores_rest(p, fuel, env, s1, prefix, rest, i + 1, stop_on);
                }
            },
            _ => {},
        }
    }
}

/// `(and false E ...)` is false and leaves the data variables untouched,
/// whatever the other operands do.
pub proof fn lemma_and_false_is_pure(
    p: Seq<Function>,
    fuel: nat,
    env: Bindings,
    store: Bindings,
    es: Vec<Expr>,
)
    requires
        fuel >= 2,
        es@.len() >= 1,
        es@[0] == Expr::Literal(Value::Bool(false)),
    ensures
        eval_expr(p, fuel, env, store, Expr::And(es)) == (SOutcome::Value(SValue::Bool(false)), store),
{
    assert(view_value(Value::Bool(false)) == SValue::Bool(false));
    lemma_and_short_circuits(p, fuel, env, store, es, store);
}

/// `(or true E ...)` is true and leaves the data variables untouched.
pub proof fn lemma_or_true_is_pure(
    p: Seq<Function>,
    fuel: nat,
    env: Bindings,
    store: Bindings,
    es: Vec<Expr>,
)
    requires
        fuel >= 2,
        es@.len() >= 1,
        es@[0] == Expr::Literal(Value::Bool(true)),
    ensures
        eval_expr(p, fuel, env, store, Expr::Or(es)) == (SOutcome::Value(SValue::Bool(true)), store),
{
    assert(view_value(Value::Bool(true)) == SValue::Bool(true));
    lemma_or_short_circuits(p, fuel, env, store, es, store);
}

/// `filter` with a predicate that answers `keep` on each element and leaves
/// the data variables alone returns exactly the elements satisfying `keep`,
/// in the order they had; so its length is the number of such elements.
pub proof fn lemma_filter_preserves(
    p: Seq<Function>,
    fuel: nat,
    store: Bindings,
    f: Seq<u8>,
    vs: Seq<SValue>,
    keep: spec_fn(SValue) -> bool,
)
    requires
        forall|i: int|
            0 <= i < vs.len() ==> #[trigger] call_fn(p, fuel, store, f, seq![vs[i]]) == (
                SOutcome::Value(SValue::Bool(keep(vs[i]))),
                store,
            ),
    ensures
        eval_filter(p, fuel, store, f, vs, 0) == (
            Ok::<Seq<SValue>, SOutcome>(vs.filter(keep)),
            store,
        ),
{
    lemma_filter_from(p, fuel, store, f, vs, keep, vs.len() as int);
    assert(vs.subrange(0, vs.len() as int) =~= vs);
}

proof fn lemma_filter_from(
    p: Seq<Function>,
    fuel: nat,
    store: Bindings,
    f: Seq<u8>,
    vs: Seq<SValue>,
    keep: spec_fn(SValue) -> bool,
    k: int,
)
    requires
        0 <= k <= vs.len(),
        forall|i: int|
            0 <= i < vs.len() ==> #[trigger] call_fn(p, fuel, store, f, seq![vs[i]]) == (
                SOutcome::Value(SValue::Bool(keep(vs[i]))),
                store,
            ),
    ensures
        forall|i: int|
            vs.len() - k <= i <= vs.len() ==> #[trigger] eval_filter(p, fuel, store, f, vs, i) == (
                Ok::<Seq<SValue>, SOutcome>(vs.subrange(i, vs.len() as int).filter(keep)),
                store,
            ),
    decreases k,
{
    if k == 0 {
        let i = vs.len() as int;
        assert(vs.subrange(i, i) =~= Seq::<SValue>::empty());
        assert(Seq::<SValue>::empty().filter(keep) =~= Seq::<SValue>::empty()) by {
            reveal(Seq::filter);
        }
    } else {
        lemma_filter_from(p, fuel, store, f, vs, keep, k - 1);
        let i = vs.len() - k;
        let tail = vs.subrange(i + 1, vs.len() as int);
        assert(vs.subrange(i, vs.len() as int) =~= seq![vs[i]] + tail);
        tail.lemma_filter_prepend(vs[i], keep);
        assert(eval_filter(p, fuel, store, f, vs, i + 1) == (
            Ok::<Seq<SValue>, SOutcome>(tail.filter(keep)),
            store,
        ));
        assert(call_fn(p, fuel, store, f, seq![vs[i]]) == (
            SOutcome::Value(SValue::Bool(keep(vs[i]))),
            store,
        ));
        if keep(vs[i]) {
        } else {
            assert(Seq::<SValue>::empty() + tail.filter(keep) =~= tail.filter(keep));
        }
        assert(eval_filter(p, fuel, store, f, vs, i) == (
            Ok::<Seq<SValue>, SOutcome>(vs.subrange(i, vs.len() as int).filter(keep)),
            store,
        ));
    }
}

} // verus!
