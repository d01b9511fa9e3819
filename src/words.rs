use vstd::prelude::*;
use crate::error_map::ErrorMap;
use crate::eval::{Expr, Function, Outcome, SOutcome, eval_expr, index_of, run, view_outcome};
use crate::value::{Value, view_fields, lemma_view_fields, copy_bytes};

verus! {

/// What a form with malformed arguments yields: a trap, with the data
/// variables untouched.
pub open spec fn rejected(
    r: Outcome,
    code: ErrorMap,
    before: Seq<(Vec<u8>, Value)>,
    after: Seq<(Vec<u8>, Value)>,
) -> bool {
    view_outcome(r) == SOutcome::Trap(code) && view_fields(after) == view_fields(before)
}

/// What a well-formed form yields: the meaning of the expression it stands for.
pub open spec fn evaluates(
    r: Outcome,
    p: Seq<Function>,
    fuel: u64,
    env: Seq<(Vec<u8>, Value)>,
    before: Seq<(Vec<u8>, Value)>,
    after: Seq<(Vec<u8>, Value)>,
    e: Expr,
) -> bool {
    (view_outcome(r), view_fields(after)) == eval_expr(
        p,
        fuel as nat,
        view_fields(env),
        view_fields(before),
        e,
    )
}

fn pop_front(args: &mut Vec<Expr>) -> (r: Expr)
    requires
        old(args).len() > 0,
    ensures
        r == old(args)@[0],
        final(args)@ == old(args)@.subrange(1, old(args)@.len() as int),
{
    args.remove(0)
}

/// The name that an argument written as a bare identifier carries.
pub open spec fn name_arg(e: Expr) -> Option<Vec<u8>> {
    match e {
        Expr::Local(n) => Some(n),
        _ => None,
    }
}

fn take_name(e: Expr) -> (r: Option<Vec<u8>>)
    ensures
        r == name_arg(e),
{
    match e {
        Expr::Local(n) => Some(n),
        _ => None,
    }
}

/// `if`: evaluates the condition, then exactly one branch.
#[derive(Debug)]
pub struct If;

impl If {
    pub fn name(&self) -> (r: &'static str)
        ensures
            r == "if",
    {
        "if"
    }

    pub fn eval(
        &self,
        p: &Vec<Function>,
        fuel: u64,
        env: &Vec<(Vec<u8>, Value)>,
        store: &mut Vec<(Vec<u8>, Value)>,
        args: Vec<Expr>,
    ) -> (r: Outcome)
        ensures
            args.len() != 3 ==> rejected(r, ErrorMap::ArgumentCountMismatch, old(store)@, final(store)@),
            args.len() == 3 ==> evaluates(
                r,
                p@,
                fuel,
                env@,
                old(store)@,
                final(store)@,
                Expr::If(Box::new(args@[0]), Box::new(args@[1]), Box::new(args@[2])),
            ),
    {
        if args.len() != 3 {
            return Outcome::Trap(ErrorMap::ArgumentCountMismatch);
        }
        let mut rest = args;
        let c = pop_front(&mut rest);
        let t = pop_front(&mut rest);
        let e = pop_front(&mut rest);
        let form = Expr::If(Box::new(c), Box::new(t), Box::new(e));
        run(p, fuel, env, store, &form)
    }
}

/// `match`: on an optional, `(match x name some-arm none-arm)`; on a
/// response, `(match x ok-name ok-arm err-name err-arm)`. The bound name is
/// visible in its arm only.
#[derive(Debug)]
pub struct Match;

impl Match {
    pub fn name(&self) -> (r: &'static str)
        ensures
            r == "match",
    {
        "match"
    }

    pub fn eval(
        &self,
        p: &Vec<Function>,
        fuel: u64,
        env: &Vec<(Vec<u8>, Value)>,
        store: &mut Vec<(Vec<u8>, Value)>,
        args: Vec<Expr>,
    ) -> (r: Outcome)
        ensures
            args.len() != 4 && args.len() != 5 ==> rejected(
                r,
                ErrorMap::ArgumentCountMismatch,
                old(store)@,
                final(store)@,
            ),
            args.len() == 4 && name_arg(args@[1]) is None ==> rejected(
                r,
                ErrorMap::BadTypeConstruction,
                old(store)@,
                final(store)@,
            ),
            args.len() == 4 && name_arg(args@[1]) is Some ==> evaluates(
                r,
                p@,
                fuel,
                env@,
                old(store)@,
                final(store)@,
                Expr::MatchOptional(
                    Box::new(args@[0]),
                    name_arg(args@[1])->Some_0,
                    Box::new(args@[2]),
                    Box::new(args@[3]),
                ),
            ),
            args.len() == 5 && (name_arg(args@[1]) is None || name_arg(args@[3]) is None)
                ==> rejected(r, ErrorMap::BadTypeConstruction, old(store)@, final(store)@),
            args.len() == 5 && name_arg(args@[1]) is Some && name_arg(args@[3]) is Some
                ==> evaluates(
                r,
                p@,
                fuel,
                env@,
                old(store)@,
                final(store)@,
                Expr::MatchResponse(
                    Box::new(args@[0]),
                    name_arg(args@[1])->Some_0,
                    Box::new(args@[2]),
                    name_arg(args@[3])->Some_0,
                    Box::new(args@[4]),
                ),
            ),
    {
        if args.len() != 4 && args.len() != 5 {
            return Outcome::Trap(ErrorMap::ArgumentCountMismatch);
        }
        let n = args.len();
        let mut rest = args;
        let x = pop_front(&mut rest);
        let first = take_name(pop_front(&mut rest));
        let first_arm = pop_front(&mut rest);
        if n == 4 {
            let none_arm = pop_front(&mut rest);
            match first {
                Some(name) => {
                    let form = Expr::MatchOptional(Box::new(x), name, Box::new(first_arm), Box::new(none_arm));
                    run(p, fuel, env, store, &form)
                },
                None => Outcome::Trap(ErrorMap::BadTypeConstruction),
            }
        } else {
            let second = take_name(pop_front(&mut rest));
            let err_arm = pop_front(&mut rest);
            match (first, second) {
                (Some(okn), Some(errn)) => {
                    let form = Expr::MatchResponse(
                        Box::new(x),
                        okn,
                        Box::new(first_arm),
                        errn,
                        Box::new(err_arm),
                    );
                    run(p, fuel, env, store, &form)
                },
                _ => Outcome::Trap(ErrorMap::BadTypeConstruction),
            }
        }
    }
}

/// `filter`: `(filter predicate-name list)` keeps, in order, the elements on
/// which the predicate returns true.
#[derive(Debug)]
pub struct Filter;

impl Filter {
    pub fn name(&self) -> (r: &'static str)
        ensures
            r == "filter",
    {
        "filter"
    }

    pub fn eval(
        &self,
        p: &Vec<Function>,
        fuel: u64,
        env: &Vec<(Vec<u8>, Value)>,
        store: &mut Vec<(Vec<u8>, Value)>,
        args: Vec<Expr>,
    ) -> (r: Outcome)
        ensures
            args.len() != 2 ==> rejected(r, ErrorMap::ArgumentCountMismatch, old(store)@, final(store)@),
            args.len() == 2 && name_arg(args@[0]) is None ==> rejected(
                r,
                ErrorMap::BadTypeConstruction,
                old(store)@,
                final(store)@,
            ),
            args.len() == 2 && name_arg(args@[0]) is Some ==> evaluates(
                r,
                p@,
                fuel,
                env@,
                old(store)@,
                final(store)@,
                Expr::Filter(name_arg(args@[0])->Some_0, Box::new(args@[1])),
            ),
    {
        if args.len() != 2 {
            return Outcome::Trap(ErrorMap::ArgumentCountMismatch);
        }
        let mut rest = args;
        let f = take_name(pop_front(&mut rest));
        let list = pop_front(&mut rest);
        match f {
            Some(name) => {
                let form = Expr::Filter(name, Box::new(list));
                run(p, fuel, env, store, &form)
            },
            None => Outcome::Trap(ErrorMap::BadTypeConstruction),
        }
    }
}

/// `and`: true when every operand is; stops at the first false operand.
#[derive(Debug)]
pub struct And;

impl And {
    pub fn name(&self) -> (r: &'static str)
        ensures
            r == "and",
    {
        "and"
    }

    pub fn eval(
        &self,
        p: &Vec<Function>,
        fuel: u64,
        env: &Vec<(Vec<u8>, Value)>,
        store: &mut Vec<(Vec<u8>, Value)>,
        args: Vec<Expr>,
    ) -> (r: Outcome)
        ensures
            evaluates(r, p@, fuel, env@, old(store)@, final(store)@, Expr::And(args)),
    {
        let form = Expr::And(args);
        run(p, fuel, env, store, &form)
    }
}

/// `or`: true when some operand is; stops at the first true operand.
#[derive(Debug)]
pub struct Or;

impl Or {
    pub fn name(&self) -> (r: &'static str)
        ensures
            r == "or",
    {
        "or"
    }

    pub fn eval(
        &self,
        p: &Vec<Function>,
        fuel: u64,
        env: &Vec<(Vec<u8>, Value)>,
        store: &mut Vec<(Vec<u8>, Value)>,
        args: Vec<Expr>,
    ) -> (r: Outcome)
        ensures
            evaluates(r, p@, fuel, env@, old(store)@, final(store)@, Expr::Or(args)),
    {
        let form = Expr::Or(args);
        run(p, fuel, env, store, &form)
    }
}

/// `unwrap!`: the payload of `some` or `ok`; otherwise the second argument is
/// returned early from the enclosing function.
#[derive(Debug)]
pub struct Unwrap;

impl Unwrap {
    pub fn name(&self) -> (r: &'static str)
        ensures
            r == "unwrap!",
    {
        "unwrap!"
    }

    pub fn eval(
        &self,
        p: &Vec<Function>,
        fuel: u64,
        env: &Vec<(Vec<u8>, Value)>,
        store: &mut Vec<(Vec<u8>, Value)>,
        args: Vec<Expr>,
    ) -> (r: Outcome)
        ensures
            args.len() != 2 ==> rejected(r, ErrorMap::ArgumentCountMismatch, old(store)@, final(store)@),
            args.len() == 2 ==> evaluates(
                r,
                p@,
                fuel,
                env@,
                old(store)@,
                final(store)@,
                Expr::Unwrap(Box::new(args@[0]), Box::new(args@[1])),
            ),
    {
        if args.len() != 2 {
            return Outcome::Trap(ErrorMap::ArgumentCountMismatch);
        }
        let mut rest = args;
        let x = pop_front(&mut rest);
        let thrown = pop_front(&mut rest);
        let form = Expr::Unwrap(Box::new(x), Box::new(thrown));
        run(p, fuel, env, store, &form)
    }
}

/// `is-some`: whether an optional holds a value. Takes exactly one argument.
#[derive(Debug)]
pub struct IsSome;

impl IsSome {
    pub fn name(&self) -> (r: &'static str)
        ensures
            r == "is-some",
    {
        "is-some"
    }

    pub fn eval(
        &self,
        p: &Vec<Function>,
        fuel: u64,
        env: &Vec<(Vec<u8>, Value)>,
        store: &mut Vec<(Vec<u8>, Value)>,
        args: Vec<Expr>,
    ) -> (r: Outcome)
        ensures
            args.len() != 1 ==> rejected(r, ErrorMap::ArgumentCountMismatch, old(store)@, final(store)@),
            args.len() == 1 ==> evaluates(
                r,
                p@,
                fuel,
                env@,
                old(store)@,
                final(store)@,
                Expr::IsSome(Box::new(args@[0])),
            ),
    {
        if args.len() != 1 {
            return Outcome::Trap(ErrorMap::ArgumentCountMismatch);
        }
        let mut rest = args;
        let x = pop_front(&mut rest);
        let form = Expr::IsSome(Box::new(x));
        run(p, fuel, env, store, &form)
    }
}

/// `is-none`: whether an optional is empty. Takes exactly one argument.
#[derive(Debug)]
pub struct IsNone;

impl IsNone {
    pub fn name(&self) -> (r: &'static str)
        ensures
            r == "is-none",
    {
        "is-none"
    }

    pub fn eval(
        &self,
        p: &Vec<Function>,
        fuel: u64,
        env: &Vec<(Vec<u8>, Value)>,
        store: &mut Vec<(Vec<u8>, Value)>,
        args: Vec<Expr>,
    ) -> (r: Outcome)
        ensures
            args.len() != 1 ==> rejected(r, ErrorMap::ArgumentCountMismatch, old(store)@, final(store)@),
            args.len() == 1 ==> evaluates(
                r,
                p@,
                fuel,
                env@,
                old(store)@,
                final(store)@,
                Expr::IsNone(Box::new(args@[0])),
            ),
    {
        if args.len() != 1 {
            return Outcome::Trap(ErrorMap::ArgumentCountMismatch);
        }
        let mut rest = args;
        let x = pop_front(&mut rest);
        let form = Expr::IsNone(Box::new(x));
        run(p, fuel, env, store, &form)
    }
}

/// `var-set`: `(var-set name value)` stores a new value in a data variable.
#[derive(Debug)]
pub struct SetDataVar;

impl SetDataVar {
    pub fn name(&self) -> (r: &'static str)
        ensures
            r == "var-set",
    {
        "var-set"
    }

    pub fn eval(
        &self,
        p: &Vec<Function>,
        fuel: u64,
        env: &Vec<(Vec<u8>, Value)>,
        store: &mut Vec<(Vec<u8>, Value)>,
        args: Vec<Expr>,
    ) -> (r: Outcome)
        ensures
            args.len() != 2 ==> rejected(r, ErrorMap::ArgumentCountMismatch, old(store)@, final(store)@),
            args.len() == 2 && name_arg(args@[0]) is None ==> rejected(
                r,
                ErrorMap::BadTypeConstruction,
                old(store)@,
                final(store)@,
            ),
            args.len() == 2 && name_arg(args@[0]) is Some ==> evaluates(
                r,
                p@,
                fuel,
                env@,
                old(store)@,
                final(store)@,
                Expr::VarSet(name_arg(args@[0])->Some_0, Box::new(args@[1])),
            ),
    {
        if args.len() != 2 {
            return Outcome::Trap(ErrorMap::ArgumentCountMismatch);
        }
        let mut rest = args;
        let n = take_name(pop_front(&mut rest));
        let x = pop_front(&mut rest);
        match n {
            Some(name) => {
                let form = Expr::VarSet(name, Box::new(x));
                run(p, fuel, env, store, &form)
            },
            None => Outcome::Trap(ErrorMap::BadTypeConstruction),
        }
    }
}

/// `var-get`: `(var-get name)` reads a data variable.
#[derive(Debug)]
pub struct GetDataVar;

impl GetDataVar {
    pub fn name(&self) -> (r: &'static str)
        ensures
            r == "var-get",
    {
        "var-get"
    }

    pub fn eval(
        &self,
        p: &Vec<Function>,
        fuel: u64,
        env: &Vec<(Vec<u8>, Value)>,
        store: &mut Vec<(Vec<u8>, Value)>,
        args: Vec<Expr>,
    ) -> (r: Outcome)
        ensures
            args.len() != 1 ==> rejected(r, ErrorMap::ArgumentCountMismatch, old(store)@, final(store)@),
            args.len() == 1 && name_arg(args@[0]) is None ==> rejected(
                r,
                ErrorMap::BadTypeConstruction,
                old(store)@,
                final(store)@,
            ),
            args.len() == 1 && name_arg(args@[0]) is Some ==> evaluates(
                r,
                p@,
                fuel,
                env@,
                old(store)@,
                final(store)@,
                Expr::VarGet(name_arg(args@[0])->Some_0),
            ),
    {
        if args.len() != 1 {
            return Outcome::Trap(ErrorMap::ArgumentCountMismatch);
        }
        let mut rest = args;
        let n = take_name(pop_front(&mut rest));
        match n {
            Some(name) => {
                let form = Expr::VarGet(name);
                run(p, fuel, env, store, &form)
            },
            None => Outcome::Trap(ErrorMap::BadTypeConstruction),
        }
    }
}

/// Defines a top-level name bound to the value of `init`, evaluated with no
/// local bindings. A reserved name, or one already defined, is refused with
/// `NameAlreadyUsed` and nothing is evaluated. `reserved` is the answer of the
/// epoch's reserved-name table for this name.
fn define_name(
    p: &Vec<Function>,
    fuel: u64,
    store: &mut Vec<(Vec<u8>, Value)>,
    name: &Vec<u8>,
    init: &Expr,
    reserved: bool,
) -> (r: Outcome)
    ensures
        reserved || index_of(view_fields(old(store)@), name@) >= 0 ==> rejected(
            r,
            ErrorMap::NameAlreadyUsed,
            old(store)@,
            final(store)@,
        ),
        !reserved && index_of(view_fields(old(store)@), name@) < 0 ==> ({
            let (o, s1) = eval_expr(p@, fuel as nat, Seq::empty(), view_fields(old(store)@), *init);
            match o {
                SOutcome::Value(v) => view_outcome(r) == SOutcome::Value(v) && view_fields(
                    final(store)@,
                ) == s1.push((name@, v)),
                _ => view_outcome(r) == o && view_fields(final(store)@) == s1,
            }
        }),
{
    if reserved {
        return Outcome::Trap(ErrorMap::NameAlreadyUsed);
    }
    let mut i: usize = 0;
    proof {
        lemma_view_fields(store@);
    }
    let ghost b = view_fields(store@);
    assert(b.take(0) =~= Seq::<(Seq<u8>, crate::value::SValue)>::empty());
    while i < store.len()
        invariant
            0 <= i <= store.len(),
            b == view_fields(store@),
            b.len() == store.len(),
            forall|j: int| 0 <= j < store.len() ==> #[trigger] b[j] == (store@[j].0@, crate::value::view_value(store@[j].1)),
            index_of(b.take(i as int), name@) < 0,
        decreases store.len() - i,
    {
        if crate::value::bytes_equal(&store[i].0, name) {
            proof {
                lemma_index_of_found(b, name@, i as int);
            }
            return Outcome::Trap(ErrorMap::NameAlreadyUsed);
        }
        assert(b.take(i + 1).drop_last() =~= b.take(i as int));
        i = i + 1;
    }
    assert(b.take(i as int) =~= b);
    let empty: Vec<(Vec<u8>, Value)> = Vec::new();
    assert(view_fields(empty@) =~= Seq::<(Seq<u8>, crate::value::SValue)>::empty());
    let o = run(p, fuel, &empty, store, init);
    match o {
        Outcome::Value(v) => {
            let copy = v.deep_copy();
            let ghost before = store@;
            store.push((copy_bytes(name), copy));
            proof {
                assert(before.push(store@.last()) =~= store@);
                assert(before.push((store@.last().0, store@.last().1)).drop_last() =~= before);
            }
            Outcome::Value(v)
        },
        _ => o,
    }
}

proof fn lemma_index_of_found(b: crate::eval::Bindings, n: Seq<u8>, i: int)
    requires
        0 <= i < b.len(),
        b[i].0 == n,
    ensures
        index_of(b, n) >= i,
    decreases b.len(),
{
    if b.len() - 1 != i {
        if b.last().0 != n {
            lemma_index_of_found(b.drop_last(), n, i);
        }
    }
}

/// `define-data-var`: declares a data variable with its initial value.
#[derive(Debug)]
pub struct DefineDataVar;

impl DefineDataVar {
    pub fn name(&self) -> (r: &'static str)
        ensures
            r == "define-data-var",
    {
        "define-data-var"
    }

    pub fn eval(
        &self,
        p: &Vec<Function>,
        fuel: u64,
        store: &mut Vec<(Vec<u8>, Value)>,
        name: &Vec<u8>,
        init: &Expr,
        reserved: bool,
    ) -> (r: Outcome)
        ensures
            reserved || index_of(view_fields(old(store)@), name@) >= 0 ==> rejected(
                r,
                ErrorMap::NameAlreadyUsed,
                old(store)@,
                final(store)@,
            ),
            !reserved && index_of(view_fields(old(store)@), name@) < 0 ==> ({
                let (o, s1) = eval_expr(p@, fuel as nat, Seq::empty(), view_fields(old(store)@), *init);
                match o {
                    SOutcome::Value(v) => view_outcome(r) == SOutcome::Value(v) && view_fields(
                        final(store)@,
                    ) == s1.push((name@, v)),
                    _ => view_outcome(r) == o && view_fields(final(store)@) == s1,
                }
            }),
    {
        define_name(p, fuel, store, name, init, reserved)
    }
}

/// `define-constant`: binds a name to a value once; constants live beside the
/// data variables and no form sets them again.
#[derive(Debug)]
pub struct DefineConstant;

impl DefineConstant {
    pub fn name(&self) -> (r: &'static str)
        ensures
            r == "define-constant",
    {
        "define-constant"
    }

    pub fn eval(
        &self,
        p: &Vec<Function>,
        fuel: u64,
        store: &mut Vec<(Vec<u8>, Value)>,
        name: &Vec<u8>,
        init: &Expr,
        reserved: bool,
    ) -> (r: Outcome)
        ensures
            reserved || index_of(view_fields(old(store)@), name@) >= 0 ==> rejected(
                r,
                ErrorMap::NameAlreadyUsed,
                old(store)@,
                final(store)@,
            ),
            !reserved && index_of(view_fields(old(store)@), name@) < 0 ==> ({
                let (o, s1) = eval_expr(p@, fuel as nat, Seq::empty(), view_fields(old(store)@), *init);
                match o {
                    SOutcome::Value(v) => view_outcome(r) == SOutcome::Value(v) && view_fields(
                        final(store)@,
                    ) == s1.push((name@, v)),
                    _ => view_outcome(r) == o && view_fields(final(store)@) == s1,
                }
            }),
    {
        define_name(p, fuel, store, name, init, reserved)
    }
}

} // verus!
