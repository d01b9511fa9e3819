use vstd::prelude::*;
use crate::marshal::{decode_at, read_from_wasm_indirect, MarshalError};
use crate::value::{valid_type, type_size, ClarityType, SValue, Value, view_value, view_values, view_fields, lemma_view_values, lemma_view_fields, bytes_equal};

verus! {

fn scalars_equal(a: &Vec<u32>, b: &Vec<u32>) -> (r: bool)
    ensures
        r == (a@ == b@),
{
    if a.len() != b.len() {
        return false;
    }
    let mut i: usize = 0;
    while i < a.len()
        invariant
            a.len() == b.len(),
            0 <= i <= a.len(),
            forall|j: int| 0 <= j < i ==> a@[j] == b@[j],
        decreases a.len() - i,
    {
        if a[i] != b[i] {
            return false;
        }
        i = i + 1;
    }
    assert(a@ =~= b@);
    true
}

/// Structural equality of two values: the comparison that `is-eq` performs,
/// recursing through optionals, responses, tuples and lists.
pub fn values_equal(a: &Value, b: &Value) -> (r: bool)
    ensures
        r == (a@ == b@),
    decreases a,
{
    match (a, b) {
        (Value::Int(x), Value::Int(y)) => *x == *y,
        (Value::UInt(x), Value::UInt(y)) => *x == *y,
        (Value::Bool(x), Value::Bool(y)) => *x == *y,
        (Value::Principal(p), Value::Principal(q)) => p.same_as(q),
        (Value::Buffer(x), Value::Buffer(y)) => bytes_equal(x, y),
        (Value::StringAscii(x), Value::StringAscii(y)) => bytes_equal(x, y),
        (Value::StringUtf8(x), Value::StringUtf8(y)) => scalars_equal(x, y),
        (Value::List(x), Value::List(y)) => {
            proof {
                lemma_view_values(x@);
                lemma_view_values(y@);
            }
            if x.len() != y.len() {
                return false;
            }
            let mut i: usize = 0;
            while i < x.len()
                invariant
                    0 <= i <= x.len(),
                    x.len() == y.len(),
                    *a == Value::List(*x),
                    *b == Value::List(*y),
                    view_values(x@).len() == x.len(),
                    view_values(y@).len() == y.len(),
                    forall|j: int| 0 <= j < x.len() ==> #[trigger] view_values(x@)[j] == view_value(x@[j]),
                    forall|j: int| 0 <= j < y.len() ==> #[trigger] view_values(y@)[j] == view_value(y@[j]),
                    forall|j: int| 0 <= j < i ==> view_value(#[trigger] x@[j]) == view_value(y@[j]),
                decreases x.len() - i,
            {
                proof {
                    vstd::seq::axiom_seq_index_decreases(x@, i as int);
                    assert(a->List_0 == *x);
                }
                if !values_equal(&x[i], &y[i]) {
                    assert(view_values(x@)[i as int] != view_values(y@)[i as int]);
                    return false;
                }
                i = i + 1;
            }
            assert(view_values(x@) =~= view_values(y@));
            true
        },
        (Value::Tuple(x), Value::Tuple(y)) => {
            proof {
                lemma_view_fields(x@);
                lemma_view_fields(y@);
            }
            if x.len() != y.len() {
                return false;
            }
            let mut i: usize = 0;
            while i < x.len()
                invariant
                    0 <= i <= x.len(),
                    x.len() == y.len(),
                    *a == Value::Tuple(*x),
                    *b == Value::Tuple(*y),
                    view_fields(x@).len() == x.len(),
                    view_fields(y@).len() == y.len(),
                    forall|j: int| 0 <= j < x.len() ==> #[trigger] view_fields(x@)[j] == (x@[j].0@, view_value(x@[j].1)),
                    forall|j: int| 0 <= j < y.len() ==> #[trigger] view_fields(y@)[j] == (y@[j].0@, view_value(y@[j].1)),
                    forall|j: int|
                        0 <= j < i ==> (#[trigger] x@[j]).0@ == y@[j].0@ && view_value(x@[j].1)
                            == view_value(y@[j].1),
                decreases x.len() - i,
            {
                proof {
                    vstd::seq::axiom_seq_index_decreases(x@, i as int);
                    assert(a->Tuple_0 == *x);
                }
                if !bytes_equal(&x[i].0, &y[i].0) {
                    assert(view_fields(x@)[i as int] != view_fields(y@)[i as int]);
                    return false;
                }
                if !values_equal(&x[i].1, &y[i].1) {
                    assert(view_fields(x@)[i as int] != view_fields(y@)[i as int]);
                    return false;
                }
                i = i + 1;
            }
            assert(view_fields(x@) =~= view_fields(y@));
            true
        },
        (Value::Optional(x), Value::Optional(y)) => match (x, y) {
            (Some(u), Some(w)) => values_equal(u, w),
            (None, None) => true,
            _ => false,
        },
        (Value::Response(ok1, u), Value::Response(ok2, w)) => *ok1 == *ok2 && values_equal(u, w),
        _ => false,
    }
}

/// `is-eq` over its arguments: whether all are equal to the first.
pub open spec fn all_equal(vs: Seq<SValue>) -> bool {
    forall|i: int| 0 <= i < vs.len() ==> #[trigger] vs[i] == vs[0]
}

/// `is-eq`: compares each argument with the first and folds the answers with
/// `and`.
#[derive(Debug)]
pub struct IsEq;

impl IsEq {
    pub fn name(&self) -> (r: &'static str)
        ensures
            r == "is-eq",
    {
        "is-eq"
    }

    pub fn eval(&self, args: &Vec<Value>) -> (r: bool)
        requires
            args.len() >= 1,
        ensures
            r == all_equal(view_values(args@)),
    {
        proof {
            lemma_view_values(args@);
        }
        let mut acc = true;
        let mut i: usize = 1;
        while i < args.len()
            invariant
                1 <= i <= args.len(),
                view_values(args@).len() == args.len(),
                forall|j: int| 0 <= j < args.len() ==> #[trigger] view_values(args@)[j] == view_value(args@[j]),
                acc == (forall|j: int| 0 <= j < i ==> #[trigger] view_values(args@)[j] == view_values(args@)[0]),
            decreases args.len() - i,
        {
            let same = values_equal(&args[0], &args[i]);
            proof {
                if acc && same {
                    assert forall|j: int| 0 <= j < i + 1 implies #[trigger] view_values(args@)[j] == view_values(args@)[0] by {
                        if j < i {
                        } else {
                            assert(j == i);
                        }
                    }
                }
                if !same {
                    assert(view_values(args@)[i as int] != view_values(args@)[0]);
                }
            }
            acc = acc && same;
            i = i + 1;
        }
        acc
    }
}

/// `is-eq` on two values of type `ty` whose images lie in linear memory at
/// offsets `a` and `b`: whether they are the same value. Fails when either
/// offset does not hold a readable value of the type.
pub fn is_eq_in_memory(mem: &Vec<u8>, ty: &ClarityType, a: u32, b: u32) -> (r: Result<bool, MarshalError>)
    requires
        valid_type(*ty),
    ensures
        match (decode_at(mem@, *ty, a as int), decode_at(mem@, *ty, b as int)) {
            (Some(x), Some(y)) => r == Ok::<bool, MarshalError>(x == y),
            _ => r is Err,
        },
{
    let x = match read_from_wasm_indirect(mem, ty, a as u64) {
        Ok(x) => x,
        Err(e) => {
            return Err(e);
        },
    };
    let y = match read_from_wasm_indirect(mem, ty, b as u64) {
        Ok(y) => y,
        Err(e) => {
            return Err(e);
        },
    };
    Ok(values_equal(&x, &y))
}

/// Equality is reflexive.
pub proof fn lemma_is_eq_reflexive(v: SValue)
    ensures
        all_equal(seq![v, v]),
{
}

/// Equality does not depend on the order of its two arguments.
pub proof fn lemma_is_eq_symmetric(a: SValue, b: SValue)
    ensures
        all_equal(seq![a, b]) == all_equal(seq![b, a]),
{
    if all_equal(seq![a, b]) {
        assert(seq![a, b][1] == seq![a, b][0]);
    }
    if all_equal(seq![b, a]) {
        assert(seq![b, a][1] == seq![b, a][0]);
    }
}

} // verus!
