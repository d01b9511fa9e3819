use vstd::prelude::*;
use crate::marshal::{
    WasmVal, from_slots, from_slots_fields, slot_count, halves, i32_word, encode, encode_list,
    encode_fields, decode, image_at, int_bits, int_of_bits, pow256, scalar_bytes, principal_bytes,
    lemma_pow256_values, lemma_int_bits, lemma_scalars, lemma_type_size_pos, lemma_encode_list_len,
    lemma_image_split, lemma_encode_fields_len, lemma_decode_list_public,
};
use crate::marshal::{encode_value, twos_complement, lemma_encode_fields_mono, lemma_encode_fields_step};
use crate::value::{
    Value, view_value, view_fields, lemma_view_fields, wasm_slots,
    valid_type, has_type, is_in_memory, type_size, slots, fields_slots, fields_size, ClarityType,
    SValue, WasmType,
};

verus! {

/// Zero values of the given slot kinds: what fills the slots of an inactive arm.
pub open spec fn placeholders(ts: Seq<WasmType>) -> Seq<WasmVal> {
    ts.map_values(|t: WasmType| match t {
        WasmType::I32 => WasmVal::I32(0),
        WasmType::I64 => WasmVal::I64(0),
    })
}

/// A 32-bit word as the `i32` with the same bits.
pub open spec fn as_i32(x: nat) -> i32 {
    if x >= 0x8000_0000 { (x - 0x1_0000_0000) as i32 } else { x as i32 }
}

/// A 64-bit word as the `i64` with the same bits.
pub open spec fn as_i64(x: nat) -> i64 {
    if x >= 0x8000_0000_0000_0000 { (x - 0x1_0000_0000_0000_0000) as i64 } else { x as i64 }
}

/// The two `i64` halves, low then high, of a 128-bit word.
pub open spec fn split_halves(u: nat) -> Seq<WasmVal> {
    seq![
        WasmVal::I64(as_i64(u % 0x1_0000_0000_0000_0000)),
        WasmVal::I64(as_i64(u / 0x1_0000_0000_0000_0000)),
    ]
}

/// The length an in-memory value's slots carry: the payload's length, or for a
/// list the bytes its elements' primary images take.
pub open spec fn carried_len(ty: ClarityType, v: SValue, base: nat) -> nat {
    match (ty, v) {
        (ClarityType::List(t, _), SValue::List(vs)) => vs.len() * type_size(*t),
        _ => encode(ty, v, base).1.len(),
    }
}

/// The flat slots of a value, and the payload to place at `base` (the same
/// payload that writing it to memory places there; `None` bytes are passed over).
pub open spec fn to_slots(ty: ClarityType, v: SValue, base: nat) -> (Seq<WasmVal>, Seq<Option<u8>>)
    decreases v,
{
    match ty {
        ClarityType::NoType => (seq![WasmVal::I32(0)], Seq::empty()),
        ClarityType::Int => (split_halves(int_bits(v->Int_0)), Seq::empty()),
        ClarityType::UInt => (split_halves(v->UInt_0 as nat), Seq::empty()),
        ClarityType::Bool => (seq![WasmVal::I32(if v->Bool_0 { 1 } else { 0 })], Seq::empty()),
        ClarityType::Tuple(fs) => match v {
            SValue::Tuple(vs) => fields_to_slots(fs@, vs, base),
            _ => (Seq::empty(), Seq::empty()),
        },
        ClarityType::Optional(t) => match v {
            SValue::Optional(Some(b)) => {
                let (q, s) = to_slots(*t, *b, base);
                (seq![WasmVal::I32(1)] + q, s)
            },
            SValue::Optional(None) => (seq![WasmVal::I32(0)] + placeholders(slots(*t)), Seq::empty()),
            _ => (Seq::empty(), Seq::empty()),
        },
        ClarityType::Response(o, e) => match v {
            SValue::Response(ok, d) => if ok {
                let (q, s) = to_slots(*o, *d, base);
                (seq![WasmVal::I32(1)] + q + placeholders(slots(*e)), s)
            } else {
                let (q, s) = to_slots(*e, *d, base);
                (seq![WasmVal::I32(0)] + placeholders(slots(*o)) + q, s)
            },
            _ => (Seq::empty(), Seq::empty()),
        },
        _ => (
            seq![WasmVal::I32(as_i32(base)), WasmVal::I32(as_i32(carried_len(ty, v, base)))],
            encode(ty, v, base).1,
        ),
    }
}

pub open spec fn fields_to_slots(
    fs: Seq<(Vec<u8>, ClarityType)>,
    vs: Seq<(Seq<u8>, SValue)>,
    base: nat,
) -> (Seq<WasmVal>, Seq<Option<u8>>)
    decreases vs,
{
    if vs.len() == 0 || fs.len() != vs.len() {
        (Seq::empty(), Seq::empty())
    } else {
        let (q0, s0) = fields_to_slots(fs.drop_last(), vs.drop_last(), base);
        let (q1, s1) = to_slots(fs.last().1, vs.last().1, base + s0.len());
        (q0 + q1, s0 + s1)
    }
}

/// The payload of the flat form is the payload of the in-memory form.
pub proof fn lemma_same_payload(ty: ClarityType, v: SValue, base: nat)
    requires
        has_type(v, ty),
    ensures
        to_slots(ty, v, base).1 == encode(ty, v, base).1,
    decreases v,
{
    match ty {
        ClarityType::Tuple(fs) => match v {
            SValue::Tuple(vs) => lemma_fields_same_payload(fs@, vs, base),
            _ => {},
        },
        ClarityType::Optional(t) => match v {
            SValue::Optional(Some(b)) => lemma_same_payload(*t, *b, base),
            _ => {},
        },
        ClarityType::Response(o, e) => match v {
            SValue::Response(ok, d) => if ok {
                lemma_same_payload(*o, *d, base);
            } else {
                lemma_same_payload(*e, *d, base);
            },
            _ => {},
        },
        _ => {},
    }
}

proof fn lemma_fields_same_payload(fs: Seq<(Vec<u8>, ClarityType)>, vs: Seq<(Seq<u8>, SValue)>, base: nat)
    requires
        vs.len() == fs.len(),
        forall|i: int| 0 <= i < vs.len() ==> has_type(#[trigger] vs[i].1, fs[i].1),
    ensures
        fields_to_slots(fs, vs, base).1 == encode_fields(fs, vs, base).1,
    decreases vs,
{
    if vs.len() > 0 {
        assert forall|i: int| 0 <= i < vs.drop_last().len() implies has_type(
            #[trigger] vs.drop_last()[i].1,
            fs.drop_last()[i].1,
        ) by {
            assert(has_type(vs[i].1, fs[i].1));
        }
        lemma_fields_same_payload(fs.drop_last(), vs.drop_last(), base);
        let s0 = encode_fields(fs.drop_last(), vs.drop_last(), base).1;
        assert(has_type(vs[vs.len() - 1].1, fs[fs.len() - 1].1));
        lemma_same_payload(fs.last().1, vs.last().1, base + s0.len());
    }
}

/// `q` sits in `vals` from position `i`.
pub open spec fn slots_at(vals: Seq<WasmVal>, i: int, q: Seq<WasmVal>) -> bool {
    0 <= i && i + q.len() <= vals.len() && vals.subrange(i, i + q.len()) == q
}

proof fn lemma_slots_split(vals: Seq<WasmVal>, i: int, a: Seq<WasmVal>, b: Seq<WasmVal>)
    requires
        slots_at(vals, i, a + b),
    ensures
        slots_at(vals, i, a),
        slots_at(vals, i + a.len(), b),
{
    assert(vals.subrange(i, i + a.len()) =~= (a + b).subrange(0, a.len() as int));
    assert((a + b).subrange(0, a.len() as int) =~= a);
    assert(vals.subrange(i + a.len(), i + a.len() + b.len()) =~= (a + b).subrange(
        a.len() as int,
        (a + b).len() as int,
    ));
    assert((a + b).subrange(a.len() as int, (a + b).len() as int) =~= b);
}

proof fn lemma_halves(u: nat)
    requires
        u < 0x1_0000_0000_0000_0000_0000_0000_0000_0000,
    ensures
        halves(
            as_i64(u % 0x1_0000_0000_0000_0000),
            as_i64(u / 0x1_0000_0000_0000_0000),
        ) == u,
{
    let lo = u % 0x1_0000_0000_0000_0000;
    let hi = u / 0x1_0000_0000_0000_0000;
    assert(hi < 0x1_0000_0000_0000_0000) by (nonlinear_arith)
        requires hi == u / 0x1_0000_0000_0000_0000, u < 0x1_0000_0000_0000_0000_0000_0000_0000_0000;
    assert(u == hi * 0x1_0000_0000_0000_0000 + lo) by (nonlinear_arith)
        requires lo == u % 0x1_0000_0000_0000_0000, hi == u / 0x1_0000_0000_0000_0000;
}

/// Flat-slot round trip: the slots that `to_slots` gives, with the payload
/// placed at `base`, read back as the value.
pub proof fn lemma_slots_round_trip(
    mem: Seq<u8>,
    ty: ClarityType,
    v: SValue,
    base: nat,
    vals: Seq<WasmVal>,
    i: int,
)
    requires
        valid_type(ty),
        has_type(v, ty),
        slots_at(vals, i, to_slots(ty, v, base).0),
        image_at(mem, base as int, to_slots(ty, v, base).1),
        base + to_slots(ty, v, base).1.len() < pow256(4),
    ensures
        to_slots(ty, v, base).0.len() == slot_count(ty),
        from_slots(mem, ty, vals, i) == Some((Some(v), slot_count(ty))),
    decreases v,
{
    lemma_pow256_values();
    lemma_same_payload(ty, v, base);
    match ty {
        ClarityType::NoType => {},
        ClarityType::Int => {
            lemma_int_bits(v->Int_0);
            lemma_halves(int_bits(v->Int_0));
            assert(vals[i] == to_slots(ty, v, base).0[0]);
            assert(vals[i + 1] == to_slots(ty, v, base).0[1]);
        },
        ClarityType::UInt => {
            lemma_halves(v->UInt_0 as nat);
            assert(vals[i] == to_slots(ty, v, base).0[0]);
            assert(vals[i + 1] == to_slots(ty, v, base).0[1]);
        },
        ClarityType::Bool => {
            assert(vals[i] == to_slots(ty, v, base).0[0]);
        },
        ClarityType::Optional(t) => {
            match v {
                SValue::Optional(Some(b)) => {
                    let (q, s) = to_slots(*t, *b, base);
                    lemma_slots_split(vals, i, seq![WasmVal::I32(1)], q);
                    assert(vals.subrange(i, i + 1)[0] == vals[i]);
                    lemma_slots_round_trip(mem, *t, *b, base, vals, i + 1);
                },
                _ => {
                    assert(vals[i] == to_slots(ty, v, base).0[0]);
                },
            }
        },
        ClarityType::Response(o, e) => {
            match v {
                SValue::Response(ok, d) => if ok {
                    let (q, s) = to_slots(*o, *d, base);
                    lemma_slots_split(vals, i, seq![WasmVal::I32(1)] + q, placeholders(slots(*e)));
                    lemma_slots_split(vals, i, seq![WasmVal::I32(1)], q);
                    assert(vals.subrange(i, i + 1)[0] == vals[i]);
                    lemma_slots_round_trip(mem, *o, *d, base, vals, i + 1);
                } else {
                    let (q, s) = to_slots(*e, *d, base);
                    lemma_slots_split(vals, i, seq![WasmVal::I32(0)] + placeholders(slots(*o)), q);
                    lemma_slots_split(vals, i, seq![WasmVal::I32(0)], placeholders(slots(*o)));
                    assert(vals.subrange(i, i + 1)[0] == vals[i]);
                    lemma_slots_round_trip(mem, *e, *d, base, vals, i + 1 + slot_count(*o));
                },
                _ => {},
            }
        },
        ClarityType::Tuple(fs) => {
            match v {
                SValue::Tuple(vs) => {
                    assert(fs@.take(fs@.len() as int) =~= fs@);
                    assert(vs.take(vs.len() as int) =~= vs);
                    lemma_fields_round_trip(mem, ty, vs, base, vals, i, fs@.len());
                },
                _ => {},
            }
        },
        _ => {
            lemma_in_memory_round_trip(mem, ty, v, base, vals, i);
        },
    }
}

proof fn lemma_in_memory_round_trip(
    mem: Seq<u8>,
    ty: ClarityType,
    v: SValue,
    base: nat,
    vals: Seq<WasmVal>,
    i: int,
)
    requires
        is_in_memory(ty),
        valid_type(ty),
        has_type(v, ty),
        slots_at(vals, i, to_slots(ty, v, base).0),
        image_at(mem, base as int, to_slots(ty, v, base).1),
        base + to_slots(ty, v, base).1.len() < pow256(4),
    ensures
        to_slots(ty, v, base).0.len() == slot_count(ty),
        from_slots(mem, ty, vals, i) == Some((Some(v), slot_count(ty))),
{
    lemma_pow256_values();
    lemma_same_payload(ty, v, base);
    let (q, s) = to_slots(ty, v, base);
    assert(vals[i] == q[0]);
    assert(vals[i + 1] == q[1]);
    match (ty, v) {
        (ClarityType::List(t, _), SValue::List(vs)) => {
            let sz = type_size(*t);
            lemma_type_size_pos(*t);
            let w = vs.len() * sz;
            lemma_encode_list_len(*t, vs, base + w);
            let (ps, ss) = encode_list(*t, vs, base + w);
            lemma_image_split(mem, base as int, ps, ss);
            assert(w as int / sz as int == vs.len() as int) by (nonlinear_arith)
                requires w == vs.len() * sz, sz >= 4;
            lemma_decode_list_public(mem, *t, vs, base as int, base + w);
        },
        (ClarityType::StringUtf8(_), SValue::StringUtf8(cs)) => {
            lemma_scalars(cs);
            crate::marshal::lemma_image_bytes(mem, base as int, scalar_bytes(cs));
            assert((4 * cs.len()) % 4 == 0) by (nonlinear_arith);
        },
        (ClarityType::Principal, SValue::Principal(ver, h, n)) => {
            let b = principal_bytes(ver, h, n);
            crate::marshal::lemma_image_bytes(mem, base as int, b);
            let at = base as int;
            assert(mem.subrange(at, at + b.len()) == b);
            assert(mem[at] == b[0]);
            assert(mem[at + 21] == b[21]);
            assert(mem.subrange(at + 1, at + 21) =~= b.subrange(1, 21));
            assert(b.subrange(1, 21) =~= h);
            assert(mem.subrange(at + 22, at + 22 + n.len()) =~= b.subrange(22, 22 + n.len() as int));
            assert(b.subrange(22, 22 + n.len() as int) =~= n);
        },
        (ClarityType::Buffer(_), SValue::Buffer(b)) => {
            crate::marshal::lemma_image_bytes(mem, base as int, b);
        },
        (ClarityType::StringAscii(_), SValue::StringAscii(b)) => {
            crate::marshal::lemma_image_bytes(mem, base as int, b);
        },
        _ => {},
    }
}

proof fn lemma_fields_round_trip(
    mem: Seq<u8>,
    ty: ClarityType,
    vs: Seq<(Seq<u8>, SValue)>,
    base: nat,
    vals: Seq<WasmVal>,
    i: int,
    k: nat,
)
    requires
        ty is Tuple,
        valid_type(ty),
        has_type(SValue::Tuple(vs), ty),
        k <= vs.len(),
        slots_at(vals, i, fields_to_slots(ty->Tuple_0@.take(k as int), vs.take(k as int), base).0),
        image_at(mem, base as int, fields_to_slots(ty->Tuple_0@.take(k as int), vs.take(k as int), base).1),
        base + fields_to_slots(ty->Tuple_0@.take(k as int), vs.take(k as int), base).1.len() < pow256(4),
    ensures
        fields_to_slots(ty->Tuple_0@.take(k as int), vs.take(k as int), base).0.len() == fields_slots(ty->Tuple_0@.take(k as int)).len(),
        from_slots_fields(mem, ty, vals, i, k) == Some((vs.take(k as int), fields_slots(ty->Tuple_0@.take(k as int)).len())),
    decreases vs, k,
{
    let fs = ty->Tuple_0@;
    if k == 0 {
        assert(vs.take(0) =~= Seq::<(Seq<u8>, SValue)>::empty());
        assert(fs.take(0) =~= Seq::<(Vec<u8>, ClarityType)>::empty());
    } else {
        let j = k - 1;
        let fk = fs.take(k as int);
        let vk = vs.take(k as int);
        assert(fk.drop_last() =~= fs.take(j));
        assert(vk.drop_last() =~= vs.take(j));
        let (q0, s0) = fields_to_slots(fs.take(j), vs.take(j), base);
        let (q1, s1) = to_slots(fs[j].1, vs[j].1, base + s0.len());
        assert(fields_to_slots(fk, vk, base) == (q0 + q1, s0 + s1));
        lemma_slots_split(vals, i, q0, q1);
        crate::marshal::lemma_image_split(mem, base as int, s0, s1);
        lemma_fields_round_trip(mem, ty, vs, base, vals, i, j as nat);
        assert(has_type(vs[j].1, fs[j].1));
        assert(valid_type(fs[j].1));
        lemma_slots_round_trip(mem, fs[j].1, vs[j].1, base + s0.len(), vals, i + q0.len());
        assert(vs.take(j).push((fs[j].0@, vs[j].1)) =~= vk);
    }
}

fn signed64(x: u64) -> (r: i64)
    ensures
        r == as_i64(x as nat),
{
    if x >= 0x8000_0000_0000_0000u64 {
        ((x - 0x8000_0000_0000_0000u64) as i64) + i64::MIN
    } else {
        x as i64
    }
}

fn signed32(x: u32) -> (r: i32)
    ensures
        r == as_i32(x as nat),
{
    if x >= 0x8000_0000u32 {
        ((x - 0x8000_0000u32) as i32) + i32::MIN
    } else {
        x as i32
    }
}

fn halves_of(u: u128) -> (r: Vec<WasmVal>)
    ensures
        r@ == split_halves(u as nat),
{
    let lo = (u % 0x1_0000_0000_0000_0000u128) as u64;
    let hi = (u / 0x1_0000_0000_0000_0000u128) as u64;
    let r = vec![WasmVal::I64(signed64(lo)), WasmVal::I64(signed64(hi))];
    assert(r@ =~= split_halves(u as nat));
    r
}

fn placeholder_slots(ty: &ClarityType) -> (r: Vec<WasmVal>)
    ensures
        r@ == placeholders(slots(*ty)),
{
    let kinds = wasm_slots(ty);
    let mut r: Vec<WasmVal> = Vec::new();
    let mut i: usize = 0;
    while i < kinds.len()
        invariant
            0 <= i <= kinds.len(),
            kinds@ == slots(*ty),
            r@ == placeholders(kinds@.take(i as int)),
        decreases kinds.len() - i,
    {
        let z = match kinds[i] {
            WasmType::I32 => WasmVal::I32(0),
            WasmType::I64 => WasmVal::I64(0),
        };
        r.push(z);
        i = i + 1;
        assert(r@ =~= placeholders(kinds@.take(i as int)));
    }
    assert(kinds@.take(i as int) =~= kinds@);
    r
}

/// Lowers a value to its flat slots; the payload returned is to be placed at
/// `base`, where in-memory slots point (`None` bytes are left as they are).
pub fn clarity_value_to_slots(ty: &ClarityType, v: &Value, base: u32) -> (r: (Vec<WasmVal>, Vec<Option<u8>>))
    requires
        valid_type(*ty),
        has_type(v@, *ty),
        base + encode(*ty, v@, base as nat).1.len() < pow256(4),
    ensures
        (r.0@, r.1@) == to_slots(*ty, v@, base as nat),
    decreases v,
{
    proof {
        lemma_pow256_values();
        lemma_same_payload(*ty, v@, base as nat);
    }
    match ty {
        ClarityType::NoType => (vec![WasmVal::I32(0)], Vec::new()),
        ClarityType::Int => match v {
            Value::Int(x) => (halves_of(twos_complement(*x)), Vec::new()),
            _ => (Vec::new(), Vec::new()),
        },
        ClarityType::UInt => match v {
            Value::UInt(x) => (halves_of(*x), Vec::new()),
            _ => (Vec::new(), Vec::new()),
        },
        ClarityType::Bool => match v {
            Value::Bool(b) => (vec![WasmVal::I32(if *b { 1 } else { 0 })], Vec::new()),
            _ => (Vec::new(), Vec::new()),
        },
        ClarityType::Optional(t) => match v {
            Value::Optional(Some(b)) => {
                let (q, s) = clarity_value_to_slots(t, b, base);
                let mut r = vec![WasmVal::I32(1)];
                let mut q2 = q;
                r.append(&mut q2);
                (r, s)
            },
            Value::Optional(None) => {
                let mut r = vec![WasmVal::I32(0)];
                let mut z = placeholder_slots(t);
                r.append(&mut z);
                (r, Vec::new())
            },
            _ => (Vec::new(), Vec::new()),
        },
        ClarityType::Response(o, e) => match v {
            Value::Response(ok, d) => if *ok {
                let (q, s) = clarity_value_to_slots(o, d, base);
                let mut r = vec![WasmVal::I32(1)];
                let mut q2 = q;
                let mut z = placeholder_slots(e);
                r.append(&mut q2);
                r.append(&mut z);
                (r, s)
            } else {
                let (q, s) = clarity_value_to_slots(e, d, base);
                let mut r = vec![WasmVal::I32(0)];
                let mut z = placeholder_slots(o);
                let mut q2 = q;
                r.append(&mut z);
                r.append(&mut q2);
                (r, s)
            },
            _ => (Vec::new(), Vec::new()),
        },
        ClarityType::Tuple(fs) => match v {
            Value::Tuple(vs) => {
                let ghost vv = view_fields(vs@);
                proof {
                    lemma_view_fields(vs@);
                }
                let ghost total = crate::marshal::encode_fields(fs@, vv, base as nat);
                let mut qs: Vec<WasmVal> = Vec::new();
                let mut ss: Vec<Option<u8>> = Vec::new();
                let mut i: usize = 0;
                assert(vv.take(0) =~= Seq::<(Seq<u8>, SValue)>::empty());
                while i < vs.len()
                    invariant
                        0 <= i <= vs.len(),
                        *v == Value::Tuple(*vs),
                        *ty == ClarityType::Tuple(*fs),
                        vv == view_fields(vs@),
                        vv.len() == vs.len(),
                        fs@.len() == vs.len(),
                        forall|j: int| 0 <= j < vs.len() ==> #[trigger] vv[j] == (vs@[j].0@, view_value(vs@[j].1)),
                        forall|j: int| 0 <= j < vs.len() ==> has_type(#[trigger] vv[j].1, fs@[j].1),
                        forall|j: int| 0 <= j < vs.len() ==> valid_type(#[trigger] fs@[j].1),
                        total == crate::marshal::encode_fields(fs@, vv, base as nat),
                        base + total.1.len() < pow256(4),
                        pow256(4) == 0x1_0000_0000,
                        (qs@, ss@) == fields_to_slots(fs@.take(i as int), vv.take(i as int), base as nat),
                        ss@ == crate::marshal::encode_fields(fs@.take(i as int), vv.take(i as int), base as nat).1,
                    decreases vs.len() - i,
                {
                    proof {
                        lemma_encode_fields_step(fs@, vv, base as nat, i as int);
                        lemma_encode_fields_mono(fs@, vv, base as nat, i + 1);
                        vstd::seq::axiom_seq_index_decreases(vs@, i as int);
                        assert(v->Tuple_0 == *vs);
                        assert(has_type(vv[i as int].1, fs@[i as int].1));
                        assert(valid_type(fs@[i as int].1));
                        assert(vv.take(i + 1).drop_last() =~= vv.take(i as int));
                        assert(fs@.take(i + 1).drop_last() =~= fs@.take(i as int));
                    }
                    let (mut q1, mut s1) = clarity_value_to_slots(&fs[i].1, &vs[i].1, base + ss.len() as u32);
                    proof {
                        lemma_same_payload(fs@[i as int].1, vv[i as int].1, (base + ss@.len()) as nat);
                    }
                    qs.append(&mut q1);
                    ss.append(&mut s1);
                    i = i + 1;
                }
                assert(vv.take(i as int) =~= vv);
                assert(fs@.take(i as int) =~= fs@);
                (qs, ss)
            },
            _ => (Vec::new(), Vec::new()),
        },
        _ => {
            let (_p, s) = encode_value(ty, v, base);
            let carried: u32 = match (ty, v) {
                (ClarityType::List(t, _), Value::List(vs)) => {
                    proof {
                        crate::value::lemma_view_values(vs@);
                        assert(valid_type(**t));
                        lemma_encode_list_len(**t, crate::value::view_values(vs@), (base + crate::value::view_values(vs@).len() * type_size(**t)) as nat);
                    }
                    (vs.len() as u32) * crate::value::get_type_size(t)
                },
                _ => s.len() as u32,
            };
            (vec![WasmVal::I32(signed32(base)), WasmVal::I32(signed32(carried))], s)
        },
    }
}

} // verus!
