use vstd::prelude::*;
use crate::marshal::{
    lift, skip, lemma_image_bytes,
    decode_at, encode, encode_list, encode_fields, image_at, in_bounds, le, pow256, principal_bytes,
    read_le, repr, scalar_bytes, scalars_of, width, zeros, int_bits, int_of_bits,
    lemma_encode_len, lemma_image_split, lemma_int_bits, lemma_le_len, lemma_pow256_values,
    lemma_read_number, lemma_read_repr, lemma_scalars, lemma_type_size_pos, lemma_encode_list_len,
    lemma_encode_fields_len,
};
use crate::marshal::read_number;
use crate::value::{get_type_size, valid_type, has_type, is_in_memory, type_size, fields_size, ClarityType, SValue};

verus! {

/// The bytes of the payload whose `(offset, length)` cell is at `at`.
pub open spec fn payload_at(mem: Seq<u8>, at: int) -> Option<Seq<u8>> {
    match (read_le(mem, at, 4), read_le(mem, at + 4, 4)) {
        (Some(o), Some(l)) => if in_bounds(mem, o as int, l as int) {
            Some(mem.subrange(o as int, (o + l) as int))
        } else {
            None
        },
        _ => None,
    }
}

/// The comparison that generated code performs on two values of type `ty`
/// whose images are at `a` and `b`: integers and booleans word by word,
/// byte-indirect values by length and bytes, optionals and responses by
/// variant and then the active arm, tuples field by field, lists by length
/// and then element by element. Anything involving `NoType` is unequal.
pub open spec fn mem_equal(mem: Seq<u8>, ty: ClarityType, a: int, b: int) -> bool
    decreases ty, width(ty) + 2,
{
    match ty {
        ClarityType::NoType => false,
        ClarityType::Int | ClarityType::UInt => read_le(mem, a, 16) is Some && read_le(mem, a, 16)
            == read_le(mem, b, 16),
        ClarityType::Bool => read_le(mem, a, 4) is Some && read_le(mem, a, 4) == read_le(mem, b, 4),
        ClarityType::List(t, _) => match (
            read_le(mem, a, 4),
            read_le(mem, a + 4, 4),
            read_le(mem, b, 4),
            read_le(mem, b + 4, 4),
        ) {
            (Some(oa), Some(la), Some(ob), Some(lb)) => la == lb && type_size(*t) > 0 && list_equal(
                mem,
                *t,
                oa as int,
                ob as int,
                la / type_size(*t),
            ),
            _ => false,
        },
        ClarityType::Optional(t) => match (read_le(mem, a, 4), read_le(mem, b, 4)) {
            (Some(x), Some(y)) => x == y && (x == 0 || mem_equal(mem, *t, a + 4, b + 4)),
            _ => false,
        },
        ClarityType::Response(o, e) => match (read_le(mem, a, 4), read_le(mem, b, 4)) {
            (Some(x), Some(y)) => x == y && if x == 1 {
                mem_equal(mem, *o, a + 4, b + 4)
            } else {
                mem_equal(mem, *e, a + 4 + type_size(*o), b + 4 + type_size(*o))
            },
            _ => false,
        },
        ClarityType::Tuple(fs) => fields_equal(mem, ty, a, b, fs@.len()),
        _ => payload_at(mem, a) is Some && payload_at(mem, a) == payload_at(mem, b),
    }
}

/// The first `count` elements of two lists agree.
pub open spec fn list_equal(mem: Seq<u8>, t: ClarityType, a: int, b: int, count: nat) -> bool
    decreases t, width(t) + 4 + count,
{
    count == 0 || (list_equal(mem, t, a, b, (count - 1) as nat) && mem_equal(
        mem,
        t,
        a + (count - 1) * type_size(t),
        b + (count - 1) * type_size(t),
    ))
}

/// The first `k` fields of two tuples of type `ty` agree.
pub open spec fn fields_equal(mem: Seq<u8>, ty: ClarityType, a: int, b: int, k: nat) -> bool
    decreases ty, k,
{
    match ty {
        ClarityType::Tuple(fs) => k == 0 || (k <= fs@.len() && fields_equal(mem, ty, a, b, (k - 1) as nat)
            && mem_equal(
            mem,
            fs@[k - 1].1,
            a + fields_size(fs@.take(k - 1)),
            b + fields_size(fs@.take(k - 1)),
        )),
        _ => false,
    }
}

/// The image of `v` is in memory: its primary bytes at `at`, its payload at
/// `base`.
pub open spec fn placed(mem: Seq<u8>, ty: ClarityType, v: SValue, at: int, base: nat) -> bool {
    &&& image_at(mem, at, encode(ty, v, base).0)
    &&& image_at(mem, base as int, encode(ty, v, base).1)
    &&& base + encode(ty, v, base).1.len() < pow256(4)
}

proof fn lemma_le_injective(x: nat, y: nat, n: nat)
    requires
        x < pow256(n),
        y < pow256(n),
    ensures
        (le(x, n) == le(y, n)) == (x == y),
{
    crate::marshal::lemma_le_small(x, n);
    crate::marshal::lemma_le_small(y, n);
}

proof fn lemma_principal_injective(v1: u8, h1: Seq<u8>, n1: Seq<u8>, v2: u8, h2: Seq<u8>, n2: Seq<u8>)
    requires
        h1.len() == 20,
        h2.len() == 20,
        n1.len() <= 128,
        n2.len() <= 128,
    ensures
        (principal_bytes(v1, h1, n1) == principal_bytes(v2, h2, n2)) == (v1 == v2 && h1 == h2 && n1
            == n2),
{
    let p1 = principal_bytes(v1, h1, n1);
    let p2 = principal_bytes(v2, h2, n2);
    if p1 == p2 {
        assert(p1[0] == v1);
        assert(p2[0] == v2);
        assert(p1.subrange(1, 21) =~= h1);
        assert(p2.subrange(1, 21) =~= h2);
        assert(p1[21] == n1.len() as u8);
        assert(p2[21] == n2.len() as u8);
        assert(p1.subrange(22, p1.len() as int) =~= n1);
        assert(p2.subrange(22, p2.len() as int) =~= n2);
    }
}

/// Where each element of an encoded list lies: element `i`'s primary image at
/// `ebase + i * size`, its payload after the payloads of the elements before it.
pub open spec fn elem_base(t: ClarityType, vs: Seq<SValue>, sbase: nat, i: int) -> nat {
    sbase + encode_list(t, vs.take(i), sbase).1.len()
}

proof fn lemma_list_elements(mem: Seq<u8>, t: ClarityType, vs: Seq<SValue>, ebase: int, sbase: nat)
    requires
        forall|i: int| 0 <= i < vs.len() ==> has_type(#[trigger] vs[i], t),
        image_at(mem, ebase, encode_list(t, vs, sbase).0),
        image_at(mem, sbase as int, encode_list(t, vs, sbase).1),
        sbase + encode_list(t, vs, sbase).1.len() < pow256(4),
    ensures
        forall|i: int|
            0 <= i < vs.len() ==> #[trigger] placed(mem, t, vs[i], ebase + i * type_size(t), elem_base(t, vs, sbase, i)),
    decreases vs.len(),
{
    if vs.len() > 0 {
        let init = vs.drop_last();
        let (p0, s0) = encode_list(t, init, sbase);
        let (p1, s1) = encode(t, vs.last(), sbase + s0.len());
        lemma_image_split(mem, ebase, p0, p1);
        lemma_image_split(mem, sbase as int, s0, s1);
        assert forall|i: int| 0 <= i < init.len() implies has_type(#[trigger] init[i], t) by {
            assert(has_type(vs[i], t));
        }
        lemma_list_elements(mem, t, init, ebase, sbase);
        lemma_encode_list_len(t, init, sbase);
        assert forall|i: int| 0 <= i < vs.len() implies #[trigger] placed(
            mem,
            t,
            vs[i],
            ebase + i * type_size(t),
            elem_base(t, vs, sbase, i),
        ) by {
            if i < init.len() {
                assert(init.take(i) =~= vs.take(i));
                assert(placed(mem, t, init[i], ebase + i * type_size(t), elem_base(t, init, sbase, i)));
            } else {
                assert(vs.take(i) =~= init);
            }
        }
    }
}

/// Where each field of an encoded tuple lies.
pub open spec fn field_base(fs: Seq<(Vec<u8>, ClarityType)>, vs: Seq<(Seq<u8>, SValue)>, base: nat, i: int) -> nat {
    base + encode_fields(fs.take(i), vs.take(i), base).1.len()
}

proof fn lemma_field_elements(
    mem: Seq<u8>,
    fs: Seq<(Vec<u8>, ClarityType)>,
    vs: Seq<(Seq<u8>, SValue)>,
    at: int,
    base: nat,
)
    requires
        vs.len() == fs.len(),
        forall|i: int| 0 <= i < vs.len() ==> has_type(#[trigger] vs[i].1, fs[i].1),
        image_at(mem, at, encode_fields(fs, vs, base).0),
        image_at(mem, base as int, encode_fields(fs, vs, base).1),
        base + encode_fields(fs, vs, base).1.len() < pow256(4),
    ensures
        forall|i: int|
            0 <= i < vs.len() ==> #[trigger] placed(mem, fs[i].1, vs[i].1, at + fields_size(fs.take(i)), field_base(fs, vs, base, i)),
    decreases vs.len(),
{
    if vs.len() > 0 {
        let fi = fs.drop_last();
        let vi = vs.drop_last();
        let (p0, s0) = encode_fields(fi, vi, base);
        let (p1, s1) = encode(fs.last().1, vs.last().1, base + s0.len());
        lemma_image_split(mem, at, p0, p1);
        lemma_image_split(mem, base as int, s0, s1);
        assert forall|i: int| 0 <= i < vi.len() implies has_type(#[trigger] vi[i].1, fi[i].1) by {
            assert(has_type(vs[i].1, fs[i].1));
        }
        lemma_field_elements(mem, fi, vi, at, base);
        lemma_encode_fields_len(fi, vi, base);
        assert forall|i: int| 0 <= i < vs.len() implies #[trigger] placed(
            mem,
            fs[i].1,
            vs[i].1,
            at + fields_size(fs.take(i)),
            field_base(fs, vs, base, i),
        ) by {
            if i < vi.len() {
                assert(vi.take(i) =~= vs.take(i));
                assert(fi.take(i) =~= fs.take(i));
                assert(placed(mem, fi[i].1, vi[i].1, at + fields_size(fi.take(i)), field_base(fi, vi, base, i)));
            } else {
                assert(vs.take(i) =~= vi);
                assert(fs.take(i) =~= fi);
            }
        }
    }
}

/// The in-place comparison agrees with value equality: for two values whose
/// images were written by the encoder, comparing the images tells whether the
/// values are equal.
pub proof fn lemma_mem_equal(
    mem: Seq<u8>,
    ty: ClarityType,
    va: SValue,
    vb: SValue,
    a: int,
    b: int,
    base_a: nat,
    base_b: nat,
)
    requires
        valid_type(ty),
        has_type(va, ty),
        has_type(vb, ty),
        placed(mem, ty, va, a, base_a),
        placed(mem, ty, vb, b, base_b),
    ensures
        mem_equal(mem, ty, a, b) == (va == vb),
    decreases va,
{
    lemma_pow256_values();
    lemma_le_len(0, 4);
    lemma_le_len(1, 4);
    match ty {
        ClarityType::NoType => {},
        ClarityType::Int => {
            lemma_int_bits(va->Int_0);
            lemma_int_bits(vb->Int_0);
            lemma_read_number(mem, a, int_bits(va->Int_0), 16);
            lemma_read_number(mem, b, int_bits(vb->Int_0), 16);
        },
        ClarityType::UInt => {
            lemma_read_number(mem, a, va->UInt_0 as nat, 16);
            lemma_read_number(mem, b, vb->UInt_0 as nat, 16);
        },
        ClarityType::Bool => {
            lemma_read_number(mem, a, if va->Bool_0 { 1nat } else { 0nat }, 4);
            lemma_read_number(mem, b, if vb->Bool_0 { 1nat } else { 0nat }, 4);
        },
        ClarityType::Buffer(_) => {
            lemma_read_repr(mem, a, base_a, va->Buffer_0.len());
            lemma_read_repr(mem, b, base_b, vb->Buffer_0.len());
            lemma_image_bytes(mem, base_a as int, va->Buffer_0);
            lemma_image_bytes(mem, base_b as int, vb->Buffer_0);
        },
        ClarityType::StringAscii(_) => {
            lemma_read_repr(mem, a, base_a, va->StringAscii_0.len());
            lemma_read_repr(mem, b, base_b, vb->StringAscii_0.len());
            lemma_image_bytes(mem, base_a as int, va->StringAscii_0);
            lemma_image_bytes(mem, base_b as int, vb->StringAscii_0);
        },
        ClarityType::StringUtf8(_) => {
            lemma_scalars(va->StringUtf8_0);
            lemma_scalars(vb->StringUtf8_0);
            lemma_read_repr(mem, a, base_a, scalar_bytes(va->StringUtf8_0).len());
            lemma_read_repr(mem, b, base_b, scalar_bytes(vb->StringUtf8_0).len());
            lemma_image_bytes(mem, base_a as int, scalar_bytes(va->StringUtf8_0));
            lemma_image_bytes(mem, base_b as int, scalar_bytes(vb->StringUtf8_0));
        },
        ClarityType::Principal => {
            match (va, vb) {
                (SValue::Principal(v1, h1, n1), SValue::Principal(v2, h2, n2)) => {
                    lemma_read_repr(mem, a, base_a, principal_bytes(v1, h1, n1).len());
                    lemma_read_repr(mem, b, base_b, principal_bytes(v2, h2, n2).len());
                    lemma_image_bytes(mem, base_a as int, principal_bytes(v1, h1, n1));
                    lemma_image_bytes(mem, base_b as int, principal_bytes(v2, h2, n2));
                    lemma_principal_injective(v1, h1, n1, v2, h2, n2);
                },
                _ => {},
            }
        },
        ClarityType::List(t, _) => {
            match (va, vb) {
                (SValue::List(xs), SValue::List(ys)) => {
                    let sz = type_size(*t);
                    lemma_type_size_pos(*t);
                    let wa = xs.len() * sz;
                    let wb = ys.len() * sz;
                    lemma_encode_list_len(*t, xs, base_a + wa);
                    lemma_encode_list_len(*t, ys, base_b + wb);
                    lemma_read_repr(mem, a, base_a, wa);
                    lemma_read_repr(mem, b, base_b, wb);
                    let (pa, sa) = encode_list(*t, xs, base_a + wa);
                    let (pb, sb) = encode_list(*t, ys, base_b + wb);
                    lemma_image_split(mem, base_a as int, pa, sa);
                    lemma_image_split(mem, base_b as int, pb, sb);
                    assert(wa as int / sz as int == xs.len() as int) by (nonlinear_arith)
                        requires wa == xs.len() * sz, sz >= 4;
                    assert((wa == wb) == (xs.len() == ys.len())) by (nonlinear_arith)
                        requires wa == xs.len() * sz, wb == ys.len() * sz, sz >= 4;
                    if xs.len() == ys.len() {
                        lemma_list_elements(mem, *t, xs, base_a as int, base_a + wa);
                        lemma_list_elements(mem, *t, ys, base_b as int, base_b + wb);
                        lemma_list_equal(mem, *t, xs, ys, base_a as int, base_b as int, base_a + wa, base_b + wb, xs.len());
                        assert(xs.take(xs.len() as int) =~= xs);
                        assert(ys.take(ys.len() as int) =~= ys);
                    }
                },
                _ => {},
            }
        },
        ClarityType::Tuple(fs) => {
            match (va, vb) {
                (SValue::Tuple(xs), SValue::Tuple(ys)) => {
                    lemma_field_elements(mem, fs@, xs, a, base_a);
                    lemma_field_elements(mem, fs@, ys, b, base_b);
                    lemma_fields_equal(mem, ty, xs, ys, a, b, base_a, base_b, fs@.len());
                    assert(xs.take(xs.len() as int) =~= xs);
                    assert(ys.take(ys.len() as int) =~= ys);
                    if xs != ys {
                        assert(!(xs =~= ys));
                        let i = choose|i: int| 0 <= i < xs.len() && xs[i] != ys[i];
                        assert(xs[i].0 == fs@[i].0@ && ys[i].0 == fs@[i].0@);
                        assert(xs.take(xs.len() as int)[i] == xs[i]);
                    } else {
                    }
                },
                _ => {},
            }
        },
        ClarityType::Optional(t) => {
            match (va, vb) {
                (SValue::Optional(x), SValue::Optional(y)) => {
                    match x {
                        Some(bx) => {
                            let (p, s) = encode(*t, *bx, base_a);
                            lemma_image_split(mem, a, lift(le(1, 4)), p);
                            lemma_read_number(mem, a, 1, 4);
                        },
                        None => {
                            lemma_image_split(mem, a, lift(le(0, 4)), skip(type_size(*t)));
                            lemma_read_number(mem, a, 0, 4);
                        },
                    }
                    match y {
                        Some(by) => {
                            let (p, s) = encode(*t, *by, base_b);
                            lemma_image_split(mem, b, lift(le(1, 4)), p);
                            lemma_read_number(mem, b, 1, 4);
                        },
                        None => {
                            lemma_image_split(mem, b, lift(le(0, 4)), skip(type_size(*t)));
                            lemma_read_number(mem, b, 0, 4);
                        },
                    }
                    match (x, y) {
                        (Some(bx), Some(by)) => {
                            lemma_mem_equal(mem, *t, *bx, *by, a + 4, b + 4, base_a, base_b);
                        },
                        _ => {},
                    }
                },
                _ => {},
            }
        },
        ClarityType::Response(o, e) => {
            match (va, vb) {
                (SValue::Response(oka, da), SValue::Response(okb, db)) => {
                    if oka {
                        let (p, s) = encode(*o, *da, base_a);
                        lemma_image_split(mem, a, lift(le(1, 4)) + p, skip(type_size(*e)));
                        lemma_image_split(mem, a, lift(le(1, 4)), p);
                        lemma_read_number(mem, a, 1, 4);
                    } else {
                        let (p, s) = encode(*e, *da, base_a);
                        lemma_image_split(mem, a, lift(le(0, 4)) + skip(type_size(*o)), p);
                        lemma_image_split(mem, a, lift(le(0, 4)), skip(type_size(*o)));
                        lemma_read_number(mem, a, 0, 4);
                    }
                    if okb {
                        let (p, s) = encode(*o, *db, base_b);
                        lemma_image_split(mem, b, lift(le(1, 4)) + p, skip(type_size(*e)));
                        lemma_image_split(mem, b, lift(le(1, 4)), p);
                        lemma_read_number(mem, b, 1, 4);
                    } else {
                        let (p, s) = encode(*e, *db, base_b);
                        lemma_image_split(mem, b, lift(le(0, 4)) + skip(type_size(*o)), p);
                        lemma_image_split(mem, b, lift(le(0, 4)), skip(type_size(*o)));
                        lemma_read_number(mem, b, 0, 4);
                    }
                    if oka && okb {
                        lemma_mem_equal(mem, *o, *da, *db, a + 4, b + 4, base_a, base_b);
                    } else if !oka && !okb {
                        lemma_mem_equal(mem, *e, *da, *db, a + 4 + type_size(*o), b + 4 + type_size(*o), base_a, base_b);
                    }
                },
                _ => {},
            }
        },
    }
}

proof fn lemma_list_equal(
    mem: Seq<u8>,
    t: ClarityType,
    xs: Seq<SValue>,
    ys: Seq<SValue>,
    ea: int,
    eb: int,
    sa: nat,
    sb: nat,
    count: nat,
)
    requires
        valid_type(t),
        count <= xs.len(),
        count <= ys.len(),
        forall|i: int| 0 <= i < xs.len() ==> has_type(#[trigger] xs[i], t),
        forall|i: int| 0 <= i < ys.len() ==> has_type(#[trigger] ys[i], t),
        forall|i: int| 0 <= i < xs.len() ==> #[trigger] placed(mem, t, xs[i], ea + i * type_size(t), elem_base(t, xs, sa, i)),
        forall|i: int| 0 <= i < ys.len() ==> #[trigger] placed(mem, t, ys[i], eb + i * type_size(t), elem_base(t, ys, sb, i)),
    ensures
        list_equal(mem, t, ea, eb, count) == (xs.take(count as int) == ys.take(count as int)),
    decreases xs, count,
{
    if count == 0 {
        assert(xs.take(0) =~= ys.take(0));
    } else {
        let k = count - 1;
        lemma_list_equal(mem, t, xs, ys, ea, eb, sa, sb, k as nat);
        assert(has_type(xs[k], t));
        assert(has_type(ys[k], t));
        assert(placed(mem, t, xs[k], ea + k * type_size(t), elem_base(t, xs, sa, k)));
        assert(placed(mem, t, ys[k], eb + k * type_size(t), elem_base(t, ys, sb, k)));
        lemma_mem_equal(mem, t, xs[k], ys[k], ea + k * type_size(t), eb + k * type_size(t), elem_base(t, xs, sa, k), elem_base(t, ys, sb, k));
        assert(xs.take(count as int).drop_last() =~= xs.take(k));
        assert(ys.take(count as int).drop_last() =~= ys.take(k));
        if xs.take(count as int) == ys.take(count as int) {
            assert(xs.take(count as int)[k] == xs[k]);
            assert(ys.take(count as int)[k] == ys[k]);
        }
        if xs.take(k) == ys.take(k) && xs[k] == ys[k] {
            assert(xs.take(count as int) =~= ys.take(count as int));
        }
    }
}

proof fn lemma_fields_equal(
    mem: Seq<u8>,
    ty: ClarityType,
    xs: Seq<(Seq<u8>, SValue)>,
    ys: Seq<(Seq<u8>, SValue)>,
    a: int,
    b: int,
    base_a: nat,
    base_b: nat,
    k: nat,
)
    requires
        ty is Tuple,
        valid_type(ty),
        has_type(SValue::Tuple(xs), ty),
        has_type(SValue::Tuple(ys), ty),
        k <= xs.len(),
        forall|i: int| 0 <= i < xs.len() ==> #[trigger] placed(mem, ty->Tuple_0@[i].1, xs[i].1, a + fields_size(ty->Tuple_0@.take(i)), field_base(ty->Tuple_0@, xs, base_a, i)),
        forall|i: int| 0 <= i < ys.len() ==> #[trigger] placed(mem, ty->Tuple_0@[i].1, ys[i].1, b + fields_size(ty->Tuple_0@.take(i)), field_base(ty->Tuple_0@, ys, base_b, i)),
    ensures
        fields_equal(mem, ty, a, b, k) == (xs.take(k as int) == ys.take(k as int)),
    decreases xs, k,
{
    let fs = ty->Tuple_0@;
    if k == 0 {
        assert(xs.take(0) =~= ys.take(0));
    } else {
        let j = k - 1;
        lemma_fields_equal(mem, ty, xs, ys, a, b, base_a, base_b, j as nat);
        assert(has_type(xs[j].1, fs[j].1));
        assert(has_type(ys[j].1, fs[j].1));
        assert(valid_type(fs[j].1));
        assert(placed(mem, fs[j].1, xs[j].1, a + fields_size(fs.take(j)), field_base(fs, xs, base_a, j)));
        assert(placed(mem, fs[j].1, ys[j].1, b + fields_size(fs.take(j)), field_base(fs, ys, base_b, j)));
        lemma_mem_equal(mem, fs[j].1, xs[j].1, ys[j].1, a + fields_size(fs.take(j)), b + fields_size(fs.take(j)), field_base(fs, xs, base_a, j), field_base(fs, ys, base_b, j));
        assert(xs[j].0 == fs[j].0@ && ys[j].0 == fs[j].0@);
        if xs.take(k as int) == ys.take(k as int) {
            assert(xs.take(k as int)[j] == xs[j]);
            assert(ys.take(k as int)[j] == ys[j]);
            assert(xs.take(k as int).drop_last() =~= xs.take(j));
            assert(ys.take(k as int).drop_last() =~= ys.take(j));
        }
        if xs.take(j) == ys.take(j) && xs[j].1 == ys[j].1 {
            assert(xs.take(k as int) =~= ys.take(k as int));
        }
    }
}

fn ranges_equal(mem: &Vec<u8>, oa: u64, ob: u64, len: u64) -> (r: bool)
    requires
        oa + len <= mem.len(),
        ob + len <= mem.len(),
    ensures
        r == (mem@.subrange(oa as int, oa + len) == mem@.subrange(ob as int, ob + len)),
{
    let sa = oa as usize;
    let sb = ob as usize;
    let n = len as usize;
    let mut i: usize = 0;
    while i < n
        invariant
            0 <= i <= n,
            sa == oa,
            sb == ob,
            n == len,
            sa + n <= mem.len(),
            sb + n <= mem.len(),
            mem@.subrange(sa as int, sa + i) == mem@.subrange(sb as int, sb + i),
        decreases n - i,
    {
        if mem[sa + i] != mem[sb + i] {
            assert(mem@.subrange(oa as int, oa + len)[i as int] != mem@.subrange(ob as int, ob + len)[i as int]);
            return false;
        }
        assert(mem@.subrange(sa as int, sa + i + 1) =~= mem@.subrange(sa as int, sa + i).push(mem@[sa + i]));
        assert(mem@.subrange(sb as int, sb + i + 1) =~= mem@.subrange(sb as int, sb + i).push(mem@[sb + i]));
        i = i + 1;
    }
    true
}

fn payload(mem: &Vec<u8>, at: u64) -> (r: Option<(u64, u64)>)
    requires
        at <= 0x1_0000_0000_0000,
    ensures
        match r {
            Some((o, l)) => payload_at(mem@, at as int) == Some(mem@.subrange(o as int, o + l))
                && o + l <= mem@.len() && o < 0x1_0000_0000 && l < 0x1_0000_0000,
            None => payload_at(mem@, at as int) is None,
        },
{
    match (read_number(mem, at, 4), read_number(mem, at + 4, 4)) {
        (Some(o), Some(l)) => {
            proof {
                lemma_pow256_values();
                crate::marshal::lemma_from_le_bound(mem@.subrange(at as int, at + 4));
                crate::marshal::lemma_from_le_bound(mem@.subrange(at + 4, at + 8));
            }
            let o = o as u64;
            let l = l as u64;
            if l > mem.len() as u64 || o > mem.len() as u64 - l {
                None
            } else {
                Some((o, l))
            }
        },
        _ => None,
    }
}

/// Compares, in place, two values of type `ty` whose images are at `a` and
/// `b`, the way generated code does.
pub fn wasm_equal(mem: &Vec<u8>, ty: &ClarityType, a: u64, b: u64) -> (r: bool)
    requires
        valid_type(*ty),
        a + type_size(*ty) <= 0x100_0000_0000,
        b + type_size(*ty) <= 0x100_0000_0000,
    ensures
        r == mem_equal(mem@, *ty, a as int, b as int),
    decreases *ty, width(*ty) + 2,
{
    match ty {
        ClarityType::NoType => false,
        ClarityType::Int | ClarityType::UInt => match (read_number(mem, a, 16), read_number(mem, b, 16)) {
            (Some(x), Some(y)) => x == y,
            _ => false,
        },
        ClarityType::Bool => match (read_number(mem, a, 4), read_number(mem, b, 4)) {
            (Some(x), Some(y)) => x == y,
            _ => false,
        },
        ClarityType::Optional(t) => match (read_number(mem, a, 4), read_number(mem, b, 4)) {
            (Some(x), Some(y)) => x == y && (x == 0 || wasm_equal(mem, t, a + 4, b + 4)),
            _ => false,
        },
        ClarityType::Response(o, e) => match (read_number(mem, a, 4), read_number(mem, b, 4)) {
            (Some(x), Some(y)) => {
                if x != y {
                    false
                } else if x == 1 {
                    wasm_equal(mem, o, a + 4, b + 4)
                } else {
                    let skip = get_type_size(o) as u64;
                    wasm_equal(mem, e, a + 4 + skip, b + 4 + skip)
                }
            },
            _ => false,
        },
        ClarityType::List(t, _) => {
            let ra = (read_number(mem, a, 4), read_number(mem, a + 4, 4));
            let rb = (read_number(mem, b, 4), read_number(mem, b + 4, 4));
            match (ra, rb) {
                ((Some(oa), Some(la)), (Some(ob), Some(lb))) => {
                    if la != lb {
                        return false;
                    }
                    proof {
                        lemma_pow256_values();
                        crate::marshal::lemma_from_le_bound(mem@.subrange(a as int, a + 4));
                        crate::marshal::lemma_from_le_bound(mem@.subrange(a + 4, a + 8));
                        crate::marshal::lemma_from_le_bound(mem@.subrange(b as int, b + 4));
                        assert(valid_type(**t));
                        lemma_type_size_pos(**t);
                    }
                    let sz = get_type_size(t) as u64;
                    let oa = oa as u64;
                    let ob = ob as u64;
                    let len = la as u64;
                    let count = len / sz;
                    proof {
                        assert(count * sz <= len) by (nonlinear_arith)
                            requires count == len / sz, sz > 0;
                    }
                    let mut acc = true;
                    let mut i: u64 = 0;
                    while i < count
                        invariant
                            0 <= i <= count,
                            count * sz <= len,
                            len == la,
                            len < 0x1_0000_0000,
                            oa < 0x1_0000_0000,
                            ob < 0x1_0000_0000,
                            sz == type_size(**t),
                            sz >= 4,
                            valid_type(**t),
                            *ty == ClarityType::List(*t, ty->List_1),
                            acc == list_equal(mem@, **t, oa as int, ob as int, i as nat),
                        decreases count - i,
                    {
                        proof {
                            assert(i * sz + sz <= count * sz) by (nonlinear_arith)
                                requires i < count, sz > 0;
                            assert(ty->List_0 == *t);
                        }
                        let same = wasm_equal(mem, t, oa + i * sz, ob + i * sz);
                        acc = acc && same;
                        i = i + 1;
                    }
                    assert(count as int == (la as int) / (type_size(**t) as int));
                    acc
                },
                _ => false,
            }
        },
        ClarityType::Tuple(fs) => {
            let mut acc = true;
            let mut k: usize = 0;
            let mut at: u64 = 0;
            proof {
                assert(fs@.take(0) =~= Seq::<(Vec<u8>, ClarityType)>::empty());
            }
            while k < fs.len()
                invariant
                    0 <= k <= fs.len(),
                    valid_type(*ty),
                    *ty == ClarityType::Tuple(*fs),
                    at == fields_size(fs@.take(k as int)),
                    fields_size(fs@.take(k as int)) <= type_size(*ty),
                    type_size(*ty) < 0x1_0000_0000,
                    a + type_size(*ty) <= 0x100_0000_0000,
                    b + type_size(*ty) <= 0x100_0000_0000,
                    acc == fields_equal(mem@, *ty, a as int, b as int, k as nat),
                decreases fs.len() - k,
            {
                proof {
                    assert(ty->Tuple_0 == *fs);
                    assert(valid_type(fs@[k as int].1));
                    assert(fs@.take(k + 1).drop_last() =~= fs@.take(k as int));
                    crate::value::lemma_fields_size_prefix(fs@, k + 1);
                }
                let same = wasm_equal(mem, &fs[k].1, a + at, b + at);
                acc = acc && same;
                at = at + get_type_size(&fs[k].1) as u64;
                k = k + 1;
            }
            acc
        },
        _ => {
            let pa = payload(mem, a);
            let pb = payload(mem, b);
            assert(mem_equal(mem@, *ty, a as int, b as int) == (payload_at(mem@, a as int) is Some && payload_at(mem@, a as int) == payload_at(mem@, b as int)));
            let r = match (pa, pb) {
                (Some((oa, la)), Some((ob, lb))) => {
                    if la != lb {
                        assert(mem@.subrange(oa as int, oa + la).len() != mem@.subrange(ob as int, ob + lb).len());
                        false
                    } else {
                        ranges_equal(mem, oa, ob, la)
                    }
                },
                _ => false,
            };
            r
        },
    }
}

} // verus!
