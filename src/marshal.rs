use vstd::prelude::*;
use vstd::arithmetic::div_mod::{lemma_mod_breakdown, lemma_div_denominator};
use crate::value::{
    Value, view_value, view_values, view_fields, lemma_view_values, lemma_view_fields, copy_bytes,
    get_type_size, valid_type, ClarityType, SValue, has_type, is_in_memory, type_size, fields_size, PRINCIPAL_HASH_BYTES,
    CONTRACT_NAME_MAX_LENGTH,
};

verus! {

pub open spec fn pow256(n: nat) -> nat
    decreases n,
{
    if n == 0 { 1 } else { 256 * pow256((n - 1) as nat) }
}

/// `x` as `n` little-endian bytes (the low `8 * n` bits).
pub open spec fn le(x: nat, n: nat) -> Seq<u8>
    decreases n,
{
    if n == 0 {
        Seq::empty()
    } else {
        seq![(x % 256) as u8] + le(x / 256, (n - 1) as nat)
    }
}

/// The number that little-endian bytes stand for.
pub open spec fn from_le(s: Seq<u8>) -> nat
    decreases s.len(),
{
    if s.len() == 0 {
        0
    } else {
        s[0] as nat + 256 * from_le(s.drop_first())
    }
}

pub open spec fn zeros(n: nat) -> Seq<u8> {
    Seq::new(n, |i: int| 0u8)
}

/// Bytes that a write stores; every one of them is written.
pub open spec fn lift(b: Seq<u8>) -> Seq<Option<u8>> {
    b.map_values(|x: u8| Some(x))
}

/// Space that a write passes over without storing anything.
pub open spec fn skip(n: nat) -> Seq<Option<u8>> {
    Seq::new(n, |i: int| None::<u8>)
}

pub open spec fn two_128() -> int {
    u128::MAX as int + 1
}

/// Two's complement bits of a signed 128-bit integer.
pub open spec fn int_bits(x: int) -> nat {
    if x < 0 { (x + two_128()) as nat } else { x as nat }
}

pub open spec fn int_of_bits(u: nat) -> int {
    if u >= two_128() / 2 { u - two_128() } else { u as int }
}

/// The eight-byte `(offset, length)` cell of an in-memory value.
pub open spec fn repr(off: nat, len: nat) -> Seq<u8> {
    le(off, 4) + le(len, 4)
}

/// Unicode scalar values, four little-endian bytes each.
pub open spec fn scalar_bytes(cs: Seq<u32>) -> Seq<u8>
    decreases cs.len(),
{
    if cs.len() == 0 {
        Seq::empty()
    } else {
        scalar_bytes(cs.drop_last()) + le(cs.last() as nat, 4)
    }
}

/// Version byte, hash, name length byte, name.
pub open spec fn principal_bytes(version: u8, hash: Seq<u8>, name: Seq<u8>) -> Seq<u8> {
    seq![version] + hash + seq![name.len() as u8] + name
}

/// The image of a value of type `ty`: what is written from its primary offset
/// (for in-memory types, the `(offset, length)` cell) and what is written from
/// `base` (the payload). `None` marks a byte passed over and left as it was:
/// the space of the inactive arm of an optional or response.
pub open spec fn encode(ty: ClarityType, v: SValue, base: nat) -> (Seq<Option<u8>>, Seq<Option<u8>>)
    decreases v,
{
    match ty {
        ClarityType::NoType => (lift(zeros(4)), Seq::empty()),
        ClarityType::Int => (lift(le(int_bits(v->Int_0), 16)), Seq::empty()),
        ClarityType::UInt => (lift(le(v->UInt_0 as nat, 16)), Seq::empty()),
        ClarityType::Bool => (lift(le(if v->Bool_0 { 1 } else { 0 }, 4)), Seq::empty()),
        ClarityType::Buffer(_) => (lift(repr(base, v->Buffer_0.len())), lift(v->Buffer_0)),
        ClarityType::StringAscii(_) => (lift(repr(base, v->StringAscii_0.len())), lift(v->StringAscii_0)),
        ClarityType::StringUtf8(_) => {
            let b = scalar_bytes(v->StringUtf8_0);
            (lift(repr(base, b.len())), lift(b))
        },
        ClarityType::Principal => match v {
            SValue::Principal(ver, h, n) => {
                let b = principal_bytes(ver, h, n);
                (lift(repr(base, b.len())), lift(b))
            },
            _ => (Seq::empty(), Seq::empty()),
        },
        ClarityType::List(t, _) => match v {
            SValue::List(vs) => {
                let w = vs.len() * type_size(*t);
                let (ps, ss) = encode_list(*t, vs, base + w);
                (lift(repr(base, w)), ps + ss)
            },
            _ => (Seq::empty(), Seq::empty()),
        },
        ClarityType::Tuple(fs) => match v {
            SValue::Tuple(vs) => encode_fields(fs@, vs, base),
            _ => (Seq::empty(), Seq::empty()),
        },
        ClarityType::Optional(t) => match v {
            SValue::Optional(Some(b)) => {
                let (p, s) = encode(*t, *b, base);
                (lift(le(1, 4)) + p, s)
            },
            SValue::Optional(None) => (lift(le(0, 4)) + skip(type_size(*t)), Seq::empty()),
            _ => (Seq::empty(), Seq::empty()),
        },
        ClarityType::Response(o, e) => match v {
            SValue::Response(ok, d) => if ok {
                let (p, s) = encode(*o, *d, base);
                (lift(le(1, 4)) + p + skip(type_size(*e)), s)
            } else {
                let (p, s) = encode(*e, *d, base);
                (lift(le(0, 4)) + skip(type_size(*o)) + p, s)
            },
            _ => (Seq::empty(), Seq::empty()),
        },
    }
}

/// List elements: their primary images one after another, and their payloads
/// one after another from `base`.
pub open spec fn encode_list(t: ClarityType, vs: Seq<SValue>, base: nat) -> (Seq<Option<u8>>, Seq<Option<u8>>)
    decreases vs,
{
    if vs.len() == 0 {
        (Seq::empty(), Seq::empty())
    } else {
        let (p0, s0) = encode_list(t, vs.drop_last(), base);
        let (p1, s1) = encode(t, vs.last(), base + s0.len());
        (p0 + p1, s0 + s1)
    }
}

/// Tuple fields in order: primary images one after another, payloads one
/// after another from `base`.
pub open spec fn encode_fields(
    fs: Seq<(Vec<u8>, ClarityType)>,
    vs: Seq<(Seq<u8>, SValue)>,
    base: nat,
) -> (Seq<Option<u8>>, Seq<Option<u8>>)
    decreases vs,
{
    if vs.len() == 0 || fs.len() != vs.len() {
        (Seq::empty(), Seq::empty())
    } else {
        let (p0, s0) = encode_fields(fs.drop_last(), vs.drop_last(), base);
        let (p1, s1) = encode(fs.last().1, vs.last().1, base + s0.len());
        (p0 + p1, s0 + s1)
    }
}

pub open spec fn width(ty: ClarityType) -> nat {
    match ty {
        ClarityType::Tuple(fs) => fs@.len(),
        _ => 0,
    }
}

/// `n` little-endian bytes at `off`, if they lie in memory.
pub open spec fn read_le(mem: Seq<u8>, off: int, n: nat) -> Option<nat> {
    if 0 <= off && off + n <= mem.len() {
        Some(from_le(mem.subrange(off, off + n)))
    } else {
        None
    }
}

pub open spec fn in_bounds(mem: Seq<u8>, off: int, len: int) -> bool {
    0 <= off && 0 <= len && off + len <= mem.len()
}

pub open spec fn scalars_of(b: Seq<u8>) -> Seq<u32> {
    Seq::new(b.len() / 4, |i: int| from_le(b.subrange(4 * i, 4 * i + 4)) as u32)
}

/// Reads a value whose primary image is at `off`: for an in-memory type, the
/// `(offset, length)` cell found there is followed.
pub open spec fn decode_at(mem: Seq<u8>, ty: ClarityType, off: int) -> Option<SValue>
    decreases ty, width(ty) + 3,
{
    if is_in_memory(ty) {
        match (read_le(mem, off, 4), read_le(mem, off + 4, 4)) {
            (Some(o), Some(l)) => decode(mem, ty, o as int, l as int),
            _ => None,
        }
    } else {
        decode(mem, ty, off, type_size(ty) as int)
    }
}

/// Reads a value given its offset and length: for an in-memory type, those of
/// its payload.
pub open spec fn decode(mem: Seq<u8>, ty: ClarityType, off: int, len: int) -> Option<SValue>
    decreases ty, width(ty) + 2,
{
    match ty {
        ClarityType::NoType => None,
        ClarityType::Int => match read_le(mem, off, 16) {
            Some(u) => Some(SValue::Int(int_of_bits(u))),
            None => None,
        },
        ClarityType::UInt => match read_le(mem, off, 16) {
            Some(u) => Some(SValue::UInt(u as int)),
            None => None,
        },
        ClarityType::Bool => match read_le(mem, off, 4) {
            Some(u) => Some(SValue::Bool(u != 0)),
            None => None,
        },
        ClarityType::Buffer(_) => if in_bounds(mem, off, len) {
            Some(SValue::Buffer(mem.subrange(off, off + len)))
        } else {
            None
        },
        ClarityType::StringAscii(_) => if in_bounds(mem, off, len) {
            Some(SValue::StringAscii(mem.subrange(off, off + len)))
        } else {
            None
        },
        ClarityType::StringUtf8(_) => if in_bounds(mem, off, len) && len % 4 == 0 {
            Some(SValue::StringUtf8(scalars_of(mem.subrange(off, off + len))))
        } else {
            None
        },
        ClarityType::Principal => if in_bounds(mem, off, 22) && in_bounds(
            mem,
            off + 22,
            mem[off + 21] as int,
        ) {
            Some(
                SValue::Principal(
                    mem[off],
                    mem.subrange(off + 1, off + 21),
                    mem.subrange(off + 22, off + 22 + mem[off + 21] as int),
                ),
            )
        } else {
            None
        },
        ClarityType::List(t, _) => if len < 0 || type_size(*t) == 0 {
            None
        } else {
            match decode_list(mem, *t, off, (len / type_size(*t) as int) as nat) {
                Some(vs) => Some(SValue::List(vs)),
                None => None,
            }
        },
        ClarityType::Tuple(fs) => match decode_fields(mem, ty, off, fs@.len()) {
            Some(vs) => Some(SValue::Tuple(vs)),
            None => None,
        },
        ClarityType::Optional(t) => match read_le(mem, off, 4) {
            Some(u) => if u == 0 {
                Some(SValue::Optional(None))
            } else if u == 1 {
                match decode_at(mem, *t, off + 4) {
                    Some(x) => Some(SValue::Optional(Some(Box::new(x)))),
                    None => None,
                }
            } else {
                None
            },
            None => None,
        },
        ClarityType::Response(o, e) => match read_le(mem, off, 4) {
            Some(u) => if u == 1 {
                match decode_at(mem, *o, off + 4) {
                    Some(x) => Some(SValue::Response(true, Box::new(x))),
                    None => None,
                }
            } else if u == 0 {
                match decode_at(mem, *e, off + 4 + type_size(*o)) {
                    Some(x) => Some(SValue::Response(false, Box::new(x))),
                    None => None,
                }
            } else {
                None
            },
            None => None,
        },
    }
}

/// The first `count` elements of a list whose elements start at `off`.
pub open spec fn decode_list(mem: Seq<u8>, t: ClarityType, off: int, count: nat) -> Option<
    Seq<SValue>,
>
    decreases t, width(t) + 4 + count,
{
    if count == 0 {
        Some(Seq::empty())
    } else {
        match decode_list(mem, t, off, (count - 1) as nat) {
            Some(a) => match decode_at(mem, t, off + (count - 1) * type_size(t)) {
                Some(x) => Some(a.push(x)),
                None => None,
            },
            None => None,
        }
    }
}

/// The first `k` fields of a tuple of type `ty` whose image starts at `off`.
pub open spec fn decode_fields(mem: Seq<u8>, ty: ClarityType, off: int, k: nat) -> Option<
    Seq<(Seq<u8>, SValue)>,
>
    decreases ty, k,
{
    match ty {
        ClarityType::Tuple(fs) => if k == 0 {
            Some(Seq::empty())
        } else if k > fs@.len() {
            None
        } else {
            match decode_fields(mem, ty, off, (k - 1) as nat) {
                Some(a) => match decode_at(
                    mem,
                    fs@[k - 1].1,
                    off + fields_size(fs@.take(k - 1)),
                ) {
                    Some(x) => Some(a.push((fs@[k - 1].0@, x))),
                    None => None,
                },
                None => None,
            }
        },
        _ => None,
    }
}

proof fn lemma_pow256_pos(n: nat)
    ensures
        pow256(n) > 0,
    decreases n,
{
    if n > 0 {
        lemma_pow256_pos((n - 1) as nat);
    }
}

pub proof fn lemma_pow256_values()
    ensures
        pow256(4) == 0x1_0000_0000,
        pow256(16) == two_128(),
{
    reveal_with_fuel(pow256, 17);
}

pub proof fn lemma_le_len(x: nat, n: nat)
    ensures
        le(x, n).len() == n,
    decreases n,
{
    if n > 0 {
        lemma_le_len(x / 256, (n - 1) as nat);
    }
}

/// The `(offset, length)` cell takes eight bytes.
pub proof fn lemma_repr_len(o: nat, l: nat)
    ensures
        repr(o, l).len() == 8,
{
    lemma_le_len(o, 4);
    lemma_le_len(l, 4);
}

/// Little-endian bytes read back as the number modulo `256^n`.
pub proof fn lemma_le_round_trip(x: nat, n: nat)
    ensures
        from_le(le(x, n)) == x % pow256(n),
    decreases n,
{
    if n == 0 {
        assert(x % 1 == 0) by (nonlinear_arith);
    } else {
        let s = le(x, n);
        lemma_le_len(x / 256, (n - 1) as nat);
        assert(s.drop_first() =~= le(x / 256, (n - 1) as nat));
        lemma_le_round_trip(x / 256, (n - 1) as nat);
        lemma_pow256_pos((n - 1) as nat);
        lemma_mod_breakdown(x as int, 256, pow256((n - 1) as nat) as int);
    }
}

pub proof fn lemma_le_small(x: nat, n: nat)
    requires
        x < pow256(n),
    ensures
        from_le(le(x, n)) == x,
        le(x, n).len() == n,
{
    lemma_le_round_trip(x, n);
    lemma_le_len(x, n);
    assert(x % pow256(n) == x) by (nonlinear_arith)
        requires x < pow256(n);
}

pub proof fn lemma_int_bits(x: int)
    requires
        i128::MIN <= x <= i128::MAX,
    ensures
        int_bits(x) < two_128(),
        int_of_bits(int_bits(x)) == x,
{
}

pub proof fn lemma_scalars(cs: Seq<u32>)
    ensures
        scalar_bytes(cs).len() == 4 * cs.len(),
        scalars_of(scalar_bytes(cs)) == cs,
    decreases cs.len(),
{
    if cs.len() > 0 {
        let init = cs.drop_last();
        lemma_scalars(init);
        lemma_pow256_values();
        lemma_le_small(cs.last() as nat, 4);
        let b = scalar_bytes(cs);
        let b0 = scalar_bytes(init);
        assert(b == b0 + le(cs.last() as nat, 4));
        assert forall|i: int| 0 <= i < cs.len() implies #[trigger] scalars_of(b)[i] == cs[i] by {
            if i < cs.len() - 1 {
                assert(b.subrange(4 * i, 4 * i + 4) =~= b0.subrange(4 * i, 4 * i + 4));
                assert(scalars_of(b0)[i] == init[i]);
            } else {
                assert(b.subrange(4 * i, 4 * i + 4) =~= le(cs.last() as nat, 4));
            }
        }
        assert(scalars_of(b) =~= cs);
    } else {
        assert(scalars_of(scalar_bytes(cs)) =~= cs);
    }
}

/// Every valid type occupies at least four bytes at its primary offset.
pub proof fn lemma_type_size_pos(ty: ClarityType)
    requires
        valid_type(ty),
    ensures
        type_size(ty) >= 4,
    decreases ty, width(ty) + 2,
{
    match ty {
        ClarityType::Tuple(fs) => {
            lemma_fields_size_pos(ty, fs@.len());
            assert(fs@.take(fs@.len() as int) =~= fs@);
        },
        _ => {},
    }
}

proof fn lemma_fields_size_pos(ty: ClarityType, k: nat)
    requires
        valid_type(ty),
        ty is Tuple,
        1 <= k <= ty->Tuple_0@.len(),
    ensures
        fields_size(ty->Tuple_0@.take(k as int)) >= 4,
    decreases ty, k,
{
    let fs = ty->Tuple_0@;
    assert(fs.take(k as int).drop_last() =~= fs.take(k - 1));
    lemma_type_size_pos(fs[k - 1].1);
}

/// The primary image of a value has the size of its type.
pub proof fn lemma_encode_len(ty: ClarityType, v: SValue, base: nat)
    requires
        has_type(v, ty),
    ensures
        encode(ty, v, base).0.len() == type_size(ty),
    decreases v,
{
    lemma_le_len(0, 4);
    lemma_le_len(1, 4);
    match ty {
        ClarityType::Int => lemma_le_len(int_bits(v->Int_0), 16),
        ClarityType::UInt => lemma_le_len(v->UInt_0 as nat, 16),
        ClarityType::Bool => {},
        ClarityType::Buffer(_) => {
            lemma_le_len(base, 4);
            lemma_le_len(v->Buffer_0.len(), 4);
        },
        ClarityType::StringAscii(_) => {
            lemma_le_len(base, 4);
            lemma_le_len(v->StringAscii_0.len(), 4);
        },
        ClarityType::StringUtf8(_) => {
            lemma_le_len(base, 4);
            lemma_le_len(scalar_bytes(v->StringUtf8_0).len(), 4);
        },
        ClarityType::Principal => {
            match v {
                SValue::Principal(ver, h, n) => {
                    lemma_le_len(base, 4);
                    lemma_le_len(principal_bytes(ver, h, n).len(), 4);
                },
                _ => {},
            }
        },
        ClarityType::List(t, _) => {
            match v {
                SValue::List(vs) => {
                    lemma_le_len(base, 4);
                    lemma_le_len(vs.len() * type_size(*t), 4);
                },
                _ => {},
            }
        },
        ClarityType::Tuple(fs) => {
            match v {
                SValue::Tuple(vs) => {
                    lemma_encode_fields_len(fs@, vs, base);
                },
                _ => {},
            }
        },
        ClarityType::Optional(t) => {
            match v {
                SValue::Optional(Some(b)) => lemma_encode_len(*t, *b, base),
                _ => {},
            }
        },
        ClarityType::Response(o, e) => {
            match v {
                SValue::Response(ok, d) => {
                    if ok {
                        lemma_encode_len(*o, *d, base);
                    } else {
                        lemma_encode_len(*e, *d, base);
                    }
                },
                _ => {},
            }
        },
        ClarityType::NoType => {},
    }
}

pub proof fn lemma_encode_fields_len(
    fs: Seq<(Vec<u8>, ClarityType)>,
    vs: Seq<(Seq<u8>, SValue)>,
    base: nat,
)
    requires
        vs.len() == fs.len(),
        forall|i: int| 0 <= i < vs.len() ==> has_type(#[trigger] vs[i].1, fs[i].1),
    ensures
        encode_fields(fs, vs, base).0.len() == fields_size(fs),
    decreases vs,
{
    if vs.len() > 0 {
        let (p0, s0) = encode_fields(fs.drop_last(), vs.drop_last(), base);
        assert forall|i: int| 0 <= i < vs.drop_last().len() implies has_type(
            #[trigger] vs.drop_last()[i].1,
            fs.drop_last()[i].1,
        ) by {
            assert(has_type(vs[i].1, fs[i].1));
        }
        lemma_encode_fields_len(fs.drop_last(), vs.drop_last(), base);
        assert(has_type(vs[vs.len() - 1].1, fs[fs.len() - 1].1));
        lemma_encode_len(fs.last().1, vs.last().1, base + s0.len());
    }
}

pub proof fn lemma_encode_list_len(t: ClarityType, vs: Seq<SValue>, base: nat)
    requires
        forall|i: int| 0 <= i < vs.len() ==> has_type(#[trigger] vs[i], t),
    ensures
        encode_list(t, vs, base).0.len() == vs.len() * type_size(t),
    decreases vs,
{
    if vs.len() > 0 {
        let (p0, s0) = encode_list(t, vs.drop_last(), base);
        assert forall|i: int| 0 <= i < vs.drop_last().len() implies has_type(
            #[trigger] vs.drop_last()[i],
            t,
        ) by {
            assert(has_type(vs[i], t));
        }
        lemma_encode_list_len(t, vs.drop_last(), base);
        assert(has_type(vs[vs.len() - 1], t));
        lemma_encode_len(t, vs.last(), base + s0.len());
        assert((vs.len() - 1) * type_size(t) + type_size(t) == vs.len() * type_size(t)) by (nonlinear_arith);
    }
}

/// `img` lies in memory at `at`: every byte it writes is there.
pub open spec fn image_at(mem: Seq<u8>, at: int, img: Seq<Option<u8>>) -> bool {
    &&& 0 <= at
    &&& at + img.len() <= mem.len()
    &&& forall|j: int| 0 <= j < img.len() && (#[trigger] img[j]) is Some ==> mem[at + j] == img[j]->Some_0
}

pub proof fn lemma_lift_concat(a: Seq<u8>, b: Seq<u8>)
    ensures
        lift(a + b) == lift(a) + lift(b),
{
    assert(lift(a + b) =~= lift(a) + lift(b));
}

/// An image made only of written bytes fixes the memory it covers.
pub proof fn lemma_image_bytes(mem: Seq<u8>, at: int, b: Seq<u8>)
    requires
        image_at(mem, at, lift(b)),
    ensures
        mem.subrange(at, at + b.len()) == b,
{
    assert forall|j: int| 0 <= j < b.len() implies mem.subrange(at, at + b.len())[j] == b[j] by {
        assert(lift(b)[j] == Some(b[j]));
    }
    assert(mem.subrange(at, at + b.len()) =~= b);
}

pub proof fn lemma_image_split(mem: Seq<u8>, at: int, a: Seq<Option<u8>>, b: Seq<Option<u8>>)
    requires
        image_at(mem, at, a + b),
    ensures
        image_at(mem, at, a),
        image_at(mem, at + a.len(), b),
{
    assert forall|j: int| 0 <= j < a.len() && (#[trigger] a[j]) is Some implies mem[at + j] == a[j]->Some_0 by {
        assert((a + b)[j] == a[j]);
    }
    assert forall|j: int| 0 <= j < b.len() && (#[trigger] b[j]) is Some implies mem[at + a.len() + j] == b[j]->Some_0 by {
        assert((a + b)[a.len() + j] == b[j]);
    }
}

pub proof fn lemma_read_number(mem: Seq<u8>, at: int, x: nat, n: nat)
    requires
        image_at(mem, at, lift(le(x, n))),
        x < pow256(n),
    ensures
        read_le(mem, at, n) == Some(x),
{
    lemma_le_small(x, n);
    lemma_image_bytes(mem, at, le(x, n));
}

pub proof fn lemma_read_repr(mem: Seq<u8>, at: int, o: nat, l: nat)
    requires
        image_at(mem, at, lift(repr(o, l))),
        o < pow256(4),
        l < pow256(4),
    ensures
        read_le(mem, at, 4) == Some(o),
        read_le(mem, at + 4, 4) == Some(l),
{
    lemma_le_len(o, 4);
    lemma_lift_concat(le(o, 4), le(l, 4));
    lemma_image_split(mem, at, lift(le(o, 4)), lift(le(l, 4)));
    lemma_read_number(mem, at, o, 4);
    lemma_read_number(mem, at + 4, l, 4);
}

/// Decoding reads back what encoding wrote: when the primary image of `v` is
/// in memory at `off` and its payload at `base`, reading the value at `off`
/// gives `v`.
pub proof fn lemma_decode_encode(mem: Seq<u8>, ty: ClarityType, v: SValue, off: int, base: nat)
    requires
        valid_type(ty),
        has_type(v, ty),
        image_at(mem, off, encode(ty, v, base).0),
        image_at(mem, base as int, encode(ty, v, base).1),
        base + encode(ty, v, base).1.len() < pow256(4),
    ensures
        decode_at(mem, ty, off) == Some(v),
    decreases v,
{
    lemma_pow256_values();
    lemma_le_len(0, 4);
    lemma_le_len(1, 4);
    match ty {
        ClarityType::NoType => {},
        ClarityType::Int => {
            lemma_int_bits(v->Int_0);
            lemma_read_number(mem, off, int_bits(v->Int_0), 16);
        },
        ClarityType::UInt => {
            lemma_read_number(mem, off, v->UInt_0 as nat, 16);
        },
        ClarityType::Bool => {
            lemma_read_number(mem, off, if v->Bool_0 { 1nat } else { 0nat }, 4);
        },
        ClarityType::Buffer(_) => {
            let b = v->Buffer_0;
            lemma_read_repr(mem, off, base, b.len());
            lemma_image_bytes(mem, base as int, b);
        },
        ClarityType::StringAscii(_) => {
            let b = v->StringAscii_0;
            lemma_read_repr(mem, off, base, b.len());
            lemma_image_bytes(mem, base as int, b);
        },
        ClarityType::StringUtf8(_) => {
            let cs = v->StringUtf8_0;
            let b = scalar_bytes(cs);
            lemma_scalars(cs);
            lemma_read_repr(mem, off, base, b.len());
            lemma_image_bytes(mem, base as int, b);
            assert((4 * cs.len()) % 4 == 0) by (nonlinear_arith);
        },
        ClarityType::Principal => {
            match v {
                SValue::Principal(ver, h, n) => {
                    let b = principal_bytes(ver, h, n);
                    lemma_read_repr(mem, off, base, b.len());
                    lemma_image_bytes(mem, base as int, b);
                    let at = base as int;
                    assert(mem.subrange(at, at + b.len()) == b);
                    assert(mem[at] == b[0]);
                    assert(mem[at + 21] == b[21]);
                    assert(mem.subrange(at + 1, at + 21) =~= b.subrange(1, 21));
                    assert(b.subrange(1, 21) =~= h);
                    assert(mem.subrange(at + 22, at + 22 + n.len()) =~= b.subrange(22, 22 + n.len() as int));
                    assert(b.subrange(22, 22 + n.len() as int) =~= n);
                },
                _ => {},
            }
        },
        ClarityType::List(t, cap) => {
            match v {
                SValue::List(vs) => {
                    let sz = type_size(*t);
                    let w = vs.len() * sz;
                    let (ps, ss) = encode_list(*t, vs, base + w);
                    lemma_type_size_pos(*t);
                    lemma_encode_list_len(*t, vs, base + w);
                    lemma_read_repr(mem, off, base, w);
                    lemma_image_split(mem, base as int, ps, ss);
                    assert(w as int / sz as int == vs.len() as int) by (nonlinear_arith)
                        requires w == vs.len() * sz, sz >= 4;
                    lemma_decode_list(mem, *t, vs, base as int, base + w);
                },
                _ => {},
            }
        },
        ClarityType::Tuple(fs) => {
            match v {
                SValue::Tuple(vs) => {
                    assert(fs@.take(fs@.len() as int) =~= fs@);
                    assert(vs.take(vs.len() as int) =~= vs);
                    lemma_decode_fields(mem, ty, vs, off, base, fs@.len());
                },
                _ => {},
            }
        },
        ClarityType::Optional(t) => {
            match v {
                SValue::Optional(Some(b)) => {
                    let (p, s) = encode(*t, *b, base);
                    lemma_image_split(mem, off, lift(le(1, 4)), p);
                    lemma_read_number(mem, off, 1, 4);
                    lemma_decode_encode(mem, *t, *b, off + 4, base);
                },
                _ => {
                    lemma_image_split(mem, off, lift(le(0, 4)), skip(type_size(*t)));
                    lemma_read_number(mem, off, 0, 4);
                },
            }
        },
        ClarityType::Response(o, e) => {
            match v {
                SValue::Response(ok, d) => {
                    if ok {
                        let (p, s) = encode(*o, *d, base);
                        lemma_image_split(mem, off, lift(le(1, 4)) + p, skip(type_size(*e)));
                        lemma_image_split(mem, off, lift(le(1, 4)), p);
                        lemma_read_number(mem, off, 1, 4);
                        lemma_decode_encode(mem, *o, *d, off + 4, base);
                    } else {
                        let (p, s) = encode(*e, *d, base);
                        lemma_image_split(mem, off, lift(le(0, 4)) + skip(type_size(*o)), p);
                        lemma_image_split(mem, off, lift(le(0, 4)), skip(type_size(*o)));
                        lemma_read_number(mem, off, 0, 4);
                        lemma_decode_encode(mem, *e, *d, off + 4 + type_size(*o), base);
                    }
                },
                _ => {},
            }
        },
    }
}

pub proof fn lemma_decode_list_public(mem: Seq<u8>, t: ClarityType, vs: Seq<SValue>, ebase: int, sbase: nat)
    requires
        valid_type(t),
        forall|i: int| 0 <= i < vs.len() ==> has_type(#[trigger] vs[i], t),
        image_at(mem, ebase, encode_list(t, vs, sbase).0),
        image_at(mem, sbase as int, encode_list(t, vs, sbase).1),
        sbase + encode_list(t, vs, sbase).1.len() < pow256(4),
    ensures
        decode_list(mem, t, ebase, vs.len()) == Some(vs),
{
    lemma_decode_list(mem, t, vs, ebase, sbase);
}

proof fn lemma_decode_list(mem: Seq<u8>, t: ClarityType, vs: Seq<SValue>, ebase: int, sbase: nat)
    requires
        valid_type(t),
        forall|i: int| 0 <= i < vs.len() ==> has_type(#[trigger] vs[i], t),
        image_at(mem, ebase, encode_list(t, vs, sbase).0),
        image_at(mem, sbase as int, encode_list(t, vs, sbase).1),
        sbase + encode_list(t, vs, sbase).1.len() < pow256(4),
    ensures
        decode_list(mem, t, ebase, vs.len()) == Some(vs),
    decreases vs,
{
    if vs.len() > 0 {
        let init = vs.drop_last();
        let (p0, s0) = encode_list(t, init, sbase);
        let (p1, s1) = encode(t, vs.last(), sbase + s0.len());
        lemma_image_split(mem, ebase, p0, p1);
        lemma_image_split(mem, sbase as int, s0, s1);
        assert forall|i: int| 0 <= i < init.len() implies has_type(#[trigger] init[i], t) by {
            assert(has_type(vs[i], t));
        }
        lemma_decode_list(mem, t, init, ebase, sbase);
        lemma_encode_list_len(t, init, sbase);
        assert(has_type(vs[vs.len() - 1], t));
        lemma_decode_encode(mem, t, vs.last(), ebase + p0.len(), sbase + s0.len());
        assert(init.push(vs.last()) =~= vs);
    } else {
        assert(vs =~= Seq::<SValue>::empty());
    }
}

proof fn lemma_decode_fields(
    mem: Seq<u8>,
    ty: ClarityType,
    vs: Seq<(Seq<u8>, SValue)>,
    off: int,
    base: nat,
    k: nat,
)
    requires
        ty is Tuple,
        valid_type(ty),
        has_type(SValue::Tuple(vs), ty),
        k <= vs.len(),
        image_at(mem, off, encode_fields(ty->Tuple_0@.take(k as int), vs.take(k as int), base).0),
        image_at(
            mem,
            base as int,
            encode_fields(ty->Tuple_0@.take(k as int), vs.take(k as int), base).1,
        ),
        base + encode_fields(ty->Tuple_0@.take(k as int), vs.take(k as int), base).1.len() < pow256(
            4,
        ),
    ensures
        decode_fields(mem, ty, off, k) == Some(vs.take(k as int)),
    decreases vs, k,
{
    let fs = ty->Tuple_0@;
    if k == 0 {
        assert(vs.take(0) =~= Seq::<(Seq<u8>, SValue)>::empty());
    } else {
        let fk = fs.take(k as int);
        let vk = vs.take(k as int);
        assert(fk.drop_last() =~= fs.take(k - 1));
        assert(vk.drop_last() =~= vs.take(k - 1));
        let (p0, s0) = encode_fields(fs.take(k - 1), vs.take(k - 1), base);
        let (p1, s1) = encode(fs[k - 1].1, vs[k - 1].1, base + s0.len());
        assert(encode_fields(fk, vk, base) == (p0 + p1, s0 + s1));
        lemma_image_split(mem, off, p0, p1);
        lemma_image_split(mem, base as int, s0, s1);
        lemma_decode_fields(mem, ty, vs, off, base, (k - 1) as nat);
        assert forall|i: int| 0 <= i < k - 1 implies has_type(
            #[trigger] vs.take(k - 1)[i].1,
            fs.take(k - 1)[i].1,
        ) by {
            assert(has_type(vs[i].1, fs[i].1));
        }
        lemma_encode_fields_len(fs.take(k - 1), vs.take(k - 1), base);
        assert(has_type(vs[k - 1].1, fs[k - 1].1));
        assert(valid_type(fs[k - 1].1));
        lemma_decode_encode(mem, fs[k - 1].1, vs[k - 1].1, off + p0.len(), base + s0.len());
        assert(vs.take(k - 1).push((fs[k - 1].0@, vs[k - 1].1)) =~= vk);
    }
}

proof fn lemma_encode_list_step(t: ClarityType, vs: Seq<SValue>, base: nat, i: int)
    requires
        0 <= i < vs.len(),
    ensures
        encode_list(t, vs.take(i + 1), base) == ({
            let (p0, s0) = encode_list(t, vs.take(i), base);
            let (p1, s1) = encode(t, vs[i], base + s0.len());
            (p0 + p1, s0 + s1)
        }),
{
    assert(vs.take(i + 1).drop_last() =~= vs.take(i));
}

proof fn lemma_encode_list_mono(t: ClarityType, vs: Seq<SValue>, base: nat, i: int)
    requires
        0 <= i <= vs.len(),
    ensures
        encode_list(t, vs.take(i), base).1.len() <= encode_list(t, vs, base).1.len(),
    decreases vs.len() - i,
{
    if i < vs.len() {
        lemma_encode_list_step(t, vs, base, i);
        lemma_encode_list_mono(t, vs, base, i + 1);
    } else {
        assert(vs.take(i) =~= vs);
    }
}

pub proof fn lemma_encode_fields_step(
    fs: Seq<(Vec<u8>, ClarityType)>,
    vs: Seq<(Seq<u8>, SValue)>,
    base: nat,
    i: int,
)
    requires
        0 <= i < vs.len(),
        fs.len() == vs.len(),
    ensures
        encode_fields(fs.take(i + 1), vs.take(i + 1), base) == ({
            let (p0, s0) = encode_fields(fs.take(i), vs.take(i), base);
            let (p1, s1) = encode(fs[i].1, vs[i].1, base + s0.len());
            (p0 + p1, s0 + s1)
        }),
{
    assert(vs.take(i + 1).drop_last() =~= vs.take(i));
    assert(fs.take(i + 1).drop_last() =~= fs.take(i));
}

pub proof fn lemma_encode_fields_mono(
    fs: Seq<(Vec<u8>, ClarityType)>,
    vs: Seq<(Seq<u8>, SValue)>,
    base: nat,
    i: int,
)
    requires
        0 <= i <= vs.len(),
        fs.len() == vs.len(),
    ensures
        encode_fields(fs.take(i), vs.take(i), base).1.len() <= encode_fields(fs, vs, base).1.len(),
    decreases vs.len() - i,
{
    if i < vs.len() {
        lemma_encode_fields_step(fs, vs, base, i);
        lemma_encode_fields_mono(fs, vs, base, i + 1);
    } else {
        assert(vs.take(i) =~= vs);
        assert(fs.take(i) =~= fs);
    }
}

/// `x` as `n` little-endian bytes.
fn le_bytes(x: u128, n: usize) -> (r: Vec<u8>)
    ensures
        r@ == le(x as nat, n as nat),
    decreases n,
{
    if n == 0 {
        let r: Vec<u8> = Vec::new();
        assert(r@ =~= le(x as nat, 0));
        return r;
    }
    let mut r = le_bytes(x / 256, n - 1);
    let ghost tail = r@;
    r.insert(0, (x % 256) as u8);
    assert(r@ =~= seq![(x % 256) as u8] + tail);
    r
}

pub(crate) fn repr_bytes(off: u32, len: u32) -> (r: Vec<u8>)
    ensures
        r@ == repr(off as nat, len as nat),
{
    let mut r = le_bytes(off as u128, 4);
    let mut l = le_bytes(len as u128, 4);
    r.append(&mut l);
    r
}

fn zero_bytes(n: u32) -> (r: Vec<u8>)
    ensures
        r@ == zeros(n as nat),
{
    let mut r: Vec<u8> = Vec::new();
    let mut i: u32 = 0;
    while i < n
        invariant
            0 <= i <= n,
            r@ == zeros(i as nat),
        decreases n - i,
    {
        r.push(0);
        i = i + 1;
        assert(r@ =~= zeros(i as nat));
    }
    r
}

fn lift_vec(b: Vec<u8>) -> (r: Vec<Option<u8>>)
    ensures
        r@ == lift(b@),
{
    let mut r: Vec<Option<u8>> = Vec::new();
    let mut i: usize = 0;
    while i < b.len()
        invariant
            0 <= i <= b.len(),
            r@ == lift(b@.take(i as int)),
        decreases b.len() - i,
    {
        r.push(Some(b[i]));
        i = i + 1;
        assert(r@ =~= lift(b@.take(i as int)));
    }
    assert(b@.take(i as int) =~= b@);
    r
}

fn skip_vec(n: u32) -> (r: Vec<Option<u8>>)
    ensures
        r@ == skip(n as nat),
{
    let mut r: Vec<Option<u8>> = Vec::new();
    let mut i: u32 = 0;
    while i < n
        invariant
            0 <= i <= n,
            r@ == skip(i as nat),
        decreases n - i,
    {
        r.push(None);
        i = i + 1;
        assert(r@ =~= skip(i as nat));
    }
    r
}

pub(crate) fn twos_complement(x: i128) -> (r: u128)
    ensures
        r as nat == int_bits(x as int),
{
    if x >= 0 {
        x as u128
    } else {
        ((x + i128::MAX) + 1) as u128 + 0x8000_0000_0000_0000_0000_0000_0000_0000u128
    }
}

/// Computes the image of a value: the bytes for its primary offset and the
/// payload bytes placed at `base`.
pub fn encode_value(ty: &ClarityType, v: &Value, base: u32) -> (r: (Vec<Option<u8>>, Vec<Option<u8>>))
    requires
        valid_type(*ty),
        has_type(v@, *ty),
        base + encode(*ty, v@, base as nat).1.len() < pow256(4),
    ensures
        r.0@ == encode(*ty, v@, base as nat).0,
        r.1@ == encode(*ty, v@, base as nat).1,
    decreases v,
{
    proof {
        lemma_pow256_values();
    }
    match ty {
        ClarityType::NoType => (lift_vec(zero_bytes(4)), Vec::new()),
        ClarityType::Int => match v {
            Value::Int(x) => (lift_vec(le_bytes(twos_complement(*x), 16)), Vec::new()),
            _ => (Vec::new(), Vec::new()),
        },
        ClarityType::UInt => match v {
            Value::UInt(x) => (lift_vec(le_bytes(*x, 16)), Vec::new()),
            _ => (Vec::new(), Vec::new()),
        },
        ClarityType::Bool => match v {
            Value::Bool(b) => (lift_vec(le_bytes(if *b { 1 } else { 0 }, 4)), Vec::new()),
            _ => (Vec::new(), Vec::new()),
        },
        ClarityType::Buffer(_) => match v {
            Value::Buffer(b) => (lift_vec(repr_bytes(base, b.len() as u32)), lift_vec(copy_bytes(b))),
            _ => (Vec::new(), Vec::new()),
        },
        ClarityType::StringAscii(_) => match v {
            Value::StringAscii(b) => (lift_vec(repr_bytes(base, b.len() as u32)), lift_vec(copy_bytes(b))),
            _ => (Vec::new(), Vec::new()),
        },
        ClarityType::StringUtf8(_) => match v {
            Value::StringUtf8(cs) => {
                let mut b: Vec<u8> = Vec::new();
                let mut i: usize = 0;
                assert(cs@.take(0) =~= Seq::<u32>::empty());
                while i < cs.len()
                    invariant
                        0 <= i <= cs.len(),
                        b@ == scalar_bytes(cs@.take(i as int)),
                    decreases cs.len() - i,
                {
                    let mut q = le_bytes(cs[i] as u128, 4);
                    b.append(&mut q);
                    assert(cs@.take(i + 1).drop_last() =~= cs@.take(i as int));
                    i = i + 1;
                }
                assert(cs@.take(i as int) =~= cs@);
                (lift_vec(repr_bytes(base, b.len() as u32)), lift_vec(b))
            },
            _ => (Vec::new(), Vec::new()),
        },
        ClarityType::Principal => match v {
            Value::Principal(p) => {
                let mut b: Vec<u8> = vec![p.version];
                let mut h = copy_bytes(&p.hash);
                b.append(&mut h);
                b.push(p.name.len() as u8);
                let mut n = copy_bytes(&p.name);
                b.append(&mut n);
                assert(b@ =~= principal_bytes(p.version, p.hash@, p.name@));
                (lift_vec(repr_bytes(base, b.len() as u32)), lift_vec(b))
            },
            _ => (Vec::new(), Vec::new()),
        },
        ClarityType::List(t, _) => match v {
            Value::List(vs) => {
                let ghost vv = view_values(vs@);
                proof {
                    lemma_view_values(vs@);
                    lemma_encode_list_len(**t, vv, (base + vv.len() * type_size(**t)) as nat);
                }
                assert(valid_type(**t));
                assert(type_size(**t) < 0x1_0000_0000);
                let sz = get_type_size(t);
                let ghost w = vv.len() * type_size(**t);
                let ghost total = encode_list(**t, vv, (base + w) as nat);
                assert(w <= encode(*ty, v@, base as nat).1.len());
                let width: u32 = (vs.len() as u32) * sz;
                let mut ps: Vec<Option<u8>> = Vec::new();
                let mut ss: Vec<Option<u8>> = Vec::new();
                let mut i: usize = 0;
                assert(vv.take(0) =~= Seq::<SValue>::empty());
                while i < vs.len()
                    invariant
                        0 <= i <= vs.len(),
                        *v == Value::List(*vs),
                        vv == view_values(vs@),
                        vv.len() == vs.len(),
                        forall|j: int| 0 <= j < vs.len() ==> #[trigger] vv[j] == view_value(vs@[j]),
                        forall|j: int| 0 <= j < vs.len() ==> has_type(#[trigger] vv[j], **t),
                        valid_type(**t),
                        width == w,
                        total == encode_list(**t, vv, (base + w) as nat),
                        base + w + total.1.len() < pow256(4),
                        pow256(4) == 0x1_0000_0000,
                        (ps@, ss@) == encode_list(**t, vv.take(i as int), (base + w) as nat),
                    decreases vs.len() - i,
                {
                    proof {
                        lemma_encode_list_step(**t, vv, (base + w) as nat, i as int);
                        lemma_encode_list_mono(**t, vv, (base + w) as nat, i + 1);
                        vstd::seq::axiom_seq_index_decreases(vs@, i as int);
                        assert(v->List_0 == *vs);
                    }
                    let (mut p1, mut s1) = encode_value(t, &vs[i], base + width + ss.len() as u32);
                    ps.append(&mut p1);
                    ss.append(&mut s1);
                    i = i + 1;
                }
                assert(vv.take(i as int) =~= vv);
                let mut all = ps;
                all.append(&mut ss);
                (lift_vec(repr_bytes(base, width)), all)
            },
            _ => (Vec::new(), Vec::new()),
        },
        ClarityType::Tuple(fs) => match v {
            Value::Tuple(vs) => {
                let ghost vv = view_fields(vs@);
                proof {
                    lemma_view_fields(vs@);
                }
                let ghost total = encode_fields(fs@, vv, base as nat);
                let mut ps: Vec<Option<u8>> = Vec::new();
                let mut ss: Vec<Option<u8>> = Vec::new();
                let mut i: usize = 0;
                assert(vv.take(0) =~= Seq::<(Seq<u8>, SValue)>::empty());
                while i < vs.len()
                    invariant
                        0 <= i <= vs.len(),
                        *v == Value::Tuple(*vs),
                        *ty == ClarityType::Tuple(*fs),
                        vv == view_fields(vs@),
                        vv.len() == vs.len(),
                        fs@.len() == vs.len(),
                        forall|j: int| 0 <= j < vs.len() ==> #[trigger] vv[j] == (vs@[j].0@, view_value(vs@[j].1)),
                        forall|j: int| 0 <= j < vs.len() ==> has_type(#[trigger] vv[j].1, fs@[j].1),
                        forall|j: int| 0 <= j < vs.len() ==> valid_type(#[trigger] fs@[j].1),
                        total == encode_fields(fs@, vv, base as nat),
                        base + total.1.len() < pow256(4),
                        pow256(4) == 0x1_0000_0000,
                        (ps@, ss@) == encode_fields(fs@.take(i as int), vv.take(i as int), base as nat),
                    decreases vs.len() - i,
                {
                    proof {
                        lemma_encode_fields_step(fs@, vv, base as nat, i as int);
                        lemma_encode_fields_mono(fs@, vv, base as nat, i + 1);
                        vstd::seq::axiom_seq_index_decreases(vs@, i as int);
                        assert(v->Tuple_0 == *vs);
                        assert(has_type(vv[i as int].1, fs@[i as int].1));
                        assert(valid_type(fs@[i as int].1));
                    }
                    let (mut p1, mut s1) = encode_value(&fs[i].1, &vs[i].1, base + ss.len() as u32);
                    ps.append(&mut p1);
                    ss.append(&mut s1);
                    i = i + 1;
                }
                assert(vv.take(i as int) =~= vv);
                assert(fs@.take(i as int) =~= fs@);
                (ps, ss)
            },
            _ => (Vec::new(), Vec::new()),
        },
        ClarityType::Optional(t) => match v {
            Value::Optional(Some(b)) => {
                let (p, s) = encode_value(t, b, base);
                let mut prim = lift_vec(le_bytes(1, 4));
                let mut p2 = p;
                prim.append(&mut p2);
                (prim, s)
            },
            Value::Optional(None) => {
                let mut prim = lift_vec(le_bytes(0, 4));
                let mut z = skip_vec(get_type_size(t));
                prim.append(&mut z);
                (prim, Vec::new())
            },
            _ => (Vec::new(), Vec::new()),
        },
        ClarityType::Response(o, e) => match v {
            Value::Response(ok, d) => if *ok {
                let (p, s) = encode_value(o, d, base);
                let mut prim = lift_vec(le_bytes(1, 4));
                let mut p2 = p;
                let mut z = skip_vec(get_type_size(e));
                prim.append(&mut p2);
                prim.append(&mut z);
                (prim, s)
            } else {
                let (p, s) = encode_value(e, d, base);
                let mut prim = lift_vec(le_bytes(0, 4));
                let mut z = skip_vec(get_type_size(o));
                let mut p2 = p;
                prim.append(&mut z);
                prim.append(&mut p2);
                (prim, s)
            },
            _ => (Vec::new(), Vec::new()),
        },
    }
}

/// `mem` with `img` written at `at`.
pub open spec fn overwrite(mem: Seq<u8>, at: int, img: Seq<u8>) -> Seq<u8> {
    mem.subrange(0, at) + img + mem.subrange(at + img.len(), mem.len() as int)
}

/// `mem` after the written bytes of `img` are stored from `at`; bytes that
/// `img` passes over keep their value.
pub open spec fn overlay(mem: Seq<u8>, at: int, img: Seq<Option<u8>>) -> Seq<u8> {
    Seq::new(
        mem.len(),
        |j: int|
            if at <= j < at + img.len() && img[j - at] is Some {
                img[j - at]->Some_0
            } else {
                mem[j]
            },
    )
}

/// Why a value could not be written to or read from memory.
#[derive(Debug, Clone, Copy, PartialEq, Eq, Structural)]
pub enum MarshalError {
    /// The value's bytes would not fit in memory.
    OutOfBounds,
    /// The bytes in memory are not a value of the type.
    Unreadable,
    /// An optional or response tag other than 0 or 1; carries the tag word.
    InvalidIndicator(u32),
    /// A flat slot of the wrong Wasm kind.
    ValueTypeMismatch,
}

pub(crate) fn copy_into(mem: &mut Vec<u8>, at: usize, img: &Vec<u8>)
    requires
        at + img@.len() <= old(mem)@.len(),
    ensures
        final(mem)@ == overwrite(old(mem)@, at as int, img@),
{
    let mut i: usize = 0;
    while i < img.len()
        invariant
            0 <= i <= img.len(),
            at + img@.len() <= mem.len(),
            mem@.len() == old(mem)@.len(),
            forall|j: int|
                0 <= j < mem@.len() ==> #[trigger] mem@[j] == if at <= j < at + i {
                    img@[j - at]
                } else {
                    old(mem)@[j]
                },
        decreases img.len() - i,
    {
        mem.set(at + i, img[i]);
        i = i + 1;
    }
    assert(mem@ =~= overwrite(old(mem)@, at as int, img@));
}

fn copy_image(mem: &mut Vec<u8>, at: usize, img: &Vec<Option<u8>>)
    requires
        at + img@.len() <= old(mem)@.len(),
    ensures
        final(mem)@ == overlay(old(mem)@, at as int, img@),
{
    let mut i: usize = 0;
    while i < img.len()
        invariant
            0 <= i <= img.len(),
            at + img@.len() <= mem.len(),
            mem@.len() == old(mem)@.len(),
            forall|j: int|
                0 <= j < mem@.len() ==> #[trigger] mem@[j] == if at <= j < at + i && img@[j - at] is Some {
                    img@[j - at]->Some_0
                } else {
                    old(mem)@[j]
                },
        decreases img.len() - i,
    {
        match img[i] {
            Some(b) => {
                mem.set(at + i, b);
            },
            None => {},
        }
        i = i + 1;
    }
    assert(mem@ =~= overlay(old(mem)@, at as int, img@));
}

/// The primary bytes that a write stores: an in-memory value written without
/// its representation stores only its payload.
pub open spec fn written_prim(ty: ClarityType, p: Seq<Option<u8>>, include_repr: bool) -> Seq<Option<u8>> {
    if include_repr || !is_in_memory(ty) { p } else { Seq::empty() }
}

/// Writes a value of type `ty` to memory: its primary image at `offset` and
/// its payload at `in_mem_offset`, payload first. A value that is not of the
/// type is refused with `ValueTypeMismatch` and nothing is written. The space of an inactive arm
/// is passed over, not written. Returns the bytes covered at each place. When
/// either would fall outside memory nothing is written.
pub fn write_to_wasm(
    mem: &mut Vec<u8>,
    ty: &ClarityType,
    offset: u32,
    in_mem_offset: u32,
    value: &Value,
    include_repr: bool,
) -> (r: Result<(u32, u32), MarshalError>)
    requires
        valid_type(*ty),
        in_mem_offset + encode(*ty, value@, in_mem_offset as nat).1.len() < pow256(4),
    ensures
        !has_type(value@, *ty) ==> r == Err::<(u32, u32), MarshalError>(MarshalError::ValueTypeMismatch)
            && final(mem)@ == old(mem)@,
        has_type(value@, *ty) ==> ({
            let (p, s) = encode(*ty, value@, in_mem_offset as nat);
            let q = written_prim(*ty, p, include_repr);
            if offset + q.len() <= old(mem)@.len() && in_mem_offset + s.len() <= old(mem)@.len() {
                r == Ok::<(u32, u32), MarshalError>((q.len() as u32, s.len() as u32))
                    && final(mem)@ == overlay(
                    overlay(old(mem)@, in_mem_offset as int, s),
                    offset as int,
                    q,
                )
            } else {
                r == Err::<(u32, u32), MarshalError>(MarshalError::OutOfBounds) && final(mem)@
                    == old(mem)@
            }
        }),
{
    if !crate::value::value_has_type(value, ty) {
        return Err(MarshalError::ValueTypeMismatch);
    }
    proof {
        lemma_pow256_values();
        lemma_encode_len(*ty, value@, in_mem_offset as nat);
    }
    let (p, s) = encode_value(ty, value, in_mem_offset);
    let q = if include_repr || !ty.in_memory() { p } else { Vec::new() };
    assert(q@ == written_prim(*ty, p@, include_repr));
    if q.len() > mem.len() || offset as usize > mem.len() - q.len() {
        return Err(MarshalError::OutOfBounds);
    }
    if s.len() > mem.len() || in_mem_offset as usize > mem.len() - s.len() {
        return Err(MarshalError::OutOfBounds);
    }
    copy_image(mem, in_mem_offset as usize, &s);
    copy_image(mem, offset as usize, &q);
    Ok((q.len() as u32, s.len() as u32))
}

/// Serialization round trip: once a value's image and payload are written to
/// two places in memory that do not overlap, reading the value back at its
/// offset gives the value, whatever memory held before.
pub proof fn lemma_write_read_round_trip(
    mem: Seq<u8>,
    ty: ClarityType,
    v: SValue,
    offset: nat,
    base: nat,
)
    requires
        valid_type(ty),
        has_type(v, ty),
        offset + encode(ty, v, base).0.len() <= mem.len(),
        base + encode(ty, v, base).1.len() <= mem.len(),
        base + encode(ty, v, base).1.len() < pow256(4),
        offset + encode(ty, v, base).0.len() <= base || base + encode(ty, v, base).1.len()
            <= offset,
    ensures
        decode_at(
            overlay(overlay(mem, base as int, encode(ty, v, base).1), offset as int, encode(ty, v, base).0),
            ty,
            offset as int,
        ) == Some(v),
{
    let (p, s) = encode(ty, v, base);
    let m1 = overlay(mem, base as int, s);
    let m2 = overlay(m1, offset as int, p);
    assert forall|j: int| 0 <= j < s.len() && (#[trigger] s[j]) is Some implies m2[base + j] == s[j]->Some_0 by {
        assert(m1[base + j] == s[j]->Some_0);
    }
    assert forall|j: int| 0 <= j < p.len() && (#[trigger] p[j]) is Some implies m2[offset + j] == p[j]->Some_0 by {
    }
    lemma_decode_encode(m2, ty, v, offset as int, base);
}

pub proof fn lemma_from_le_bound(s: Seq<u8>)
    ensures
        from_le(s) < pow256(s.len()),
    decreases s.len(),
{
    if s.len() > 0 {
        lemma_from_le_bound(s.drop_first());
    }
}

proof fn lemma_pow256_mono(k: nat)
    requires
        k <= 16,
    ensures
        pow256(k) <= two_128(),
    decreases 16 - k,
{
    lemma_pow256_values();
    if k < 16 {
        lemma_pow256_mono(k + 1);
        lemma_pow256_pos(k);
    }
}

fn number_at(mem: &Vec<u8>, off: usize, n: usize) -> (r: u128)
    requires
        n <= 16,
        off + n <= mem.len(),
    ensures
        r as nat == from_le(mem@.subrange(off as int, off + n)),
    decreases n,
{
    if n == 0 {
        return 0;
    }
    let rest = number_at(mem, off + 1, n - 1);
    proof {
        let sub = mem@.subrange(off as int, off + n);
        assert(sub.drop_first() =~= mem@.subrange(off + 1, off + n));
        lemma_from_le_bound(mem@.subrange(off + 1, off + n));
        lemma_pow256_mono(n as nat);
        assert(rest * 256 + 255 < two_128()) by (nonlinear_arith)
            requires rest < pow256((n - 1) as nat), 256 * pow256((n - 1) as nat) <= two_128();
    }
    (mem[off] as u128) + 256 * rest
}

/// `n` little-endian bytes at `off`, when they lie in memory.
pub(crate) fn read_number(mem: &Vec<u8>, off: u64, n: usize) -> (r: Option<u128>)
    requires
        n <= 16,
    ensures
        match r {
            Some(x) => read_le(mem@, off as int, n as nat) == Some(x as nat),
            None => read_le(mem@, off as int, n as nat) is None,
        },
{
    if n > mem.len() || off > (mem.len() - n) as u64 {
        return None;
    }
    Some(number_at(mem, off as usize, n))
}

proof fn lemma_decode_list_none(mem: Seq<u8>, t: ClarityType, off: int, i: nat, j: nat)
    requires
        i <= j,
        decode_list(mem, t, off, i) is None,
    ensures
        decode_list(mem, t, off, j) is None,
    decreases j,
{
    if j > i {
        lemma_decode_list_none(mem, t, off, i, (j - 1) as nat);
    }
}

proof fn lemma_decode_fields_none(mem: Seq<u8>, ty: ClarityType, off: int, i: nat, j: nat)
    requires
        i <= j,
        decode_fields(mem, ty, off, i) is None,
    ensures
        decode_fields(mem, ty, off, j) is None,
    decreases j,
{
    if j > i {
        lemma_decode_fields_none(mem, ty, off, i, (j - 1) as nat);
    }
}

pub open spec fn read_result(r: Result<Value, MarshalError>, d: Option<SValue>) -> bool {
    match r {
        Ok(v) => d == Some(v@),
        Err(e) => d is None && (e is Unreadable || e is InvalidIndicator),
    }
}

/// A tagged value (optional or response) at `off` whose tag is neither 0 nor 1.
pub open spec fn bad_tag(mem: Seq<u8>, ty: ClarityType, off: int) -> Option<nat> {
    if ty is Optional || ty is Response {
        match read_le(mem, off, 4) {
            Some(k) => if k != 0 && k != 1 { Some(k) } else { None },
            None => None,
        }
    } else {
        None
    }
}

/// Reads a value whose primary image is at `offset`; for an in-memory type
/// the `(offset, length)` cell found there is followed.
pub fn read_from_wasm_indirect(mem: &Vec<u8>, ty: &ClarityType, offset: u64) -> (r: Result<
    Value,
    MarshalError,
>)
    requires
        valid_type(*ty),
        offset + type_size(*ty) <= 0x100_0000_0000,
    ensures
        read_result(r, decode_at(mem@, *ty, offset as int)),
        bad_tag(mem@, *ty, offset as int) is Some ==> r == Err::<Value, MarshalError>(
            MarshalError::InvalidIndicator(bad_tag(mem@, *ty, offset as int)->Some_0 as u32),
        ),
    decreases *ty, width(*ty) + 3,
{
    if ty.in_memory() {
        let o = read_number(mem, offset, 4);
        let l = read_number(mem, offset + 4, 4);
        match (o, l) {
            (Some(o), Some(l)) => {
                proof {
                    lemma_pow256_values();
                    lemma_from_le_bound(mem@.subrange(offset as int, offset + 4));
                    lemma_from_le_bound(mem@.subrange(offset + 4, offset + 8));
                }
                read_from_wasm(mem, ty, o as u64, l as u64)
            },
            _ => Err(MarshalError::Unreadable),
        }
    } else {
        proof {
            lemma_type_size_pos(*ty);
        }
        let size = get_type_size(ty);
        read_from_wasm(mem, ty, offset, size as u64)
    }
}

/// Reads a value given its offset and length (for an in-memory type, those
/// of its payload).
pub fn read_from_wasm(mem: &Vec<u8>, ty: &ClarityType, offset: u64, length: u64) -> (r: Result<
    Value,
    MarshalError,
>)
    requires
        valid_type(*ty),
        offset + length <= 0x100_0000_0000,
        !is_in_memory(*ty) ==> offset + type_size(*ty) <= 0x100_0000_0000,
    ensures
        read_result(r, decode(mem@, *ty, offset as int, length as int)),
        bad_tag(mem@, *ty, offset as int) is Some ==> r == Err::<Value, MarshalError>(
            MarshalError::InvalidIndicator(bad_tag(mem@, *ty, offset as int)->Some_0 as u32),
        ),
    decreases *ty, width(*ty) + 2,
{
    match ty {
        ClarityType::NoType => Err(MarshalError::Unreadable),
        ClarityType::Int => match read_number(mem, offset, 16) {
            Some(u) => {
                let x: i128 = if u >= 0x8000_0000_0000_0000_0000_0000_0000_0000u128 {
                    let m = (u - 0x8000_0000_0000_0000_0000_0000_0000_0000u128) as i128;
                    m + i128::MIN
                } else {
                    u as i128
                };
                Ok(Value::Int(x))
            },
            None => Err(MarshalError::Unreadable),
        },
        ClarityType::UInt => match read_number(mem, offset, 16) {
            Some(u) => Ok(Value::UInt(u)),
            None => Err(MarshalError::Unreadable),
        },
        ClarityType::Bool => match read_number(mem, offset, 4) {
            Some(u) => Ok(Value::Bool(u != 0)),
            None => Err(MarshalError::Unreadable),
        },
        ClarityType::Buffer(_) | ClarityType::StringAscii(_) => {
            if length > mem.len() as u64 || offset > mem.len() as u64 - length {
                return Err(MarshalError::Unreadable);
            }
            let start = offset as usize;
            let len = length as usize;
            let mut b: Vec<u8> = Vec::new();
            let mut i: usize = 0;
            while i < len
                invariant
                    0 <= i <= len,
                    start == offset,
                    len == length,
                    start + len <= mem.len(),
                    b@ == mem@.subrange(start as int, start + i),
                decreases len - i,
            {
                b.push(mem[start + i]);
                i = i + 1;
                assert(b@ =~= mem@.subrange(start as int, start + i));
            }
            match ty {
                ClarityType::Buffer(_) => Ok(Value::Buffer(b)),
                _ => Ok(Value::StringAscii(b)),
            }
        },
        ClarityType::StringUtf8(_) => {
            if length > mem.len() as u64 || offset > mem.len() as u64 - length || length % 4 != 0 {
                return Err(MarshalError::Unreadable);
            }
            let ghost sub = mem@.subrange(offset as int, offset + length);
            let start = offset as usize;
            let len = length as usize;
            let mut cs: Vec<u32> = Vec::new();
            let mut i: usize = 0;
            while i < len / 4
                invariant
                    0 <= i <= len / 4,
                    start == offset,
                    len == length,
                    start + len <= mem.len(),
                    sub == mem@.subrange(start as int, start + len),
                    sub.len() == len,
                    cs@ == scalars_of(sub).take(i as int),
                decreases len / 4 - i,
            {
                let at = start + 4 * i;
                let c = number_at(mem, at, 4);
                proof {
                    assert(mem@.subrange(at as int, at + 4) =~= sub.subrange(4 * i, 4 * i + 4));
                }
                cs.push(c as u32);
                i = i + 1;
                assert(cs@ =~= scalars_of(sub).take(i as int));
            }
            assert(scalars_of(sub).take(i as int) =~= scalars_of(sub));
            Ok(Value::StringUtf8(cs))
        },
        ClarityType::Principal => {
            if mem.len() < 22 || offset > (mem.len() - 22) as u64 {
                return Err(MarshalError::Unreadable);
            }
            let at = offset as usize;
            let version = mem[at];
            let name_len = mem[at + 21] as usize;
            if name_len > mem.len() - (at + 22) {
                return Err(MarshalError::Unreadable);
            }
            let mut hash: Vec<u8> = Vec::new();
            let mut i: usize = 0;
            while i < 20
                invariant
                    0 <= i <= 20,
                    at + 22 <= mem.len(),
                    hash@ == mem@.subrange(at + 1, at + 1 + i),
                decreases 20 - i,
            {
                hash.push(mem[at + 1 + i]);
                i = i + 1;
                assert(hash@ =~= mem@.subrange(at + 1, at + 1 + i));
            }
            let mut name: Vec<u8> = Vec::new();
            let mut j: usize = 0;
            while j < name_len
                invariant
                    0 <= j <= name_len,
                    at + 22 + name_len <= mem.len(),
                    name@ == mem@.subrange(at + 22, at + 22 + j),
                decreases name_len - j,
            {
                name.push(mem[at + 22 + j]);
                j = j + 1;
                assert(name@ =~= mem@.subrange(at + 22, at + 22 + j));
            }
            Ok(Value::Principal(crate::value::Principal { version, hash, name }))
        },
        ClarityType::List(t, _) => {
            proof {
                assert(valid_type(**t));
                lemma_type_size_pos(**t);
            }
            let sz = get_type_size(t) as u64;
            let count = length / sz;
            let mut vs: Vec<Value> = Vec::new();
            let mut i: u64 = 0;
            proof {
                assert(count * sz <= length) by (nonlinear_arith)
                    requires count == length / sz, sz > 0;
            }
            while i < count
                invariant
                    0 <= i <= count,
                    count == length / sz,
                    count * sz <= length,
                    sz == type_size(**t),
                    sz >= 4,
                    valid_type(**t),
                    *ty == ClarityType::List(*t, ty->List_1),
                    offset + length <= 0x100_0000_0000,
                    decode_list(mem@, **t, offset as int, i as nat) == Some(view_values(vs@)),
                decreases count - i,
            {
                proof {
                    assert(i * sz + sz <= count * sz) by (nonlinear_arith)
                        requires i < count, sz > 0;
                }
                let at = offset + i * sz;
                match read_from_wasm_indirect(mem, t, at) {
                    Ok(x) => {
                        let ghost before = vs@;
                        vs.push(x);
                        proof {
                            assert(before.push(x).drop_last() =~= before);
                            assert(vs@ == before.push(x));
                        }
                    },
                    Err(e) => {
                        proof {
                            lemma_decode_list_none(mem@, **t, offset as int, (i + 1) as nat, count as nat);
                        }
                        return Err(e);
                    },
                }
                i = i + 1;
            }
            Ok(Value::List(vs))
        },
        ClarityType::Tuple(fs) => {
            let mut vs: Vec<(Vec<u8>, Value)> = Vec::new();
            let mut i: usize = 0;
            let mut at: u64 = offset;
            proof {
                assert(fs@.take(0) =~= Seq::<(Vec<u8>, ClarityType)>::empty());
                assert(view_fields(vs@) =~= Seq::<(Seq<u8>, SValue)>::empty());
            }
            while i < fs.len()
                invariant
                    0 <= i <= fs.len(),
                    valid_type(*ty),
                    *ty == ClarityType::Tuple(*fs),
                    at == offset + fields_size(fs@.take(i as int)),
                    fields_size(fs@.take(i as int)) <= type_size(*ty),
                    type_size(*ty) < 0x1_0000_0000,
                    offset + type_size(*ty) <= 0x100_0000_0000,
                    decode_fields(mem@, *ty, offset as int, i as nat) == Some(view_fields(vs@)),
                decreases fs.len() - i,
            {
                proof {
                    assert(ty->Tuple_0 == *fs);
                    assert(valid_type(fs@[i as int].1));
                    assert(fs@.take(i + 1).drop_last() =~= fs@.take(i as int));
                    crate::value::lemma_fields_size_prefix(fs@, i + 1);
                }
                match read_from_wasm_indirect(mem, &fs[i].1, at) {
                    Ok(x) => {
                        let ghost before = vs@;
                        let name = copy_bytes(&fs[i].0);
                        vs.push((name, x));
                        proof {
                            assert(before.push(vs@.last()).drop_last() =~= before);
                            assert(vs@ =~= before.push(vs@.last()));
                        }
                        proof {
                            lemma_type_size_pos(fs@[i as int].1);
                        }
                        at = at + get_type_size(&fs[i].1) as u64;
                    },
                    Err(e) => {
                        proof {
                            lemma_decode_fields_none(mem@, *ty, offset as int, (i + 1) as nat, fs@.len());
                        }
                        return Err(e);
                    },
                }
                i = i + 1;
            }
            Ok(Value::Tuple(vs))
        },
        ClarityType::Optional(t) => match read_number(mem, offset, 4) {
            Some(u) => if u == 0 {
                Ok(Value::Optional(None))
            } else if u == 1 {
                match read_from_wasm_indirect(mem, t, offset + 4) {
                    Ok(x) => Ok(Value::Optional(Some(Box::new(x)))),
                    Err(e) => Err(e),
                }
            } else {
                proof {
                    lemma_pow256_values();
                    lemma_from_le_bound(mem@.subrange(offset as int, offset + 4));
                }
                Err(MarshalError::InvalidIndicator(u as u32))
            },
            None => Err(MarshalError::Unreadable),
        },
        ClarityType::Response(o, e) => match read_number(mem, offset, 4) {
            Some(u) => if u == 1 {
                match read_from_wasm_indirect(mem, o, offset + 4) {
                    Ok(x) => Ok(Value::Response(true, Box::new(x))),
                    Err(err) => Err(err),
                }
            } else if u == 0 {
                let skip = get_type_size(o) as u64;
                match read_from_wasm_indirect(mem, e, offset + 4 + skip) {
                    Ok(x) => Ok(Value::Response(false, Box::new(x))),
                    Err(err) => Err(err),
                }
            } else {
                proof {
                    lemma_pow256_values();
                    lemma_from_le_bound(mem@.subrange(offset as int, offset + 4));
                }
                Err(MarshalError::InvalidIndicator(u as u32))
            },
            None => Err(MarshalError::Unreadable),
        },
    }
}

/// A Wasm value of one of the two slot kinds.
#[derive(Debug, Clone, Copy, PartialEq, Eq, Structural)]
pub enum WasmVal {
    I32(i32),
    I64(i64),
}

pub open spec fn slot_count(ty: ClarityType) -> nat {
    crate::value::slots(ty).len()
}

/// The 128-bit number whose low and high halves are two `i64` slots.
pub open spec fn halves(low: i64, high: i64) -> nat {
    (if high < 0 { high + 0x1_0000_0000_0000_0000 } else { high as int }) as nat * 0x1_0000_0000_0000_0000
        + (if low < 0 { low + 0x1_0000_0000_0000_0000 } else { low as int }) as nat
}

pub open spec fn i32_word(x: i32) -> nat {
    (if x < 0 { x + 0x1_0000_0000 } else { x as int }) as nat
}

/// Rebuilds a value from its flat slots starting at `i`; in-memory types are
/// read from memory at the `(offset, length)` their slots hold. Gives the
/// value (none for `NoType`) and the number of slots used, or `None` when a
/// slot is missing or of the wrong kind, or memory does not hold a value.
pub open spec fn from_slots(mem: Seq<u8>, ty: ClarityType, vals: Seq<WasmVal>, i: int) -> Option<
    (Option<SValue>, nat),
>
    decreases ty, width(ty) + 2,
{
    if i < 0 {
        None
    } else {
        match ty {
            ClarityType::NoType => Some((None, 1)),
            ClarityType::Int | ClarityType::UInt => if i + 1 < vals.len() && vals[i] is I64
                && vals[i + 1] is I64 {
                let u = halves(vals[i]->I64_0, vals[i + 1]->I64_0);
                Some(
                    (
                        Some(
                            if ty is Int {
                                SValue::Int(int_of_bits(u))
                            } else {
                                SValue::UInt(u as int)
                            },
                        ),
                        2,
                    ),
                )
            } else {
                None
            },
            ClarityType::Bool => if i < vals.len() && vals[i] is I32 {
                Some((Some(SValue::Bool(vals[i]->I32_0 != 0)), 1))
            } else {
                None
            },
            ClarityType::Optional(t) => if i < vals.len() && vals[i] is I32 {
                if vals[i]->I32_0 == 1 {
                    match from_slots(mem, *t, vals, i + 1) {
                        Some((Some(x), _)) => Some(
                            (Some(SValue::Optional(Some(Box::new(x)))), 1 + slot_count(*t)),
                        ),
                        _ => None,
                    }
                } else {
                    Some((Some(SValue::Optional(None)), 1 + slot_count(*t)))
                }
            } else {
                None
            },
            ClarityType::Response(o, e) => if i < vals.len() && vals[i] is I32 {
                let n = 1 + slot_count(*o) + slot_count(*e);
                if vals[i]->I32_0 == 1 {
                    match from_slots(mem, *o, vals, i + 1) {
                        Some((Some(x), _)) => Some((Some(SValue::Response(true, Box::new(x))), n)),
                        _ => None,
                    }
                } else {
                    match from_slots(mem, *e, vals, i + 1 + slot_count(*o)) {
                        Some((Some(x), _)) => Some((Some(SValue::Response(false, Box::new(x))), n)),
                        _ => None,
                    }
                }
            } else {
                None
            },
            ClarityType::Tuple(fs) => match from_slots_fields(mem, ty, vals, i, fs@.len()) {
                Some((vs, used)) => Some((Some(SValue::Tuple(vs)), used)),
                None => None,
            },
            _ => if i + 1 < vals.len() && vals[i] is I32 && vals[i + 1] is I32 {
                match decode(
                    mem,
                    ty,
                    i32_word(vals[i]->I32_0) as int,
                    i32_word(vals[i + 1]->I32_0) as int,
                ) {
                    Some(x) => Some((Some(x), 2)),
                    None => None,
                }
            } else {
                None
            },
        }
    }
}

/// The first `k` fields of a tuple, rebuilt from slots starting at `i`, and
/// the slots they use.
pub open spec fn from_slots_fields(
    mem: Seq<u8>,
    ty: ClarityType,
    vals: Seq<WasmVal>,
    i: int,
    k: nat,
) -> Option<(Seq<(Seq<u8>, SValue)>, nat)>
    decreases ty, k,
{
    match ty {
        ClarityType::Tuple(fs) => if k == 0 {
            Some((Seq::empty(), 0))
        } else if k > fs@.len() {
            None
        } else {
            match from_slots_fields(mem, ty, vals, i, (k - 1) as nat) {
                Some((a, used)) => match from_slots(mem, fs@[k - 1].1, vals, i + used) {
                    Some((Some(x), n)) => Some((a.push((fs@[k - 1].0@, x)), used + n)),
                    _ => None,
                },
                None => None,
            }
        },
        _ => None,
    }
}

fn halves_exec(low: i64, high: i64) -> (r: u128)
    ensures
        r as nat == halves(low, high),
{
    let l: u128 = if low < 0 { (low as i128 + 0x1_0000_0000_0000_0000i128) as u128 } else { low as u128 };
    let h: u128 = if high < 0 { (high as i128 + 0x1_0000_0000_0000_0000i128) as u128 } else { high as u128 };
    assert(h * 0x1_0000_0000_0000_0000 + l <= u128::MAX) by (nonlinear_arith)
        requires h < 0x1_0000_0000_0000_0000, l < 0x1_0000_0000_0000_0000;
    h * 0x1_0000_0000_0000_0000 + l
}

fn word_exec(x: i32) -> (r: u64)
    ensures
        r as nat == i32_word(x),
{
    if x < 0 { (x as i64 + 0x1_0000_0000i64) as u64 } else { x as u64 }
}

/// Each slot stands for at least four bytes of a type's footprint.
pub proof fn lemma_slots_bound(ty: ClarityType)
    requires
        valid_type(ty),
    ensures
        slot_count(ty) * 4 <= type_size(ty),
    decreases ty,
{
    match ty {
        ClarityType::Optional(t) => lemma_slots_bound(*t),
        ClarityType::Response(o, e) => {
            lemma_slots_bound(*o);
            lemma_slots_bound(*e);
        },
        ClarityType::Tuple(fs) => {
            lemma_fields_slots_bound(fs@);
        },
        _ => {},
    }
}

proof fn lemma_fields_slots_bound(fs: Seq<(Vec<u8>, ClarityType)>)
    requires
        forall|i: int| 0 <= i < fs.len() ==> valid_type(#[trigger] fs[i].1),
    ensures
        crate::value::fields_slots(fs).len() * 4 <= fields_size(fs),
    decreases fs,
{
    if fs.len() > 0 {
        assert(valid_type(fs[fs.len() - 1].1));
        lemma_slots_bound(fs.last().1);
        lemma_fields_slots_bound(fs.drop_last());
    }
}

/// Past the last slot nothing but a `NoType` placeholder can be read.
proof fn lemma_beyond_slots(mem: Seq<u8>, ty: ClarityType, vals: Seq<WasmVal>, i: int)
    requires
        valid_type(ty),
        i >= vals.len(),
    ensures
        from_slots(mem, ty, vals, i) is None || from_slots(mem, ty, vals, i)->Some_0.0 is None,
    decreases ty, width(ty) + 2,
{
    match ty {
        ClarityType::Tuple(fs) => {
            lemma_beyond_fields(mem, ty, vals, i, fs@.len());
        },
        _ => {},
    }
}

proof fn lemma_beyond_fields(mem: Seq<u8>, ty: ClarityType, vals: Seq<WasmVal>, i: int, k: nat)
    requires
        valid_type(ty),
        ty is Tuple,
        1 <= k <= ty->Tuple_0@.len(),
        i >= vals.len(),
    ensures
        from_slots_fields(mem, ty, vals, i, k) is None,
    decreases ty, k,
{
    let fs = ty->Tuple_0@;
    if k > 1 {
        lemma_beyond_fields(mem, ty, vals, i, (k - 1) as nat);
    } else {
        assert(valid_type(fs[0].1));
        lemma_beyond_slots(mem, fs[0].1, vals, i);
        assert(from_slots_fields(mem, ty, vals, i, 0) == Some((Seq::<(Seq<u8>, SValue)>::empty(), 0nat)));
    }
}

fn slot_len(ty: &ClarityType) -> (r: usize)
    requires
        valid_type(*ty),
    ensures
        r == slot_count(*ty),
        r < 0x4000_0000,
{
    proof {
        lemma_slots_bound(*ty);
    }
    let s = crate::value::wasm_slots(ty);
    s.len()
}

/// The slots at `i` that `ty` reads first are there but of the wrong kind.
pub open spec fn slot_kind_mismatch(ty: ClarityType, vals: Seq<WasmVal>, i: int) -> bool {
    0 <= i && match ty {
        ClarityType::Int | ClarityType::UInt => i + 1 < vals.len() && !(vals[i] is I64 && vals[i + 1] is I64),
        ClarityType::Bool | ClarityType::Optional(_) | ClarityType::Response(_, _) => i < vals.len() && !(vals[i] is I32),
        ClarityType::NoType | ClarityType::Tuple(_) => false,
        _ => i + 1 < vals.len() && !(vals[i] is I32 && vals[i + 1] is I32),
    }
}

pub open spec fn slots_result(r: Result<(Option<Value>, usize), MarshalError>) -> Option<
    (Option<SValue>, nat),
> {
    match r {
        Ok((v, n)) => Some(
            (
                match v {
                    Some(x) => Some(x@),
                    None => None::<SValue>,
                },
                n as nat,
            ),
        ),
        Err(_) => None,
    }
}

/// Rebuilds a value from flat Wasm slots, starting at slot `index`; the
/// payloads of in-memory types are read from `mem`. Returns the value (none
/// for `NoType`) and how many slots it took.
pub fn wasm_to_clarity_value(
    ty: &ClarityType,
    index: usize,
    vals: &Vec<WasmVal>,
    mem: &Vec<u8>,
) -> (r: Result<(Option<Value>, usize), MarshalError>)
    requires
        valid_type(*ty),
        index <= vals.len(),
    ensures
        slots_result(r) == from_slots(mem@, *ty, vals@, index as int),
        slot_kind_mismatch(*ty, vals@, index as int) ==> r == Err::<(Option<Value>, usize), MarshalError>(
            MarshalError::ValueTypeMismatch,
        ),
    decreases *ty, width(*ty) + 2,
{
    match ty {
        ClarityType::NoType => Ok((None, 1)),
        ClarityType::Int | ClarityType::UInt => {
            if index >= vals.len() || vals.len() - index < 2 {
                return Err(MarshalError::Unreadable);
            }
            match (vals[index], vals[index + 1]) {
                (WasmVal::I64(low), WasmVal::I64(high)) => {
                    let u = halves_exec(low, high);
                    match ty {
                        ClarityType::Int => {
                            let x: i128 = if u >= 0x8000_0000_0000_0000_0000_0000_0000_0000u128 {
                                let m = (u - 0x8000_0000_0000_0000_0000_0000_0000_0000u128) as i128;
                                m + i128::MIN
                            } else {
                                u as i128
                            };
                            Ok((Some(Value::Int(x)), 2))
                        },
                        _ => Ok((Some(Value::UInt(u)), 2)),
                    }
                },
                _ => Err(MarshalError::ValueTypeMismatch),
            }
        },
        ClarityType::Bool => {
            if index >= vals.len() {
                return Err(MarshalError::Unreadable);
            }
            match vals[index] {
                WasmVal::I32(b) => Ok((Some(Value::Bool(b != 0)), 1)),
                _ => Err(MarshalError::ValueTypeMismatch),
            }
        },
        ClarityType::Optional(t) => {
            if index >= vals.len() {
                return Err(MarshalError::Unreadable);
            }
            let n = slot_len(t);
            match vals[index] {
                WasmVal::I32(ind) => if ind == 1 {
                    match wasm_to_clarity_value(t, index + 1, vals, mem) {
                        Ok((Some(x), _)) => Ok((Some(Value::Optional(Some(Box::new(x)))), 1 + n)),
                        Ok((None, _)) => Err(MarshalError::Unreadable),
                        Err(e) => Err(e),
                    }
                } else {
                    Ok((Some(Value::Optional(None)), 1 + n))
                },
                _ => Err(MarshalError::ValueTypeMismatch),
            }
        },
        ClarityType::Response(o, e) => {
            if index >= vals.len() {
                return Err(MarshalError::Unreadable);
            }
            let n_ok = slot_len(o);
            let n_err = slot_len(e);
            match vals[index] {
                WasmVal::I32(ind) => if ind == 1 {
                    match wasm_to_clarity_value(o, index + 1, vals, mem) {
                        Ok((Some(x), _)) => Ok((Some(Value::Response(true, Box::new(x))), 1 + n_ok + n_err)),
                        Ok((None, _)) => Err(MarshalError::Unreadable),
                        Err(err) => Err(err),
                    }
                } else {
                    if n_ok >= vals.len() - index - 1 {
                        proof {
                            lemma_beyond_slots(mem@, **e, vals@, index + 1 + n_ok);
                        }
                        return Err(MarshalError::Unreadable);
                    }
                    match wasm_to_clarity_value(e, index + 1 + n_ok, vals, mem) {
                        Ok((Some(x), _)) => Ok((Some(Value::Response(false, Box::new(x))), 1 + n_ok + n_err)),
                        Ok((None, _)) => Err(MarshalError::Unreadable),
                        Err(err) => Err(err),
                    }
                },
                _ => Err(MarshalError::ValueTypeMismatch),
            }
        },
        ClarityType::Tuple(fs) => {
            let mut out: Vec<(Vec<u8>, Value)> = Vec::new();
            let mut used: usize = 0;
            let mut k: usize = 0;
            proof {
                assert(view_fields(out@) =~= Seq::<(Seq<u8>, SValue)>::empty());
                assert(fs@.take(0) =~= Seq::<(Vec<u8>, ClarityType)>::empty());
            }
            while k < fs.len()
                invariant
                    0 <= k <= fs.len(),
                    valid_type(*ty),
                    *ty == ClarityType::Tuple(*fs),
                    index <= vals.len(),
                    from_slots_fields(mem@, *ty, vals@, index as int, k as nat) == Some((view_fields(out@), used as nat)),
                    used == crate::value::fields_slots(fs@.take(k as int)).len(),
                decreases fs.len() - k,
            {
                proof {
                    assert(ty->Tuple_0 == *fs);
                    assert(valid_type(fs@[k as int].1));
                    assert(fs@.take(k + 1).drop_last() =~= fs@.take(k as int));
                    assert forall|q: int| 0 <= q < fs@.take(k + 1).len() implies valid_type(#[trigger] fs@.take(k + 1)[q].1) by {
                        assert(valid_type(fs@[q].1));
                    }
                    lemma_fields_slots_bound(fs@.take(k + 1));
                    crate::value::lemma_fields_size_prefix(fs@, k + 1);
                }
                if used >= vals.len() - index {
                    proof {
                        lemma_beyond_slots(mem@, fs@[k as int].1, vals@, index + used);
                        lemma_fields_none_after(mem@, *ty, vals@, index as int, (k + 1) as nat, fs@.len());
                    }
                    return Err(MarshalError::Unreadable);
                }
                match wasm_to_clarity_value(&fs[k].1, index + used, vals, mem) {
                    Ok((Some(x), n)) => {
                        proof {
                            lemma_slots_used(mem@, fs@[k as int].1, vals@, index + used);
                        }
                        let ghost before = out@;
                        let name = copy_bytes(&fs[k].0);
                        out.push((name, x));
                        proof {
                            assert(before.push(out@.last()).drop_last() =~= before);
                            assert(out@ =~= before.push(out@.last()));
                        }
                        used = used + n;
                    },
                    _ => {
                        proof {
                            lemma_fields_none_after(mem@, *ty, vals@, index as int, (k + 1) as nat, fs@.len());
                        }
                        return Err(MarshalError::Unreadable);
                    },
                }
                k = k + 1;
            }
            Ok((Some(Value::Tuple(out)), used))
        },
        _ => {
            if index >= vals.len() || vals.len() - index < 2 {
                return Err(MarshalError::Unreadable);
            }
            match (vals[index], vals[index + 1]) {
                (WasmVal::I32(o), WasmVal::I32(l)) => {
                    match read_from_wasm(mem, ty, word_exec(o), word_exec(l)) {
                        Ok(x) => Ok((Some(x), 2)),
                        Err(e) => Err(e),
                    }
                },
                _ => Err(MarshalError::ValueTypeMismatch),
            }
        },
    }
}

/// The slots a rebuilt value takes are the slots of its type.
proof fn lemma_slots_used(mem: Seq<u8>, ty: ClarityType, vals: Seq<WasmVal>, i: int)
    ensures
        from_slots(mem, ty, vals, i) is Some ==> from_slots(mem, ty, vals, i)->Some_0.1 == slot_count(ty),
    decreases ty, width(ty) + 2,
{
    match ty {
        ClarityType::Tuple(fs) => {
            lemma_fields_used(mem, ty, vals, i, fs@.len());
            assert(fs@.take(fs@.len() as int) =~= fs@);
        },
        _ => {},
    }
}

proof fn lemma_fields_used(mem: Seq<u8>, ty: ClarityType, vals: Seq<WasmVal>, i: int, k: nat)
    requires
        ty is Tuple,
        k <= ty->Tuple_0@.len(),
    ensures
        from_slots_fields(mem, ty, vals, i, k) is Some ==> from_slots_fields(mem, ty, vals, i, k)->Some_0.1
            == crate::value::fields_slots(ty->Tuple_0@.take(k as int)).len(),
    decreases ty, k,
{
    let fs = ty->Tuple_0@;
    if k > 0 {
        lemma_fields_used(mem, ty, vals, i, (k - 1) as nat);
        assert(fs.take(k as int).drop_last() =~= fs.take(k - 1));
        match from_slots_fields(mem, ty, vals, i, (k - 1) as nat) {
            Some((a, used)) => {
                lemma_slots_used(mem, fs[k - 1].1, vals, i + used);
            },
            None => {},
        }
    } else {
        assert(fs.take(0) =~= Seq::<(Vec<u8>, ClarityType)>::empty());
    }
}

proof fn lemma_fields_none_after(mem: Seq<u8>, ty: ClarityType, vals: Seq<WasmVal>, i: int, k: nat, j: nat)
    requires
        k <= j,
        from_slots_fields(mem, ty, vals, i, k) is None,
    ensures
        from_slots_fields(mem, ty, vals, i, j) is None,
    decreases j,
{
    if j > k {
        lemma_fields_none_after(mem, ty, vals, i, k, (j - 1) as nat);
    }
}

} // verus!
