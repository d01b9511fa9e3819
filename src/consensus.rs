use vstd::prelude::*;
use crate::marshal::{int_bits, twos_complement};
use crate::value::{SValue, Value, view_value, view_values, view_fields, lemma_view_values, lemma_view_fields};

verus! {

/// `x` as `n` big-endian bytes (the low `8 * n` bits).
pub open spec fn be(x: nat, n: nat) -> Seq<u8>
    decreases n,
{
    if n == 0 {
        Seq::empty()
    } else {
        be(x / 256, (n - 1) as nat) + seq![(x % 256) as u8]
    }
}

/// The UTF-8 encoding of one Unicode scalar value.
pub open spec fn utf8_of(c: u32) -> Seq<u8> {
    let x = c as nat;
    if x < 0x80 {
        seq![x as u8]
    } else if x < 0x800 {
        seq![(0xC0 + x / 64) as u8, (0x80 + x % 64) as u8]
    } else if x < 0x10000 {
        seq![(0xE0 + x / 4096) as u8, (0x80 + (x / 64) % 64) as u8, (0x80 + x % 64) as u8]
    } else {
        seq![
            (0xF0 + (x / 262144) % 8) as u8,
            (0x80 + (x / 4096) % 64) as u8,
            (0x80 + (x / 64) % 64) as u8,
            (0x80 + x % 64) as u8,
        ]
    }
}

pub open spec fn utf8_bytes(cs: Seq<u32>) -> Seq<u8>
    decreases cs.len(),
{
    if cs.len() == 0 {
        Seq::empty()
    } else {
        utf8_bytes(cs.drop_last()) + utf8_of(cs.last())
    }
}

pub open spec fn fits_u32(n: nat) -> bool {
    n <= u32::MAX
}

/// The canonical consensus serialization of a value: a type prefix byte,
/// then the contents, with lengths and counts as 4-byte big-endian numbers
/// and integers as 16-byte big-endian two's complement. `None` when a length
/// does not fit in four bytes.
pub open spec fn consensus(v: SValue) -> Option<Seq<u8>>
    decreases v,
{
    match v {
        SValue::Int(x) => Some(seq![0x00u8] + be(int_bits(x), 16)),
        SValue::UInt(x) => Some(seq![0x01u8] + be(x as nat, 16)),
        SValue::Buffer(b) => if fits_u32(b.len()) {
            Some(seq![0x02u8] + be(b.len(), 4) + b)
        } else {
            None
        },
        SValue::Bool(b) => Some(if b { seq![0x03u8] } else { seq![0x04u8] }),
        SValue::Principal(ver, h, n) => if n.len() == 0 {
            Some(seq![0x05u8, ver] + h)
        } else if n.len() < 256 {
            Some(seq![0x06u8, ver] + h + seq![n.len() as u8] + n)
        } else {
            None
        },
        SValue::Response(ok, d) => match consensus(*d) {
            Some(inner) => Some(seq![if ok { 0x07u8 } else { 0x08u8 }] + inner),
            None => None,
        },
        SValue::Optional(o) => match o {
            None => Some(seq![0x09u8]),
            Some(b) => match consensus(*b) {
                Some(inner) => Some(seq![0x0au8] + inner),
                None => None,
            },
        },
        SValue::List(vs) => if fits_u32(vs.len()) {
            match consensus_items(vs) {
                Some(items) => Some(seq![0x0bu8] + be(vs.len(), 4) + items),
                None => None,
            }
        } else {
            None
        },
        SValue::Tuple(fs) => if fits_u32(fs.len()) {
            match consensus_fields(fs) {
                Some(items) => Some(seq![0x0cu8] + be(fs.len(), 4) + items),
                None => None,
            }
        } else {
            None
        },
        SValue::StringAscii(b) => if fits_u32(b.len()) {
            Some(seq![0x0du8] + be(b.len(), 4) + b)
        } else {
            None
        },
        SValue::StringUtf8(cs) => if fits_u32(utf8_bytes(cs).len()) {
            Some(seq![0x0eu8] + be(utf8_bytes(cs).len(), 4) + utf8_bytes(cs))
        } else {
            None
        },
    }
}

pub open spec fn consensus_items(vs: Seq<SValue>) -> Option<Seq<u8>>
    decreases vs,
{
    if vs.len() == 0 {
        Some(Seq::empty())
    } else {
        match (consensus_items(vs.drop_last()), consensus(vs.last())) {
            (Some(a), Some(b)) => Some(a + b),
            _ => None,
        }
    }
}

/// Each field: its name's length as one byte, the name, the value.
pub open spec fn consensus_fields(fs: Seq<(Seq<u8>, SValue)>) -> Option<Seq<u8>>
    decreases fs,
{
    if fs.len() == 0 {
        Some(Seq::empty())
    } else {
        let (name, value) = fs.last();
        match (consensus_fields(fs.drop_last()), consensus(value)) {
            (Some(a), Some(b)) => if name.len() < 256 {
                Some(a + seq![name.len() as u8] + name + b)
            } else {
                None
            },
            _ => None,
        }
    }
}

fn be_bytes(x: u128, n: usize) -> (r: Vec<u8>)
    ensures
        r@ == be(x as nat, n as nat),
    decreases n,
{
    if n == 0 {
        let r: Vec<u8> = Vec::new();
        assert(r@ =~= be(x as nat, 0));
        return r;
    }
    let mut r = be_bytes(x / 256, n - 1);
    r.push((x % 256) as u8);
    r
}

fn push_all(dst: &mut Vec<u8>, src: &Vec<u8>)
    ensures
        final(dst)@ == old(dst)@ + src@,
{
    let mut i: usize = 0;
    while i < src.len()
        invariant
            0 <= i <= src.len(),
            dst@ == old(dst)@ + src@.take(i as int),
        decreases src.len() - i,
    {
        dst.push(src[i]);
        i = i + 1;
        assert(dst@ =~= old(dst)@ + src@.take(i as int));
    }
    assert(src@.take(i as int) =~= src@);
}

fn utf8_encode(c: u32) -> (r: Vec<u8>)
    ensures
        r@ == utf8_of(c),
{
    if c < 0x80 {
        vec![c as u8]
    } else if c < 0x800 {
        vec![(0xC0 + c / 64) as u8, (0x80 + c % 64) as u8]
    } else if c < 0x10000 {
        vec![(0xE0 + c / 4096) as u8, (0x80 + (c / 64) % 64) as u8, (0x80 + c % 64) as u8]
    } else {
        vec![
            (0xF0 + (c / 262144) % 8) as u8,
            (0x80 + (c / 4096) % 64) as u8,
            (0x80 + (c / 64) % 64) as u8,
            (0x80 + c % 64) as u8,
        ]
    }
}

/// The consensus serialization of a value, as `to-consensus-buff?` computes
/// it; `None` when a length does not fit in four bytes.
pub fn to_consensus_buff(v: &Value) -> (r: Option<Vec<u8>>)
    ensures
        match r {
            Some(b) => consensus(v@) == Some(b@),
            None => consensus(v@) is None,
        },
    decreases v,
{
    match v {
        Value::Int(x) => {
            let mut r = vec![0x00u8];
            let b = be_bytes(twos_complement(*x), 16);
            push_all(&mut r, &b);
            Some(r)
        },
        Value::UInt(x) => {
            let mut r = vec![0x01u8];
            let b = be_bytes(*x, 16);
            push_all(&mut r, &b);
            Some(r)
        },
        Value::Buffer(b) | Value::StringAscii(b) => {
            if b.len() > u32::MAX as usize {
                return None;
            }
            let mut r = match v {
                Value::Buffer(_) => vec![0x02u8],
                _ => vec![0x0du8],
            };
            let n = be_bytes(b.len() as u128, 4);
            push_all(&mut r, &n);
            push_all(&mut r, b);
            Some(r)
        },
        Value::Bool(b) => Some(if *b { vec![0x03u8] } else { vec![0x04u8] }),
        Value::Principal(p) => {
            if p.name.len() == 0 {
                let mut r = vec![0x05u8, p.version];
                push_all(&mut r, &p.hash);
                Some(r)
            } else if p.name.len() < 256 {
                let mut r = vec![0x06u8, p.version];
                push_all(&mut r, &p.hash);
                r.push(p.name.len() as u8);
                push_all(&mut r, &p.name);
                assert(r@ =~= seq![0x06u8, p.version] + p.hash@ + seq![p.name@.len() as u8] + p.name@);
                Some(r)
            } else {
                None
            }
        },
        Value::Response(ok, d) => match to_consensus_buff(d) {
            Some(inner) => {
                let mut r = vec![if *ok { 0x07u8 } else { 0x08u8 }];
                push_all(&mut r, &inner);
                Some(r)
            },
            None => None,
        },
        Value::Optional(o) => match o {
            None => Some(vec![0x09u8]),
            Some(b) => match to_consensus_buff(b) {
                Some(inner) => {
                    let mut r = vec![0x0au8];
                    push_all(&mut r, &inner);
                    Some(r)
                },
                None => None,
            },
        },
        Value::List(vs) => {
            proof {
                lemma_view_values(vs@);
            }
            if vs.len() > u32::MAX as usize {
                return None;
            }
            let mut items: Vec<u8> = Vec::new();
            let mut i: usize = 0;
            let ghost vv = view_values(vs@);
            assert(vv.take(0) =~= Seq::<SValue>::empty());
            while i < vs.len()
                invariant
                    0 <= i <= vs.len(),
                    *v == Value::List(*vs),
                    vv == view_values(vs@),
                    vv.len() == vs.len(),
                    forall|j: int| 0 <= j < vs.len() ==> #[trigger] vv[j] == view_value(vs@[j]),
                    consensus_items(vv.take(i as int)) == Some(items@),
                decreases vs.len() - i,
            {
                proof {
                    vstd::seq::axiom_seq_index_decreases(vs@, i as int);
                    assert(v->List_0 == *vs);
                    assert(vv.take(i + 1).drop_last() =~= vv.take(i as int));
                }
                match to_consensus_buff(&vs[i]) {
                    Some(b) => {
                        push_all(&mut items, &b);
                    },
                    None => {
                        proof {
                            lemma_items_none(vv, i + 1);
                        }
                        return None;
                    },
                }
                i = i + 1;
            }
            assert(vv.take(i as int) =~= vv);
            let mut r = vec![0x0bu8];
            let n = be_bytes(vs.len() as u128, 4);
            push_all(&mut r, &n);
            push_all(&mut r, &items);
            Some(r)
        },
        Value::Tuple(fs) => {
            proof {
                lemma_view_fields(fs@);
            }
            if fs.len() > u32::MAX as usize {
                return None;
            }
            let mut items: Vec<u8> = Vec::new();
            let mut i: usize = 0;
            let ghost vf = view_fields(fs@);
            assert(vf.take(0) =~= Seq::<(Seq<u8>, SValue)>::empty());
            while i < fs.len()
                invariant
                    0 <= i <= fs.len(),
                    *v == Value::Tuple(*fs),
                    vf == view_fields(fs@),
                    vf.len() == fs.len(),
                    forall|j: int| 0 <= j < fs.len() ==> #[trigger] vf[j] == (fs@[j].0@, view_value(fs@[j].1)),
                    consensus_fields(vf.take(i as int)) == Some(items@),
                decreases fs.len() - i,
            {
                proof {
                    vstd::seq::axiom_seq_index_decreases(fs@, i as int);
                    assert(v->Tuple_0 == *fs);
                    assert(vf.take(i + 1).drop_last() =~= vf.take(i as int));
                }
                let name = &fs[i].0;
                match to_consensus_buff(&fs[i].1) {
                    Some(b) => {
                        if name.len() >= 256 {
                            proof {
                                lemma_fields_none(vf, i + 1);
                            }
                            return None;
                        }
                        items.push(name.len() as u8);
                        push_all(&mut items, name);
                        push_all(&mut items, &b);
                    },
                    None => {
                        proof {
                            lemma_fields_none(vf, i + 1);
                        }
                        return None;
                    },
                }
                i = i + 1;
            }
            assert(vf.take(i as int) =~= vf);
            let mut r = vec![0x0cu8];
            let n = be_bytes(fs.len() as u128, 4);
            push_all(&mut r, &n);
            push_all(&mut r, &items);
            Some(r)
        },
        Value::StringUtf8(cs) => {
            let mut b: Vec<u8> = Vec::new();
            let mut i: usize = 0;
            assert(cs@.take(0) =~= Seq::<u32>::empty());
            while i < cs.len()
                invariant
                    0 <= i <= cs.len(),
                    b@ == utf8_bytes(cs@.take(i as int)),
                decreases cs.len() - i,
            {
                let e = utf8_encode(cs[i]);
                push_all(&mut b, &e);
                assert(cs@.take(i + 1).drop_last() =~= cs@.take(i as int));
                i = i + 1;
            }
            assert(cs@.take(i as int) =~= cs@);
            if b.len() > u32::MAX as usize {
                return None;
            }
            let mut r = vec![0x0eu8];
            let n = be_bytes(b.len() as u128, 4);
            push_all(&mut r, &n);
            push_all(&mut r, &b);
            Some(r)
        },
    }
}

proof fn lemma_items_none(vs: Seq<SValue>, i: int)
    requires
        0 <= i <= vs.len(),
        consensus_items(vs.take(i)) is None,
    ensures
        consensus_items(vs) is None,
    decreases vs.len() - i,
{
    if i < vs.len() {
        assert(vs.take(i + 1).drop_last() =~= vs.take(i));
        lemma_items_none(vs, i + 1);
    } else {
        assert(vs.take(i) =~= vs);
    }
}

proof fn lemma_fields_none(fs: Seq<(Seq<u8>, SValue)>, i: int)
    requires
        0 <= i <= fs.len(),
        consensus_fields(fs.take(i)) is None,
    ensures
        consensus_fields(fs) is None,
    decreases fs.len() - i,
{
    if i < fs.len() {
        assert(fs.take(i + 1).drop_last() =~= fs.take(i));
        lemma_fields_none(fs, i + 1);
    } else {
        assert(fs.take(i) =~= fs);
    }
}

} // verus!
