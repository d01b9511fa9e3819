use vstd::prelude::*;

verus! {

/// Bytes in a principal's address hash.
pub const PRINCIPAL_HASH_BYTES: usize = 20;

/// Longest contract name a principal may carry.
pub const CONTRACT_NAME_MAX_LENGTH: usize = 128;

/// A source type of the language.
#[derive(Debug)]
pub enum ClarityType {
    /// The bottom type of value positions that can never be reached.
    NoType,
    Int,
    UInt,
    Bool,
    Principal,
    /// A buffer of at most this many bytes.
    Buffer(u32),
    /// An ASCII string of at most this many bytes.
    StringAscii(u32),
    /// A UTF-8 string of at most this many Unicode scalar values.
    StringUtf8(u32),
    /// A list of at most this many elements of one type.
    List(Box<ClarityType>, u32),
    /// Named fields, sorted by name.
    Tuple(Vec<(Vec<u8>, ClarityType)>),
    Optional(Box<ClarityType>),
    /// Ok type, then err type.
    Response(Box<ClarityType>, Box<ClarityType>),
}

/// An address: a version byte, a 20-byte hash, and a contract name that is
/// empty for a standard principal.
#[derive(Debug, Clone)]
pub struct Principal {
    pub version: u8,
    pub hash: Vec<u8>,
    pub name: Vec<u8>,
}

/// A value of the language.
#[derive(Debug)]
pub enum Value {
    Int(i128),
    UInt(u128),
    Bool(bool),
    Principal(Principal),
    Buffer(Vec<u8>),
    StringAscii(Vec<u8>),
    /// Unicode scalar values.
    StringUtf8(Vec<u32>),
    List(Vec<Value>),
    /// Named fields, sorted by name.
    Tuple(Vec<(Vec<u8>, Value)>),
    Optional(Option<Box<Value>>),
    /// `true` for the ok variant.
    Response(bool, Box<Value>),
}

/// The mathematical form of a value.
pub enum SValue {
    Int(int),
    UInt(int),
    Bool(bool),
    Principal(u8, Seq<u8>, Seq<u8>),
    Buffer(Seq<u8>),
    StringAscii(Seq<u8>),
    StringUtf8(Seq<u32>),
    List(Seq<SValue>),
    Tuple(Seq<(Seq<u8>, SValue)>),
    Optional(Option<Box<SValue>>),
    Response(bool, Box<SValue>),
}

impl View for Principal {
    type V = SValue;

    open spec fn view(&self) -> SValue {
        SValue::Principal(self.version, self.hash@, self.name@)
    }
}

pub open spec fn view_values(s: Seq<Value>) -> Seq<SValue>
    decreases s,
{
    if s.len() == 0 {
        Seq::empty()
    } else {
        view_values(s.drop_last()).push(view_value(s.last()))
    }
}

pub open spec fn view_fields(s: Seq<(Vec<u8>, Value)>) -> Seq<(Seq<u8>, SValue)>
    decreases s,
{
    if s.len() == 0 {
        Seq::empty()
    } else {
        view_fields(s.drop_last()).push((s.last().0@, view_value(s.last().1)))
    }
}

pub open spec fn view_value(v: Value) -> SValue
    decreases v,
{
    match v {
        Value::Int(x) => SValue::Int(x as int),
        Value::UInt(x) => SValue::UInt(x as int),
        Value::Bool(b) => SValue::Bool(b),
        Value::Principal(p) => SValue::Principal(p.version, p.hash@, p.name@),
        Value::Buffer(b) => SValue::Buffer(b@),
        Value::StringAscii(b) => SValue::StringAscii(b@),
        Value::StringUtf8(c) => SValue::StringUtf8(c@),
        Value::List(l) => SValue::List(view_values(l@)),
        Value::Tuple(f) => SValue::Tuple(view_fields(f@)),
        Value::Optional(o) => match o {
            Some(b) => SValue::Optional(Some(Box::new(view_value(*b)))),
            None => SValue::Optional(None),
        },
        Value::Response(ok, d) => SValue::Response(ok, Box::new(view_value(*d))),
    }
}

impl View for Value {
    type V = SValue;

    open spec fn view(&self) -> SValue {
        view_value(*self)
    }
}

/// A Wasm primitive slot.
#[derive(Debug, Clone, Copy, PartialEq, Eq, Structural)]
pub enum WasmType {
    I32,
    I64,
}

/// Whether the flat form of a type is an `(offset, length)` indirection.
pub open spec fn is_in_memory(ty: ClarityType) -> bool {
    match ty {
        ClarityType::Principal | ClarityType::Buffer(_) | ClarityType::StringAscii(_)
        | ClarityType::StringUtf8(_) | ClarityType::List(_, _) => true,
        _ => false,
    }
}

/// Bytes that a value of the type occupies at its primary offset.
pub open spec fn type_size(ty: ClarityType) -> nat
    decreases ty,
{
    match ty {
        ClarityType::NoType | ClarityType::Bool => 4,
        ClarityType::Int | ClarityType::UInt => 16,
        ClarityType::Optional(t) => 4 + type_size(*t),
        ClarityType::Response(o, e) => 4 + type_size(*o) + type_size(*e),
        ClarityType::Tuple(fs) => fields_size(fs@),
        _ => 8,
    }
}

pub open spec fn fields_size(fs: Seq<(Vec<u8>, ClarityType)>) -> nat
    decreases fs,
{
    if fs.len() == 0 {
        0
    } else {
        fields_size(fs.drop_last()) + type_size(fs.last().1)
    }
}

/// The flat slots of a type, in order.
pub open spec fn slots(ty: ClarityType) -> Seq<WasmType>
    decreases ty,
{
    match ty {
        ClarityType::NoType | ClarityType::Bool => seq![WasmType::I32],
        ClarityType::Int | ClarityType::UInt => seq![WasmType::I64, WasmType::I64],
        ClarityType::Optional(t) => seq![WasmType::I32] + slots(*t),
        ClarityType::Response(o, e) => seq![WasmType::I32] + slots(*o) + slots(*e),
        ClarityType::Tuple(fs) => fields_slots(fs@),
        _ => seq![WasmType::I32, WasmType::I32],
    }
}

pub open spec fn fields_slots(fs: Seq<(Vec<u8>, ClarityType)>) -> Seq<WasmType>
    decreases fs,
{
    if fs.len() == 0 {
        Seq::empty()
    } else {
        fields_slots(fs.drop_last()) + slots(fs.last().1)
    }
}

/// Whether a value belongs to a type. No value belongs to `NoType`.
pub open spec fn has_type(v: SValue, ty: ClarityType) -> bool
    decreases ty,
{
    match ty {
        ClarityType::NoType => false,
        ClarityType::Int => v is Int && i128::MIN <= v->Int_0 <= i128::MAX,
        ClarityType::UInt => v is UInt && 0 <= v->UInt_0 <= u128::MAX,
        ClarityType::Bool => v is Bool,
        ClarityType::Principal => match v {
            SValue::Principal(_, h, n) => h.len() == PRINCIPAL_HASH_BYTES && n.len()
                <= CONTRACT_NAME_MAX_LENGTH,
            _ => false,
        },
        ClarityType::Buffer(n) => v is Buffer && v->Buffer_0.len() <= n,
        ClarityType::StringAscii(n) => v is StringAscii && v->StringAscii_0.len() <= n,
        ClarityType::StringUtf8(n) => v is StringUtf8 && v->StringUtf8_0.len() <= n,
        ClarityType::List(t, n) => match v {
            SValue::List(s) => s.len() <= n && forall|i: int|
                0 <= i < s.len() ==> has_type(#[trigger] s[i], *t),
            _ => false,
        },
        ClarityType::Tuple(fs) => match v {
            SValue::Tuple(s) => s.len() == fs@.len() && forall|i: int|
                0 <= i < s.len() ==> (#[trigger] s[i]).0 == fs@[i].0@ && has_type(
                    s[i].1,
                    fs@[i].1,
                ),
            _ => false,
        },
        ClarityType::Optional(t) => match v {
            SValue::Optional(o) => match o {
                Some(b) => has_type(*b, *t),
                None => true,
            },
            _ => false,
        },
        ClarityType::Response(o, e) => match v {
            SValue::Response(ok, d) => if ok {
                has_type(*d, *o)
            } else {
                has_type(*d, *e)
            },
            _ => false,
        },
    }
}

/// Byte-wise lexicographic order on field names.
pub open spec fn name_lt(a: Seq<u8>, b: Seq<u8>) -> bool
    decreases a.len(),
{
    if a.len() == 0 {
        b.len() > 0
    } else if b.len() == 0 {
        false
    } else if a[0] != b[0] {
        a[0] < b[0]
    } else {
        name_lt(a.drop_first(), b.drop_first())
    }
}

/// A type as the type checker builds it: at any depth, every tuple type has
/// at least one field, its field names strictly ascending (so sorted and
/// distinct), and every type's footprint fits 32-bit memory.
pub open spec fn valid_type(ty: ClarityType) -> bool
    decreases ty,
{
    type_size(ty) < 0x1_0000_0000 && match ty {
        ClarityType::List(t, _) => valid_type(*t),
        ClarityType::Optional(t) => valid_type(*t),
        ClarityType::Response(o, e) => valid_type(*o) && valid_type(*e),
        ClarityType::Tuple(fs) => fs@.len() > 0 && (forall|i: int|
            0 <= i < fs@.len() ==> valid_type(#[trigger] fs@[i].1)) && (forall|i: int|
            0 <= i < fs@.len() - 1 ==> #[trigger] name_lt(fs@[i].0@, fs@[i + 1].0@)),
        _ => true,
    }
}

impl ClarityType {
    /// Whether values of this type are passed as an `(offset, length)` pair.
    pub fn in_memory(&self) -> (r: bool)
        ensures
            r == is_in_memory(*self),
    {
        match self {
            ClarityType::Principal | ClarityType::Buffer(_) | ClarityType::StringAscii(_)
            | ClarityType::StringUtf8(_) | ClarityType::List(_, _) => true,
            _ => false,
        }
    }
}

pub proof fn lemma_fields_size_prefix(fs: Seq<(Vec<u8>, ClarityType)>, i: int)
    requires
        0 <= i <= fs.len(),
    ensures
        fields_size(fs.take(i)) <= fields_size(fs),
    decreases fs.len() - i,
{
    if i < fs.len() {
        assert(fs.take(i + 1).drop_last() =~= fs.take(i));
        lemma_fields_size_prefix(fs, i + 1);
    } else {
        assert(fs.take(i) =~= fs);
    }
}

/// The in-memory footprint of a type, in bytes.
pub fn get_type_size(ty: &ClarityType) -> (r: u32)
    requires
        type_size(*ty) <= u32::MAX,
    ensures
        r == type_size(*ty),
    decreases ty,
{
    match ty {
        ClarityType::NoType | ClarityType::Bool => 4,
        ClarityType::Int | ClarityType::UInt => 16,
        ClarityType::Optional(t) => 4 + get_type_size(t),
        ClarityType::Response(o, e) => 4 + get_type_size(o) + get_type_size(e),
        ClarityType::Tuple(fs) => {
            let mut total: u32 = 0;
            let mut i: usize = 0;
            assert(fs@.take(0) =~= Seq::<(Vec<u8>, ClarityType)>::empty());
            while i < fs.len()
                invariant
                    0 <= i <= fs.len(),
                    *ty == ClarityType::Tuple(*fs),
                    total == fields_size(fs@.take(i as int)),
                    fields_size(fs@) == type_size(*ty),
                    type_size(*ty) <= u32::MAX,
                decreases fs.len() - i,
            {
                assert(fs@.take(i + 1).drop_last() =~= fs@.take(i as int));
                proof {
                    lemma_fields_size_prefix(fs@, i + 1);
                }
                proof {
                    vstd::seq::axiom_seq_index_decreases(fs@, i as int);
                    assert(decreases_to!(*fs => fs@));
                    assert(ty->Tuple_0 == *fs);
                    assert(decreases_to!(fs@[i as int] => fs@[i as int].1));
                    assert(decreases_to!(*ty => fs@[i as int].1));
                }
                total = total + get_type_size(&fs[i].1);
                i = i + 1;
            }
            assert(fs@.take(i as int) =~= fs@);
            total
        },
        _ => 8,
    }
}

/// The flat slots of a type.
pub fn wasm_slots(ty: &ClarityType) -> (r: Vec<WasmType>)
    ensures
        r@ == slots(*ty),
    decreases ty,
{
    match ty {
        ClarityType::NoType | ClarityType::Bool => vec![WasmType::I32],
        ClarityType::Int | ClarityType::UInt => vec![WasmType::I64, WasmType::I64],
        ClarityType::Optional(t) => {
            let mut r = vec![WasmType::I32];
            let mut inner = wasm_slots(t);
            r.append(&mut inner);
            r
        },
        ClarityType::Response(o, e) => {
            let mut r = vec![WasmType::I32];
            let mut ok = wasm_slots(o);
            let mut err = wasm_slots(e);
            r.append(&mut ok);
            r.append(&mut err);
            assert(r@ =~= seq![WasmType::I32] + slots(**o) + slots(**e));
            r
        },
        ClarityType::Tuple(fs) => {
            let mut r: Vec<WasmType> = Vec::new();
            let mut i: usize = 0;
            assert(fs@.take(0) =~= Seq::<(Vec<u8>, ClarityType)>::empty());
            while i < fs.len()
                invariant
                    0 <= i <= fs.len(),
                    *ty == ClarityType::Tuple(*fs),
                    r@ == fields_slots(fs@.take(i as int)),
                decreases fs.len() - i,
            {
                assert(fs@.take(i + 1).drop_last() =~= fs@.take(i as int));
                proof {
                    vstd::seq::axiom_seq_index_decreases(fs@, i as int);
                    assert(decreases_to!(*fs => fs@));
                    assert(ty->Tuple_0 == *fs);
                    assert(decreases_to!(fs@[i as int] => fs@[i as int].1));
                    assert(decreases_to!(*ty => fs@[i as int].1));
                }
                let mut field = wasm_slots(&fs[i].1);
                r.append(&mut field);
                i = i + 1;
            }
            assert(fs@.take(i as int) =~= fs@);
            r
        },
        _ => vec![WasmType::I32, WasmType::I32],
    }
}

/// Byte-wise equality of two byte strings.
pub fn bytes_equal(a: &Vec<u8>, b: &Vec<u8>) -> (r: bool)
    ensures
        r == (a@ == b@),
{
    if a.len() != b.len() {
        return false;
    }
    let mut i: usize = 0;
    while i < a.len()
        invariant
            a.len() == b.len(),
            0 <= i <= a.len(),
            forall|j: int| 0 <= j < i ==> a@[j] == b@[j],
        decreases a.len() - i,
    {
        if a[i] != b[i] {
            return false;
        }
        i = i + 1;
    }
    assert(a@ =~= b@);
    true
}

impl Principal {
    /// Whether two principals are the same address and contract.
    pub fn same_as(&self, other: &Principal) -> (r: bool)
        ensures
            r == (self@ == other@),
    {
        self.version == other.version && bytes_equal(&self.hash, &other.hash) && bytes_equal(
            &self.name,
            &other.name,
        )
    }
}

/// `view_values` keeps the length and maps each element.
pub proof fn lemma_view_values(s: Seq<Value>)
    ensures
        view_values(s).len() == s.len(),
        forall|i: int| 0 <= i < s.len() ==> #[trigger] view_values(s)[i] == view_value(s[i]),
    decreases s.len(),
{
    if s.len() > 0 {
        lemma_view_values(s.drop_last());
    }
}

/// `view_fields` keeps the length and maps each field.
pub proof fn lemma_view_fields(s: Seq<(Vec<u8>, Value)>)
    ensures
        view_fields(s).len() == s.len(),
        forall|i: int|
            0 <= i < s.len() ==> #[trigger] view_fields(s)[i] == (s[i].0@, view_value(s[i].1)),
    decreases s.len(),
{
    if s.len() > 0 {
        lemma_view_fields(s.drop_last());
    }
}

/// A copy of a byte string.
pub fn copy_bytes(b: &Vec<u8>) -> (r: Vec<u8>)
    ensures
        r@ == b@,
{
    let mut r: Vec<u8> = Vec::new();
    let mut i: usize = 0;
    while i < b.len()
        invariant
            0 <= i <= b.len(),
            r@ == b@.take(i as int),
        decreases b.len() - i,
    {
        r.push(b[i]);
        i = i + 1;
        assert(r@ =~= b@.take(i as int));
    }
    assert(b@.take(i as int) =~= b@);
    r
}

impl Principal {
    pub fn copy(&self) -> (r: Principal)
        ensures
            r@ == self@,
    {
        Principal { version: self.version, hash: copy_bytes(&self.hash), name: copy_bytes(&self.name) }
    }
}

impl Value {
    /// A copy of the value, element for element.
    pub fn deep_copy(&self) -> (r: Value)
        ensures
            r@ == self@,
        decreases self,
    {
        match self {
            Value::Int(x) => Value::Int(*x),
            Value::UInt(x) => Value::UInt(*x),
            Value::Bool(b) => Value::Bool(*b),
            Value::Principal(p) => Value::Principal(p.copy()),
            Value::Buffer(b) => Value::Buffer(copy_bytes(b)),
            Value::StringAscii(b) => Value::StringAscii(copy_bytes(b)),
            Value::StringUtf8(c) => {
                let mut r: Vec<u32> = Vec::new();
                let mut i: usize = 0;
                while i < c.len()
                    invariant
                        0 <= i <= c.len(),
                        r@ == c@.take(i as int),
                    decreases c.len() - i,
                {
                    r.push(c[i]);
                    i = i + 1;
                    assert(r@ =~= c@.take(i as int));
                }
                assert(c@.take(i as int) =~= c@);
                Value::StringUtf8(r)
            },
            Value::List(l) => {
                let mut r: Vec<Value> = Vec::new();
                let mut i: usize = 0;
                while i < l.len()
                    invariant
                        0 <= i <= l.len(),
                        *self == Value::List(*l),
                        r@.len() == i,
                        forall|j: int| 0 <= j < i ==> view_value(#[trigger] r@[j]) == view_value(l@[j]),
                    decreases l.len() - i,
                {
                    proof {
                        vstd::seq::axiom_seq_index_decreases(l@, i as int);
                        assert(self->List_0 == *l);
                    }
                    let e = l[i].deep_copy();
                    r.push(e);
                    i = i + 1;
                }
                proof {
                    lemma_view_values(r@);
                    lemma_view_values(l@);
                    assert(view_values(r@) =~= view_values(l@));
                }
                Value::List(r)
            },
            Value::Tuple(fs) => {
                let mut r: Vec<(Vec<u8>, Value)> = Vec::new();
                let mut i: usize = 0;
                while i < fs.len()
                    invariant
                        0 <= i <= fs.len(),
                        *self == Value::Tuple(*fs),
                        r@.len() == i,
                        forall|j: int|
                            0 <= j < i ==> (#[trigger] r@[j]).0@ == fs@[j].0@ && view_value(r@[j].1)
                                == view_value(fs@[j].1),
                    decreases fs.len() - i,
                {
                    proof {
                        vstd::seq::axiom_seq_index_decreases(fs@, i as int);
                        assert(self->Tuple_0 == *fs);
                    }
                    let name = copy_bytes(&fs[i].0);
                    let e = fs[i].1.deep_copy();
                    r.push((name, e));
                    i = i + 1;
                }
                proof {
                    lemma_view_fields(r@);
                    lemma_view_fields(fs@);
                    assert(view_fields(r@) =~= view_fields(fs@));
                }
                Value::Tuple(r)
            },
            Value::Optional(o) => match o {
                Some(b) => Value::Optional(Some(Box::new(b.deep_copy()))),
                None => Value::Optional(None),
            },
            Value::Response(ok, d) => Value::Response(*ok, Box::new(d.deep_copy())),
        }
    }
}

/// Whether a value belongs to a type, checked at every depth.
pub fn value_has_type(v: &Value, ty: &ClarityType) -> (r: bool)
    ensures
        r == has_type(v@, *ty),
    decreases ty,
{
    match (ty, v) {
        (ClarityType::Int, Value::Int(_)) => true,
        (ClarityType::UInt, Value::UInt(_)) => true,
        (ClarityType::Bool, Value::Bool(_)) => true,
        (ClarityType::Principal, Value::Principal(p)) => p.hash.len() == PRINCIPAL_HASH_BYTES
            && p.name.len() <= CONTRACT_NAME_MAX_LENGTH,
        (ClarityType::Buffer(n), Value::Buffer(b)) => b.len() <= *n as usize,
        (ClarityType::StringAscii(n), Value::StringAscii(b)) => b.len() <= *n as usize,
        (ClarityType::StringUtf8(n), Value::StringUtf8(c)) => c.len() <= *n as usize,
        (ClarityType::List(t, n), Value::List(vs)) => {
            proof {
                lemma_view_values(vs@);
            }
            if vs.len() > *n as usize {
                return false;
            }
            let mut i: usize = 0;
            while i < vs.len()
                invariant
                    0 <= i <= vs.len(),
                    *ty == ClarityType::List(*t, *n),
                    *v == Value::List(*vs),
                    view_values(vs@).len() == vs.len(),
                    forall|j: int| 0 <= j < vs.len() ==> #[trigger] view_values(vs@)[j] == view_value(vs@[j]),
                    forall|j: int| 0 <= j < i ==> has_type(#[trigger] view_values(vs@)[j], **t),
                decreases vs.len() - i,
            {
                proof {
                    assert(ty->List_0 == *t);
                }
                if !value_has_type(&vs[i], t) {
                    assert(!has_type(view_values(vs@)[i as int], **t));
                    return false;
                }
                i = i + 1;
            }
            true
        },
        (ClarityType::Tuple(fs), Value::Tuple(vs)) => {
            proof {
                lemma_view_fields(vs@);
            }
            if vs.len() != fs.len() {
                return false;
            }
            let mut i: usize = 0;
            while i < vs.len()
                invariant
                    0 <= i <= vs.len(),
                    vs.len() == fs.len(),
                    *ty == ClarityType::Tuple(*fs),
                    *v == Value::Tuple(*vs),
                    view_fields(vs@).len() == vs.len(),
                    forall|j: int| 0 <= j < vs.len() ==> #[trigger] view_fields(vs@)[j] == (vs@[j].0@, view_value(vs@[j].1)),
                    forall|j: int| 0 <= j < i ==> (#[trigger] view_fields(vs@)[j]).0 == fs@[j].0@ && has_type(view_fields(vs@)[j].1, fs@[j].1),
                decreases vs.len() - i,
            {
                proof {
                    assert(ty->Tuple_0 == *fs);
                    vstd::seq::axiom_seq_index_decreases(fs@, i as int);
                }
                if !bytes_equal(&vs[i].0, &fs[i].0) || !value_has_type(&vs[i].1, &fs[i].1) {
                    assert(!(view_fields(vs@)[i as int].0 == fs@[i as int].0@ && has_type(view_fields(vs@)[i as int].1, fs@[i as int].1)));
                    return false;
                }
                i = i + 1;
            }
            true
        },
        (ClarityType::Optional(t), Value::Optional(o)) => match o {
            Some(b) => value_has_type(b, t),
            None => true,
        },
        (ClarityType::Response(ok_ty, err_ty), Value::Response(ok, d)) => if *ok {
            value_has_type(d, ok_ty)
        } else {
            value_has_type(d, err_ty)
        },
        _ => false,
    }
}

} // verus!
