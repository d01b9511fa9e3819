use vstd::prelude::*;
use crate::error_map::{ErrorMap, spec_error_of};
use crate::marshal::{decode_at, read_from_wasm_indirect, MarshalError};
use crate::value::{valid_type, type_size, ClarityType, SValue, Value};

verus! {

/// What the regex crate finds when it searches `text` for `pattern`: for the
/// leftmost match, each capture group's bytes (group 0 is the whole match),
/// or `None` for a group that took no part; `None` when nothing matches.
pub uninterp spec fn captures_of(pattern: Seq<char>, text: Seq<u8>) -> Option<Seq<Option<Seq<u8>>>>;

pub open spec fn view_groups(g: Vec<Option<Vec<u8>>>) -> Seq<Option<Seq<u8>>> {
    g@.map_values(|m: Option<Vec<u8>>| match m {
        Some(b) => Some(b@),
        None => None,
    })
}

/// Relies on regex::bytes::Regex::new and Regex::captures: the capture groups
/// of the leftmost match of `pattern` in `text`.
#[verifier::external_body]
fn regex_captures(pattern: &str, text: &Vec<u8>) -> (r: Option<Vec<Option<Vec<u8>>>>)
    ensures
        match r {
            Some(g) => captures_of(pattern@, text@) == Some(view_groups(g)),
            None => captures_of(pattern@, text@) is None,
        },
{
    let re = match regex::bytes::Regex::new(pattern) {
        Ok(re) => re,
        Err(_) => return None,
    };
    let caps = re.captures(text.as_slice())?;
    Some(caps.iter().map(|m| m.map(|m| m.as_bytes().to_vec())).collect())
}

pub open spec fn is_ascii_digit(b: u8) -> bool {
    48 <= b <= 57
}

/// The number written by decimal digits.
pub open spec fn decimal(s: Seq<u8>) -> nat
    decreases s.len(),
{
    if s.len() == 0 {
        0
    } else {
        decimal(s.drop_last()) * 10 + (s.last() - 48) as nat
    }
}

pub open spec fn is_decimal(s: Seq<u8>) -> bool {
    s.len() > 0 && forall|i: int| 0 <= i < s.len() ==> is_ascii_digit(#[trigger] s[i])
}

proof fn lemma_decimal_grows(s: Seq<u8>, j: int)
    requires
        0 <= j <= s.len(),
    ensures
        decimal(s.take(j)) <= decimal(s),
    decreases s.len() - j,
{
    if j < s.len() {
        lemma_decimal_grows(s, j + 1);
        assert(s.take(j + 1).drop_last() =~= s.take(j));
    } else {
        assert(s.take(j) =~= s);
    }
}

/// Parses ASCII decimal digits into a `usize`; anything else, an empty
/// string or a number too large gives `None`.
pub fn parse_decimal(s: &Vec<u8>) -> (r: Option<usize>)
    ensures
        r is Some <==> is_decimal(s@) && decimal(s@) <= usize::MAX,
        r is Some ==> r->Some_0 == decimal(s@),
{
    if s.len() == 0 {
        return None;
    }
    let mut acc: usize = 0;
    let mut i: usize = 0;
    while i < s.len()
        invariant
            0 <= i <= s.len(),
            acc == decimal(s@.take(i as int)),
            forall|j: int| 0 <= j < i ==> is_ascii_digit(#[trigger] s@[j]),
        decreases s.len() - i,
    {
        let b = s[i];
        assert(s@.take(i + 1).drop_last() =~= s@.take(i as int));
        if b < 48 || b > 57 {
            assert(!is_ascii_digit(s@[i as int]));
            return None;
        }
        let d = (b - 48) as usize;
        if acc > (usize::MAX - d) / 10 {
            proof {
                assert(acc * 10 + d > usize::MAX) by (nonlinear_arith)
                    requires acc > (usize::MAX - d) / 10, d <= 9;
                lemma_decimal_grows(s@, i + 1);
            }
            return None;
        }
        acc = acc * 10 + d;
        i = i + 1;
    }
    assert(s@.take(i as int) =~= s@);
    Some(acc)
}

/// The message of an arithmetic error that has no code of its own.
#[derive(Debug, Clone, Copy, PartialEq, Eq, Structural)]
pub enum ArithmeticError {
    Log2,
    Sqrti,
    Pow,
}

impl ArithmeticError {
    pub fn message(&self) -> (r: &'static str)
        ensures
            *self == ArithmeticError::Log2 ==> r == "log2 must be passed a positive integer",
            *self == ArithmeticError::Sqrti ==> r == "sqrti must be passed a positive integer",
            *self == ArithmeticError::Pow ==> r == "Power argument to (pow ...) must be a u32 integer",
    {
        match self {
            ArithmeticError::Log2 => "log2 must be passed a positive integer",
            ArithmeticError::Sqrti => "sqrti must be passed a positive integer",
            ArithmeticError::Pow => "Power argument to (pow ...) must be a u32 integer",
        }
    }
}

/// The typed error a trap of the generated code stands for.
#[derive(Debug)]
pub enum RuntimeError {
    /// Not a runtime check of the language: the trap itself is the error.
    NotClarity,
    ArithmeticOverflow,
    ArithmeticUnderflow,
    DivisionByZero,
    Arithmetic(ArithmeticError),
    BadTypeConstruction,
    UnwrapFailure,
    AssertionFailed(Value),
    /// The identifier's bytes.
    NameAlreadyUsed(Vec<u8>),
    /// A short return; the value is already wrapped as the caller sees it.
    ExpectedValue(Value),
    /// Expected and actual argument counts.
    IncorrectArgumentCount(usize, usize),
    /// A code the standard library never sets.
    Unsupported(i32),
}

/// The globals that the standard library sets before it traps.
#[derive(Debug, Clone, Copy)]
pub struct TrapGlobals {
    pub code: i32,
    pub value_offset: u32,
    pub arg_offset: u32,
    pub arg_len: u32,
}

/// The pattern of the carried text of an argument-count mismatch.
pub const ARGUMENT_COUNT_PATTERN: &'static str = r"expected: (\d+) got: (\d+)";

/// The argument-count error carried as the two captured numbers, when both
/// are decimal numbers that fit `usize`.
pub fn argument_count_error(expected: &Vec<u8>, got: &Vec<u8>) -> (r: Option<RuntimeError>)
    ensures
        (is_decimal(expected@) && decimal(expected@) <= usize::MAX && is_decimal(got@) && decimal(
            got@,
        ) <= usize::MAX) ==> (r matches Some(RuntimeError::IncorrectArgumentCount(e, g))
            && e == decimal(expected@) && g == decimal(got@)),
        !(is_decimal(expected@) && decimal(expected@) <= usize::MAX && is_decimal(got@) && decimal(
            got@,
        ) <= usize::MAX) ==> r is None,
{
    match (parse_decimal(expected), parse_decimal(got)) {
        (Some(e), Some(g)) => Some(RuntimeError::IncorrectArgumentCount(e, g)),
        _ => None,
    }
}

fn read_bytes(mem: &Vec<u8>, offset: u32, len: u32) -> (r: Option<Vec<u8>>)
    ensures
        match r {
            Some(b) => offset + len <= mem@.len() && b@ == mem@.subrange(
                offset as int,
                offset + len,
            ),
            None => offset + len > mem@.len(),
        },
{
    let start = offset as usize;
    let n = len as usize;
    if n > mem.len() || start > mem.len() - n {
        return None;
    }
    let mut b: Vec<u8> = Vec::new();
    let mut i: usize = 0;
    while i < n
        invariant
            0 <= i <= n,
            start + n <= mem.len(),
            b@ == mem@.subrange(start as int, start + i),
        decreases n - i,
    {
        b.push(mem[start + i]);
        i = i + 1;
        assert(b@ =~= mem@.subrange(start as int, start + i));
    }
    Some(b)
}

/// Why a trap could not be resolved.
#[derive(Debug, Clone, Copy, PartialEq, Eq, Structural)]
pub enum ResolveError {
    /// The carried value, identifier or text is not in memory in readable form.
    Unreadable,
}

/// Resolves a trap of the generated code, from the globals the standard
/// library set, into a typed error. `thrown_type` is the type of the carried
/// value, as recorded at the serialized-type offset.
pub fn from_runtime_error_code(g: &TrapGlobals, mem: &Vec<u8>, thrown_type: &ClarityType) -> (r:
    Result<RuntimeError, ResolveError>)
    requires
        valid_type(*thrown_type),
    ensures
        spec_error_of(g.code as int) == ErrorMap::NotClarityError ==> r matches Ok(RuntimeError::NotClarity),
        spec_error_of(g.code as int) == ErrorMap::ArithmeticOverflow ==> r matches Ok(RuntimeError::ArithmeticOverflow),
        spec_error_of(g.code as int) == ErrorMap::ArithmeticUnderflow ==> r matches Ok(RuntimeError::ArithmeticUnderflow),
        spec_error_of(g.code as int) == ErrorMap::DivisionByZero ==> r matches Ok(RuntimeError::DivisionByZero),
        spec_error_of(g.code as int) == ErrorMap::ArithmeticLog2Error ==> r matches Ok(RuntimeError::Arithmetic(ArithmeticError::Log2)),
        spec_error_of(g.code as int) == ErrorMap::ArithmeticSqrtiError ==> r matches Ok(RuntimeError::Arithmetic(ArithmeticError::Sqrti)),
        spec_error_of(g.code as int) == ErrorMap::ArithmeticPowError ==> r matches Ok(RuntimeError::Arithmetic(ArithmeticError::Pow)),
        spec_error_of(g.code as int) == ErrorMap::BadTypeConstruction ==> r matches Ok(RuntimeError::BadTypeConstruction),
        spec_error_of(g.code as int) == ErrorMap::Panic ==> r matches Ok(RuntimeError::UnwrapFailure),
        spec_error_of(g.code as int) == ErrorMap::ShortReturnAssertionFailure ==> match decode_at(mem@, *thrown_type, g.value_offset as int) {
            Some(v) => r matches Ok(RuntimeError::AssertionFailed(x)) && x@ == v,
            None => r == Err::<RuntimeError, ResolveError>(ResolveError::Unreadable),
        },
        spec_error_of(g.code as int) == ErrorMap::ShortReturnExpectedValue ==> match decode_at(mem@, *thrown_type, g.value_offset as int) {
            Some(v) => r matches Ok(RuntimeError::ExpectedValue(x)) && x@ == v,
            None => r == Err::<RuntimeError, ResolveError>(ResolveError::Unreadable),
        },
        spec_error_of(g.code as int) == ErrorMap::ShortReturnExpectedValueResponse ==> match decode_at(mem@, *thrown_type, g.value_offset as int) {
            Some(v) => r matches Ok(RuntimeError::ExpectedValue(x)) && x@ == SValue::Response(false, Box::new(v)),
            None => r == Err::<RuntimeError, ResolveError>(ResolveError::Unreadable),
        },
        spec_error_of(g.code as int) == ErrorMap::ShortReturnExpectedValueOptional ==> (r matches Ok(RuntimeError::ExpectedValue(x)) && x@ == SValue::Optional(None)),
        spec_error_of(g.code as int) == ErrorMap::NameAlreadyUsed ==> if g.arg_offset + g.arg_len <= mem@.len() {
            r matches Ok(RuntimeError::NameAlreadyUsed(n)) && n@ == mem@.subrange(g.arg_offset as int, g.arg_offset + g.arg_len)
        } else {
            r == Err::<RuntimeError, ResolveError>(ResolveError::Unreadable)
        },
        spec_error_of(g.code as int) == ErrorMap::ArgumentCountMismatch ==> if g.arg_offset + g.arg_len <= mem@.len() {
            let text = mem@.subrange(g.arg_offset as int, g.arg_offset + g.arg_len);
            match captures_of(ARGUMENT_COUNT_PATTERN@, text) {
                Some(gs) => if gs.len() >= 3 && gs[1] is Some && gs[2] is Some && is_decimal(gs[1]->Some_0)
                    && decimal(gs[1]->Some_0) <= usize::MAX && is_decimal(gs[2]->Some_0) && decimal(gs[2]->Some_0) <= usize::MAX {
                    r matches Ok(RuntimeError::IncorrectArgumentCount(e, n)) && e == decimal(gs[1]->Some_0) && n == decimal(gs[2]->Some_0)
                } else {
                    r == Err::<RuntimeError, ResolveError>(ResolveError::Unreadable)
                },
                None => r == Err::<RuntimeError, ResolveError>(ResolveError::Unreadable),
            }
        } else {
            r == Err::<RuntimeError, ResolveError>(ResolveError::Unreadable)
        },
        spec_error_of(g.code as int) == ErrorMap::NotMapped ==> (r matches Ok(RuntimeError::Unsupported(c)) && c == g.code),
{
    match ErrorMap::from(g.code) {
        ErrorMap::NotClarityError => Ok(RuntimeError::NotClarity),
        ErrorMap::ArithmeticOverflow => Ok(RuntimeError::ArithmeticOverflow),
        ErrorMap::ArithmeticUnderflow => Ok(RuntimeError::ArithmeticUnderflow),
        ErrorMap::DivisionByZero => Ok(RuntimeError::DivisionByZero),
        ErrorMap::ArithmeticLog2Error => Ok(RuntimeError::Arithmetic(ArithmeticError::Log2)),
        ErrorMap::ArithmeticSqrtiError => Ok(RuntimeError::Arithmetic(ArithmeticError::Sqrti)),
        ErrorMap::BadTypeConstruction => Ok(RuntimeError::BadTypeConstruction),
        ErrorMap::Panic => Ok(RuntimeError::UnwrapFailure),
        ErrorMap::ShortReturnAssertionFailure => match read_thrown(mem, thrown_type, g.value_offset) {
            Ok(v) => Ok(RuntimeError::AssertionFailed(v)),
            Err(e) => Err(e),
        },
        ErrorMap::ArithmeticPowError => Ok(RuntimeError::Arithmetic(ArithmeticError::Pow)),
        ErrorMap::NameAlreadyUsed => match read_bytes(mem, g.arg_offset, g.arg_len) {
            Some(n) => Ok(RuntimeError::NameAlreadyUsed(n)),
            None => Err(ResolveError::Unreadable),
        },
        ErrorMap::ShortReturnExpectedValueResponse => match read_thrown(mem, thrown_type, g.value_offset) {
            Ok(v) => Ok(RuntimeError::ExpectedValue(Value::Response(false, Box::new(v)))),
            Err(e) => Err(e),
        },
        ErrorMap::ShortReturnExpectedValueOptional => Ok(RuntimeError::ExpectedValue(Value::Optional(None))),
        ErrorMap::ShortReturnExpectedValue => match read_thrown(mem, thrown_type, g.value_offset) {
            Ok(v) => Ok(RuntimeError::ExpectedValue(v)),
            Err(e) => Err(e),
        },
        ErrorMap::ArgumentCountMismatch => {
            let text = match read_bytes(mem, g.arg_offset, g.arg_len) {
                Some(t) => t,
                None => {
                    return Err(ResolveError::Unreadable);
                },
            };
            let groups = match regex_captures(ARGUMENT_COUNT_PATTERN, &text) {
                Some(groups) => groups,
                None => {
                    return Err(ResolveError::Unreadable);
                },
            };
            if groups.len() < 3 {
                return Err(ResolveError::Unreadable);
            }
            proof {
                assert(view_groups(groups)[1] == match groups@[1] { Some(b) => Some(b@), None => None::<Seq<u8>> });
                assert(view_groups(groups)[2] == match groups@[2] { Some(b) => Some(b@), None => None::<Seq<u8>> });
            }
            match (&groups[1], &groups[2]) {
                (Some(e), Some(n)) => match argument_count_error(e, n) {
                    Some(err) => Ok(err),
                    None => Err(ResolveError::Unreadable),
                },
                _ => Err(ResolveError::Unreadable),
            }
        },
        ErrorMap::NotMapped => Ok(RuntimeError::Unsupported(g.code)),
    }
}

fn read_thrown(mem: &Vec<u8>, ty: &ClarityType, offset: u32) -> (r: Result<Value, ResolveError>)
    requires
        valid_type(*ty),
    ensures
        match decode_at(mem@, *ty, offset as int) {
            Some(v) => r matches Ok(x) && x@ == v,
            None => r == Err::<Value, ResolveError>(ResolveError::Unreadable),
        },
{
    match read_from_wasm_indirect(mem, ty, offset as u64) {
        Ok(v) => Ok(v),
        Err(_) => Err(ResolveError::Unreadable),
    }
}

} // verus!
