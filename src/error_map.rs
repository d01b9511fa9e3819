use vstd::prelude::*;

verus! {

/// The closed set of runtime error codes that the standard library stores in
/// `$runtime-error-code` before it traps.
#[derive(Debug, Clone, Copy, PartialEq, Eq, Structural)]
pub enum ErrorMap {
    /// The trap does not come from the language's own runtime checks.
    NotClarityError,
    /// A calculation exceeded the largest representable value.
    ArithmeticOverflow,
    /// A calculation went below the smallest representable value.
    ArithmeticUnderflow,
    /// A division or modulo by zero.
    DivisionByZero,
    /// `log2` of a non-positive integer.
    ArithmeticLog2Error,
    /// `sqrti` of a negative integer.
    ArithmeticSqrtiError,
    /// A value could not be built with its declared type.
    BadTypeConstruction,
    /// A deliberate panic (`unwrap-panic`, `unwrap-err-panic`).
    Panic,
    /// An assertion failed; the asserted value is carried.
    ShortReturnAssertionFailure,
    /// `pow` with an exponent outside the `u32` range.
    ArithmeticPowError,
    /// A name was bound twice, or a reserved name was bound.
    NameAlreadyUsed,
    /// Short return of an expected value wrapped in a response.
    ShortReturnExpectedValueResponse,
    /// Short return of an expected value wrapped in an optional.
    ShortReturnExpectedValueOptional,
    /// Short return of a bare expected value.
    ShortReturnExpectedValue,
    /// A form was given the wrong number of arguments.
    ArgumentCountMismatch,
    /// Any code that has no meaning of its own.
    NotMapped,
}

/// The numeric code of each error kind.
pub open spec fn spec_code(e: ErrorMap) -> int {
    match e {
        ErrorMap::NotClarityError => -1,
        ErrorMap::ArithmeticOverflow => 0,
        ErrorMap::ArithmeticUnderflow => 1,
        ErrorMap::DivisionByZero => 2,
        ErrorMap::ArithmeticLog2Error => 3,
        ErrorMap::ArithmeticSqrtiError => 4,
        ErrorMap::BadTypeConstruction => 5,
        ErrorMap::Panic => 6,
        ErrorMap::ShortReturnAssertionFailure => 7,
        ErrorMap::ArithmeticPowError => 8,
        ErrorMap::NameAlreadyUsed => 9,
        ErrorMap::ShortReturnExpectedValueResponse => 10,
        ErrorMap::ShortReturnExpectedValueOptional => 11,
        ErrorMap::ShortReturnExpectedValue => 12,
        ErrorMap::ArgumentCountMismatch => 13,
        ErrorMap::NotMapped => 99,
    }
}

/// The error kind that a numeric code stands for; unknown codes are `NotMapped`.
pub open spec fn spec_error_of(c: int) -> ErrorMap {
    if c == -1 {
        ErrorMap::NotClarityError
    } else if c == 0 {
        ErrorMap::ArithmeticOverflow
    } else if c == 1 {
        ErrorMap::ArithmeticUnderflow
    } else if c == 2 {
        ErrorMap::DivisionByZero
    } else if c == 3 {
        ErrorMap::ArithmeticLog2Error
    } else if c == 4 {
        ErrorMap::ArithmeticSqrtiError
    } else if c == 5 {
        ErrorMap::BadTypeConstruction
    } else if c == 6 {
        ErrorMap::Panic
    } else if c == 7 {
        ErrorMap::ShortReturnAssertionFailure
    } else if c == 8 {
        ErrorMap::ArithmeticPowError
    } else if c == 9 {
        ErrorMap::NameAlreadyUsed
    } else if c == 10 {
        ErrorMap::ShortReturnExpectedValueResponse
    } else if c == 11 {
        ErrorMap::ShortReturnExpectedValueOptional
    } else if c == 12 {
        ErrorMap::ShortReturnExpectedValue
    } else if c == 13 {
        ErrorMap::ArgumentCountMismatch
    } else {
        ErrorMap::NotMapped
    }
}

impl ErrorMap {
    /// The code that the standard library stores for this error kind.
    pub fn code(&self) -> (r: i32)
        ensures
            r as int == spec_code(*self),
    {
        match self {
            ErrorMap::NotClarityError => -1,
            ErrorMap::ArithmeticOverflow => 0,
            ErrorMap::ArithmeticUnderflow => 1,
            ErrorMap::DivisionByZero => 2,
            ErrorMap::ArithmeticLog2Error => 3,
            ErrorMap::ArithmeticSqrtiError => 4,
            ErrorMap::BadTypeConstruction => 5,
            ErrorMap::Panic => 6,
            ErrorMap::ShortReturnAssertionFailure => 7,
            ErrorMap::ArithmeticPowError => 8,
            ErrorMap::NameAlreadyUsed => 9,
            ErrorMap::ShortReturnExpectedValueResponse => 10,
            ErrorMap::ShortReturnExpectedValueOptional => 11,
            ErrorMap::ShortReturnExpectedValue => 12,
            ErrorMap::ArgumentCountMismatch => 13,
            ErrorMap::NotMapped => 99,
        }
    }
}

impl From<i32> for ErrorMap {
    fn from(error_code: i32) -> Self {
        match error_code {
            -1 => ErrorMap::NotClarityError,
            0 => ErrorMap::ArithmeticOverflow,
            1 => ErrorMap::ArithmeticUnderflow,
            2 => ErrorMap::DivisionByZero,
            3 => ErrorMap::ArithmeticLog2Error,
            4 => ErrorMap::ArithmeticSqrtiError,
            5 => ErrorMap::BadTypeConstruction,
            6 => ErrorMap::Panic,
            7 => ErrorMap::ShortReturnAssertionFailure,
            8 => ErrorMap::ArithmeticPowError,
            9 => ErrorMap::NameAlreadyUsed,
            10 => ErrorMap::ShortReturnExpectedValueResponse,
            11 => ErrorMap::ShortReturnExpectedValueOptional,
            12 => ErrorMap::ShortReturnExpectedValue,
            13 => ErrorMap::ArgumentCountMismatch,
            _ => ErrorMap::NotMapped,
        }
    }
}

impl vstd::std_specs::convert::FromSpecImpl<i32> for ErrorMap {
    open spec fn obeys_from_spec() -> bool {
        true
    }

    open spec fn from_spec(v: i32) -> Self {
        spec_error_of(v as int)
    }
}

/// Reading back the code of any error kind gives that kind again.
pub proof fn lemma_code_round_trip(e: ErrorMap)
    ensures
        spec_error_of(spec_code(e)) == e,
{
}

/// Every code in the table reads as an error kind whose code is that code.
pub proof fn lemma_error_of_round_trip(c: int)
    requires
        -1 <= c <= 13 || c == 99,
    ensures
        spec_code(spec_error_of(c)) == c,
{
}

} // verus!
