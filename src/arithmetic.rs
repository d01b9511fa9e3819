use vstd::prelude::*;
use crate::error_map::ErrorMap;
use crate::value::ClarityType;

verus! {

/// Whether `x` fits a signed 128-bit integer.
pub open spec fn in_int(x: int) -> bool {
    i128::MIN <= x <= i128::MAX
}

/// Whether `x` fits an unsigned 128-bit integer.
pub open spec fn in_uint(x: int) -> bool {
    0 <= x <= u128::MAX
}

pub open spec fn abs(x: int) -> int {
    if x < 0 { -x } else { x }
}

/// Quotient rounded toward zero.
pub open spec fn trunc_div(a: int, b: int) -> int {
    if (a < 0) == (b < 0) { abs(a) / abs(b) } else { -(abs(a) / abs(b)) }
}

/// Remainder that takes the sign of the dividend.
pub open spec fn trunc_rem(a: int, b: int) -> int {
    if a < 0 { -(abs(a) % abs(b)) } else { abs(a) % abs(b) }
}

pub open spec fn power(b: int, e: nat) -> int
    decreases e,
{
    if e == 0 { 1 } else { b * power(b, (e - 1) as nat) }
}

/// `k` is the base-2 logarithm of `n`, rounded down.
pub open spec fn is_log2(n: int, k: int) -> bool {
    0 <= k && power(2, k as nat) <= n < power(2, (k + 1) as nat)
}

/// `r` is the square root of `n`, rounded down.
pub open spec fn is_isqrt(n: int, r: int) -> bool {
    0 <= r && r * r <= n < (r + 1) * (r + 1)
}

/// The binary operations that multi-argument arithmetic folds over.
#[derive(Debug, Clone, Copy, PartialEq, Eq, Structural)]
pub enum ArithOp {
    Add,
    Sub,
    Mul,
    Div,
}

/// One binary step on signed integers: the mathematical result or the trap.
pub open spec fn int_binop(op: ArithOp, a: int, b: int) -> Result<int, ErrorMap> {
    match op {
        ArithOp::Add => if in_int(a + b) { Ok(a + b) } else { Err(ErrorMap::ArithmeticOverflow) },
        ArithOp::Sub => if in_int(a - b) { Ok(a - b) } else { Err(ErrorMap::ArithmeticUnderflow) },
        ArithOp::Mul => if in_int(a * b) { Ok(a * b) } else { Err(ErrorMap::ArithmeticOverflow) },
        ArithOp::Div => if b == 0 {
            Err(ErrorMap::DivisionByZero)
        } else if in_int(trunc_div(a, b)) {
            Ok(trunc_div(a, b))
        } else {
            Err(ErrorMap::ArithmeticOverflow)
        },
    }
}

/// One binary step on unsigned integers: the mathematical result or the trap.
pub open spec fn uint_binop(op: ArithOp, a: int, b: int) -> Result<int, ErrorMap> {
    match op {
        ArithOp::Add => if in_uint(a + b) { Ok(a + b) } else { Err(ErrorMap::ArithmeticOverflow) },
        ArithOp::Sub => if a - b >= 0 { Ok(a - b) } else { Err(ErrorMap::ArithmeticUnderflow) },
        ArithOp::Mul => if in_uint(a * b) { Ok(a * b) } else { Err(ErrorMap::ArithmeticOverflow) },
        ArithOp::Div => if b == 0 { Err(ErrorMap::DivisionByZero) } else { Ok(a / b) },
    }
}

/// The left-associated fold of a binary step over the arguments; the first
/// trap ends it.
pub open spec fn fold_args(
    step: spec_fn(int, int) -> Result<int, ErrorMap>,
    s: Seq<int>,
) -> Result<int, ErrorMap>
    recommends
        s.len() >= 1,
    decreases s.len(),
{
    if s.len() <= 1 {
        Ok(s[0])
    } else {
        match fold_args(step, s.drop_last()) {
            Ok(acc) => step(acc, s.last()),
            Err(e) => Err(e),
        }
    }
}

pub open spec fn ints(s: Seq<i128>) -> Seq<int> {
    s.map_values(|x: i128| x as int)
}

pub open spec fn uints(s: Seq<u128>) -> Seq<int> {
    s.map_values(|x: u128| x as int)
}

pub open spec fn int_result(r: Result<i128, ErrorMap>) -> Result<int, ErrorMap> {
    match r {
        Ok(x) => Ok(x as int),
        Err(e) => Err(e),
    }
}

pub open spec fn uint_result(r: Result<u128, ErrorMap>) -> Result<int, ErrorMap> {
    match r {
        Ok(x) => Ok(x as int),
        Err(e) => Err(e),
    }
}

proof fn lemma_fold_err_sticks(
    step: spec_fn(int, int) -> Result<int, ErrorMap>,
    s: Seq<int>,
    i: int,
    e: ErrorMap,
)
    requires
        1 <= i <= s.len(),
        fold_args(step, s.take(i)) == Err::<int, ErrorMap>(e),
    ensures
        fold_args(step, s) == Err::<int, ErrorMap>(e),
    decreases s.len() - i,
{
    if i < s.len() {
        assert(s.take(i + 1).drop_last() =~= s.take(i));
        lemma_fold_err_sticks(step, s, i + 1, e);
    } else {
        assert(s.take(i) =~= s);
    }
}

fn magnitude(a: i128) -> (r: u128)
    ensures
        r as int == abs(a as int),
{
    if a < 0 {
        ((-(a + 1)) as u128) + 1
    } else {
        a as u128
    }
}

/// Applies one signed binary step as the standard library does.
pub fn int_step(op: ArithOp, a: i128, b: i128) -> (r: Result<i128, ErrorMap>)
    ensures
        int_result(r) == int_binop(op, a as int, b as int),
{
    match op {
        ArithOp::Add => {
            if a > 0 && b > i128::MAX - a {
                Err(ErrorMap::ArithmeticOverflow)
            } else if a < 0 && b < i128::MIN - a {
                Err(ErrorMap::ArithmeticOverflow)
            } else {
                Ok(a + b)
            }
        },
        ArithOp::Sub => {
            if b < 0 && a > i128::MAX + b {
                Err(ErrorMap::ArithmeticUnderflow)
            } else if b > 0 && a < i128::MIN + b {
                Err(ErrorMap::ArithmeticUnderflow)
            } else {
                Ok(a - b)
            }
        },
        ArithOp::Mul => {
            match a.checked_mul(b) {
                Some(p) => Ok(p),
                None => Err(ErrorMap::ArithmeticOverflow),
            }
        },
        ArithOp::Div => {
            if b == 0 {
                Err(ErrorMap::DivisionByZero)
            } else {
                let ma = magnitude(a);
                let mb = magnitude(b);
                let q = ma / mb;
                assert(q <= ma) by (nonlinear_arith)
                    requires mb >= 1, q == ma / mb;
                if (a < 0) == (b < 0) {
                    if q > i128::MAX as u128 {
                        Err(ErrorMap::ArithmeticOverflow)
                    } else {
                        Ok(q as i128)
                    }
                } else if q == 0 {
                    Ok(0)
                } else {
                    let m1 = (q - 1) as i128;
                    Ok(-m1 - 1)
                }
            }
        },
    }
}

/// Applies one unsigned binary step as the standard library does.
pub fn uint_step(op: ArithOp, a: u128, b: u128) -> (r: Result<u128, ErrorMap>)
    ensures
        uint_result(r) == uint_binop(op, a as int, b as int),
{
    match op {
        ArithOp::Add => {
            if b > u128::MAX - a {
                Err(ErrorMap::ArithmeticOverflow)
            } else {
                Ok(a + b)
            }
        },
        ArithOp::Sub => {
            if b > a {
                Err(ErrorMap::ArithmeticUnderflow)
            } else {
                Ok(a - b)
            }
        },
        ArithOp::Mul => {
            match a.checked_mul(b) {
                Some(p) => Ok(p),
                None => Err(ErrorMap::ArithmeticOverflow),
            }
        },
        ArithOp::Div => {
            if b == 0 {
                Err(ErrorMap::DivisionByZero)
            } else {
                Ok(a / b)
            }
        },
    }
}

/// Folds a signed binary step over two or more arguments, left to right:
/// the generator emits one call of the binary helper per argument after the first.
pub fn fold_int(op: ArithOp, args: &Vec<i128>) -> (r: Result<i128, ErrorMap>)
    requires
        args.len() >= 1,
    ensures
        int_result(r) == fold_args(|a: int, b: int| int_binop(op, a, b), ints(args@)),
{
    let ghost step = |a: int, b: int| int_binop(op, a, b);
    let ghost s = ints(args@);
    let mut acc: i128 = args[0];
    let mut i: usize = 1;
    assert(s.take(1).drop_last().len() == 0);
    while i < args.len()
        invariant
            1 <= i <= args.len(),
            s == ints(args@),
            step == (|a: int, b: int| int_binop(op, a, b)),
            fold_args(step, s.take(i as int)) == Ok::<int, ErrorMap>(acc as int),
        decreases args.len() - i,
    {
        assert(s.take(i + 1).drop_last() =~= s.take(i as int));
        match int_step(op, acc, args[i]) {
            Ok(x) => {
                acc = x;
            },
            Err(e) => {
                proof {
                    lemma_fold_err_sticks(step, s, i + 1, e);
                }
                return Err(e);
            },
        }
        i = i + 1;
    }
    assert(s.take(i as int) =~= s);
    Ok(acc)
}

/// Folds an unsigned binary step over two or more arguments, left to right.
pub fn fold_uint(op: ArithOp, args: &Vec<u128>) -> (r: Result<u128, ErrorMap>)
    requires
        args.len() >= 1,
    ensures
        uint_result(r) == fold_args(|a: int, b: int| uint_binop(op, a, b), uints(args@)),
{
    let ghost step = |a: int, b: int| uint_binop(op, a, b);
    let ghost s = uints(args@);
    let mut acc: u128 = args[0];
    let mut i: usize = 1;
    while i < args.len()
        invariant
            1 <= i <= args.len(),
            s == uints(args@),
            step == (|a: int, b: int| uint_binop(op, a, b)),
            fold_args(step, s.take(i as int)) == Ok::<int, ErrorMap>(acc as int),
        decreases args.len() - i,
    {
        assert(s.take(i + 1).drop_last() =~= s.take(i as int));
        match uint_step(op, acc, args[i]) {
            Ok(x) => {
                acc = x;
            },
            Err(e) => {
                proof {
                    lemma_fold_err_sticks(step, s, i + 1, e);
                }
                return Err(e);
            },
        }
        i = i + 1;
    }
    assert(s.take(i as int) =~= s);
    Ok(acc)
}

/// Signed remainder as the standard library computes it.
pub open spec fn int_mod(a: int, b: int) -> Result<int, ErrorMap> {
    if b == 0 { Err(ErrorMap::DivisionByZero) } else { Ok(trunc_rem(a, b)) }
}

/// Unsigned remainder as the standard library computes it.
pub open spec fn uint_mod(a: int, b: int) -> Result<int, ErrorMap> {
    if b == 0 { Err(ErrorMap::DivisionByZero) } else { Ok(a % b) }
}

/// Signed power: the exponent must lie in the `u32` range.
pub open spec fn int_pow(a: int, e: int) -> Result<int, ErrorMap> {
    if e < 0 || e > u32::MAX {
        Err(ErrorMap::ArithmeticPowError)
    } else if in_int(power(a, e as nat)) {
        Ok(power(a, e as nat))
    } else {
        Err(ErrorMap::ArithmeticOverflow)
    }
}

/// Unsigned power: the exponent must lie in the `u32` range.
pub open spec fn uint_pow(a: int, e: int) -> Result<int, ErrorMap> {
    if e > u32::MAX {
        Err(ErrorMap::ArithmeticPowError)
    } else if in_uint(power(a, e as nat)) {
        Ok(power(a, e as nat))
    } else {
        Err(ErrorMap::ArithmeticOverflow)
    }
}

proof fn lemma_abs_mul(x: int, y: int)
    ensures
        abs(x * y) == abs(x) * abs(y),
{
    assert(abs(x * y) == abs(x) * abs(y)) by (nonlinear_arith);
}

proof fn lemma_power_grows(a: int, k: nat, j: nat)
    requires
        abs(a) >= 2,
        k < j,
    ensures
        abs(power(a, j)) >= 2 * abs(power(a, k)),
    decreases j,
{
    let p = power(a, (j - 1) as nat);
    lemma_abs_mul(a, p);
    assert(abs(a) * abs(p) >= 2 * abs(p)) by (nonlinear_arith)
        requires abs(a) >= 2, abs(p) >= 0;
    if j - 1 > k {
        lemma_power_grows(a, k, (j - 1) as nat);
    }
}

proof fn lemma_power_nonneg(a: int, e: nat)
    requires
        a >= 0,
    ensures
        power(a, e) >= 0,
    decreases e,
{
    if e > 0 {
        lemma_power_nonneg(a, (e - 1) as nat);
        assert(a * power(a, (e - 1) as nat) >= 0) by (nonlinear_arith)
            requires a >= 0, power(a, (e - 1) as nat) >= 0;
    }
}

proof fn lemma_power_units(a: int, e: nat)
    ensures
        a == 0 ==> power(a, e) == if e == 0 { 1int } else { 0int },
        a == 1 ==> power(a, e) == 1,
        a == -1 ==> power(a, e) == if e % 2 == 0 { 1int } else { -1int },
    decreases e,
{
    if e > 0 {
        lemma_power_units(a, (e - 1) as nat);
    }
}

/// Raises `a` to the power `e`; overflow, or an exponent outside `u32`, traps.
pub fn int_power(a: i128, e: i128) -> (r: Result<i128, ErrorMap>)
    ensures
        int_result(r) == int_pow(a as int, e as int),
{
    if e < 0 || e > u32::MAX as i128 {
        return Err(ErrorMap::ArithmeticPowError);
    }
    proof {
        lemma_power_units(a as int, e as nat);
    }
    if a == 0 {
        return if e == 0 { Ok(1) } else { Ok(0) };
    }
    if a == 1 {
        return Ok(1);
    }
    if a == -1 {
        return if e % 2 == 0 { Ok(1) } else { Ok(-1) };
    }
    let mut acc: i128 = 1;
    let mut i: i128 = 0;
    while i < e
        invariant
            0 <= i <= e,
            e <= u32::MAX,
            abs(a as int) >= 2,
            acc as int == power(a as int, i as nat),
        decreases e - i,
    {
        match acc.checked_mul(a) {
            Some(p) => {
                acc = p;
            },
            None => {
                proof {
                    let y = power(a as int, (i + 1) as nat);
                    assert(y == a * power(a as int, i as nat));
                    assert(abs(y) >= 0x8000_0000_0000_0000_0000_0000_0000_0000);
                    if i + 1 < e {
                        lemma_power_grows(a as int, (i + 1) as nat, e as nat);
                    }
                }
                return Err(ErrorMap::ArithmeticOverflow);
            },
        }
        i = i + 1;
    }
    Ok(acc)
}

/// Raises `a` to the power `e`; overflow, or an exponent outside `u32`, traps.
pub fn uint_power(a: u128, e: u128) -> (r: Result<u128, ErrorMap>)
    ensures
        uint_result(r) == uint_pow(a as int, e as int),
{
    if e > u32::MAX as u128 {
        return Err(ErrorMap::ArithmeticPowError);
    }
    proof {
        lemma_power_units(a as int, e as nat);
    }
    if a == 0 {
        return if e == 0 { Ok(1) } else { Ok(0) };
    }
    if a == 1 {
        return Ok(1);
    }
    let mut acc: u128 = 1;
    let mut i: u128 = 0;
    while i < e
        invariant
            0 <= i <= e,
            e <= u32::MAX,
            a >= 2,
            acc as int == power(a as int, i as nat),
        decreases e - i,
    {
        match acc.checked_mul(a) {
            Some(p) => {
                acc = p;
            },
            None => {
                proof {
                    let y = power(a as int, (i + 1) as nat);
                    assert(y == a * power(a as int, i as nat));
                    lemma_power_nonneg(a as int, e as nat);
                    if i + 1 < e {
                        lemma_power_grows(a as int, (i + 1) as nat, e as nat);
                    }
                }
                return Err(ErrorMap::ArithmeticOverflow);
            },
        }
        i = i + 1;
    }
    Ok(acc)
}

/// Signed remainder; a zero divisor traps.
pub fn int_modulo(a: i128, b: i128) -> (r: Result<i128, ErrorMap>)
    ensures
        int_result(r) == int_mod(a as int, b as int),
{
    if b == 0 {
        return Err(ErrorMap::DivisionByZero);
    }
    let ma = magnitude(a);
    let mb = magnitude(b);
    let m = ma % mb;
    assert(m < mb) by (nonlinear_arith)
        requires mb >= 1, m == ma % mb;
    if a < 0 {
        Ok(-(m as i128))
    } else {
        Ok(m as i128)
    }
}

/// Unsigned remainder; a zero divisor traps.
pub fn uint_modulo(a: u128, b: u128) -> (r: Result<u128, ErrorMap>)
    ensures
        uint_result(r) == uint_mod(a as int, b as int),
{
    if b == 0 {
        Err(ErrorMap::DivisionByZero)
    } else {
        Ok(a % b)
    }
}

/// Base-2 logarithm of a positive number, rounded down.
pub fn log2_of(n: u128) -> (k: u128)
    requires
        n >= 1,
    ensures
        is_log2(n as int, k as int),
{
    let mut x: u128 = n;
    let mut k: u128 = 0;
    while x > 1
        invariant
            x >= 1,
            x as int * power(2, k as nat) <= n,
            (n as int) < (x as int + 1) * power(2, k as nat),
            power(2, k as nat) >= 1,
        decreases x,
    {
        let ghost p = power(2, k as nat);
        let ghost old_x = x as int;
        assert(power(2, (k + 1) as nat) == 2 * p);
        x = x / 2;
        assert(x as int * (2 * p) <= old_x * p) by (nonlinear_arith)
            requires x == old_x / 2, p >= 1;
        assert((old_x + 1) * p <= (x as int + 1) * (2 * p)) by (nonlinear_arith)
            requires x == old_x / 2, p >= 1;
        assert(x as int * (2 * p) >= 2 * p) by (nonlinear_arith)
            requires x >= 1, p >= 1;
        assert(2 * p <= n);
        proof {
            lemma_power_exceeds((k + 1) as nat);
        }
        k = k + 1;
    }
    k
}

proof fn lemma_power_exceeds(k: nat)
    ensures
        power(2, k) >= k + 1,
    decreases k,
{
    if k > 0 {
        lemma_power_exceeds((k - 1) as nat);
    }
}

/// Square root of a number, rounded down.
pub fn sqrt_of(n: u128) -> (r: u128)
    ensures
        is_isqrt(n as int, r as int),
{
    let mut lo: u128 = 0;
    let mut hi: u128 = 0x1_0000_0000_0000_0000;
    assert(n < hi * hi);
    while hi - lo > 1
        invariant
            lo < hi <= 0x1_0000_0000_0000_0000,
            lo * lo <= n,
            (n as int) < hi as int * hi as int,
        decreases hi - lo,
    {
        let mid = lo + (hi - lo) / 2;
        assert(mid * mid <= 0xffff_ffff_ffff_fffe_0000_0000_0000_0001) by (nonlinear_arith)
            requires mid < 0x1_0000_0000_0000_0000;
        if mid * mid <= n {
            lo = mid;
        } else {
            hi = mid;
        }
    }
    lo
}

/// Signed logarithm: a non-positive argument traps.
pub open spec fn int_log2(n: int, r: Result<int, ErrorMap>) -> bool {
    if n <= 0 { r == Err::<int, ErrorMap>(ErrorMap::ArithmeticLog2Error) } else { r is Ok && is_log2(n, r->Ok_0) }
}

/// Signed square root: a negative argument traps.
pub open spec fn int_sqrti(n: int, r: Result<int, ErrorMap>) -> bool {
    if n < 0 { r == Err::<int, ErrorMap>(ErrorMap::ArithmeticSqrtiError) } else { r is Ok && is_isqrt(n, r->Ok_0) }
}

/// The standard-library arithmetic helpers that generated code calls.
#[derive(Debug, Clone, Copy, PartialEq, Eq, Structural)]
pub enum StdlibOp {
    Add,
    Sub,
    Mul,
    Div,
    Mod,
    Log2,
    Pow,
    Sqrti,
}

/// Why code could not be generated for a form.
#[derive(Debug, Clone, Copy, PartialEq, Eq, Structural)]
pub enum GeneratorError {
    /// The form's result type is not one it supports.
    TypeError,
}

/// The name of a helper, specialised for signed or unsigned integers.
pub open spec fn stdlib_name(op: StdlibOp, unsigned: bool) -> &'static str {
    match (op, unsigned) {
        (StdlibOp::Add, false) => "stdlib.add-int",
        (StdlibOp::Add, true) => "stdlib.add-uint",
        (StdlibOp::Sub, false) => "stdlib.sub-int",
        (StdlibOp::Sub, true) => "stdlib.sub-uint",
        (StdlibOp::Mul, false) => "stdlib.mul-int",
        (StdlibOp::Mul, true) => "stdlib.mul-uint",
        (StdlibOp::Div, false) => "stdlib.div-int",
        (StdlibOp::Div, true) => "stdlib.div-uint",
        (StdlibOp::Mod, false) => "stdlib.mod-int",
        (StdlibOp::Mod, true) => "stdlib.mod-uint",
        (StdlibOp::Log2, false) => "stdlib.log2-int",
        (StdlibOp::Log2, true) => "stdlib.log2-uint",
        (StdlibOp::Pow, false) => "stdlib.pow-int",
        (StdlibOp::Pow, true) => "stdlib.pow-uint",
        (StdlibOp::Sqrti, false) => "stdlib.sqrti-int",
        (StdlibOp::Sqrti, true) => "stdlib.sqrti-uint",
    }
}

fn stdlib_function(op: StdlibOp, unsigned: bool) -> (r: &'static str)
    ensures
        r == stdlib_name(op, unsigned),
{
    match (op, unsigned) {
        (StdlibOp::Add, false) => "stdlib.add-int",
        (StdlibOp::Add, true) => "stdlib.add-uint",
        (StdlibOp::Sub, false) => "stdlib.sub-int",
        (StdlibOp::Sub, true) => "stdlib.sub-uint",
        (StdlibOp::Mul, false) => "stdlib.mul-int",
        (StdlibOp::Mul, true) => "stdlib.mul-uint",
        (StdlibOp::Div, false) => "stdlib.div-int",
        (StdlibOp::Div, true) => "stdlib.div-uint",
        (StdlibOp::Mod, false) => "stdlib.mod-int",
        (StdlibOp::Mod, true) => "stdlib.mod-uint",
        (StdlibOp::Log2, false) => "stdlib.log2-int",
        (StdlibOp::Log2, true) => "stdlib.log2-uint",
        (StdlibOp::Pow, false) => "stdlib.pow-int",
        (StdlibOp::Pow, true) => "stdlib.pow-uint",
        (StdlibOp::Sqrti, false) => "stdlib.sqrti-int",
        (StdlibOp::Sqrti, true) => "stdlib.sqrti-uint",
    }
}

/// What the standard library's binary arithmetic helpers compute, by name:
/// one step of the left fold that a multi-argument form compiles to.
pub open spec fn helper_step(name: &'static str) -> spec_fn(int, int) -> Result<int, ErrorMap> {
    if false {
        |a: int, b: int| Err(ErrorMap::NotMapped)
    } else if name == "stdlib.add-int" {
        |a: int, b: int| int_binop(ArithOp::Add, a, b)
    } else if name == "stdlib.add-uint" {
        |a: int, b: int| uint_binop(ArithOp::Add, a, b)
    } else if name == "stdlib.sub-int" {
        |a: int, b: int| int_binop(ArithOp::Sub, a, b)
    } else if name == "stdlib.sub-uint" {
        |a: int, b: int| uint_binop(ArithOp::Sub, a, b)
    } else if name == "stdlib.mul-int" {
        |a: int, b: int| int_binop(ArithOp::Mul, a, b)
    } else if name == "stdlib.mul-uint" {
        |a: int, b: int| uint_binop(ArithOp::Mul, a, b)
    } else if name == "stdlib.div-int" {
        |a: int, b: int| int_binop(ArithOp::Div, a, b)
    } else if name == "stdlib.div-uint" {
        |a: int, b: int| uint_binop(ArithOp::Div, a, b)
    } else {
        |a: int, b: int| Err(ErrorMap::NotMapped)
    }
}

pub open spec fn simple_typed_multi_value_spec(op: StdlibOp, arg_count: usize, ty: ClarityType) -> Result<
    (&'static str, usize),
    GeneratorError,
> {
    let calls = if arg_count > 0 { (arg_count - 1) as usize } else { 0 };
    match ty {
        ClarityType::Int => Ok((stdlib_name(op, false), calls)),
        ClarityType::UInt => Ok((stdlib_name(op, true), calls)),
        _ => Err(GeneratorError::TypeError),
    }
}

pub open spec fn simple_typed_one_call_spec(op: StdlibOp, ty: ClarityType) -> Result<&'static str, GeneratorError> {
    match ty {
        ClarityType::Int => Ok(stdlib_name(op, false)),
        ClarityType::UInt => Ok(stdlib_name(op, true)),
        _ => Err(GeneratorError::TypeError),
    }
}

/// A multi-argument word (`+ - * /`): the helper for the result type, called
/// once per argument after the first, left to right.
pub fn simple_typed_multi_value(op: StdlibOp, arg_count: usize, return_type: &ClarityType) -> (r:
    Result<(&'static str, usize), GeneratorError>)
    ensures
        return_type is Int ==> r == Ok::<(&'static str, usize), GeneratorError>(
            (stdlib_name(op, false), if arg_count > 0 { (arg_count - 1) as usize } else { 0 }),
        ),
        return_type is UInt ==> r == Ok::<(&'static str, usize), GeneratorError>(
            (stdlib_name(op, true), if arg_count > 0 { (arg_count - 1) as usize } else { 0 }),
        ),
        !(return_type is Int || return_type is UInt) ==> r == Err::<(&'static str, usize), GeneratorError>(
            GeneratorError::TypeError,
        ),
{
    let calls = if arg_count > 0 { arg_count - 1 } else { 0 };
    match return_type {
        ClarityType::Int => Ok((stdlib_function(op, false), calls)),
        ClarityType::UInt => Ok((stdlib_function(op, true), calls)),
        _ => Err(GeneratorError::TypeError),
    }
}

/// A word that makes a single call (`mod`, `log2`, `pow`, `sqrti`): the
/// helper for the result type.
pub fn simple_typed_one_call(op: StdlibOp, return_type: &ClarityType) -> (r: Result<&'static str, GeneratorError>)
    ensures
        return_type is Int ==> r == Ok::<&'static str, GeneratorError>(stdlib_name(op, false)),
        return_type is UInt ==> r == Ok::<&'static str, GeneratorError>(stdlib_name(op, true)),
        !(return_type is Int || return_type is UInt) ==> r == Err::<&'static str, GeneratorError>(
            GeneratorError::TypeError,
        ),
{
    match return_type {
        ClarityType::Int => Ok(stdlib_function(op, false)),
        ClarityType::UInt => Ok(stdlib_function(op, true)),
        _ => Err(GeneratorError::TypeError),
    }
}

/// `+`: sum of the arguments; overflow traps.
#[derive(Debug)]
pub struct Add;

impl Add {
    pub fn name(&self) -> (r: &'static str)
        ensures
            r == "+",
    {
        "+"
    }

    /// The helper the generated code calls, and how many times.
    pub fn visit(&self, arg_count: usize, return_type: &ClarityType) -> (r: Result<(&'static str, usize), GeneratorError>)
        ensures
            r == simple_typed_multi_value_spec(StdlibOp::Add, arg_count, *return_type),
            return_type is Int ==> (forall|args: Seq<int>| #[trigger] fold_args(helper_step(r->Ok_0.0), args)
                == fold_args(|a: int, b: int| int_binop(ArithOp::Add, a, b), args)),
            return_type is UInt ==> (forall|args: Seq<int>| #[trigger] fold_args(helper_step(r->Ok_0.0), args)
                == fold_args(|a: int, b: int| uint_binop(ArithOp::Add, a, b), args)),
    {
        proof {
            reveal_strlit("stdlib.add-int");
            reveal_strlit("stdlib.add-uint");
            reveal_strlit("stdlib.sub-int");
            reveal_strlit("stdlib.sub-uint");
            reveal_strlit("stdlib.mul-int");
            reveal_strlit("stdlib.mul-uint");
            reveal_strlit("stdlib.div-int");
            reveal_strlit("stdlib.div-uint");
            assert(helper_step(stdlib_name(StdlibOp::Add, false)) =~= (|a: int, b: int| int_binop(ArithOp::Add, a, b)));
            assert(helper_step(stdlib_name(StdlibOp::Add, true)) =~= (|a: int, b: int| uint_binop(ArithOp::Add, a, b)));
        }
        simple_typed_multi_value(StdlibOp::Add, arg_count, return_type)
    }

    /// Signed form, over one or more arguments.
    pub fn eval_int(&self, args: &Vec<i128>) -> (r: Result<i128, ErrorMap>)
        requires
            args.len() >= 1,
        ensures
            int_result(r) == fold_args(|a: int, b: int| int_binop(ArithOp::Add, a, b), ints(args@)),
    {
        fold_int(ArithOp::Add, args)
    }

    /// Unsigned form, over one or more arguments.
    pub fn eval_uint(&self, args: &Vec<u128>) -> (r: Result<u128, ErrorMap>)
        requires
            args.len() >= 1,
        ensures
            uint_result(r) == fold_args(|a: int, b: int| uint_binop(ArithOp::Add, a, b), uints(args@)),
    {
        fold_uint(ArithOp::Add, args)
    }
}

/// `-`: the first argument minus the others; underflow traps.
#[derive(Debug)]
pub struct Sub;

impl Sub {
    pub fn name(&self) -> (r: &'static str)
        ensures
            r == "-",
    {
        "-"
    }

    /// The helper the generated code calls, and how many times.
    pub fn visit(&self, arg_count: usize, return_type: &ClarityType) -> (r: Result<(&'static str, usize), GeneratorError>)
        ensures
            r == simple_typed_multi_value_spec(StdlibOp::Sub, arg_count, *return_type),
            return_type is Int ==> (forall|args: Seq<int>| #[trigger] fold_args(helper_step(r->Ok_0.0), args)
                == fold_args(|a: int, b: int| int_binop(ArithOp::Sub, a, b), args)),
            return_type is UInt ==> (forall|args: Seq<int>| #[trigger] fold_args(helper_step(r->Ok_0.0), args)
                == fold_args(|a: int, b: int| uint_binop(ArithOp::Sub, a, b), args)),
    {
        proof {
            reveal_strlit("stdlib.add-int");
            reveal_strlit("stdlib.add-uint");
            reveal_strlit("stdlib.sub-int");
            reveal_strlit("stdlib.sub-uint");
            reveal_strlit("stdlib.mul-int");
            reveal_strlit("stdlib.mul-uint");
            reveal_strlit("stdlib.div-int");
            reveal_strlit("stdlib.div-uint");
            assert(helper_step(stdlib_name(StdlibOp::Sub, false)) =~= (|a: int, b: int| int_binop(ArithOp::Sub, a, b)));
            assert(helper_step(stdlib_name(StdlibOp::Sub, true)) =~= (|a: int, b: int| uint_binop(ArithOp::Sub, a, b)));
        }
        simple_typed_multi_value(StdlibOp::Sub, arg_count, return_type)
    }

    /// Signed form, over one or more arguments.
    pub fn eval_int(&self, args: &Vec<i128>) -> (r: Result<i128, ErrorMap>)
        requires
            args.len() >= 1,
        ensures
            int_result(r) == fold_args(|a: int, b: int| int_binop(ArithOp::Sub, a, b), ints(args@)),
    {
        fold_int(ArithOp::Sub, args)
    }

    /// Unsigned form, over one or more arguments.
    pub fn eval_uint(&self, args: &Vec<u128>) -> (r: Result<u128, ErrorMap>)
        requires
            args.len() >= 1,
        ensures
            uint_result(r) == fold_args(|a: int, b: int| uint_binop(ArithOp::Sub, a, b), uints(args@)),
    {
        fold_uint(ArithOp::Sub, args)
    }
}

/// `*`: product of the arguments; overflow traps.
#[derive(Debug)]
pub struct Mul;

impl Mul {
    pub fn name(&self) -> (r: &'static str)
        ensures
            r == "*",
    {
        "*"
    }

    /// The helper the generated code calls, and how many times.
    pub fn visit(&self, arg_count: usize, return_type: &ClarityType) -> (r: Result<(&'static str, usize), GeneratorError>)
        ensures
            r == simple_typed_multi_value_spec(StdlibOp::Mul, arg_count, *return_type),
            return_type is Int ==> (forall|args: Seq<int>| #[trigger] fold_args(helper_step(r->Ok_0.0), args)
                == fold_args(|a: int, b: int| int_binop(ArithOp::Mul, a, b), args)),
            return_type is UInt ==> (forall|args: Seq<int>| #[trigger] fold_args(helper_step(r->Ok_0.0), args)
                == fold_args(|a: int, b: int| uint_binop(ArithOp::Mul, a, b), args)),
    {
        proof {
            reveal_strlit("stdlib.add-int");
            reveal_strlit("stdlib.add-uint");
            reveal_strlit("stdlib.sub-int");
            reveal_strlit("stdlib.sub-uint");
            reveal_strlit("stdlib.mul-int");
            reveal_strlit("stdlib.mul-uint");
            reveal_strlit("stdlib.div-int");
            reveal_strlit("stdlib.div-uint");
            assert(helper_step(stdlib_name(StdlibOp::Mul, false)) =~= (|a: int, b: int| int_binop(ArithOp::Mul, a, b)));
            assert(helper_step(stdlib_name(StdlibOp::Mul, true)) =~= (|a: int, b: int| uint_binop(ArithOp::Mul, a, b)));
        }
        simple_typed_multi_value(StdlibOp::Mul, arg_count, return_type)
    }

    /// Signed form, over one or more arguments.
    pub fn eval_int(&self, args: &Vec<i128>) -> (r: Result<i128, ErrorMap>)
        requires
            args.len() >= 1,
        ensures
            int_result(r) == fold_args(|a: int, b: int| int_binop(ArithOp::Mul, a, b), ints(args@)),
    {
        fold_int(ArithOp::Mul, args)
    }

    /// Unsigned form, over one or more arguments.
    pub fn eval_uint(&self, args: &Vec<u128>) -> (r: Result<u128, ErrorMap>)
        requires
            args.len() >= 1,
        ensures
            uint_result(r) == fold_args(|a: int, b: int| uint_binop(ArithOp::Mul, a, b), uints(args@)),
    {
        fold_uint(ArithOp::Mul, args)
    }
}

/// `/`: the first argument divided by the others, rounded toward zero.
#[derive(Debug)]
pub struct Div;

impl Div {
    pub fn name(&self) -> (r: &'static str)
        ensures
            r == "/",
    {
        "/"
    }

    /// The helper the generated code calls, and how many times.
    pub fn visit(&self, arg_count: usize, return_type: &ClarityType) -> (r: Result<(&'static str, usize), GeneratorError>)
        ensures
            r == simple_typed_multi_value_spec(StdlibOp::Div, arg_count, *return_type),
            return_type is Int ==> (forall|args: Seq<int>| #[trigger] fold_args(helper_step(r->Ok_0.0), args)
                == fold_args(|a: int, b: int| int_binop(ArithOp::Div, a, b), args)),
            return_type is UInt ==> (forall|args: Seq<int>| #[trigger] fold_args(helper_step(r->Ok_0.0), args)
                == fold_args(|a: int, b: int| uint_binop(ArithOp::Div, a, b), args)),
    {
        proof {
            reveal_strlit("stdlib.add-int");
            reveal_strlit("stdlib.add-uint");
            reveal_strlit("stdlib.sub-int");
            reveal_strlit("stdlib.sub-uint");
            reveal_strlit("stdlib.mul-int");
            reveal_strlit("stdlib.mul-uint");
            reveal_strlit("stdlib.div-int");
            reveal_strlit("stdlib.div-uint");
            assert(helper_step(stdlib_name(StdlibOp::Div, false)) =~= (|a: int, b: int| int_binop(ArithOp::Div, a, b)));
            assert(helper_step(stdlib_name(StdlibOp::Div, true)) =~= (|a: int, b: int| uint_binop(ArithOp::Div, a, b)));
        }
        simple_typed_multi_value(StdlibOp::Div, arg_count, return_type)
    }

    /// Signed form, over one or more arguments.
    pub fn eval_int(&self, args: &Vec<i128>) -> (r: Result<i128, ErrorMap>)
        requires
            args.len() >= 1,
        ensures
            int_result(r) == fold_args(|a: int, b: int| int_binop(ArithOp::Div, a, b), ints(args@)),
    {
        fold_int(ArithOp::Div, args)
    }

    /// Unsigned form, over one or more arguments.
    pub fn eval_uint(&self, args: &Vec<u128>) -> (r: Result<u128, ErrorMap>)
        requires
            args.len() >= 1,
        ensures
            uint_result(r) == fold_args(|a: int, b: int| uint_binop(ArithOp::Div, a, b), uints(args@)),
    {
        fold_uint(ArithOp::Div, args)
    }
}

/// `mod`: remainder of a division, with the sign of the dividend.
#[derive(Debug)]
pub struct Modulo;

impl Modulo {
    pub fn name(&self) -> (r: &'static str)
        ensures
            r == "mod",
    {
        "mod"
    }

    /// The helper the generated code calls.
    pub fn visit(&self, return_type: &ClarityType) -> (r: Result<&'static str, GeneratorError>)
        ensures
            r == simple_typed_one_call_spec(StdlibOp::Mod, *return_type),
    {
        simple_typed_one_call(StdlibOp::Mod, return_type)
    }

    pub fn eval_int(&self, a: i128, b: i128) -> (r: Result<i128, ErrorMap>)
        ensures
            int_result(r) == int_mod(a as int, b as int),
    {
        int_modulo(a, b)
    }

    pub fn eval_uint(&self, a: u128, b: u128) -> (r: Result<u128, ErrorMap>)
        ensures
            uint_result(r) == uint_mod(a as int, b as int),
    {
        uint_modulo(a, b)
    }
}

/// `log2`: base-2 logarithm rounded down; a non-positive argument traps.
#[derive(Debug)]
pub struct Log2;

impl Log2 {
    pub fn name(&self) -> (r: &'static str)
        ensures
            r == "log2",
    {
        "log2"
    }

    /// The helper the generated code calls.
    pub fn visit(&self, return_type: &ClarityType) -> (r: Result<&'static str, GeneratorError>)
        ensures
            r == simple_typed_one_call_spec(StdlibOp::Log2, *return_type),
    {
        simple_typed_one_call(StdlibOp::Log2, return_type)
    }

    pub fn eval_int(&self, n: i128) -> (r: Result<i128, ErrorMap>)
        ensures
            int_log2(n as int, int_result(r)),
    {
        if n <= 0 {
            Err(ErrorMap::ArithmeticLog2Error)
        } else {
            let k = log2_of(n as u128);
            proof {
                lemma_power_exceeds(k as nat);
            }
            Ok(k as i128)
        }
    }

    pub fn eval_uint(&self, n: u128) -> (r: Result<u128, ErrorMap>)
        ensures
            int_log2(n as int, uint_result(r)),
    {
        if n == 0 {
            Err(ErrorMap::ArithmeticLog2Error)
        } else {
            Ok(log2_of(n))
        }
    }
}

/// `pow`: the first argument raised to the second.
#[derive(Debug)]
pub struct Power;

impl Power {
    pub fn name(&self) -> (r: &'static str)
        ensures
            r == "pow",
    {
        "pow"
    }

    /// The helper the generated code calls.
    pub fn visit(&self, return_type: &ClarityType) -> (r: Result<&'static str, GeneratorError>)
        ensures
            r == simple_typed_one_call_spec(StdlibOp::Pow, *return_type),
    {
        simple_typed_one_call(StdlibOp::Pow, return_type)
    }

    pub fn eval_int(&self, a: i128, e: i128) -> (r: Result<i128, ErrorMap>)
        ensures
            int_result(r) == int_pow(a as int, e as int),
    {
        int_power(a, e)
    }

    pub fn eval_uint(&self, a: u128, e: u128) -> (r: Result<u128, ErrorMap>)
        ensures
            uint_result(r) == uint_pow(a as int, e as int),
    {
        uint_power(a, e)
    }
}

/// `sqrti`: square root rounded down; a negative argument traps.
#[derive(Debug)]
pub struct Sqrti;

impl Sqrti {
    pub fn name(&self) -> (r: &'static str)
        ensures
            r == "sqrti",
    {
        "sqrti"
    }

    /// The helper the generated code calls.
    pub fn visit(&self, return_type: &ClarityType) -> (r: Result<&'static str, GeneratorError>)
        ensures
            r == simple_typed_one_call_spec(StdlibOp::Sqrti, *return_type),
    {
        simple_typed_one_call(StdlibOp::Sqrti, return_type)
    }

    pub fn eval_int(&self, n: i128) -> (r: Result<i128, ErrorMap>)
        ensures
            int_sqrti(n as int, int_result(r)),
    {
        if n < 0 {
            Err(ErrorMap::ArithmeticSqrtiError)
        } else {
            let r = sqrt_of(n as u128);
            assert(r < 0x1_0000_0000_0000_0000) by (nonlinear_arith)
                requires r * r <= n, n <= i128::MAX, r >= 0;
            Ok(r as i128)
        }
    }

    pub fn eval_uint(&self, n: u128) -> (r: Result<u128, ErrorMap>)
        ensures
            int_sqrti(n as int, uint_result(r)),
    {
        Ok(sqrt_of(n))
    }
}

} // verus!
