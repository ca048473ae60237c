//! A calculator for the debugger's prompt: integer expressions with
//! `+ - * /`, unary signs, parentheses, and hex (`$`, `0x`), binary (`%`,
//! `0b`) or decimal literals.
use vstd::prelude::*;
use vstd::string::StringSliceAdditionalSpecFns;
use crate::text::{is_space, is_space_byte, is_hex, skip_spaces, skip_ws, digit_val, num_value};
use crate::cparse::trimmed;

verus! {

/// The value of an evaluated expression.
#[derive(Clone, Copy, PartialEq, Eq, Structural, Debug)]
pub struct EvalResult {
    pub value: i64,
}

/// Why an expression did not evaluate.
#[derive(Clone, Copy, PartialEq, Eq, Structural, Debug)]
pub enum EvalError {
    Empty,
    TrailingInput,
    AddOverflow,
    SubOverflow,
    MulOverflow,
    DivOverflow,
    NegOverflow,
    DivisionByZero,
    ExpectedCloseParen,
    UnexpectedEnd,
    UnexpectedChar,
    ExpectedNumber,
    BadNumber,
}

/// The base a number's prefix selects and where its digits start:
/// `0x`, `0X`, `$` hex; `0b`, `0B`, `%` binary; else decimal.
pub open spec fn base_of(t: Seq<u8>) -> (nat, int) {
    if t.len() >= 2 && t[0] == 48 && (t[1] == 120 || t[1] == 88) {
        (16, 2)
    } else if t.len() >= 1 && t[0] == 36 {
        (16, 1)
    } else if t.len() >= 2 && t[0] == 48 && (t[1] == 98 || t[1] == 66) {
        (2, 2)
    } else if t.len() >= 1 && t[0] == 37 {
        (2, 1)
    } else {
        (10, 0)
    }
}

/// Whether `c` is a digit in `base`.
pub open spec fn digit_in(c: u8, base: nat) -> bool {
    is_hex(c) && digit_val(c) < base
}

/// The value a number token denotes, if it is one: its digits after the
/// prefix, all valid in the base, at least one, and the value within `i64`.
pub open spec fn number_value(t: Seq<u8>) -> Option<i64> {
    let (base, start) = base_of(t);
    if start < t.len() && (forall|i: int| start <= i < t.len() ==> digit_in(#[trigger] t[i], base))
        && num_value(t, start, t.len() as int, base) <= i64::MAX {
        Some(num_value(t, start, t.len() as int, base) as i64)
    } else {
        None
    }
}

pub fn normalize_digits(t: &[u8]) -> (r: (u32, usize))
    ensures
        r.0 as nat == base_of(t@).0 && r.1 as int == base_of(t@).1,
{
    let n = t.len();
    if n >= 2 && t[0] == 48 && (t[1] == 120 || t[1] == 88) {
        (16, 2)
    } else if n >= 1 && t[0] == 36 {
        (16, 1)
    } else if n >= 2 && t[0] == 48 && (t[1] == 98 || t[1] == 66) {
        (2, 2)
    } else if n >= 1 && t[0] == 37 {
        (2, 1)
    } else {
        (10, 0)
    }
}

/// The value of a number token.
pub fn number_token_value(t: &[u8]) -> (r: Option<i64>)
    ensures
        r == number_value(t@),
{
    let (base, start) = normalize_digits(t);
    if start >= t.len() {
        return None;
    }
    let mut i: usize = start;
    while i < t.len()
        invariant
            start <= i <= t@.len(),
            base as nat == base_of(t@).0,
            start as int == base_of(t@).1,
            forall|k: int| start <= k < i ==> digit_in(#[trigger] t@[k], base as nat),
        decreases t@.len() - i,
    {
        let c = t[i];
        if !(crate::text::class_has(crate::text::CharClass::Hex, c) && (crate::text::digit_of(c) as u32) < base) {
            return None;
        }
        i = i + 1;
    }
    let cap: u128 = 0x8000_0000_0000_0000;
    let mut acc: u128 = 0;
    let mut k: usize = start;
    while k < t.len()
        invariant
            start <= k <= t@.len(),
            base as nat == base_of(t@).0,
            2 <= base <= 16,
            start as int == base_of(t@).1,
            forall|m: int| start <= m < t@.len() ==> digit_in(#[trigger] t@[m], base as nat),
            cap == 0x8000_0000_0000_0000u128,
            num_value(t@, start as int, k as int, base as nat) < cap ==> acc == num_value(t@, start as int, k as int, base as nat),
            num_value(t@, start as int, k as int, base as nat) >= cap ==> acc == cap,
        decreases t@.len() - k,
    {
        let d = crate::text::digit_of(t[k]);
        let ghost prev = num_value(t@, start as int, k as int, base as nat);
        assert(num_value(t@, start as int, k + 1, base as nat) == prev * (base as nat) + d as nat);
        if acc >= cap {
            assert(prev * (base as nat) >= prev) by (nonlinear_arith)
                requires
                    base >= 2,
            ;
        } else {
            assert(acc * (base as u128) <= (cap - 1) * 16) by (nonlinear_arith)
                requires
                    acc < cap,
                    base <= 16,
            ;
            let next: u128 = acc * (base as u128) + (d as u128);
            acc = if next >= cap { cap } else { next };
        }
        k = k + 1;
    }
    if acc >= cap {
        None
    } else {
        Some(acc as i64)
    }
}

pub open spec fn number_char(c: u8) -> bool {
    is_hex(c) || c == 120 || c == 88 || c == 98 || c == 66 || c == 36 || c == 37
}

pub open spec fn stop_char(c: u8) -> bool {
    is_space(c) || c == 43 || c == 45 || c == 42 || c == 47 || c == 41
}

/// The characters of a number from `i`: number characters are kept, `_`
/// is dropped, and it ends at whitespace, an operator or `)`.
pub open spec fn num_scan(s: Seq<u8>, i: int, buf: Seq<u8>) -> Result<(Seq<u8>, int), EvalError>
    decreases s.len() - i,
{
    if i < 0 || i >= s.len() {
        Ok((buf, i))
    } else if number_char(s[i]) {
        num_scan(s, i + 1, buf.push(s[i]))
    } else if s[i] == 95 {
        num_scan(s, i + 1, buf)
    } else if stop_char(s[i]) {
        Ok((buf, i))
    } else {
        Err(EvalError::UnexpectedChar)
    }
}

/// A number after whitespace at `pos`, and where it ends.
pub open spec fn number_spec(s: Seq<u8>, pos: int) -> Result<(i64, int), EvalError> {
    match num_scan(s, skip_spaces(s, pos), Seq::empty()) {
        Err(e) => Err(e),
        Ok((buf, e)) => if buf.len() == 0 {
            Err(EvalError::ExpectedNumber)
        } else {
            match number_value(buf) {
                Some(v) => Ok((v, e)),
                None => Err(EvalError::BadNumber),
            }
        },
    }
}

/// Division truncated toward zero.
pub open spec fn trunc_div(a: int, b: int) -> int {
    let q = (if a < 0 { -a } else { a }) / (if b < 0 { -b } else { b });
    if (a < 0) == (b < 0) { q } else { -q }
}

pub open spec fn in_i64(v: int) -> bool {
    i64::MIN <= v <= i64::MAX
}

/// `( expr )` or a number, after whitespace at `pos`.
pub open spec fn primary_spec(s: Seq<u8>, pos: int) -> Result<(i64, int), EvalError>
    decreases s.len() - pos, 0int, 0int,
{
    let p = skip_spaces(s, pos);
    if pos < 0 || p < pos || p > s.len() {
        Err(EvalError::UnexpectedEnd)
    } else if p == s.len() {
        Err(EvalError::UnexpectedEnd)
    } else if s[p] == 40 {
        match expr_spec(s, p + 1) {
            Err(e) => Err(e),
            Ok((v, q)) => {
                let q2 = skip_spaces(s, q);
                if q2 < s.len() && s[q2] == 41 && q2 >= 0 { Ok((v, q2 + 1)) } else { Err(EvalError::ExpectedCloseParen) }
            },
        }
    } else {
        number_spec(s, p)
    }
}

/// Unary signs and a primary.
pub open spec fn factor_spec(s: Seq<u8>, pos: int) -> Result<(i64, int), EvalError>
    decreases s.len() - pos, 1int, 0int,
{
    let p = skip_spaces(s, pos);
    if pos < 0 || p < pos || p > s.len() {
        Err(EvalError::UnexpectedEnd)
    } else if p < s.len() && s[p] == 43 {
        factor_spec(s, p + 1)
    } else if p < s.len() && s[p] == 45 {
        match factor_spec(s, p + 1) {
            Ok((v, q)) => if v == i64::MIN { Err(EvalError::NegOverflow) } else { Ok(((-v) as i64, q)) },
            Err(e) => Err(e),
        }
    } else {
        primary_spec(s, p)
    }
}

/// Factors joined by `*` and `/` after value `v` at `p`.
pub open spec fn term_loop(s: Seq<u8>, v: i64, p: int) -> Result<(i64, int), EvalError>
    decreases s.len() - p, 2int, 0int,
{
    let q = skip_spaces(s, p);
    if p < 0 || q < p || q > s.len() {
        Err(EvalError::UnexpectedEnd)
    } else if q >= s.len() || !(s[q] == 42 || s[q] == 47) {
        Ok((v, q))
    } else {
        match factor_spec(s, q + 1) {
            Err(e) => Err(e),
            Ok((rhs, q2)) => if q2 <= q || q2 > s.len() {
                Err(EvalError::UnexpectedEnd)
            } else if s[q] == 42 {
                if !in_i64(v * rhs) { Err(EvalError::MulOverflow) } else { term_loop(s, (v * rhs) as i64, q2) }
            } else if rhs == 0 {
                Err(EvalError::DivisionByZero)
            } else if v == i64::MIN && rhs == -1 {
                Err(EvalError::DivOverflow)
            } else {
                term_loop(s, #[verifier::truncate] (trunc_div(v as int, rhs as int) as i64), q2)
            },
        }
    }
}

pub open spec fn term_spec(s: Seq<u8>, pos: int) -> Result<(i64, int), EvalError>
    decreases s.len() - pos, 2int, 1int,
{
    match factor_spec(s, pos) {
        Err(e) => Err(e),
        Ok((v, p)) => if p < pos || p > s.len() { Err(EvalError::UnexpectedEnd) } else { term_loop(s, v, p) },
    }
}

/// Terms joined by `+` and `-` after value `v` at `p`.
pub open spec fn expr_loop(s: Seq<u8>, v: i64, p: int) -> Result<(i64, int), EvalError>
    decreases s.len() - p, 3int, 0int,
{
    let q = skip_spaces(s, p);
    if p < 0 || q < p || q > s.len() {
        Err(EvalError::UnexpectedEnd)
    } else if q >= s.len() || !(s[q] == 43 || s[q] == 45) {
        Ok((v, q))
    } else {
        match term_spec(s, q + 1) {
            Err(e) => Err(e),
            Ok((rhs, q2)) => if q2 <= q || q2 > s.len() {
                Err(EvalError::UnexpectedEnd)
            } else if s[q] == 43 {
                if !in_i64(v + rhs) { Err(EvalError::AddOverflow) } else { expr_loop(s, (v + rhs) as i64, q2) }
            } else {
                if !in_i64(v - rhs) { Err(EvalError::SubOverflow) } else { expr_loop(s, (v - rhs) as i64, q2) }
            },
        }
    }
}

pub open spec fn expr_spec(s: Seq<u8>, pos: int) -> Result<(i64, int), EvalError>
    decreases s.len() - pos, 3int, 1int,
{
    match term_spec(s, pos) {
        Err(e) => Err(e),
        Ok((v, p)) => if p < pos || p > s.len() { Err(EvalError::UnexpectedEnd) } else { expr_loop(s, v, p) },
    }
}

pub open spec fn res_view(r: Result<(i64, usize), EvalError>) -> Result<(i64, int), EvalError> {
    match r {
        Ok((v, p)) => Ok((v, p as int)),
        Err(e) => Err(e),
    }
}

fn is_number_char(c: u8) -> (r: bool)
    ensures
        r == number_char(c),
{
    crate::text::class_has(crate::text::CharClass::Hex, c) || c == 120 || c == 88 || c == 98 || c == 66 || c == 36 || c == 37
}

fn is_stop_char(c: u8) -> (r: bool)
    ensures
        r == stop_char(c),
{
    is_space_byte(c) || c == 43 || c == 45 || c == 42 || c == 47 || c == 41
}

fn trunc_div_exec(a: i64, b: i64) -> (r: i64)
    requires
        b != 0,
        !(a == i64::MIN && b == -1),
    ensures
        r as int == trunc_div(a as int, b as int),
{
    let ua: i128 = if a < 0 { -(a as i128) } else { a as i128 };
    let ub: i128 = if b < 0 { -(b as i128) } else { b as i128 };
    let q: i128 = ua / ub;
    assert(0 <= q <= ua) by (nonlinear_arith)
        requires
            q == ua / ub,
            ua >= 0,
            ub >= 1,
    ;
    assert(q <= 0x8000_0000_0000_0000);
    if ((a < 0) == (b < 0)) {
        assert(q <= 0x7FFF_FFFF_FFFF_FFFF) by {
            if a == i64::MIN {
                assert(ub >= 2);
                assert(q <= ua / 2) by (nonlinear_arith)
                    requires
                        q == ua / ub,
                        ua >= 0,
                        ub >= 2,
                ;
            }
        }
        q as i64
    } else {
        (-q) as i64
    }
}

/// A number at `pos` (after whitespace): its characters up to whitespace or
/// an operator, with `_` separators dropped.
fn parse_number(s: &[u8], pos: usize) -> (r: Result<(i64, usize), EvalError>)
    requires
        pos <= s@.len(),
    ensures
        r matches Ok((v, p)) ==> pos <= p <= s@.len(),
        res_view(r) == number_spec(s@, pos as int),
{
    let mut i = skip_ws(s, pos);
    let ghost i0 = i as int;
    let mut buf: Vec<u8> = Vec::new();
    while i < s.len()
        invariant
            pos <= i <= s@.len(),
            i0 == skip_spaces(s@, pos as int),
            num_scan(s@, i0, Seq::empty()) == num_scan(s@, i as int, buf@),
        ensures
            pos <= i <= s@.len(),
            num_scan(s@, i0, Seq::empty()) == Ok::<(Seq<u8>, int), EvalError>((buf@, i as int)),
        decreases s@.len() - i,
    {
        let c = s[i];
        if is_number_char(c) {
            buf.push(c);
            i = i + 1;
        } else if c == 95 {
            i = i + 1;
        } else if is_stop_char(c) {
            break;
        } else {
            return Err(EvalError::UnexpectedChar);
        }
    }
    if buf.len() == 0 {
        return Err(EvalError::ExpectedNumber);
    }
    match number_token_value(buf.as_slice()) {
        Some(v) => Ok((v, i)),
        None => Err(EvalError::BadNumber),
    }
}

/// `( expr )` or a number.
fn parse_primary(s: &[u8], pos: usize) -> (r: Result<(i64, usize), EvalError>)
    requires
        pos <= s@.len(),
    ensures
        r matches Ok((v, p)) ==> pos <= p <= s@.len(),
        res_view(r) == primary_spec(s@, pos as int),
    decreases s@.len() - pos, 0nat,
{
    let p = skip_ws(s, pos);
    if p >= s.len() {
        return Err(EvalError::UnexpectedEnd);
    }
    if s[p] == 40 {
        let (v, q) = match parse_expr(s, p + 1) {
            Ok(x) => x,
            Err(e) => {
                return Err(e);
            },
        };
        let q2 = skip_ws(s, q);
        if q2 < s.len() && s[q2] == 41 {
            return Ok((v, q2 + 1));
        }
        return Err(EvalError::ExpectedCloseParen);
    }
    parse_number(s, p)
}

/// A unary `+` or `-` applied to a factor, or a primary.
fn parse_factor(s: &[u8], pos: usize) -> (r: Result<(i64, usize), EvalError>)
    requires
        pos <= s@.len(),
    ensures
        r matches Ok((v, p)) ==> pos <= p <= s@.len(),
        res_view(r) == factor_spec(s@, pos as int),
    decreases s@.len() - pos, 1nat,
{
    let p = skip_ws(s, pos);
    if p < s.len() && s[p] == 43 {
        return parse_factor(s, p + 1);
    }
    if p < s.len() && s[p] == 45 {
        return match parse_factor(s, p + 1) {
            Ok((v, q)) => {
                if v == i64::MIN {
                    Err(EvalError::NegOverflow)
                } else {
                    Ok((-v, q))
                }
            },
            Err(e) => Err(e),
        };
    }
    parse_primary(s, p)
}

/// Factors joined by `*` and `/`, left to right; division truncates.
fn parse_term(s: &[u8], pos: usize) -> (r: Result<(i64, usize), EvalError>)
    requires
        pos <= s@.len(),
    ensures
        r matches Ok((v, p)) ==> pos <= p <= s@.len(),
        res_view(r) == term_spec(s@, pos as int),
    decreases s@.len() - pos, 2nat,
{
    let (mut value, mut p) = match parse_factor(s, pos) {
        Ok(x) => x,
        Err(e) => {
            return Err(e);
        },
    };
    loop
        invariant_except_break
            term_spec(s@, pos as int) == term_loop(s@, value, p as int),
        invariant
            pos <= p <= s@.len(),
        ensures
            pos <= p <= s@.len(),
            term_spec(s@, pos as int) == Ok::<(i64, int), EvalError>((value, p as int)),
        decreases s@.len() - p,
    {
        let q = skip_ws(s, p);
        if q >= s.len() || !(s[q] == 42 || s[q] == 47) {
            p = q;
            break;
        }
        let (rhs, q2) = match parse_factor(s, q + 1) {
            Ok(x) => x,
            Err(e) => {
                return Err(e);
            },
        };
        if s[q] == 42 {
            assert(-0x8000_0000_0000_0000 * 0x8000_0000_0000_0000 <= (value as i128) * (rhs as i128) <= 0x8000_0000_0000_0000 * 0x8000_0000_0000_0000) by (nonlinear_arith)
                requires
                    -0x8000_0000_0000_0000 <= value <= 0x7FFF_FFFF_FFFF_FFFF,
                    -0x8000_0000_0000_0000 <= rhs <= 0x7FFF_FFFF_FFFF_FFFF,
            ;
            let prod: i128 = value as i128 * rhs as i128;
            if prod < i64::MIN as i128 || prod > i64::MAX as i128 {
                return Err(EvalError::MulOverflow);
            }
            value = prod as i64;
        } else {
            if rhs == 0 {
                return Err(EvalError::DivisionByZero);
            }
            if value == i64::MIN && rhs == -1 {
                return Err(EvalError::DivOverflow);
            }
            value = trunc_div_exec(value, rhs);
        }
        p = q2;
    }
    Ok((value, p))
}

/// Terms joined by `+` and `-`, left to right.
fn parse_expr(s: &[u8], pos: usize) -> (r: Result<(i64, usize), EvalError>)
    requires
        pos <= s@.len(),
    ensures
        r matches Ok((v, p)) ==> pos <= p <= s@.len(),
        res_view(r) == expr_spec(s@, pos as int),
    decreases s@.len() - pos, 3nat,
{
    let (mut value, mut p) = match parse_term(s, pos) {
        Ok(x) => x,
        Err(e) => {
            return Err(e);
        },
    };
    loop
        invariant_except_break
            expr_spec(s@, pos as int) == expr_loop(s@, value, p as int),
        invariant
            pos <= p <= s@.len(),
        ensures
            pos <= p <= s@.len(),
            expr_spec(s@, pos as int) == Ok::<(i64, int), EvalError>((value, p as int)),
        decreases s@.len() - p,
    {
        let q = skip_ws(s, p);
        if q >= s.len() || !(s[q] == 43 || s[q] == 45) {
            p = q;
            break;
        }
        let (rhs, q2) = match parse_term(s, q + 1) {
            Ok(x) => x,
            Err(e) => {
                return Err(e);
            },
        };
        let sum: i128 = if s[q] == 43 { value as i128 + rhs as i128 } else { value as i128 - rhs as i128 };
        if sum < i64::MIN as i128 || sum > i64::MAX as i128 {
            return Err(if s[q] == 43 { EvalError::AddOverflow } else { EvalError::SubOverflow });
        }
        value = sum as i64;
        p = q2;
    }
    Ok((value, p))
}

/// The value of an expression text: blank text is an error, the whole
/// expression must parse, and nothing but whitespace may follow it.
pub open spec fn eval_spec(s: Seq<u8>) -> Result<i64, EvalError> {
    if trimmed(s).len() == 0 {
        Err(EvalError::Empty)
    } else {
        match expr_spec(s, 0) {
            Err(e) => Err(e),
            Ok((v, p)) => if skip_spaces(s, p) < s.len() { Err(EvalError::TrailingInput) } else { Ok(v) },
        }
    }
}

/// Evaluates an integer expression. Blank input is an error, and so is
/// anything left after the expression.
pub fn eval_expression(expr: &str) -> (r: Result<EvalResult, EvalError>)
    ensures
        trimmed(expr.spec_bytes()).len() == 0 ==> r == Err::<EvalResult, EvalError>(EvalError::Empty),
        match eval_spec(expr.spec_bytes()) {
            Ok(v) => r == Ok::<EvalResult, EvalError>(EvalResult { value: v }),
            Err(e) => r == Err::<EvalResult, EvalError>(e),
        },
{
    let s = expr.as_bytes();
    let t = crate::cparse::trim_all(s);
    if t.len() == 0 {
        return Err(EvalError::Empty);
    }
    let (value, p) = match parse_expr(s, 0) {
        Ok(x) => x,
        Err(e) => {
            return Err(e);
        },
    };
    let q = skip_ws(s, p);
    if q < s.len() {
        return Err(EvalError::TrailingInput);
    }
    Ok(EvalResult { value })
}

} // verus!
