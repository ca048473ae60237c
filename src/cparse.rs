//! Line-level parsing for the C subset: trimming, prefixes, identifiers,
//! declarations, function headers, control headers and conditions.
use vstd::prelude::*;
use vstd::string::StringSliceAdditionalSpecFns;
use crate::text::{is_space, is_alpha, is_dec, skip_spaces, is_space_byte, is_alpha_byte, is_dec_byte, copy_range, range_eq};

verus! {

/// A comparison in a condition.
#[derive(Clone, Copy, PartialEq, Eq, Structural, Debug)]
pub enum CmpOp {
    Eq,
    Ne,
    Lt,
    Le,
    Gt,
    Ge,
}

/// Why a line of C did not parse.
#[derive(Clone, Copy, PartialEq, Eq, Structural, Debug)]
pub enum CErrorKind {
    ExpectedSemicolon,
    ExpectedInitializer,
    InvalidIdentifier,
    GlobalInitializer,
    ExternWithoutSemicolon,
    BadFunctionHeader,
    BadControlHeader,
    BadForClause,
    BadCondition,
    BadExpression,
    BadAddressExpression,
    VariableNotAllowed,
    UnknownToken,
    ValueTooWide,
    UnknownVariable,
    UnsupportedStatement,
    DuplicateGlobal,
    DuplicateLocal,
    DuplicateFunction,
    OutOfZeroPage,
    ExpectedDeclarationOrFunction,
    /// A function (or a control block in it) still open at the end of its file.
    UnterminatedFunction,
}

/// The end of `s[lo..hi]` with trailing whitespace removed.
pub open spec fn trim_end(s: Seq<u8>, lo: int, hi: int) -> int
    decreases hi - lo,
{
    if hi > lo && is_space(s[hi - 1]) {
        trim_end(s, lo, hi - 1)
    } else {
        hi
    }
}

/// `s` without leading and trailing whitespace.
pub open spec fn trimmed(s: Seq<u8>) -> Seq<u8> {
    let a = skip_spaces(s, 0);
    s.subrange(a, trim_end(s, a, s.len() as int))
}

proof fn lemma_trim_end_bounds(s: Seq<u8>, lo: int, hi: int)
    requires
        0 <= lo <= hi <= s.len(),
    ensures
        lo <= trim_end(s, lo, hi) <= hi,
    decreases hi - lo,
{
    if hi > lo && is_space(s[hi - 1]) {
        lemma_trim_end_bounds(s, lo, hi - 1);
    }
}

/// A copy of `s[lo..hi]` without leading and trailing whitespace.
pub fn trim_range(s: &[u8], lo: usize, hi: usize) -> (r: Vec<u8>)
    requires
        lo <= hi <= s@.len(),
    ensures
        r@ == trimmed(s@.subrange(lo as int, hi as int)),
{
    let ghost sub = s@.subrange(lo as int, hi as int);
    let mut a: usize = lo;
    while a < hi && is_space_byte(s[a])
        invariant
            lo <= a <= hi <= s@.len(),
            sub == s@.subrange(lo as int, hi as int),
            skip_spaces(sub, 0) == skip_spaces(sub, a - lo),
        decreases hi - a,
    {
        a = a + 1;
    }
    proof { crate::text::lemma_skip_spaces_bounds(sub, a - lo); }
    let mut b: usize = hi;
    while b > a && is_space_byte(s[b - 1])
        invariant
            lo <= a <= b <= hi <= s@.len(),
            sub == s@.subrange(lo as int, hi as int),
            trim_end(sub, a - lo, hi - lo) == trim_end(sub, a - lo, b - lo),
        decreases b - a,
    {
        b = b - 1;
    }
    let r = copy_range(s, a, b);
    assert(r@ =~= trimmed(sub));
    r
}

/// A trimmed copy of a whole line.
pub fn trim_all(s: &[u8]) -> (r: Vec<u8>)
    ensures
        r@ == trimmed(s@),
{
    let r = trim_range(s, 0, s.len());
    assert(s@.subrange(0, s@.len() as int) =~= s@);
    r
}

/// Whether `s` starts with the bytes of `p`.
pub open spec fn has_prefix(s: Seq<u8>, p: Seq<u8>) -> bool {
    p.len() <= s.len() && s.subrange(0, p.len() as int) == p
}

/// Whether `s` ends with the bytes of `p`.
pub open spec fn has_suffix(s: Seq<u8>, p: Seq<u8>) -> bool {
    p.len() <= s.len() && s.subrange(s.len() - p.len(), s.len() as int) == p
}

pub fn starts_with(s: &[u8], p: &str) -> (r: bool)
    ensures
        r == has_prefix(s@, p.spec_bytes()),
{
    let b = p.as_bytes();
    if b.len() > s.len() {
        return false;
    }
    range_eq(s, 0, b.len(), b)
}

pub fn ends_with(s: &[u8], p: &str) -> (r: bool)
    ensures
        r == has_suffix(s@, p.spec_bytes()),
{
    let b = p.as_bytes();
    if b.len() > s.len() {
        return false;
    }
    range_eq(s, s.len() - b.len(), s.len(), b)
}

pub fn same_text(s: &[u8], p: &str) -> (r: bool)
    ensures
        r == (s@ == p.spec_bytes()),
{
    let b = p.as_bytes();
    let r = range_eq(s, 0, s.len(), b);
    assert(s@.subrange(0, s@.len() as int) =~= s@);
    r
}

/// The first position of `b` in `s`.
pub open spec fn first_of(s: Seq<u8>, b: u8) -> Option<int> {
    if exists|i: int| 0 <= i < s.len() && s[i] == b {
        Some(choose|i: int| 0 <= i < s.len() && s[i] == b && forall|j: int| 0 <= j < i ==> s[j] != b)
    } else {
        None
    }
}

pub proof fn lemma_first_of(s: Seq<u8>, b: u8, i: int)
    requires
        0 <= i < s.len(),
        s[i] == b,
        forall|j: int| 0 <= j < i ==> s[j] != b,
    ensures
        first_of(s, b) == Some(i),
{
    assert(exists|k: int| 0 <= k < s.len() && s[k] == b);
    let c = choose|k: int| 0 <= k < s.len() && s[k] == b && forall|j: int| 0 <= j < k ==> s[j] != b;
    assert(0 <= i < s.len() && s[i] == b && forall|j: int| 0 <= j < i ==> s[j] != b);
    if c < i {
        assert(s[c] != b);
    } else if c > i {
        assert(s[i] != b);
    }
}

pub fn find_byte(s: &[u8], b: u8) -> (r: Option<usize>)
    ensures
        r matches Some(i) ==> first_of(s@, b) == Some(i as int),
        r is None ==> first_of(s@, b) is None,
        r matches Some(i) ==> i < s@.len() && s@[i as int] == b && forall|j: int| 0 <= j < i ==> s@[j] != b,
        r is None ==> forall|j: int| 0 <= j < s@.len() ==> s@[j] != b,
        s@.len() <= usize::MAX,
{
    let n = s.len();
    let mut i: usize = 0;
    while i < s.len()
        invariant
            i <= s@.len(),
            forall|j: int| 0 <= j < i ==> s@[j] != b,
        decreases s@.len() - i,
    {
        if s[i] == b {
            proof { lemma_first_of(s@, b, i as int); }
            return Some(i);
        }
        i = i + 1;
    }
    None
}

/// The last position of `b` in `s`.
pub open spec fn last_of(s: Seq<u8>, b: u8) -> Option<int> {
    if exists|i: int| 0 <= i < s.len() && s[i] == b {
        Some(choose|i: int| 0 <= i < s.len() && s[i] == b && forall|j: int| i < j < s.len() ==> s[j] != b)
    } else {
        None
    }
}

pub proof fn lemma_last_of(s: Seq<u8>, b: u8, i: int)
    requires
        0 <= i < s.len(),
        s[i] == b,
        forall|j: int| i < j < s.len() ==> s[j] != b,
    ensures
        last_of(s, b) == Some(i),
{
    assert(exists|k: int| 0 <= k < s.len() && s[k] == b);
    let c = choose|k: int| 0 <= k < s.len() && s[k] == b && forall|j: int| k < j < s.len() ==> s[j] != b;
    assert(0 <= i < s.len() && s[i] == b && forall|j: int| i < j < s.len() ==> s[j] != b);
    if c < i {
        assert(s[i] != b);
    } else if c > i {
        assert(s[c] != b);
    }
}

pub fn rfind_byte(s: &[u8], b: u8) -> (r: Option<usize>)
    ensures
        r matches Some(i) ==> last_of(s@, b) == Some(i as int),
        r is None ==> last_of(s@, b) is None,
        r matches Some(i) ==> i < s@.len() && s@[i as int] == b && forall|j: int| i < j < s@.len() ==> s@[j] != b,
        r is None ==> forall|j: int| 0 <= j < s@.len() ==> s@[j] != b,
{
    let mut i: usize = s.len();
    while i > 0
        invariant
            i <= s@.len(),
            forall|j: int| i <= j < s@.len() ==> s@[j] != b,
        decreases i,
    {
        if s[i - 1] == b {
            proof { lemma_last_of(s@, b, i - 1); }
            return Some(i - 1);
        }
        i = i - 1;
    }
    None
}

/// The first position where `p` occurs in `s`.
pub fn find_text(s: &[u8], p: &[u8]) -> (r: Option<usize>)
    ensures
        r matches Some(i) ==> i + p@.len() <= s@.len() && s@.subrange(i as int, i + p@.len()) == p@
            && forall|j: int| 0 <= j < i ==> #[trigger] s@.subrange(j, j + p@.len()) != p@,
        r is None ==> forall|j: int| 0 <= j && j + p@.len() <= s@.len() ==> #[trigger] s@.subrange(j, j + p@.len()) != p@,
{
    if p.len() > s.len() {
        return None;
    }
    let mut i: usize = 0;
    let n = s.len();
    let last = n - p.len();
    while i <= last
        invariant
            n == s@.len(),
            last == s@.len() - p@.len(),
            i <= last,
            p@.len() <= s@.len(),
            forall|j: int| 0 <= j < i ==> #[trigger] s@.subrange(j, j + p@.len()) != p@,
        decreases s@.len() - i,
    {
        if range_eq(s, i, i + p.len(), p) {
            return Some(i);
        }
        if i == last {
            return None;
        }
        i = i + 1;
    }
    None
}

/// An identifier: a letter or underscore, then letters, digits and underscores.
pub open spec fn is_ident(s: Seq<u8>) -> bool {
    s.len() > 0 && (is_alpha(s[0]) || s[0] == 95) && forall|i: int| 1 <= i < s.len() ==> (is_alpha(
        #[trigger] s[i],
    ) || is_dec(s[i]) || s[i] == 95)
}

pub fn validate_ident(s: &[u8]) -> (r: bool)
    ensures
        r == is_ident(s@),
{
    if s.len() == 0 {
        return false;
    }
    if !(is_alpha_byte(s[0]) || s[0] == 95) {
        return false;
    }
    let mut i: usize = 1;
    while i < s.len()
        invariant
            1 <= i <= s@.len(),
            forall|j: int| 1 <= j < i ==> (is_alpha(#[trigger] s@[j]) || is_dec(s@[j]) || s@[j] == 95),
        decreases s@.len() - i,
    {
        let c = s[i];
        if !(is_alpha_byte(c) || is_dec_byte(c) || c == 95) {
            return false;
        }
        i = i + 1;
    }
    true
}

/// The text after a prefix, or `None`.
pub fn strip_prefix(s: &[u8], p: &str) -> (r: Option<Vec<u8>>)
    ensures
        r matches Some(v) ==> has_prefix(s@, p.spec_bytes()) && v@ == s@.subrange(p.spec_bytes().len() as int, s@.len() as int),
        r is None ==> !has_prefix(s@, p.spec_bytes()),
{
    if starts_with(s, p) {
        let n = p.as_bytes().len();
        Some(copy_range(s, n, s.len()))
    } else {
        None
    }
}

/// The text before a suffix given as bytes, or `None`.
pub fn strip_suffix_bytes(s: &[u8], p: &[u8]) -> (r: Option<Vec<u8>>)
    ensures
        r matches Some(v) ==> has_suffix(s@, p@) && v@ == s@.subrange(0, s@.len() - p@.len()),
        r is None ==> !has_suffix(s@, p@),
{
    if p.len() > s.len() {
        return None;
    }
    let start = s.len() - p.len();
    if range_eq(s, start, s.len(), p) {
        Some(copy_range(s, 0, start))
    } else {
        None
    }
}

/// The text before a suffix, or `None`.
pub fn strip_suffix(s: &[u8], p: &str) -> (r: Option<Vec<u8>>)
    ensures
        r matches Some(v) ==> has_suffix(s@, p.spec_bytes()) && v@ == s@.subrange(0, s@.len() - p.spec_bytes().len()),
        r is None ==> !has_suffix(s@, p.spec_bytes()),
{
    if ends_with(s, p) {
        let n = p.as_bytes().len();
        Some(copy_range(s, 0, s.len() - n))
    } else {
        None
    }
}

pub open spec fn opt_view(o: Option<Vec<u8>>) -> Option<Seq<u8>> {
    match o {
        Some(v) => Some(v@),
        None => None,
    }
}

pub open spec fn res_view(r: Result<Option<Vec<u8>>, CErrorKind>) -> Result<Option<Seq<u8>>, CErrorKind> {
    match r {
        Ok(o) => Ok(opt_view(o)),
        Err(e) => Err(e),
    }
}

/// A declaration `unsigned char NAME [= EXPR];` (or `signed char`): its
/// name and initializer, `Ok(None)` for a line of another kind.
#[verifier::opaque]
pub open spec fn char_decl(line: Seq<u8>) -> Result<Option<(Seq<u8>, Option<Seq<u8>>)>, CErrorKind> {
    let s = trimmed(line);
    let u = "unsigned char ".spec_bytes();
    let g = "signed char ".spec_bytes();
    let semi = ";".spec_bytes();
    if !has_prefix(s, u) && !has_prefix(s, g) {
        Ok(None)
    } else {
        let rest = if has_prefix(s, u) { s.subrange(u.len() as int, s.len() as int) } else { s.subrange(g.len() as int, s.len() as int) };
        if !has_suffix(rest, semi) {
            Err(CErrorKind::ExpectedSemicolon)
        } else {
            let body = trimmed(rest.subrange(0, rest.len() - semi.len()));
            let (name, init) = match first_of(body, 61) {
                Some(eq) => (trimmed(body.subrange(0, eq)), Some(trimmed(body.subrange(eq + 1, body.len() as int)))),
                None => (body, None),
            };
            if init matches Some(e) && e.len() == 0 {
                Err(CErrorKind::ExpectedInitializer)
            } else if !is_ident(name) {
                Err(CErrorKind::InvalidIdentifier)
            } else {
                Ok(Some((name, init)))
            }
        }
    }
}

pub open spec fn decl_view(r: Result<Option<(Vec<u8>, Option<Vec<u8>>)>, CErrorKind>) -> Result<Option<(Seq<u8>, Option<Seq<u8>>)>, CErrorKind> {
    match r {
        Ok(Some((n, i))) => Ok(Some((n@, opt_view(i)))),
        Ok(None) => Ok(None),
        Err(e) => Err(e),
    }
}

/// A global declaration: a declaration without an initializer.
pub open spec fn global_decl(line: Seq<u8>) -> Result<Option<Seq<u8>>, CErrorKind> {
    match char_decl(line) {
        Err(e) => Err(e),
        Ok(Some((_, Some(_)))) => Err(CErrorKind::GlobalInitializer),
        Ok(Some((n, None))) => Ok(Some(n)),
        Ok(None) => Ok(None),
    }
}

/// A function header: `void NAME` then a parameter part; `proto` selects
/// the prototype form (`();` or `()`) over the definition form (`() {`).
pub open spec fn fn_header(line: Seq<u8>, proto: bool) -> Result<Option<Seq<u8>>, CErrorKind> {
    let s = trimmed(line);
    let v = "void ".spec_bytes();
    if !has_prefix(s, v) {
        Ok(None)
    } else {
        let rest = s.subrange(v.len() as int, s.len() as int);
        match first_of(rest, 40) {
            None => if proto { Ok(None) } else { Err(CErrorKind::BadFunctionHeader) },
            Some(open) => {
                let name = trimmed(rest.subrange(0, open));
                let tail = trimmed(rest.subrange(open, rest.len() as int));
                if !is_ident(name) {
                    Err(CErrorKind::InvalidIdentifier)
                } else if proto {
                    if tail == "();".spec_bytes() || tail == "()".spec_bytes() { Ok(Some(name)) } else { Ok(None) }
                } else if tail == "() {".spec_bytes() || tail == "(){".spec_bytes() {
                    Ok(Some(name))
                } else {
                    Err(CErrorKind::BadFunctionHeader)
                }
            },
        }
    }
}

/// `KEYWORD ... (BODY) {`: the trimmed text between the first `(` and the
/// last `)`.
#[verifier::opaque]
pub open spec fn paren_spec(s: Seq<u8>, k: Seq<u8>) -> Result<Option<Seq<u8>>, CErrorKind> {
    if !has_prefix(s, k) {
        Ok(None)
    } else {
        let rest = trimmed(s.subrange(k.len() as int, s.len() as int));
        match (first_of(rest, 40), last_of(rest, 41)) {
            (Some(open), Some(close)) => if trimmed(rest.subrange(close + 1, rest.len() as int)) == "{".spec_bytes()
                && open < close {
                Ok(Some(trimmed(rest.subrange(open + 1, close))))
            } else {
                Err(CErrorKind::BadControlHeader)
            },
            _ => Err(CErrorKind::BadControlHeader),
        }
    }
}

/// A non-empty clause, or `None`.
pub open spec fn clause(c: Seq<u8>) -> Option<Seq<u8>> {
    if c.len() > 0 { Some(c) } else { None }
}

/// `for (INIT; COND; STEP) {`: the three trimmed clauses.
#[verifier::opaque]
pub open spec fn for_spec(line: Seq<u8>) -> Result<Option<(Option<Seq<u8>>, Option<Seq<u8>>, Option<Seq<u8>>)>, CErrorKind> {
    match paren_spec(trimmed(line), "for".spec_bytes()) {
        Err(_) => Err(CErrorKind::BadForClause),
        Ok(None) => Ok(None),
        Ok(Some(body)) => match first_of(body, 59) {
            None => Err(CErrorKind::BadForClause),
            Some(a) => {
                let rest = body.subrange(a + 1, body.len() as int);
                match first_of(rest, 59) {
                    None => Err(CErrorKind::BadForClause),
                    Some(b) => {
                        let tail = rest.subrange(b + 1, rest.len() as int);
                        if first_of(tail, 59) is Some {
                            Err(CErrorKind::BadForClause)
                        } else {
                            Ok(Some((
                                clause(trimmed(body.subrange(0, a))),
                                clause(trimmed(rest.subrange(0, b))),
                                clause(trimmed(tail)),
                            )))
                        }
                    },
                }
            },
        },
    }
}

pub open spec fn for_view(r: Result<Option<(Option<Vec<u8>>, Option<Vec<u8>>, Option<Vec<u8>>)>, CErrorKind>) -> Result<Option<(Option<Seq<u8>>, Option<Seq<u8>>, Option<Seq<u8>>)>, CErrorKind> {
    match r {
        Ok(Some((a, b, c))) => Ok(Some((opt_view(a), opt_view(b), opt_view(c)))),
        Ok(None) => Ok(None),
        Err(e) => Err(e),
    }
}

/// A declaration `unsigned char NAME [= EXPR];` or `signed char ...`: its
/// name and initializer text. `Ok(None)` where the line is no declaration.
pub fn parse_char_decl(line: &[u8]) -> (r: Result<Option<(Vec<u8>, Option<Vec<u8>>)>, CErrorKind>)
    ensures
        r matches Ok(Some((name, init))) ==> is_ident(name@) && (init matches Some(e) ==> e@.len() > 0),
        decl_view(r) == char_decl(line@),
{
    reveal(char_decl);
    let s = trim_all(line);
    let rest = match strip_prefix(s.as_slice(), "unsigned char ") {
        Some(r) => r,
        None => match strip_prefix(s.as_slice(), "signed char ") {
            Some(r) => r,
            None => {
                return Ok(None);
            },
        },
    };
    let body = match strip_suffix(rest.as_slice(), ";") {
        Some(b) => trim_all(b.as_slice()),
        None => {
            return Err(CErrorKind::ExpectedSemicolon);
        },
    };
    let (name, init) = match find_byte(body.as_slice(), 61) {
        Some(eq) => {
            let blen = body.len();
            let name = trim_range(body.as_slice(), 0, eq);
            let init = trim_range(body.as_slice(), eq + 1, body.len());
            if init.len() == 0 {
                return Err(CErrorKind::ExpectedInitializer);
            }
            (name, Some(init))
        },
        None => (body, None),
    };
    if !validate_ident(name.as_slice()) {
        return Err(CErrorKind::InvalidIdentifier);
    }
    Ok(Some((name, init)))
}

/// A global declaration: a declaration without an initializer.
pub fn parse_global_char_decl(line: &[u8]) -> (r: Result<Option<Vec<u8>>, CErrorKind>)
    ensures
        r matches Ok(Some(name)) ==> is_ident(name@),
        res_view(r) == global_decl(line@),
{
    match parse_char_decl(line) {
        Err(e) => Err(e),
        Ok(Some((_name, Some(_)))) => Err(CErrorKind::GlobalInitializer),
        Ok(Some((name, None))) => Ok(Some(name)),
        Ok(None) => Ok(None),
    }
}

/// `extern ...;` declarations are accepted and ignored.
pub fn parse_extern_decl(line: &[u8]) -> (r: Result<bool, CErrorKind>)
    ensures
        r == (if !has_prefix(trimmed(line@), "extern ".spec_bytes()) {
            Ok::<bool, CErrorKind>(false)
        } else if has_suffix(trimmed(line@), ";".spec_bytes()) {
            Ok::<bool, CErrorKind>(true)
        } else {
            Err::<bool, CErrorKind>(CErrorKind::ExternWithoutSemicolon)
        }),
{
    let s = trim_all(line);
    if !starts_with(s.as_slice(), "extern ") {
        return Ok(false);
    }
    if !ends_with(s.as_slice(), ";") {
        return Err(CErrorKind::ExternWithoutSemicolon);
    }
    Ok(true)
}

/// A prototype `void Name();`: its name.
pub fn parse_fn_proto(line: &[u8]) -> (r: Result<Option<Vec<u8>>, CErrorKind>)
    ensures
        r matches Ok(Some(name)) ==> is_ident(name@),
        res_view(r) == fn_header(line@, true),
{
    let s = trim_all(line);
    let rest = match strip_prefix(s.as_slice(), "void ") {
        Some(r) => r,
        None => {
            return Ok(None);
        },
    };
    let open = match find_byte(rest.as_slice(), 40) {
        Some(o) => o,
        None => {
            return Ok(None);
        },
    };
    let name = trim_range(rest.as_slice(), 0, open);
    if !validate_ident(name.as_slice()) {
        return Err(CErrorKind::InvalidIdentifier);
    }
    let tail = trim_range(rest.as_slice(), open, rest.len());
    if same_text(tail.as_slice(), "();") || same_text(tail.as_slice(), "()") {
        return Ok(Some(name));
    }
    Ok(None)
}

/// A function definition header `void Name() {`: its name.
pub fn parse_fn_start(line: &[u8]) -> (r: Result<Option<Vec<u8>>, CErrorKind>)
    ensures
        r matches Ok(Some(name)) ==> is_ident(name@),
        res_view(r) == fn_header(line@, false),
{
    let s = trim_all(line);
    let rest = match strip_prefix(s.as_slice(), "void ") {
        Some(r) => r,
        None => {
            return Ok(None);
        },
    };
    let open = match find_byte(rest.as_slice(), 40) {
        Some(o) => o,
        None => {
            return Err(CErrorKind::BadFunctionHeader);
        },
    };
    let name = trim_range(rest.as_slice(), 0, open);
    if !validate_ident(name.as_slice()) {
        return Err(CErrorKind::InvalidIdentifier);
    }
    let tail = trim_range(rest.as_slice(), open, rest.len());
    if !same_text(tail.as_slice(), "() {") && !same_text(tail.as_slice(), "(){") {
        return Err(CErrorKind::BadFunctionHeader);
    }
    Ok(Some(name))
}

/// The parenthesised part of a header `KEYWORD (...) {`, between the first
/// `(` and the last `)`.
#[verifier::spinoff_prover]
#[verifier::rlimit(100)]
fn paren_body(s: &[u8], keyword: &str) -> (r: Result<Option<Vec<u8>>, CErrorKind>)
    ensures
        !has_prefix(s@, keyword.spec_bytes()) ==> r == Ok::<Option<Vec<u8>>, CErrorKind>(None),
        r matches Ok(Some(_)) ==> has_prefix(s@, keyword.spec_bytes()),
        res_view(r) == paren_spec(s@, keyword.spec_bytes()),
{
    reveal(paren_spec);
    let rest0 = match strip_prefix(s, keyword) {
        Some(r) => r,
        None => {
            return Ok(None);
        },
    };
    let rest = trim_range(rest0.as_slice(), 0, rest0.len());
    assert(rest0@.subrange(0, rest0@.len() as int) =~= rest0@);
    assert(rest@ == trimmed(s@.subrange(keyword.spec_bytes().len() as int, s@.len() as int)));
    let open = match find_byte(rest.as_slice(), 40) {
        Some(o) => o,
        None => {
            return Err(CErrorKind::BadControlHeader);
        },
    };
    let close = match rfind_byte(rest.as_slice(), 41) {
        Some(c) => c,
        None => {
            return Err(CErrorKind::BadControlHeader);
        },
    };
    let rlen = rest.len();
    let tail = trim_range(rest.as_slice(), close + 1, rlen);
    if !same_text(tail.as_slice(), "{") {
        return Err(CErrorKind::BadControlHeader);
    }
    if open >= close {
        return Err(CErrorKind::BadControlHeader);
    }
    Ok(Some(trim_range(rest.as_slice(), open + 1, close)))
}

/// `if (...) {` or `while (...) {`: the condition text.
pub fn parse_control_start(line: &[u8], keyword: &str) -> (r: Result<Option<Vec<u8>>, CErrorKind>)
    ensures
        !has_prefix(trimmed(line@), keyword.spec_bytes()) ==> r == Ok::<Option<Vec<u8>>, CErrorKind>(None),
        r matches Ok(Some(_)) ==> has_prefix(trimmed(line@), keyword.spec_bytes()),
        res_view(r) == paren_spec(trimmed(line@), keyword.spec_bytes()),
{
    let s = trim_all(line);
    paren_body(s.as_slice(), keyword)
}

pub fn parse_if_start(line: &[u8]) -> (r: Result<Option<Vec<u8>>, CErrorKind>)
    ensures
        !has_prefix(trimmed(line@), "if".spec_bytes()) ==> r == Ok::<Option<Vec<u8>>, CErrorKind>(None),
        res_view(r) == paren_spec(trimmed(line@), "if".spec_bytes()),
{
    parse_control_start(line, "if")
}

pub fn parse_while_start(line: &[u8]) -> (r: Result<Option<Vec<u8>>, CErrorKind>)
    ensures
        !has_prefix(trimmed(line@), "while".spec_bytes()) ==> r == Ok::<Option<Vec<u8>>, CErrorKind>(None),
        res_view(r) == paren_spec(trimmed(line@), "while".spec_bytes()),
{
    parse_control_start(line, "while")
}

/// `else {` on a line of its own.
pub fn parse_else_start(line: &[u8]) -> (r: bool)
    ensures
        r == (trimmed(line@) == "else {".spec_bytes() || trimmed(line@) == "else{".spec_bytes()),
{
    let s = trim_all(line);
    same_text(s.as_slice(), "else {") || same_text(s.as_slice(), "else{")
}

/// A non-empty part of a for clause, or `None`.
fn optional_part(s: Vec<u8>) -> (r: Option<Vec<u8>>)
    ensures
        r matches Some(v) ==> v@ == s@ && s@.len() > 0,
        r is None ==> s@.len() == 0,
{
    if s.len() == 0 {
        None
    } else {
        Some(s)
    }
}

/// `for (init; cond; step) {`: the three clauses, each possibly empty.
pub fn parse_for_start(line: &[u8]) -> (r: Result<Option<(Option<Vec<u8>>, Option<Vec<u8>>, Option<Vec<u8>>)>, CErrorKind>)
    ensures
        !has_prefix(trimmed(line@), "for".spec_bytes()) ==> r matches Ok(None),
        r matches Ok(Some((a, b, c))) ==> (a matches Some(v) ==> v@.len() > 0) && (b matches Some(v) ==> v@.len() > 0)
            && (c matches Some(v) ==> v@.len() > 0),
        for_view(r) == for_spec(line@),
{
    reveal(for_spec);
    let s = trim_all(line);
    let body = match paren_body(s.as_slice(), "for") {
        Ok(Some(b)) => b,
        Ok(None) => {
            return Ok(None);
        },
        Err(_) => {
            return Err(CErrorKind::BadForClause);
        },
    };
    let first = match find_byte(body.as_slice(), 59) {
        Some(i) => i,
        None => {
            return Err(CErrorKind::BadForClause);
        },
    };
    let rest = copy_range(body.as_slice(), first + 1, body.len());
    let second = match find_byte(rest.as_slice(), 59) {
        Some(i) => i,
        None => {
            return Err(CErrorKind::BadForClause);
        },
    };
    let tail = copy_range(rest.as_slice(), second + 1, rest.len());
    if find_byte(tail.as_slice(), 59).is_some() {
        return Err(CErrorKind::BadForClause);
    }
    let init = trim_range(body.as_slice(), 0, first);
    let cond = trim_range(rest.as_slice(), 0, second);
    let step = trim_all(tail.as_slice());
    Ok(Some((optional_part(init), optional_part(cond), optional_part(step))))
}

/// Whether `p` occurs in `s`.
pub open spec fn occurs(s: Seq<u8>, p: Seq<u8>) -> bool {
    exists|j: int| 0 <= j && j + p.len() <= s.len() && #[trigger] s.subrange(j, j + p.len()) == p
}

/// The comparison a condition uses: the first of `==`, `!=`, `>=`, `<=`,
/// `>`, `<` that occurs in it.
pub open spec fn cond_op(src: Seq<u8>) -> Option<CmpOp> {
    if occurs(src, "==".spec_bytes()) {
        Some(CmpOp::Eq)
    } else if occurs(src, "!=".spec_bytes()) {
        Some(CmpOp::Ne)
    } else if occurs(src, ">=".spec_bytes()) {
        Some(CmpOp::Ge)
    } else if occurs(src, "<=".spec_bytes()) {
        Some(CmpOp::Le)
    } else if occurs(src, ">".spec_bytes()) {
        Some(CmpOp::Gt)
    } else if occurs(src, "<".spec_bytes()) {
        Some(CmpOp::Lt)
    } else {
        None
    }
}

/// The first position where `p` occurs in `s`.
pub open spec fn first_occ(s: Seq<u8>, p: Seq<u8>) -> int {
    choose|j: int| #![trigger s.subrange(j, j + p.len())] 0 <= j && j + p.len() <= s.len() && s.subrange(j, j + p.len()) == p
        && forall|k: int| 0 <= k < j ==> #[trigger] s.subrange(k, k + p.len()) != p
}

/// The text of a comparison operator.
pub open spec fn op_text(op: CmpOp) -> Seq<u8> {
    match op {
        CmpOp::Eq => "==".spec_bytes(),
        CmpOp::Ne => "!=".spec_bytes(),
        CmpOp::Ge => ">=".spec_bytes(),
        CmpOp::Le => "<=".spec_bytes(),
        CmpOp::Gt => ">".spec_bytes(),
        CmpOp::Lt => "<".spec_bytes(),
    }
}

/// The two sides of a condition around the first occurrence of `p`, trimmed.
pub open spec fn sides_at(src: Seq<u8>, p: Seq<u8>) -> (Seq<u8>, Seq<u8>) {
    let j = first_occ(src, p);
    (trimmed(src.subrange(0, j)), trimmed(src.subrange(j + p.len(), src.len() as int)))
}

/// The parse of a condition whose operator `op` occurs in it.
pub open spec fn cond_result(src: Seq<u8>, op: CmpOp) -> Result<(Seq<u8>, CmpOp, Seq<u8>), CErrorKind> {
    let (l, r) = sides_at(src, op_text(op));
    if l.len() > 0 && r.len() > 0 {
        Ok((l, op, r))
    } else {
        Err(CErrorKind::BadCondition)
    }
}

pub open spec fn cond_view(r: Result<(Vec<u8>, CmpOp, Vec<u8>), CErrorKind>) -> Result<(Seq<u8>, CmpOp, Seq<u8>), CErrorKind> {
    match r {
        Ok((l, o, rt)) => Ok((l@, o, rt@)),
        Err(e) => Err(e),
    }
}

/// Splits a condition at the first occurrence of `text`, if it occurs.
fn split_at_op(src: &[u8], text: &str, op: CmpOp) -> (r: Option<Result<(Vec<u8>, CmpOp, Vec<u8>), CErrorKind>>)
    requires
        text.spec_bytes() == op_text(op),
    ensures
        r is None <==> !occurs(src@, text.spec_bytes()),
        r matches Some(x) ==> cond_view(x) == cond_result(src@, op),
{
    let t = text.as_bytes();
    match find_text(src, t) {
        Some(idx) => {
            proof {
                let p = t@;
                let j = first_occ(src@, p);
                assert(0 <= j && j + p.len() <= src@.len() && src@.subrange(j, j + p.len()) == p && forall|k: int|
                    0 <= k < j ==> #[trigger] src@.subrange(k, k + p.len()) != p);
                if j < idx {
                } else if j > idx {
                    assert(src@.subrange(idx as int, idx + p.len()) != p);
                }
                assert(j == idx);
            }
            let left = trim_range(src, 0, idx);
            let slen = src.len();
            let right = trim_range(src, idx + t.len(), slen);
            if left.len() == 0 || right.len() == 0 {
                return Some(Err(CErrorKind::BadCondition));
            }
            Some(Ok((left, op, right)))
        },
        None => {
            assert(!occurs(src@, text.spec_bytes()));
            None
        },
    }
}

/// A condition `left OP right`; the operators are tried in the order
/// `==`, `!=`, `>=`, `<=`, `>`, `<`, and the first found splits the text.
pub fn parse_condition(src: &[u8]) -> (r: Result<(Vec<u8>, CmpOp, Vec<u8>), CErrorKind>)
    ensures
        r matches Ok((l, op, rt)) ==> l@.len() > 0 && rt@.len() > 0 && cond_op(src@) == Some(op),
        cond_op(src@) is None ==> r == Err::<(Vec<u8>, CmpOp, Vec<u8>), CErrorKind>(CErrorKind::BadCondition),
        cond_op(src@) matches Some(op) ==> cond_view(r) == cond_result(src@, op),
{
    match split_at_op(src, "==", CmpOp::Eq) {
        Some(r) => {
            return r;
        },
        None => {},
    }
    match split_at_op(src, "!=", CmpOp::Ne) {
        Some(r) => {
            return r;
        },
        None => {},
    }
    match split_at_op(src, ">=", CmpOp::Ge) {
        Some(r) => {
            return r;
        },
        None => {},
    }
    match split_at_op(src, "<=", CmpOp::Le) {
        Some(r) => {
            return r;
        },
        None => {},
    }
    match split_at_op(src, ">", CmpOp::Gt) {
        Some(r) => {
            return r;
        },
        None => {},
    }
    match split_at_op(src, "<", CmpOp::Lt) {
        Some(r) => {
            return r;
        },
        None => {},
    }
    Err(CErrorKind::BadCondition)
}

/// A line without its `//` comment.
pub open spec fn comment_cut(s: Seq<u8>) -> Seq<u8> {
    if occurs(s, seq![47u8, 47u8]) {
        s.subrange(0, first_occ(s, seq![47u8, 47u8]))
    } else {
        s
    }
}

/// A line with any `//` comment removed: the text before the first `//`.
pub fn strip_c_comments(line: &[u8]) -> (r: Vec<u8>)
    ensures
        r@ == comment_cut(line@),
        r@.len() <= line@.len(),
        r@ == line@.subrange(0, r@.len() as int),
        forall|j: int| 0 <= j && j + 2 <= r@.len() ==> #[trigger] line@.subrange(j, j + 2) != seq![47u8, 47u8],
        r@.len() < line@.len() ==> line@.subrange(r@.len() as int, (r@.len() + 2) as int) == seq![47u8, 47u8],
{
    let slashes: [u8; 2] = [47, 47];
    assert(slashes@ =~= seq![47u8, 47u8]);
    match find_text(line, slashes.as_slice()) {
        Some(i) => {
            proof {
                let p = seq![47u8, 47u8];
                assert(occurs(line@, p));
                let j = first_occ(line@, p);
                if j < i {
                } else if j > i {
                    assert(line@.subrange(i as int, i + p.len()) != p);
                }
            }
            copy_range(line, 0, i)
        },
        None => {
            let r = copy_range(line, 0, line.len());
            assert(line@.subrange(0, line@.len() as int) =~= line@);
            r
        },
    }
}

} // verus!
