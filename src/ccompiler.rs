//! The C-subset compiler: variable allocation in zero page, expression
//! compilation through scratch slots, structured control flow with fresh
//! labels, and output tagged with the `.c` file and line of each statement.
use vstd::prelude::*;
use vstd::string::StringSliceAdditionalSpecFns;
use crate::text::{copy_range, is_space_byte, read_number, digit_val, is_hex, is_dec};
use crate::ctext::{push_text, push_bytes, push_hex, push_dec, dec_digits};
use crate::expand::{SourceFile, LineOrigin, ExpandedAsm, flatten};
use crate::assembler::{split_lines, lines_of};
use crate::cparse::{
    CErrorKind, CmpOp, trim_all, trim_range, starts_with, ends_with, same_text, strip_prefix,
    strip_suffix, find_byte, validate_ident, is_ident, parse_condition, parse_char_decl,
    parse_global_char_decl, parse_extern_decl, parse_fn_proto, parse_fn_start, parse_if_start,
    parse_while_start, parse_else_start, parse_for_start, strip_c_comments,
};

verus! {

/// Scratch zero-page slots used by generated code.
pub const C_EXPR_TMP_LHS: u8 = 0x20;
pub const C_EXPR_TMP_RHS: u8 = 0x21;
pub const C_EXPR_TMP_CNT: u8 = 0x22;
pub const C_EXPR_TMP_CMP: u8 = 0x23;

/// A name bound to a 16-bit value: a variable's zero-page address or a
/// constant.
pub struct NamedValue {
    pub name: Vec<u8>,
    pub value: u16,
}

/// One line of generated assembly and the `.c` file and line it came from.
pub struct AsmLine {
    pub text: Vec<u8>,
    pub file: usize,
    pub line: usize,
}

/// An operand: an immediate byte or a variable's zero-page address.
#[derive(Clone, Copy, PartialEq, Eq, Structural, Debug)]
pub enum CTerm {
    Imm(u8),
    Var(u8),
}

/// An absolute address, optionally offset by an immediate or by a
/// variable (through the Y register).
#[derive(Clone, Copy, PartialEq, Eq, Structural, Debug)]
pub struct AddrExpr {
    pub base: u16,
    pub offset: Option<CTerm>,
}

#[derive(Clone, Copy, PartialEq, Eq, Structural, Debug)]
pub enum CBinOp {
    Add,
    Sub,
    Shl,
    Shr,
    And,
    Xor,
    Or,
}

/// An expression tree.
pub enum CExpr {
    Term(CTerm),
    Mem(AddrExpr),
    Not(Box<CExpr>),
    Bin(Box<CExpr>, CBinOp, Box<CExpr>),
}

/// Every line from `from` on is tagged with `file` and `line`.
pub open spec fn tagged(out: Seq<AsmLine>, from: int, file: usize, line: usize) -> bool {
    forall|i: int| from <= i < out.len() ==> (#[trigger] out[i]).file == file && out[i].line == line
}

/// `out` keeps its old lines and adds lines tagged with `file` and `line`.
pub open spec fn extends(old_out: Seq<AsmLine>, out: Seq<AsmLine>, file: usize, line: usize) -> bool {
    old_out.len() <= out.len() && out.subrange(0, old_out.len() as int) == old_out && tagged(
        out,
        old_out.len() as int,
        file,
        line,
    )
}

pub fn emit(out: &mut Vec<AsmLine>, text: Vec<u8>, file: usize, line: usize)
    ensures
        final(out)@.len() == old(out)@.len() + 1,
        final(out)@.subrange(0, old(out)@.len() as int) == old(out)@,
        final(out)@.last().text@ == text@,
        extends(old(out)@, final(out)@, file, line),
        texts(final(out)@) == texts(old(out)@).push(text@),
{
    let ghost t = text@;
    out.push(AsmLine { text, file, line });
    assert(out@.subrange(0, old(out)@.len() as int) =~= old(out)@);
    assert(texts(out@) =~= texts(old(out)@).push(t));
}

/// `OP $XX` with a zero-page operand.
pub fn op_zp(op: &str, v: u8) -> (r: Vec<u8>)
    ensures
        r@ == op.spec_bytes() + seq![32u8, 36u8] + crate::ctext::hex_digits(v as nat, 2),
{
    let mut t: Vec<u8> = Vec::new();
    push_text(&mut t, op);
    t.push(32);
    t.push(36);
    push_hex(&mut t, v as u32, 2);
    assert(t@ =~= op.spec_bytes() + seq![32u8, 36u8] + crate::ctext::hex_digits(v as nat, 2));
    t
}

/// `OP $XXXX` with an absolute operand.
pub fn op_abs(op: &str, v: u16) -> (r: Vec<u8>)
    ensures
        r@ == op.spec_bytes() + seq![32u8, 36u8] + crate::ctext::hex_digits(v as nat, 4),
{
    let mut t: Vec<u8> = Vec::new();
    push_text(&mut t, op);
    t.push(32);
    t.push(36);
    push_hex(&mut t, v as u32, 4);
    assert(t@ =~= op.spec_bytes() + seq![32u8, 36u8] + crate::ctext::hex_digits(v as nat, 4));
    t
}

/// `OP LABEL`.
pub fn op_label(op: &str, label: &[u8]) -> (r: Vec<u8>)
    ensures
        r@ == op.spec_bytes() + seq![32u8] + label@,
{
    let mut t: Vec<u8> = Vec::new();
    push_text(&mut t, op);
    t.push(32);
    push_bytes(&mut t, label);
    assert(t@ =~= op.spec_bytes() + seq![32u8] + label@);
    t
}

/// `LABEL:`.
pub fn label_def(label: &[u8]) -> (r: Vec<u8>)
    ensures
        r@ == label@.push(58),
{
    let mut t: Vec<u8> = Vec::new();
    push_bytes(&mut t, label);
    t.push(58);
    t
}

/// A fresh label: the prefix and the counter's value in decimal.
pub fn fresh_label(prefix: &str, n: usize) -> (r: Vec<u8>)
    ensures
        r@ == prefix.spec_bytes() + dec_digits(n as nat),
{
    let mut t: Vec<u8> = Vec::new();
    push_text(&mut t, prefix);
    push_dec(&mut t, n);
    t
}

pub fn text_of(s: &str) -> (r: Vec<u8>)
    ensures
        r@ == s.spec_bytes(),
{
    let mut t: Vec<u8> = Vec::new();
    push_text(&mut t, s);
    assert(t@ =~= s.spec_bytes());
    t
}

/// The value bound to `name`, if any.
/// A table of names as (name, value) pairs.
pub open spec fn nv(t: Seq<NamedValue>) -> Seq<(Seq<u8>, u16)> {
    t.map_values(|x: NamedValue| (x.name@, x.value))
}

/// The value of the first entry named `name`, from index `i` on.
pub open spec fn named_from(t: Seq<(Seq<u8>, u16)>, name: Seq<u8>, i: int) -> Option<u16>
    decreases t.len() - i,
{
    if i < 0 || i >= t.len() {
        None
    } else if t[i].0 == name {
        Some(t[i].1)
    } else {
        named_from(t, name, i + 1)
    }
}

/// The value of a 16-bit operand token: a variable is refused, a constant
/// gives its value, anything else must be a literal.
pub open spec fn u16_token(tok: Seq<u8>, vars: Seq<(Seq<u8>, u16)>, consts: Seq<(Seq<u8>, u16)>) -> Result<u16, CErrorKind> {
    if named_from(vars, tok, 0) is Some {
        Err(CErrorKind::VariableNotAllowed)
    } else {
        match named_from(consts, tok, 0) {
            Some(v) => Ok(v),
            None => match literal_value(tok) {
                Some(v) => Ok(v),
                None => Err(CErrorKind::UnknownToken),
            },
        }
    }
}

pub fn find_named(t: &Vec<NamedValue>, name: &[u8]) -> (r: Option<u16>)
    ensures
        r == named_from(nv(t@), name@, 0),
        r matches Some(v) ==> exists|i: int| 0 <= i < t@.len() && t@[i].name@ == name@ && t@[i].value == v,
        r is None ==> forall|i: int| 0 <= i < t@.len() ==> t@[i].name@ != name@,
{
    let mut i: usize = 0;
    while i < t.len()
        invariant
            i <= t@.len(),
            forall|j: int| 0 <= j < i ==> t@[j].name@ != name@,
            named_from(nv(t@), name@, 0) == named_from(nv(t@), name@, i as int),
        decreases t@.len() - i,
    {
        let n = &t[i].name;
        let same = crate::text::range_eq(n.as_slice(), 0, n.len(), name);
        assert(n@.subrange(0, n@.len() as int) =~= n@);
        if same {
            return Some(t[i].value);
        }
        i = i + 1;
    }
    None
}

/// Whether every byte of `s` is a digit of the given class.
fn all_digits(s: &[u8], hex: bool) -> (r: bool)
    ensures
        r == (s@.len() > 0 && forall|i: int| 0 <= i < s@.len() ==> (if hex { is_hex(#[trigger] s@[i]) } else { is_dec(s@[i]) })),
{
    if s.len() == 0 {
        return false;
    }
    let mut i: usize = 0;
    while i < s.len()
        invariant
            i <= s@.len(),
            forall|j: int| 0 <= j < i ==> (if hex { is_hex(#[trigger] s@[j]) } else { is_dec(s@[j]) }),
        decreases s@.len() - i,
    {
        let ok = if hex { crate::text::class_has(crate::text::CharClass::Hex, s[i]) } else { crate::text::is_dec_byte(s[i]) };
        if !ok {
            return false;
        }
        i = i + 1;
    }
    true
}

/// An unsigned 16-bit number in the given base, where the whole text is
/// digits and the value fits.
/// The value of a digit string in base 16 or 10, if it is one that fits
/// in 16 bits.
pub open spec fn digits_value(s: Seq<u8>, hex: bool) -> Option<u16> {
    let base: nat = if hex { 16 } else { 10 };
    if s.len() > 0 && (forall|i: int| 0 <= i < s.len() ==> (if hex { is_hex(#[trigger] s[i]) } else { is_dec(s[i]) }))
        && crate::text::num_value(s, 0, s.len() as int, base) <= 0xFFFF {
        Some(crate::text::num_value(s, 0, s.len() as int, base) as u16)
    } else {
        None
    }
}

/// The value of a numeric token: `0x` or `$` hex, else decimal.
pub open spec fn literal_value(t: Seq<u8>) -> Option<u16> {
    if crate::cparse::has_prefix(t, "0x".spec_bytes()) {
        digits_value(t.subrange("0x".spec_bytes().len() as int, t.len() as int), true)
    } else if crate::cparse::has_prefix(t, "$".spec_bytes()) {
        digits_value(t.subrange("$".spec_bytes().len() as int, t.len() as int), true)
    } else {
        digits_value(t, false)
    }
}

fn parse_u16_digits(s: &[u8], hex: bool) -> (r: Option<u16>)
    ensures
        r == digits_value(s@, hex),
{
    if !all_digits(s, hex) {
        return None;
    }
    let base: u8 = if hex { 16 } else { 10 };
    proof {
        assert forall|k: int| 0 <= k < s@.len() implies digit_val(#[trigger] s@[k]) < base by {
            if hex { assert(is_hex(s@[k])); } else { assert(is_dec(s@[k])); }
        }
    }
    match read_number(s, 0, s.len(), base) {
        Some(v) => {
            if v <= 0xFFFF {
                Some(v as u16)
            } else {
                None
            }
        },
        None => None,
    }
}

/// A 16-bit value: a constant's name, `0x`/`$` hex, or decimal. Variables
/// are refused here.
pub fn parse_u16_token(tok: &[u8], vars: &Vec<NamedValue>, consts: &Vec<NamedValue>) -> (r: Result<u16, CErrorKind>)
    ensures
        r == u16_token(tok@, nv(vars@), nv(consts@)),
        (exists|i: int| 0 <= i < vars@.len() && vars@[i].name@ == tok@) ==> r == Err::<u16, CErrorKind>(CErrorKind::VariableNotAllowed),
        (forall|i: int| 0 <= i < vars@.len() ==> vars@[i].name@ != tok@) && (exists|i: int| 0 <= i < consts@.len() && consts@[i].name@ == tok@)
            ==> (r matches Ok(v) && exists|i: int| 0 <= i < consts@.len() && consts@[i].name@ == tok@ && consts@[i].value == v),
        (forall|i: int| 0 <= i < vars@.len() ==> vars@[i].name@ != tok@) && (forall|i: int| 0 <= i < consts@.len() ==> consts@[i].name@ != tok@)
            ==> r == (match literal_value(tok@) {
                Some(v) => Ok::<u16, CErrorKind>(v),
                None => Err::<u16, CErrorKind>(CErrorKind::UnknownToken),
            }),
{
    if find_named(vars, tok).is_some() {
        return Err(CErrorKind::VariableNotAllowed);
    }
    match find_named(consts, tok) {
        Some(v) => {
            return Ok(v);
        },
        None => {},
    }
    let hex = match strip_prefix(tok, "0x") {
        Some(h) => Some(h),
        None => strip_prefix(tok, "$"),
    };
    match hex {
        Some(h) => match parse_u16_digits(h.as_slice(), true) {
            Some(v) => Ok(v),
            None => Err(CErrorKind::UnknownToken),
        },
        None => match parse_u16_digits(tok, false) {
            Some(v) => Ok(v),
            None => Err(CErrorKind::UnknownToken),
        },
    }
}

/// An operand: a variable's address, or a value that fits in a byte.
pub fn parse_term(tok: &[u8], vars: &Vec<NamedValue>, consts: &Vec<NamedValue>) -> (r: Result<CTerm, CErrorKind>)
    requires
        forall|i: int| 0 <= i < vars@.len() ==> vars@[i].value <= 0xFF,
    ensures
        r == term_spec(tok@, nv(vars@), nv(consts@)),
        (exists|i: int| 0 <= i < vars@.len() && vars@[i].name@ == tok@) ==> (r matches Ok(CTerm::Var(a)) && exists|i: int|
            0 <= i < vars@.len() && vars@[i].name@ == tok@ && vars@[i].value == a as u16),
        r matches Ok(CTerm::Imm(_)) ==> forall|i: int| 0 <= i < vars@.len() ==> vars@[i].name@ != tok@,
{
    match find_named(vars, tok) {
        Some(a) => {
            return Ok(CTerm::Var(a as u8));
        },
        None => {},
    }
    let v = match parse_u16_token(tok, vars, consts) {
        Ok(v) => v,
        Err(e) => {
            return Err(e);
        },
    };
    if v > 0xFF {
        return Err(CErrorKind::ValueTooWide);
    }
    Ok(CTerm::Imm(v as u8))
}

/// The layout of a sprite's 8-byte record: x, y, tile, flags, three
/// colors, and a reserved byte.
pub open spec fn field_offset(f: Seq<u8>) -> Option<u8> {
    if f == "x".spec_bytes() {
        Some(0u8)
    } else if f == "y".spec_bytes() {
        Some(1u8)
    } else if f == "tile".spec_bytes() {
        Some(2u8)
    } else if f == "flags".spec_bytes() {
        Some(3u8)
    } else if f == "c0".spec_bytes() || f == "color0".spec_bytes() {
        Some(4u8)
    } else if f == "c1".spec_bytes() || f == "color1".spec_bytes() {
        Some(5u8)
    } else if f == "c2".spec_bytes() || f == "color2".spec_bytes() {
        Some(6u8)
    } else if f == "reserved".spec_bytes() {
        Some(7u8)
    } else {
        None
    }
}

/// The offset of a field within a sprite's 8-byte record.
pub fn sprite_field_offset(field: &[u8]) -> (r: Option<u8>)
    ensures
        r == field_offset(field@),
{
    if same_text(field, "x") {
        Some(0)
    } else if same_text(field, "y") {
        Some(1)
    } else if same_text(field, "tile") {
        Some(2)
    } else if same_text(field, "flags") {
        Some(3)
    } else if same_text(field, "c0") || same_text(field, "color0") {
        Some(4)
    } else if same_text(field, "c1") || same_text(field, "color1") {
        Some(5)
    } else if same_text(field, "c2") || same_text(field, "color2") {
        Some(6)
    } else if same_text(field, "reserved") {
        Some(7)
    } else {
        None
    }
}

fn has_space(s: &[u8]) -> (r: bool)
    ensures
        r == exists|k: int| 0 <= k < s@.len() && crate::text::is_space(#[trigger] s@[k]),
{
    let mut i: usize = 0;
    while i < s.len()
        invariant
            i <= s@.len(),
            forall|k: int| 0 <= k < i ==> !crate::text::is_space(#[trigger] s@[k]),
        decreases s@.len() - i,
    {
        if is_space_byte(s[i]) {
            return true;
        }
        i = i + 1;
    }
    false
}

/// The address text of `sprite[i].field`, where `i` (a literal or a
/// constant) is below 64 and `field` is a field of the sprite record.
pub open spec fn sprite_access(s: Seq<u8>, vars: Seq<(Seq<u8>, u16)>, consts: Seq<(Seq<u8>, u16)>) -> Option<Seq<u8>> {
    let p = "sprite[".spec_bytes();
    if !crate::cparse::has_prefix(s, p) {
        None
    } else {
        let rest = s.subrange(p.len() as int, s.len() as int);
        match crate::cparse::first_of(rest, 93) {
            None => None,
            Some(close) => {
                let idx_tok = crate::cparse::trimmed(rest.subrange(0, close));
                let after = crate::cparse::trimmed(rest.subrange(close + 1, rest.len() as int));
                let dot = ".".spec_bytes();
                if idx_tok.len() == 0 || !crate::cparse::has_prefix(after, dot) {
                    None
                } else {
                    let field = crate::cparse::trimmed(after.subrange(dot.len() as int, after.len() as int));
                    if field.len() == 0 || (exists|k: int| 0 <= k < field.len() && crate::text::is_space(#[trigger] field[k])) {
                        None
                    } else {
                        match (field_offset(field), u16_token(idx_tok, vars, consts)) {
                            (Some(off), Ok(i)) => if i <= 63 {
                                Some("SPRITE_RAM + ".spec_bytes() + dec_digits((i * 8 + off) as nat))
                            } else {
                                None
                            },
                            _ => None,
                        }
                    }
                }
            },
        }
    }
}

/// `sprite[i].field`: the address expression `SPRITE_RAM + (i*8 + offset)`.
pub fn parse_sprite_access_expr(s: &[u8], vars: &Vec<NamedValue>, consts: &Vec<NamedValue>) -> (r: Option<Vec<u8>>)
    ensures
        r matches Some(t) ==> sprite_access(s@, nv(vars@), nv(consts@)) == Some(t@),
        r is None ==> sprite_access(s@, nv(vars@), nv(consts@)) is None,
{
    let rest = match strip_prefix(s, "sprite[") {
        Some(r) => r,
        None => {
            return None;
        },
    };
    let close = match find_byte(rest.as_slice(), 93) {
        Some(c) => c,
        None => {
            return None;
        },
    };
    let idx_tok = trim_range(rest.as_slice(), 0, close);
    if idx_tok.len() == 0 {
        return None;
    }
    let rlen = rest.len();
    let after = trim_range(rest.as_slice(), close + 1, rlen);
    let field0 = match strip_prefix(after.as_slice(), ".") {
        Some(f) => f,
        None => {
            return None;
        },
    };
    let field = trim_all(field0.as_slice());
    if field.len() == 0 || has_space(field.as_slice()) {
        return None;
    }
    let off = match sprite_field_offset(field.as_slice()) {
        Some(o) => o,
        None => {
            return None;
        },
    };
    let idx = match parse_u16_token(idx_tok.as_slice(), vars, consts) {
        Ok(v) => v,
        Err(_) => {
            return None;
        },
    };
    if idx > 63 {
        return None;
    }
    let offset: usize = idx as usize * 8 + off as usize;
    let mut t = text_of("SPRITE_RAM + ");
    push_dec(&mut t, offset);
    Some(t)
}

/// The address expression of a memory access: `[e]`, `mem[e]` and
/// `data[e]` give `e`; `sprite_data[e]` gives `SPRITE_RAM + e`; otherwise
/// a sprite field access.
pub open spec fn mem_access(expr: Seq<u8>, vars: Seq<(Seq<u8>, u16)>, consts: Seq<(Seq<u8>, u16)>) -> Option<Seq<u8>> {
    let s = crate::cparse::trimmed(expr);
    let close = seq![93u8];
    let m = "mem[".spec_bytes();
    let d = "data[".spec_bytes();
    let sd = "sprite_data[".spec_bytes();
    if crate::cparse::has_prefix(s, seq![91u8]) && crate::cparse::has_suffix(s, close) {
        if s.len() < 2 {
            None
        } else {
            Some(crate::cparse::trimmed(s.subrange(1, s.len() - 1)))
        }
    } else if crate::cparse::has_prefix(s, m) {
        let rest = s.subrange(m.len() as int, s.len() as int);
        if crate::cparse::has_suffix(rest, close) { Some(crate::cparse::trimmed(rest.subrange(0, rest.len() - 1))) } else { None }
    } else if crate::cparse::has_prefix(s, d) {
        let rest = s.subrange(d.len() as int, s.len() as int);
        if crate::cparse::has_suffix(rest, close) { Some(crate::cparse::trimmed(rest.subrange(0, rest.len() - 1))) } else { None }
    } else if crate::cparse::has_prefix(s, sd) && crate::cparse::has_suffix(s.subrange(sd.len() as int, s.len() as int), close) {
        let rest = s.subrange(sd.len() as int, s.len() as int);
        Some("SPRITE_RAM + ".spec_bytes() + crate::cparse::trimmed(rest.subrange(0, rest.len() - 1)))
    } else {
        sprite_access(s, vars, consts)
    }
}

pub fn parse_mem_access_expr(expr: &[u8], vars: &Vec<NamedValue>, consts: &Vec<NamedValue>) -> (r: Option<Vec<u8>>)
    ensures
        crate::cparse::opt_view(r) == mem_access(expr@, nv(vars@), nv(consts@)),
{
    let s = trim_all(expr);
    let close: [u8; 1] = [93];
    assert(close@ =~= seq![93u8]);
    let slen = s.len();
    if slen >= 1 && s[0] == 91 && s[slen - 1] == 93 {
        assert(crate::cparse::has_prefix(s@, seq![91u8]) && crate::cparse::has_suffix(s@, seq![93u8])) by {
            assert(s@.subrange(0, 1) =~= seq![91u8]);
            assert(s@.subrange(s@.len() - 1, s@.len() as int) =~= seq![93u8]);
        }
        if slen < 2 {
            return None;
        }
        return Some(trim_range(s.as_slice(), 1, slen - 1));
    }
    assert(!(crate::cparse::has_prefix(s@, seq![91u8]) && crate::cparse::has_suffix(s@, seq![93u8]))) by {
        if crate::cparse::has_prefix(s@, seq![91u8]) && crate::cparse::has_suffix(s@, seq![93u8]) {
            assert(s@.subrange(0, 1)[0] == s@[0]);
            assert(s@.subrange(s@.len() - 1, s@.len() as int)[0] == s@[s@.len() - 1]);
        }
    }
    match strip_prefix(s.as_slice(), "mem[") {
        Some(rest) => {
            return match crate::cparse::strip_suffix_bytes(rest.as_slice(), close.as_slice()) {
                Some(inner) => Some(trim_all(inner.as_slice())),
                None => None,
            };
        },
        None => {},
    }
    match strip_prefix(s.as_slice(), "data[") {
        Some(rest) => {
            return match crate::cparse::strip_suffix_bytes(rest.as_slice(), close.as_slice()) {
                Some(inner) => Some(trim_all(inner.as_slice())),
                None => None,
            };
        },
        None => {},
    }
    match strip_prefix(s.as_slice(), "sprite_data[") {
        Some(rest) => {
            match crate::cparse::strip_suffix_bytes(rest.as_slice(), close.as_slice()) {
                Some(inner) => {
                    let mut t = text_of("SPRITE_RAM + ");
                    let it = trim_all(inner.as_slice());
                    push_bytes(&mut t, it.as_slice());
                    return Some(t);
                },
                None => {},
            }
        },
        None => {},
    }
    parse_sprite_access_expr(s.as_slice(), vars, consts)
}

/// Keeps a non-empty part.
pub open spec fn add_part(d: Seq<Seq<u8>>, p: Seq<u8>) -> Seq<Seq<u8>> {
    if p.len() > 0 {
        d.push(p)
    } else {
        d
    }
}

/// The `+`-separated parts of `s[0..i]` finished so far, and where the
/// current part starts.
pub open spec fn plus_split(s: Seq<u8>, i: int) -> (Seq<Seq<u8>>, int)
    decreases i,
{
    if i <= 0 {
        (Seq::empty(), 0)
    } else {
        let (d, st) = plus_split(s, i - 1);
        if s[i - 1] == 43 {
            (add_part(d, crate::cparse::trimmed(s.subrange(st, i - 1))), i)
        } else {
            (d, st)
        }
    }
}

/// The trimmed, non-empty parts of `s` between `+` signs.
pub open spec fn plus_parts(s: Seq<u8>) -> Seq<Seq<u8>> {
    let (d, st) = plus_split(s, s.len() as int);
    add_part(d, crate::cparse::trimmed(s.subrange(st, s.len() as int)))
}

/// An operand term: a variable's address, or a value that fits in a byte.
pub open spec fn term_spec(tok: Seq<u8>, vars: Seq<(Seq<u8>, u16)>, consts: Seq<(Seq<u8>, u16)>) -> Result<CTerm, CErrorKind> {
    match named_from(vars, tok, 0) {
        Some(a) => Ok(CTerm::Var(a as u8)),
        None => match u16_token(tok, vars, consts) {
            Err(e) => Err(e),
            Ok(v) => if v > 0xFF { Err(CErrorKind::ValueTooWide) } else { Ok(CTerm::Imm(v as u8)) },
        },
    }
}

/// `BASE` or `BASE + OFFSET`: the base a 16-bit value, the offset a term.
pub open spec fn addr_spec(expr: Seq<u8>, vars: Seq<(Seq<u8>, u16)>, consts: Seq<(Seq<u8>, u16)>) -> Result<AddrExpr, CErrorKind> {
    let parts = plus_parts(expr);
    if parts.len() == 0 || parts.len() > 2 {
        Err(CErrorKind::BadAddressExpression)
    } else {
        match u16_token(parts[0], vars, consts) {
            Err(e) => Err(e),
            Ok(b) => if parts.len() == 2 {
                match term_spec(parts[1], vars, consts) {
                    Err(e) => Err(e),
                    Ok(t) => Ok(AddrExpr { base: b, offset: Some(t) }),
                }
            } else {
                Ok(AddrExpr { base: b, offset: None })
            },
        }
    }
}

/// `BASE` or `BASE + OFFSET`, where the offset is an immediate byte or a
/// variable.
pub fn parse_addr_expr(expr: &[u8], vars: &Vec<NamedValue>, consts: &Vec<NamedValue>) -> (r: Result<AddrExpr, CErrorKind>)
    requires
        forall|i: int| 0 <= i < vars@.len() ==> vars@[i].value <= 0xFF,
    ensures
        r == addr_spec(expr@, nv(vars@), nv(consts@)),
{
    let mut parts: Vec<Vec<u8>> = Vec::new();
    let mut start: usize = 0;
    let mut i: usize = 0;
    while i < expr.len()
        invariant
            i <= expr@.len(),
            crate::assembler::deep_view(parts@) == plus_split(expr@, i as int).0,
            start as int == plus_split(expr@, i as int).1,
            start <= i,
        decreases expr@.len() - i,
    {
        if expr[i] == 43 {
            let p = trim_range(expr, start, i);
            let ghost before = crate::assembler::deep_view(parts@);
            if p.len() > 0 {
                parts.push(p);
            }
            assert(crate::assembler::deep_view(parts@) =~= add_part(before, p@));
            start = i + 1;
        }
        i = i + 1;
    }
    let p = trim_range(expr, start, expr.len());
    let ghost before = crate::assembler::deep_view(parts@);
    if p.len() > 0 {
        parts.push(p);
    }
    assert(crate::assembler::deep_view(parts@) =~= plus_parts(expr@));
    if parts.len() == 0 || parts.len() > 2 {
        return Err(CErrorKind::BadAddressExpression);
    }
    assert(parts@[0]@ == plus_parts(expr@)[0]);
    let base = match parse_u16_token(parts[0].as_slice(), vars, consts) {
        Ok(b) => b,
        Err(e) => {
            return Err(e);
        },
    };
    let offset = if parts.len() == 2 {
        assert(parts@[1]@ == plus_parts(expr@)[1]);
        match parse_term(parts[1].as_slice(), vars, consts) {
            Ok(t) => Some(t),
            Err(e) => {
                return Err(e);
            },
        }
    } else {
        None
    };
    Ok(AddrExpr { base, offset })
}

/// The single-character operators.
pub open spec fn op_char(c: u8) -> bool {
    c == 43 || c == 45 || c == 38 || c == 124 || c == 94 || c == 126 || c == 40 || c == 41
}

/// Whether a byte ends a word token: whitespace, an operator, `<` or `>`.
pub open spec fn word_stop(c: u8) -> bool {
    crate::text::is_space(c) || op_char(c) || c == 60 || c == 62
}

/// The end of the word token that starts at `i`.
pub open spec fn word_end(s: Seq<u8>, i: int) -> int
    decreases s.len() - i,
{
    if 0 <= i < s.len() && !word_stop(s[i]) {
        word_end(s, i + 1)
    } else {
        i
    }
}

/// Whether `<<` or `>>` starts at `i`.
pub open spec fn shift_at(s: Seq<u8>, i: int) -> bool {
    0 <= i && i + 1 < s.len() && ((s[i] == 60 && s[i + 1] == 60) || (s[i] == 62 && s[i + 1] == 62))
}

/// The tokens of `s` from position `i` on, or `None` at a lone `<` or `>`.
pub open spec fn tokens_from(s: Seq<u8>, i: int) -> Option<Seq<Seq<u8>>>
    decreases s.len() - i,
{
    if i < 0 || i >= s.len() {
        Some(Seq::empty())
    } else if crate::text::is_space(s[i]) {
        tokens_from(s, i + 1)
    } else if shift_at(s, i) {
        match tokens_from(s, i + 2) {
            Some(rest) => Some(seq![s.subrange(i, i + 2)] + rest),
            None => None,
        }
    } else if op_char(s[i]) {
        match tokens_from(s, i + 1) {
            Some(rest) => Some(seq![s.subrange(i, i + 1)] + rest),
            None => None,
        }
    } else if word_end(s, i) <= i || word_end(s, i) > s.len() {
        None
    } else {
        match tokens_from(s, word_end(s, i)) {
            Some(rest) => Some(seq![s.subrange(i, word_end(s, i))] + rest),
            None => None,
        }
    }
}

fn is_op_char(c: u8) -> (r: bool)
    ensures
        r == op_char(c),
{
    c == 43 || c == 45 || c == 38 || c == 124 || c == 94 || c == 126 || c == 40 || c == 41
}

proof fn lemma_tokens_step(before: Seq<Seq<u8>>, tok: Seq<u8>, next: Option<Seq<Seq<u8>>>)
    ensures
        match next {
            Some(rest) => Some(before + (seq![tok] + rest)),
            None => None::<Seq<Seq<u8>>>,
        } == match next {
            Some(rest) => Some(before.push(tok) + rest),
            None => None::<Seq<Seq<u8>>>,
        },
{
    match next {
        Some(rest) => {
            assert(before + (seq![tok] + rest) =~= before.push(tok) + rest);
        },
        None => {},
    }
}

/// Splits an expression into tokens at whitespace and the operators
/// `<< >> + - & | ^ ~ ( )`; anything else runs up to the next of those (or
/// `<`, `>`). A lone `<` or `>` is an error, and so is an empty expression.
pub fn tokenize_expr(expr: &[u8]) -> (r: Result<Vec<Vec<u8>>, CErrorKind>)
    ensures
        r matches Ok(toks) ==> toks@.len() > 0 && tokens_from(expr@, 0) == Some(
            crate::assembler::deep_view(toks@),
        ),
        tokens_from(expr@, 0) is None ==> r is Err,
        tokens_from(expr@, 0) == Some(Seq::<Seq<u8>>::empty()) ==> r == Err::<Vec<Vec<u8>>, CErrorKind>(CErrorKind::BadExpression),
        tokens_from(expr@, 0) matches Some(ts) ==> (ts.len() > 0 ==> (r matches Ok(toks) && crate::assembler::deep_view(
            toks@,
        ) == ts)),
{
    let mut out: Vec<Vec<u8>> = Vec::new();
    let mut i: usize = 0;
    assert(crate::assembler::deep_view(out@) =~= Seq::<Seq<u8>>::empty());
    assert(match tokens_from(expr@, 0) {
        Some(rest) => Some(Seq::<Seq<u8>>::empty() + rest),
        None => None::<Seq<Seq<u8>>>,
    } == tokens_from(expr@, 0)) by {
        match tokens_from(expr@, 0) {
            Some(rest) => {
                assert(Seq::<Seq<u8>>::empty() + rest =~= rest);
            },
            None => {},
        }
    }
    while i < expr.len()
        invariant
            i <= expr@.len(),
            tokens_from(expr@, 0) == match tokens_from(expr@, i as int) {
                Some(rest) => Some(crate::assembler::deep_view(out@) + rest),
                None => None::<Seq<Seq<u8>>>,
            },
        decreases expr@.len() - i,
    {
        let c = expr[i];
        let ghost before = crate::assembler::deep_view(out@);
        if crate::text::is_space_byte(c) {
            i = i + 1;
            continue;
        }
        if i + 1 < expr.len() && ((c == 60 && expr[i + 1] == 60) || (c == 62 && expr[i + 1] == 62)) {
            let t = copy_range(expr, i, i + 2);
            out.push(t);
            proof {
                lemma_tokens_step(before, expr@.subrange(i as int, i + 2), tokens_from(expr@, i + 2));
                assert(crate::assembler::deep_view(out@) =~= before.push(expr@.subrange(i as int, i + 2)));
            }
            i = i + 2;
            continue;
        }
        if is_op_char(c) {
            let t = copy_range(expr, i, i + 1);
            out.push(t);
            proof {
                lemma_tokens_step(before, expr@.subrange(i as int, i + 1), tokens_from(expr@, i + 1));
                assert(crate::assembler::deep_view(out@) =~= before.push(expr@.subrange(i as int, i + 1)));
            }
            i = i + 1;
            continue;
        }
        let start = i;
        while i < expr.len() && !(crate::text::is_space_byte(expr[i]) || is_op_char(expr[i]) || expr[i] == 60
            || expr[i] == 62)
            invariant
                start <= i <= expr@.len(),
                word_end(expr@, start as int) == word_end(expr@, i as int),
            decreases expr@.len() - i,
        {
            i = i + 1;
        }
        if start == i {
            assert(tokens_from(expr@, start as int) is None);
            return Err(CErrorKind::UnknownToken);
        }
        let t = copy_range(expr, start, i);
        out.push(t);
        proof {
            lemma_tokens_step(before, expr@.subrange(start as int, i as int), tokens_from(expr@, i as int));
            assert(crate::assembler::deep_view(out@) =~= before.push(expr@.subrange(start as int, i as int)));
        }
    }
    assert(crate::assembler::deep_view(out@) + Seq::<Seq<u8>>::empty() =~= crate::assembler::deep_view(out@));
    if out.len() == 0 {
        return Err(CErrorKind::BadExpression);
    }
    Ok(out)
}

/// The binary operator at a precedence level (0 or, 1 xor, 2 and, 3 shift,
/// 4 additive) that `tok` spells.
/// The binary operator at a precedence level (0 or, 1 xor, 2 and, 3 shift,
/// 4 additive) that a token spells.
pub open spec fn op_of(tok: Seq<u8>, level: int) -> Option<CBinOp> {
    if level == 0 {
        if tok == "|".spec_bytes() { Some(CBinOp::Or) } else { None }
    } else if level == 1 {
        if tok == "^".spec_bytes() { Some(CBinOp::Xor) } else { None }
    } else if level == 2 {
        if tok == "&".spec_bytes() { Some(CBinOp::And) } else { None }
    } else if level == 3 {
        if tok == "<<".spec_bytes() { Some(CBinOp::Shl) } else if tok == ">>".spec_bytes() { Some(CBinOp::Shr) } else { None }
    } else {
        if tok == "+".spec_bytes() { Some(CBinOp::Add) } else if tok == "-".spec_bytes() { Some(CBinOp::Sub) } else { None }
    }
}

/// The precedence grammar over a token sequence, from position `i` at
/// `level` (0 or, 1 xor, 2 and, 3 shift, 4 additive, 5 unary): the tree
/// and the position after it.
pub open spec fn level_spec(toks: Seq<Seq<u8>>, i: int, level: int, vars: Seq<(Seq<u8>, u16)>, consts: Seq<(Seq<u8>, u16)>) -> Result<(CExpr, usize), CErrorKind>
    decreases toks.len() - i, 6 - level, 1int,
{
    if i < 0 || i > toks.len() || level < 0 || level > 5 {
        Err(CErrorKind::BadExpression)
    } else if level == 5 {
        unary_spec(toks, i, vars, consts)
    } else {
        match level_spec(toks, i, level + 1, vars, consts) {
            Err(e) => Err(e),
            Ok((node, j)) => if i < j && j <= toks.len() {
                chain_spec(toks, node, j as int, level, vars, consts)
            } else {
                Err(CErrorKind::BadExpression)
            },
        }
    }
}

/// A left-associative chain of `level` operators after `node`, from `j`.
pub open spec fn chain_spec(toks: Seq<Seq<u8>>, node: CExpr, j: int, level: int, vars: Seq<(Seq<u8>, u16)>, consts: Seq<(Seq<u8>, u16)>) -> Result<(CExpr, usize), CErrorKind>
    decreases toks.len() - j, 6 - level, 0int,
{
    if j < 0 || j > toks.len() || level < 0 || level > 4 {
        Err(CErrorKind::BadExpression)
    } else if j < toks.len() && op_of(toks[j], level) is Some {
        match level_spec(toks, j + 1, level + 1, vars, consts) {
            Err(e) => Err(e),
            Ok((rhs, k)) => if j < k && k <= toks.len() {
                chain_spec(toks, CExpr::Bin(Box::new(node), op_of(toks[j], level).unwrap(), Box::new(rhs)), k as int, level, vars, consts)
            } else {
                Err(CErrorKind::BadExpression)
            },
        }
    } else {
        Ok((node, j as usize))
    }
}

/// A unary operand: `~e`, `(e)`, a memory access, or a term.
pub open spec fn unary_spec(toks: Seq<Seq<u8>>, i: int, vars: Seq<(Seq<u8>, u16)>, consts: Seq<(Seq<u8>, u16)>) -> Result<(CExpr, usize), CErrorKind>
    decreases toks.len() - i, 0int, 0int,
{
    if i < 0 || i >= toks.len() {
        Err(CErrorKind::BadExpression)
    } else if toks[i] == "~".spec_bytes() {
        match unary_spec(toks, i + 1, vars, consts) {
            Ok((e, j)) => Ok((CExpr::Not(Box::new(e)), j)),
            Err(e) => Err(e),
        }
    } else if toks[i] == "(".spec_bytes() {
        match level_spec(toks, i + 1, 0, vars, consts) {
            Err(e) => Err(e),
            Ok((e, j)) => if j < toks.len() && toks[j as int] == ")".spec_bytes() {
                Ok((e, (j + 1) as usize))
            } else {
                Err(CErrorKind::BadExpression)
            },
        }
    } else if toks[i] == ")".spec_bytes() {
        Err(CErrorKind::BadExpression)
    } else {
        match mem_access(toks[i], vars, consts) {
            Some(m) => match addr_spec(m, vars, consts) {
                Ok(a) => Ok((CExpr::Mem(a), (i + 1) as usize)),
                Err(e) => Err(e),
            },
            None => match term_spec(toks[i], vars, consts) {
                Ok(t) => Ok((CExpr::Term(t), (i + 1) as usize)),
                Err(e) => Err(e),
            },
        }
    }
}

fn level_op(tok: &[u8], level: u8) -> (r: Option<CBinOp>)
    ensures
        r == op_of(tok@, level as int),
{
    if level == 0 {
        if same_text(tok, "|") { Some(CBinOp::Or) } else { None }
    } else if level == 1 {
        if same_text(tok, "^") { Some(CBinOp::Xor) } else { None }
    } else if level == 2 {
        if same_text(tok, "&") { Some(CBinOp::And) } else { None }
    } else if level == 3 {
        if same_text(tok, "<<") { Some(CBinOp::Shl) } else if same_text(tok, ">>") { Some(CBinOp::Shr) } else { None }
    } else {
        if same_text(tok, "+") { Some(CBinOp::Add) } else if same_text(tok, "-") { Some(CBinOp::Sub) } else { None }
    }
}

/// Precedence climbing: a chain of operands at `level` joined by its
/// operators, left-associative. Level 5 is the unary operand.
pub fn parse_level(toks: &Vec<Vec<u8>>, i: usize, level: u8, vars: &Vec<NamedValue>, consts: &Vec<NamedValue>) -> (r: Result<(CExpr, usize), CErrorKind>)
    requires
        i <= toks@.len(),
        level <= 5,
        forall|k: int| 0 <= k < vars@.len() ==> vars@[k].value <= 0xFF,
    ensures
        r matches Ok((e, j)) ==> i < j <= toks@.len(),
        r == level_spec(crate::assembler::deep_view(toks@), i as int, level as int, nv(vars@), nv(consts@)),
    decreases toks@.len() - i, 6 - level,
{
    let ghost ts = crate::assembler::deep_view(toks@);
    if level == 5 {
        return parse_unary(toks, i, vars, consts);
    }
    let (mut node, mut j) = match parse_level(toks, i, level + 1, vars, consts) {
        Ok(p) => p,
        Err(e) => {
            return Err(e);
        },
    };
    while j < toks.len()
        invariant
            i < j <= toks@.len(),
            level < 5,
            ts == crate::assembler::deep_view(toks@),
            forall|k: int| 0 <= k < vars@.len() ==> vars@[k].value <= 0xFF,
            level_spec(ts, i as int, level as int, nv(vars@), nv(consts@)) == chain_spec(ts, node, j as int, level as int, nv(vars@), nv(consts@)),
        ensures
            i < j <= toks@.len(),
            level_spec(ts, i as int, level as int, nv(vars@), nv(consts@)) == Ok::<(CExpr, usize), CErrorKind>((node, j)),
        decreases toks@.len() - j,
    {
        assert(toks@[j as int]@ == ts[j as int]);
        let op = match level_op(toks[j].as_slice(), level) {
            Some(op) => op,
            None => {
                assert(chain_spec(ts, node, j as int, level as int, nv(vars@), nv(consts@)) == Ok::<(CExpr, usize), CErrorKind>(
                    (node, j),
                ));
                break;
            },
        };
        let (rhs, k) = match parse_level(toks, j + 1, level + 1, vars, consts) {
            Ok(p) => p,
            Err(e) => {
                return Err(e);
            },
        };
        node = CExpr::Bin(Box::new(node), op, Box::new(rhs));
        j = k;
    }
    assert(level_spec(ts, i as int, level as int, nv(vars@), nv(consts@)) == Ok::<(CExpr, usize), CErrorKind>((node, j)));
    Ok((node, j))
}

fn parse_unary(toks: &Vec<Vec<u8>>, i: usize, vars: &Vec<NamedValue>, consts: &Vec<NamedValue>) -> (r: Result<(CExpr, usize), CErrorKind>)
    requires
        i <= toks@.len(),
        forall|k: int| 0 <= k < vars@.len() ==> vars@[k].value <= 0xFF,
    ensures
        r matches Ok((e, j)) ==> i < j <= toks@.len(),
        r == unary_spec(crate::assembler::deep_view(toks@), i as int, nv(vars@), nv(consts@)),
    decreases toks@.len() - i, 0nat,
{
    let ghost ts = crate::assembler::deep_view(toks@);
    if i >= toks.len() {
        return Err(CErrorKind::BadExpression);
    }
    assert(toks@[i as int]@ == ts[i as int]);
    if same_text(toks[i].as_slice(), "~") {
        return match parse_unary(toks, i + 1, vars, consts) {
            Ok((inner, j)) => Ok((CExpr::Not(Box::new(inner)), j)),
            Err(e) => Err(e),
        };
    }
    if same_text(toks[i].as_slice(), "(") {
        let (inner, j) = match parse_level(toks, i + 1, 0, vars, consts) {
            Ok(p) => p,
            Err(e) => {
                return Err(e);
            },
        };
        if j >= toks.len() {
            return Err(CErrorKind::BadExpression);
        }
        assert(toks@[j as int]@ == ts[j as int]);
        if !same_text(toks[j].as_slice(), ")") {
            return Err(CErrorKind::BadExpression);
        }
        return Ok((inner, j + 1));
    }
    let tok = &toks[i];
    if same_text(tok.as_slice(), ")") {
        return Err(CErrorKind::BadExpression);
    }
    match parse_mem_access_expr(tok.as_slice(), vars, consts) {
        Some(mem) => {
            return match parse_addr_expr(mem.as_slice(), vars, consts) {
                Ok(a) => Ok((CExpr::Mem(a), i + 1)),
                Err(e) => Err(e),
            };
        },
        None => {},
    }
    match parse_term(tok.as_slice(), vars, consts) {
        Ok(t) => Ok((CExpr::Term(t), i + 1)),
        Err(e) => Err(e),
    }
}

/// `OP $XX`.
pub open spec fn zp_text(op: Seq<u8>, v: u8) -> Seq<u8> {
    op + seq![32u8, 36u8] + crate::ctext::hex_digits(v as nat, 2)
}

/// `OP $XXXX`.
pub open spec fn abs_text(op: Seq<u8>, v: u16) -> Seq<u8> {
    op + seq![32u8, 36u8] + crate::ctext::hex_digits(v as nat, 4)
}

/// The lines that load a term into the accumulator.
pub open spec fn term_text(t: CTerm) -> Seq<u8> {
    match t {
        CTerm::Imm(v) => "LDA #$".spec_bytes() + crate::ctext::hex_digits(v as nat, 2),
        CTerm::Var(v) => zp_text("LDA".spec_bytes(), v),
    }
}

/// The lines that load or store (`op`) through an address expression;
/// a variable offset goes through the Y register.
pub open spec fn addr_lines(op: Seq<u8>, a: AddrExpr) -> Seq<Seq<u8>> {
    match a.offset {
        None => seq![abs_text(op, a.base)],
        Some(CTerm::Imm(v)) => seq![abs_text(op, ((a.base + v) % 0x10000) as u16)],
        Some(CTerm::Var(v)) => seq![zp_text("LDY".spec_bytes(), v), abs_text(op, a.base) + seq![44u8, 89u8]],
    }
}

/// A shift loop's label: `PREFIX<line>_<n>`.
pub open spec fn shift_label(prefix: Seq<u8>, line: usize, n: nat) -> Seq<u8> {
    prefix + dec_digits(line as nat) + seq![95u8] + dec_digits(n)
}

/// The lines that combine the spilled operands (left in `$20`, right in
/// `$21`, left reloaded into the accumulator) when `n` lines precede them.
pub open spec fn combine_lines(op: CBinOp, line: usize, n: nat) -> Seq<Seq<u8>> {
    let lhs = C_EXPR_TMP_LHS;
    let rhs = C_EXPR_TMP_RHS;
    let cnt = C_EXPR_TMP_CNT;
    match op {
        CBinOp::Add => seq!["CLC".spec_bytes(), zp_text("ADC".spec_bytes(), rhs)],
        CBinOp::Sub => seq!["SEC".spec_bytes(), zp_text("SBC".spec_bytes(), rhs)],
        CBinOp::And => seq![zp_text("AND".spec_bytes(), rhs)],
        CBinOp::Xor => seq![zp_text("EOR".spec_bytes(), rhs)],
        CBinOp::Or => seq![zp_text("ORA".spec_bytes(), rhs)],
        CBinOp::Shl | CBinOp::Shr => {
            let lp = shift_label("CEXSHIFT".spec_bytes(), line, n);
            let done = shift_label("CEXDONE".spec_bytes(), line, n);
            let shift = if op == CBinOp::Shl { "ASL".spec_bytes() } else { "LSR".spec_bytes() };
            seq![
                zp_text("STA".spec_bytes(), lhs),
                zp_text("LDA".spec_bytes(), rhs),
                "AND #$07".spec_bytes(),
                zp_text("STA".spec_bytes(), cnt),
                lp.push(58u8),
                zp_text("LDA".spec_bytes(), cnt),
                "BEQ".spec_bytes() + seq![32u8] + done,
                zp_text(shift, lhs),
                zp_text("DEC".spec_bytes(), cnt),
                "JMP".spec_bytes() + seq![32u8] + lp,
                done.push(58u8),
                zp_text("LDA".spec_bytes(), lhs)
            ]
        },
    }
}

/// The code for an expression when `n` lines precede it: a binary node
/// computes its left side, spills it to `$20`, computes its right side,
/// spills it to `$21`, reloads the left side and combines.
pub open spec fn cexpr_lines(e: CExpr, line: usize, n: nat) -> Seq<Seq<u8>>
    decreases e,
{
    match e {
        CExpr::Term(t) => seq![term_text(t)],
        CExpr::Mem(a) => addr_lines("LDA".spec_bytes(), a),
        CExpr::Not(inner) => cexpr_lines(*inner, line, n) + seq!["EOR #$FF".spec_bytes()],
        CExpr::Bin(l, op, r) => {
            let ll = cexpr_lines(*l, line, n);
            let n1 = n + ll.len() + 1;
            let rl = cexpr_lines(*r, line, n1);
            let n2 = n1 + rl.len() + 2;
            ll + seq![zp_text("STA".spec_bytes(), C_EXPR_TMP_LHS)] + rl + seq![
                zp_text("STA".spec_bytes(), C_EXPR_TMP_RHS),
                zp_text("LDA".spec_bytes(), C_EXPR_TMP_LHS)
            ] + combine_lines(op, line, n2)
        },
    }
}

fn with_y(t: Vec<u8>) -> (r: Vec<u8>)
    ensures
        r@ == t@ + seq![44u8, 89u8],
{
    let mut u = t;
    u.push(44);
    u.push(89);
    assert(u@ =~= t@ + seq![44u8, 89u8]);
    u
}

/// Loads the byte at an address into the accumulator.
pub fn emit_load_addr(addr: AddrExpr, file: usize, line: usize, out: &mut Vec<AsmLine>)
    ensures
        extends(old(out)@, final(out)@, file, line),
        final(out)@.len() > old(out)@.len(),
        texts(final(out)@) == texts(old(out)@) + addr_lines("LDA".spec_bytes(), addr),
{
    emit_addr("LDA", addr, file, line, out);
}

/// Stores the accumulator at an address.
pub fn emit_store_addr(addr: AddrExpr, file: usize, line: usize, out: &mut Vec<AsmLine>)
    ensures
        extends(old(out)@, final(out)@, file, line),
        final(out)@.len() > old(out)@.len(),
        texts(final(out)@) == texts(old(out)@) + addr_lines("STA".spec_bytes(), addr),
{
    emit_addr("STA", addr, file, line, out);
}

fn emit_addr(op: &str, addr: AddrExpr, file: usize, line: usize, out: &mut Vec<AsmLine>)
    ensures
        extends(old(out)@, final(out)@, file, line),
        final(out)@.len() > old(out)@.len(),
        texts(final(out)@) == texts(old(out)@) + addr_lines(op.spec_bytes(), addr),
{
    let ghost t0 = texts(out@);
    match addr.offset {
        None => emit(out, op_abs(op, addr.base), file, line),
        Some(CTerm::Imm(v)) => emit(out, op_abs(op, addr.base.wrapping_add(v as u16)), file, line),
        Some(CTerm::Var(v)) => {
            let ghost o0 = out@;
            emit(out, op_zp("LDY", v), file, line);
            let ghost o1 = out@;
            emit(out, with_y(op_abs(op, addr.base)), file, line);
            proof { lemma_extends_trans(o0, o1, out@, file, line); }
        },
    }
    assert(texts(out@) =~= t0 + addr_lines(op.spec_bytes(), addr));
}

/// Loads a term into the accumulator.
pub fn emit_term_into_a(term: CTerm, file: usize, line: usize, out: &mut Vec<AsmLine>)
    ensures
        final(out)@.len() == old(out)@.len() + 1,
        extends(old(out)@, final(out)@, file, line),
        texts(final(out)@) == texts(old(out)@).push(term_text(term)),
{
    match term {
        CTerm::Imm(v) => {
            let mut t = text_of("LDA #$");
            push_hex(&mut t, v as u32, 2);
            emit(out, t, file, line);
        },
        CTerm::Var(v) => emit(out, op_zp("LDA", v), file, line),
    }
}

proof fn lemma_extends_trans(a: Seq<AsmLine>, b: Seq<AsmLine>, c: Seq<AsmLine>, file: usize, line: usize)
    requires
        extends(a, b, file, line),
        extends(b, c, file, line),
    ensures
        extends(a, c, file, line),
{
    assert forall|i: int| 0 <= i < a.len() implies c[i] == a[i] by {
        assert(c.subrange(0, b.len() as int)[i] == b[i]);
        assert(b.subrange(0, a.len() as int)[i] == a[i]);
    }
    assert(c.subrange(0, a.len() as int) =~= a);
    assert forall|i: int| a.len() <= i < c.len() implies (#[trigger] c[i]).file == file && c[i].line == line by {
        if i < b.len() {
            assert(c.subrange(0, b.len() as int)[i] == b[i]);
        }
    }
}

proof fn lemma_extends_refl(a: Seq<AsmLine>, file: usize, line: usize)
    ensures
        extends(a, a, file, line),
{
    assert(a.subrange(0, a.len() as int) =~= a);
}

/// Emits `OP $XX` for each of a list of zero-page operations.
fn emit_seq_zp(ops: &[(&str, u8)], file: usize, line: usize, out: &mut Vec<AsmLine>)
    ensures
        extends(old(out)@, final(out)@, file, line),
        texts(final(out)@) == texts(old(out)@) + Seq::new(ops@.len(), |i: int| zp_text(ops@[i].0.spec_bytes(), ops@[i].1)),
{
    let ghost o0 = out@;
    proof { lemma_extends_refl(o0, file, line); }
    let mut k: usize = 0;
    while k < ops.len()
        invariant
            k <= ops@.len(),
            extends(o0, out@, file, line),
            o0 == old(out)@,
            texts(out@) == texts(o0) + Seq::new(k as nat, |i: int| zp_text(ops@[i].0.spec_bytes(), ops@[i].1)),
        decreases ops@.len() - k,
    {
        let ghost o1 = out@;
        let (op, v) = ops[k];
        emit(out, op_zp(op, v), file, line);
        proof { lemma_extends_trans(o0, o1, out@, file, line); }
        k = k + 1;
        assert(texts(out@) =~= texts(o0) + Seq::new(k as nat, |i: int| zp_text(ops@[i].0.spec_bytes(), ops@[i].1)));
    }
}

fn emit_text(s: &str, file: usize, line: usize, out: &mut Vec<AsmLine>)
    ensures
        final(out)@.len() == old(out)@.len() + 1,
        final(out)@.last().text@ == s.spec_bytes(),
        extends(old(out)@, final(out)@, file, line),
        texts(final(out)@) == texts(old(out)@).push(s.spec_bytes()),
{
    emit(out, text_of(s), file, line);
}

/// A shift loop's label.
fn shift_label_exec(prefix: &str, line: usize, n: usize) -> (r: Vec<u8>)
    ensures
        r@ == shift_label(prefix.spec_bytes(), line, n as nat),
{
    let mut t = text_of(prefix);
    push_dec(&mut t, line);
    t.push(95);
    push_dec(&mut t, n);
    assert(t@ =~= shift_label(prefix.spec_bytes(), line, n as nat));
    t
}

/// Emits the lines that combine the two spilled operands.
fn emit_combine(op: CBinOp, file: usize, line: usize, out: &mut Vec<AsmLine>)
    ensures
        extends(old(out)@, final(out)@, file, line),
        texts(final(out)@) == texts(old(out)@) + combine_lines(op, line, old(out)@.len()),
{
    let ghost o0 = out@;
    let ghost t0 = texts(out@);
    proof { lemma_extends_refl(o0, file, line); }
    match op {
        CBinOp::Add => {
            emit_text("CLC", file, line, out);
            let ghost o1 = out@;
            emit(out, op_zp("ADC", C_EXPR_TMP_RHS), file, line);
            proof { lemma_extends_trans(o0, o1, out@, file, line); }
        },
        CBinOp::Sub => {
            emit_text("SEC", file, line, out);
            let ghost o1 = out@;
            emit(out, op_zp("SBC", C_EXPR_TMP_RHS), file, line);
            proof { lemma_extends_trans(o0, o1, out@, file, line); }
        },
        CBinOp::And => emit(out, op_zp("AND", C_EXPR_TMP_RHS), file, line),
        CBinOp::Xor => emit(out, op_zp("EOR", C_EXPR_TMP_RHS), file, line),
        CBinOp::Or => emit(out, op_zp("ORA", C_EXPR_TMP_RHS), file, line),
        CBinOp::Shl | CBinOp::Shr => {
            let n = out.len();
            let loop_label = shift_label_exec("CEXSHIFT", line, n);
            let done_label = shift_label_exec("CEXDONE", line, n);
            let shift = if op == CBinOp::Shl { "ASL" } else { "LSR" };
            emit_seq_zp(&[("STA", C_EXPR_TMP_LHS), ("LDA", C_EXPR_TMP_RHS)], file, line, out);
            let ghost o1 = out@;
            emit_text("AND #$07", file, line, out);
            proof { lemma_extends_trans(o0, o1, out@, file, line); }
            let ghost o2 = out@;
            emit(out, op_zp("STA", C_EXPR_TMP_CNT), file, line);
            proof { lemma_extends_trans(o0, o2, out@, file, line); }
            let ghost o3 = out@;
            emit(out, label_def(loop_label.as_slice()), file, line);
            proof { lemma_extends_trans(o0, o3, out@, file, line); }
            let ghost o4 = out@;
            emit(out, op_zp("LDA", C_EXPR_TMP_CNT), file, line);
            proof { lemma_extends_trans(o0, o4, out@, file, line); }
            let ghost o5 = out@;
            emit(out, op_label("BEQ", done_label.as_slice()), file, line);
            proof { lemma_extends_trans(o0, o5, out@, file, line); }
            let ghost o6 = out@;
            emit_seq_zp(&[(shift, C_EXPR_TMP_LHS), ("DEC", C_EXPR_TMP_CNT)], file, line, out);
            proof { lemma_extends_trans(o0, o6, out@, file, line); }
            let ghost o7 = out@;
            emit(out, op_label("JMP", loop_label.as_slice()), file, line);
            proof { lemma_extends_trans(o0, o7, out@, file, line); }
            let ghost o8 = out@;
            emit(out, label_def(done_label.as_slice()), file, line);
            proof { lemma_extends_trans(o0, o8, out@, file, line); }
            let ghost o9 = out@;
            emit(out, op_zp("LDA", C_EXPR_TMP_LHS), file, line);
            proof { lemma_extends_trans(o0, o9, out@, file, line); }
        },
    }
    assert(texts(out@) =~= t0 + combine_lines(op, line, o0.len()));
}

/// Compiles an expression tree into code that leaves its value in the
/// accumulator. Each binary node spills its left value to one scratch slot
/// and its right value to another, then combines them; shifts run a
/// counted loop of one-bit shifts, with the count masked to 0..=7.
pub fn emit_cexpr_into_a(expr: &CExpr, file: usize, line: usize, out: &mut Vec<AsmLine>)
    ensures
        extends(old(out)@, final(out)@, file, line),
        final(out)@.len() > old(out)@.len(),
        texts(final(out)@) == texts(old(out)@) + cexpr_lines(*expr, line, old(out)@.len()),
    decreases expr,
{
    let ghost o0 = out@;
    let ghost t0 = texts(out@);
    match expr {
        CExpr::Term(t) => {
            emit_term_into_a(*t, file, line, out);
            assert(texts(out@) =~= t0 + cexpr_lines(*expr, line, o0.len()));
        },
        CExpr::Mem(a) => {
            emit_load_addr(*a, file, line, out);
        },
        CExpr::Not(inner) => {
            emit_cexpr_into_a(inner, file, line, out);
            let ghost o1 = out@;
            emit_text("EOR #$FF", file, line, out);
            proof { lemma_extends_trans(o0, o1, out@, file, line); }
            assert(texts(out@) =~= t0 + cexpr_lines(*expr, line, o0.len()));
        },
        CExpr::Bin(lhs, op, rhs) => {
            emit_cexpr_into_a(lhs, file, line, out);
            let ghost o1 = out@;
            emit(out, op_zp("STA", C_EXPR_TMP_LHS), file, line);
            proof { lemma_extends_trans(o0, o1, out@, file, line); }
            let ghost o2 = out@;
            emit_cexpr_into_a(rhs, file, line, out);
            proof { lemma_extends_trans(o0, o2, out@, file, line); }
            let ghost o3 = out@;
            emit_seq_zp(&[("STA", C_EXPR_TMP_RHS), ("LDA", C_EXPR_TMP_LHS)], file, line, out);
            proof { lemma_extends_trans(o0, o3, out@, file, line); }
            let ghost o4 = out@;
            emit_combine(*op, file, line, out);
            proof { lemma_extends_trans(o0, o4, out@, file, line); }
            proof {
                let ll = cexpr_lines(**lhs, line, o0.len() as nat);
                let rl = cexpr_lines(**rhs, line, o2.len() as nat);
                assert(texts(o1) == t0 + ll);
                assert(o1.len() == texts(o1).len());
                assert(o2.len() == o0.len() + ll.len() + 1);
                assert(o4.len() == o2.len() + rl.len() + 2);
                assert(texts(out@) =~= t0 + cexpr_lines(*expr, line, o0.len()));
            }
        },
    }
}

/// A C compile error: the `.c` file, the 1-based line (zero where the
/// error concerns the whole file), and why.
#[derive(Clone, Copy, PartialEq, Eq, Structural, Debug)]
pub struct CError {
    pub file: usize,
    pub line: usize,
    pub kind: CErrorKind,
}

/// Every variable address fits in zero page.
pub open spec fn zp_vars(vars: Seq<NamedValue>) -> bool {
    forall|k: int| 0 <= k < vars.len() ==> vars[k].value <= 0xFF
}

/// The tree of expression text: its tokens, parsed in full by the
/// precedence grammar.
pub open spec fn expr_tree(expr: Seq<u8>, vars: Seq<(Seq<u8>, u16)>, consts: Seq<(Seq<u8>, u16)>) -> Option<CExpr> {
    match tokens_from(expr, 0) {
        Some(ts) => if ts.len() > 0 {
            match level_spec(ts, 0, 0, vars, consts) {
                Ok((e, j)) => if j == ts.len() { Some(e) } else { None },
                Err(_) => None,
            }
        } else {
            None
        },
        None => None,
    }
}

/// Compiles expression text into code that leaves its value in the
/// accumulator.
pub fn emit_expr_into_a(
    expr: &[u8],
    vars: &Vec<NamedValue>,
    consts: &Vec<NamedValue>,
    file: usize,
    line: usize,
    out: &mut Vec<AsmLine>,
) -> (r: Result<(), CError>)
    requires
        zp_vars(vars@),
    ensures
        r matches Err(e) ==> e.file == file && final(out)@ == old(out)@,
        extends(old(out)@, final(out)@, file, line),
        r is Ok ==> final(out)@.len() > old(out)@.len(),
        r is Ok <==> expr_tree(expr@, nv(vars@), nv(consts@)) is Some,
        r is Ok ==> texts(final(out)@) == texts(old(out)@) + cexpr_lines(expr_tree(expr@, nv(vars@), nv(consts@)).unwrap(), line, old(out)@.len()),
{
    let ghost o0 = out@;
    proof { lemma_extends_refl(o0, file, line); }
    let toks = match tokenize_expr(expr) {
        Ok(t) => t,
        Err(kind) => {
            return Err(CError { file, line, kind: CErrorKind::BadExpression });
        },
    };
    let (parsed, j) = match parse_level(&toks, 0, 0, vars, consts) {
        Ok(p) => p,
        Err(kind) => {
            return Err(CError { file, line, kind });
        },
    };
    if j != toks.len() {
        return Err(CError { file, line, kind: CErrorKind::BadExpression });
    }
    emit_cexpr_into_a(&parsed, file, line, out);
    Ok(())
}

/// `OP LABEL`.
pub open spec fn label_text(op: Seq<u8>, label: Seq<u8>) -> Seq<u8> {
    op + seq![32u8] + label
}

/// The branches that leave a comparison for `false_label` when it fails.
/// Unsigned `<=` has no single flag test: it branches to a fresh label when
/// carry is clear or the values are equal, and jumps away otherwise.
pub open spec fn branch_lines(op: CmpOp, false_label: Seq<u8>, counter: usize) -> Seq<Seq<u8>> {
    match op {
        CmpOp::Eq => seq![label_text("BNE".spec_bytes(), false_label)],
        CmpOp::Ne => seq![label_text("BEQ".spec_bytes(), false_label)],
        CmpOp::Lt => seq![label_text("BCS".spec_bytes(), false_label)],
        CmpOp::Ge => seq![label_text("BCC".spec_bytes(), false_label)],
        CmpOp::Gt => seq![label_text("BCC".spec_bytes(), false_label), label_text("BEQ".spec_bytes(), false_label)],
        CmpOp::Le => {
            let ok = "CCMPOK".spec_bytes() + dec_digits(counter as nat);
            seq![
                label_text("BCC".spec_bytes(), ok),
                label_text("BEQ".spec_bytes(), ok),
                label_text("JMP".spec_bytes(), false_label),
                ok.push(58u8)
            ]
        },
    }
}

/// The trees of a condition's two sides, where it parses.
pub open spec fn cond_trees(cond: Seq<u8>, vars: Seq<(Seq<u8>, u16)>, consts: Seq<(Seq<u8>, u16)>) -> Option<(CExpr, CExpr)> {
    match crate::cparse::cond_op(cond) {
        None => None,
        Some(op) => match crate::cparse::cond_result(cond, op) {
            Err(_) => None,
            Ok((l, _, r)) => match (expr_tree(l, vars, consts), expr_tree(r, vars, consts)) {
                (Some(a), Some(b)) => Some((a, b)),
                _ => None,
            },
        },
    }
}

/// The code of a condition: the left side into `$23`, the right side into
/// `$21`, a compare of the two, then the branches for the comparison.
pub open spec fn cond_lines(lt: CExpr, rt: CExpr, op: CmpOp, false_label: Seq<u8>, counter: usize, line: usize, n: nat) -> Seq<Seq<u8>> {
    let ll = cexpr_lines(lt, line, n);
    let n1 = n + ll.len() + 1;
    ll + seq![zp_text("STA".spec_bytes(), C_EXPR_TMP_CMP)] + cexpr_lines(rt, line, n1) + seq![
        zp_text("STA".spec_bytes(), C_EXPR_TMP_RHS),
        zp_text("LDA".spec_bytes(), C_EXPR_TMP_CMP),
        zp_text("CMP".spec_bytes(), C_EXPR_TMP_RHS)
    ] + branch_lines(op, false_label, counter)
}

/// Compiles a condition `left OP right` into code that falls through when
/// it holds and jumps to `false_label` when it does not. `<=` takes a
/// fresh label from `counter`.
#[verifier::spinoff_prover]
#[verifier::rlimit(100)]
pub fn emit_condition_false_jump(
    cond: &[u8],
    false_label: &[u8],
    vars: &Vec<NamedValue>,
    consts: &Vec<NamedValue>,
    file: usize,
    line: usize,
    out: &mut Vec<AsmLine>,
    counter: &mut usize,
) -> (r: Result<(), CError>)
    requires
        zp_vars(vars@),
    ensures
        r matches Err(e) ==> e.file == file && final(out)@ == old(out)@ && *final(counter) == *old(counter),
        extends(old(out)@, final(out)@, file, line),
        r is Ok <==> cond_trees(cond@, nv(vars@), nv(consts@)) is Some,
        r is Ok ==> texts(final(out)@) == texts(old(out)@) + cond_lines(
            cond_trees(cond@, nv(vars@), nv(consts@)).unwrap().0,
            cond_trees(cond@, nv(vars@), nv(consts@)).unwrap().1,
            crate::cparse::cond_op(cond@).unwrap(),
            false_label@,
            *old(counter),
            line,
            old(out)@.len(),
        ),
        r is Ok ==> *final(counter) == (if crate::cparse::cond_op(cond@) == Some(CmpOp::Le) && *old(counter) < usize::MAX {
            (*old(counter) + 1) as usize
        } else {
            *old(counter)
        }),
        crate::cparse::cond_op(cond@) is None ==> r is Err,
{
    let ghost o0 = out@;
    let ghost t0 = texts(out@);
    let ghost c0 = *counter;
    let start_len = out.len();
    proof { lemma_extends_refl(o0, file, line); }
    let (left, op, right) = match parse_condition(cond) {
        Ok(p) => p,
        Err(kind) => {
            return Err(CError { file, line, kind });
        },
    };
    match emit_expr_into_a(left.as_slice(), vars, consts, file, line, out) {
        Ok(()) => {},
        Err(e) => {
            return Err(e);
        },
    }
    let ghost o1 = out@;
    let ghost lt = expr_tree(left@, nv(vars@), nv(consts@)).unwrap();
    emit(out, op_zp("STA", C_EXPR_TMP_CMP), file, line);
    proof { lemma_extends_trans(o0, o1, out@, file, line); }
    let ghost o2 = out@;
    match emit_expr_into_a(right.as_slice(), vars, consts, file, line, out) {
        Ok(()) => {},
        Err(e) => {
            out.truncate(start_len);
            assert(out@ =~= o0) by {
                assert(o2.subrange(0, o0.len() as int) == o0);
            }
            return Err(e);
        },
    }
    let ghost o3a = out@;
    let ghost rt = expr_tree(right@, nv(vars@), nv(consts@)).unwrap();
    proof { lemma_extends_trans(o0, o2, out@, file, line); }
    let ghost o3 = out@;
    emit_seq_zp(&[("STA", C_EXPR_TMP_RHS), ("LDA", C_EXPR_TMP_CMP), ("CMP", C_EXPR_TMP_RHS)], file, line, out);
    proof { lemma_extends_trans(o0, o3, out@, file, line); }
    let ghost o4 = out@;
    match op {
        CmpOp::Eq => emit(out, op_label("BNE", false_label), file, line),
        CmpOp::Ne => emit(out, op_label("BEQ", false_label), file, line),
        CmpOp::Lt => emit(out, op_label("BCS", false_label), file, line),
        CmpOp::Ge => emit(out, op_label("BCC", false_label), file, line),
        CmpOp::Gt => {
            emit(out, op_label("BCC", false_label), file, line);
            let ghost o5 = out@;
            emit(out, op_label("BEQ", false_label), file, line);
            proof { lemma_extends_trans(o4, o5, out@, file, line); }
        },
        CmpOp::Le => {
            let ok_label = fresh_label("CCMPOK", *counter);
            *counter = counter.saturating_add(1);
            emit(out, op_label("BCC", ok_label.as_slice()), file, line);
            let ghost o5 = out@;
            emit(out, op_label("BEQ", ok_label.as_slice()), file, line);
            proof { lemma_extends_trans(o4, o5, out@, file, line); }
            let ghost o6 = out@;
            emit(out, op_label("JMP", false_label), file, line);
            proof { lemma_extends_trans(o4, o6, out@, file, line); }
            let ghost o7 = out@;
            emit(out, label_def(ok_label.as_slice()), file, line);
            proof { lemma_extends_trans(o4, o7, out@, file, line); }
        },
    }
    proof {
        lemma_extends_trans(o0, o4, out@, file, line);
        let bl = branch_lines(op, false_label@, c0);
        assert(texts(out@) =~= texts(o4) + bl);
        assert(o1.len() == texts(o1).len());
        assert(texts(out@) =~= t0 + cond_lines(lt, rt, op, false_label@, c0, line, o0.len()));
        assert(crate::cparse::cond_op(cond@) == Some(op));
        assert(cond_trees(cond@, nv(vars@), nv(consts@)) == Some((lt, rt)));
    }
    Ok(())
}

/// Whether a function's return is the halt sentinel: `Init` and `Update`
/// end with `BRK`, all others with `RTS`.
pub fn is_frame_function(name: &[u8]) -> (r: bool)
    ensures
        r == (name@ == "Init".spec_bytes() || name@ == "Update".spec_bytes()),
{
    same_text(name, "Init") || same_text(name, "Update")
}

/// The code of an assignment `lhs = rhs;` when `n` lines precede it: the
/// right side into the accumulator and a store to the left side (a memory
/// access or a variable); a memory access on the right is a plain load.
pub open spec fn assign_lines(t: Seq<u8>, vars: Seq<(Seq<u8>, u16)>, consts: Seq<(Seq<u8>, u16)>, line: usize, n: nat) -> Option<Seq<Seq<u8>>> {
    match crate::cparse::first_of(t, 61) {
        None => None,
        Some(eq) => {
            let lhs = crate::cparse::trimmed(t.subrange(0, eq));
            let rhs0 = crate::cparse::trimmed(t.subrange(eq + 1, t.len() as int));
            let semi = ";".spec_bytes();
            if !crate::cparse::has_suffix(rhs0, semi) {
                None
            } else {
                let rhs = crate::cparse::trimmed(rhs0.subrange(0, rhs0.len() - semi.len()));
                match mem_access(lhs, vars, consts) {
                    Some(m) => match (addr_spec(m, vars, consts), expr_tree(rhs, vars, consts)) {
                        (Ok(a), Some(e)) => Some(cexpr_lines(e, line, n) + addr_lines("STA".spec_bytes(), a)),
                        _ => None,
                    },
                    None => if !is_ident(lhs) {
                        None
                    } else {
                        match named_from(vars, lhs, 0) {
                            None => None,
                            Some(v) => match mem_access(rhs, vars, consts) {
                                Some(m) => match addr_spec(m, vars, consts) {
                                    Ok(a) => Some(addr_lines("LDA".spec_bytes(), a).push(zp_text("STA".spec_bytes(), v as u8))),
                                    Err(_) => None,
                                },
                                None => match expr_tree(rhs, vars, consts) {
                                    Some(e) => Some(cexpr_lines(e, line, n).push(zp_text("STA".spec_bytes(), v as u8))),
                                    None => None,
                                },
                            },
                        }
                    },
                }
            }
        },
    }
}

/// The code of one statement when `n` lines precede it: `return;` (`BRK`
/// in `Init` and `Update`, else `RTS`), a call `NAME();`, `x++;`, `x--;`,
/// or an assignment; `None` where it does not compile.
#[verifier::opaque]
pub open spec fn stmt_lines(stmt: Seq<u8>, fn_name: Seq<u8>, vars: Seq<(Seq<u8>, u16)>, consts: Seq<(Seq<u8>, u16)>, line: usize, n: nat) -> Option<Seq<Seq<u8>>> {
    let t = crate::cparse::trimmed(stmt);
    if t == "return;".spec_bytes() {
        Some(seq![if fn_name == "Init".spec_bytes() || fn_name == "Update".spec_bytes() { "BRK".spec_bytes() } else { "RTS".spec_bytes() }])
    } else if crate::cparse::has_suffix(t, seq![41u8, 59u8]) && crate::cparse::has_suffix(t.subrange(0, t.len() - 2), seq![40u8]) {
        let callee = crate::cparse::trimmed(t.subrange(0, t.len() - 3));
        if is_ident(callee) { Some(seq![label_text("JSR".spec_bytes(), callee)]) } else { None }
    } else if crate::cparse::has_suffix(t, seq![43u8, 43u8, 59u8]) {
        match named_from(vars, crate::cparse::trimmed(t.subrange(0, t.len() - 3)), 0) {
            Some(v) => Some(seq![zp_text("INC".spec_bytes(), v as u8)]),
            None => None,
        }
    } else if crate::cparse::has_suffix(t, seq![45u8, 45u8, 59u8]) {
        match named_from(vars, crate::cparse::trimmed(t.subrange(0, t.len() - 3)), 0) {
            Some(v) => Some(seq![zp_text("DEC".spec_bytes(), v as u8)]),
            None => None,
        }
    } else {
        assign_lines(t, vars, consts, line, n)
    }
}

/// A statement that is neither `return;`, a call, nor an increment or
/// decrement.
pub open spec fn plain_stmt(t: Seq<u8>) -> bool {
    &&& t != "return;".spec_bytes()
    &&& !(crate::cparse::has_suffix(t, seq![41u8, 59u8]) && crate::cparse::has_suffix(t.subrange(0, t.len() - 2), seq![40u8]))
    &&& !crate::cparse::has_suffix(t, seq![43u8, 43u8, 59u8])
    &&& !crate::cparse::has_suffix(t, seq![45u8, 45u8, 59u8])
}

/// Compiles one statement: `return;`, a call `Name();`, `x++;`, `x--;`, or
/// an assignment `lhs = expr;` whose either side may be a memory access.
#[verifier::spinoff_prover]
#[verifier::rlimit(100)]
pub fn compile_c_stmt(
    stmt: &[u8],
    fn_name: &[u8],
    vars: &Vec<NamedValue>,
    consts: &Vec<NamedValue>,
    file: usize,
    line: usize,
    out: &mut Vec<AsmLine>,
) -> (r: Result<(), CError>)
    requires
        zp_vars(vars@),
    ensures
        r matches Err(e) ==> e.file == file && final(out)@ == old(out)@,
        extends(old(out)@, final(out)@, file, line),
        r is Ok ==> final(out)@.len() > old(out)@.len(),
        r is Ok <==> stmt_lines(stmt@, fn_name@, nv(vars@), nv(consts@), line, old(out)@.len()) is Some,
        plain_stmt(crate::cparse::trimmed(stmt@)) && crate::cparse::first_of(crate::cparse::trimmed(stmt@), 61) is None ==> (r matches Err(
            e,
        ) && e.kind == CErrorKind::UnsupportedStatement),
        ({
            let t = crate::cparse::trimmed(stmt@);
            plain_stmt(t) && (crate::cparse::first_of(t, 61) matches Some(eq) && !crate::cparse::has_suffix(
                crate::cparse::trimmed(t.subrange(eq + 1, t.len() as int)),
                ";".spec_bytes(),
            ))
        }) ==> (r matches Err(e) && e.kind == CErrorKind::ExpectedSemicolon),
        ({
            let t = crate::cparse::trimmed(stmt@);
            t != "return;".spec_bytes() && !(crate::cparse::has_suffix(t, seq![41u8, 59u8]) && crate::cparse::has_suffix(
                t.subrange(0, t.len() - 2),
                seq![40u8],
            )) && (crate::cparse::has_suffix(t, seq![43u8, 43u8, 59u8]) || crate::cparse::has_suffix(t, seq![45u8, 45u8, 59u8]))
                && named_from(nv(vars@), crate::cparse::trimmed(t.subrange(0, t.len() - 3)), 0) is None
        }) ==> (r matches Err(e) && e.kind == CErrorKind::UnknownVariable),
        r is Ok ==> texts(final(out)@) == texts(old(out)@) + stmt_lines(stmt@, fn_name@, nv(vars@), nv(consts@), line, old(out)@.len()).unwrap(),
        plain_stmt(crate::cparse::trimmed(stmt@)) ==> (r is Ok <==> assign_lines(crate::cparse::trimmed(stmt@), nv(vars@), nv(consts@), line, old(out)@.len()) is Some),
        plain_stmt(crate::cparse::trimmed(stmt@)) && r is Ok ==> texts(final(out)@) == texts(old(out)@) + assign_lines(
            crate::cparse::trimmed(stmt@),
            nv(vars@),
            nv(consts@),
            line,
            old(out)@.len(),
        ).unwrap(),
        crate::cparse::trimmed(stmt@) == "return;".spec_bytes() ==> r is Ok && texts(final(out)@) == texts(old(out)@).push(
            if fn_name@ == "Init".spec_bytes() || fn_name@ == "Update".spec_bytes() { "BRK".spec_bytes() } else { "RTS".spec_bytes() },
        ),
        ({
            let t = crate::cparse::trimmed(stmt@);
            let callee = crate::cparse::trimmed(t.subrange(0, t.len() - 3));
            (t != "return;".spec_bytes() && crate::cparse::has_suffix(t, seq![41u8, 59u8])
                && crate::cparse::has_suffix(t.subrange(0, t.len() - 2), seq![40u8])) ==> (r is Ok <==> is_ident(
                callee,
            )) && (r is Ok ==> texts(final(out)@) == texts(old(out)@).push(label_text("JSR".spec_bytes(), callee)))
        }),
        ({
            let t = crate::cparse::trimmed(stmt@);
            let var = crate::cparse::trimmed(t.subrange(0, t.len() - 3));
            (t != "return;".spec_bytes() && !crate::cparse::has_suffix(t, seq![41u8, 59u8])
                && crate::cparse::has_suffix(t, seq![43u8, 43u8, 59u8])) ==> (r is Ok <==> exists|i: int|
                0 <= i < vars@.len() && vars@[i].name@ == var) && (r is Ok ==> exists|i: int|
                0 <= i < vars@.len() && vars@[i].name@ == var && texts(final(out)@) == texts(old(out)@).push(
                zp_text("INC".spec_bytes(), vars@[i].value as u8),
            ))
        }),
        ({
            let t = crate::cparse::trimmed(stmt@);
            let var = crate::cparse::trimmed(t.subrange(0, t.len() - 3));
            (t != "return;".spec_bytes() && !crate::cparse::has_suffix(t, seq![41u8, 59u8])
                && !crate::cparse::has_suffix(t, seq![43u8, 43u8, 59u8]) && crate::cparse::has_suffix(
                t,
                seq![45u8, 45u8, 59u8],
            )) ==> (r is Ok <==> exists|i: int| 0 <= i < vars@.len() && vars@[i].name@ == var) && (r is Ok
                ==> exists|i: int|
                0 <= i < vars@.len() && vars@[i].name@ == var && texts(final(out)@) == texts(old(out)@).push(
                zp_text("DEC".spec_bytes(), vars@[i].value as u8),
            ))
        }),
{
    reveal(stmt_lines);
    let ghost o0 = out@;
    proof { lemma_extends_refl(o0, file, line); }
    let s = trim_all(stmt);
    let ghost t0 = texts(out@);
    if same_text(s.as_slice(), "return;") {
        if is_frame_function(fn_name) {
            emit_text("BRK", file, line, out);
        } else {
            emit_text("RTS", file, line, out);
        }
        assert(texts(out@) =~= t0 + stmt_lines(stmt@, fn_name@, nv(vars@), nv(consts@), line, o0.len()).unwrap());
        return Ok(());
    }
    let close_call: [u8; 2] = [41, 59];
    let open_paren: [u8; 1] = [40];
    let incr: [u8; 3] = [43, 43, 59];
    assert(close_call@ =~= seq![41u8, 59u8]);
    assert(open_paren@ =~= seq![40u8]);
    assert(incr@ =~= seq![43u8, 43u8, 59u8]);
    let decr: [u8; 3] = [45, 45, 59];
    assert(decr@ =~= seq![45u8, 45u8, 59u8]);
    match crate::cparse::strip_suffix_bytes(s.as_slice(), close_call.as_slice()) {
        Some(call) => match crate::cparse::strip_suffix_bytes(call.as_slice(), open_paren.as_slice()) {
            Some(name) => {
                assert(name@ =~= s@.subrange(0, s@.len() - 3));
                let ident = trim_all(name.as_slice());
                if !validate_ident(ident.as_slice()) {
                    return Err(CError { file, line, kind: CErrorKind::InvalidIdentifier });
                }
                emit(out, op_label("JSR", ident.as_slice()), file, line);
                assert(texts(out@) =~= t0 + stmt_lines(stmt@, fn_name@, nv(vars@), nv(consts@), line, o0.len()).unwrap());
                return Ok(());
            },
            None => {},
        },
        None => {},
    }
    match crate::cparse::strip_suffix_bytes(s.as_slice(), incr.as_slice()) {
        Some(name) => {
            let n = trim_all(name.as_slice());
            return match find_named(vars, n.as_slice()) {
                Some(a) => {
                    emit(out, op_zp("INC", a as u8), file, line);
                    proof {
                        let i = choose|i: int| 0 <= i < vars@.len() && vars@[i].name@ == n@ && vars@[i].value == a;
                        assert(texts(out@) == t0.push(zp_text("INC".spec_bytes(), vars@[i].value as u8)));
                        assert(texts(out@) =~= t0 + stmt_lines(stmt@, fn_name@, nv(vars@), nv(consts@), line, o0.len()).unwrap());
                    }
                    Ok(())
                },
                None => Err(CError { file, line, kind: CErrorKind::UnknownVariable }),
            };
        },
        None => {},
    }
    match crate::cparse::strip_suffix_bytes(s.as_slice(), decr.as_slice()) {
        Some(name) => {
            let n = trim_all(name.as_slice());
            return match find_named(vars, n.as_slice()) {
                Some(a) => {
                    emit(out, op_zp("DEC", a as u8), file, line);
                    proof {
                        let i = choose|i: int| 0 <= i < vars@.len() && vars@[i].name@ == n@ && vars@[i].value == a;
                        assert(texts(out@) == t0.push(zp_text("DEC".spec_bytes(), vars@[i].value as u8)));
                        assert(texts(out@) =~= t0 + stmt_lines(stmt@, fn_name@, nv(vars@), nv(consts@), line, o0.len()).unwrap());
                    }
                    Ok(())
                },
                None => Err(CError { file, line, kind: CErrorKind::UnknownVariable }),
            };
        },
        None => {},
    }
    let eq = match find_byte(s.as_slice(), 61) {
        Some(e) => e,
        None => {
            return Err(CError { file, line, kind: CErrorKind::UnsupportedStatement });
        },
    };
    let slen = s.len();
    let lhs = trim_range(s.as_slice(), 0, eq);
    let rhs0 = trim_range(s.as_slice(), eq + 1, slen);
    let rhs = match strip_suffix(rhs0.as_slice(), ";") {
        Some(r) => trim_all(r.as_slice()),
        None => {
            return Err(CError { file, line, kind: CErrorKind::ExpectedSemicolon });
        },
    };
    match parse_mem_access_expr(lhs.as_slice(), vars, consts) {
        Some(mem) => {
            let addr = match parse_addr_expr(mem.as_slice(), vars, consts) {
                Ok(a) => a,
                Err(_) => {
                    return Err(CError { file, line, kind: CErrorKind::BadAddressExpression });
                },
            };
            match emit_expr_into_a(rhs.as_slice(), vars, consts, file, line, out) {
                Ok(()) => {},
                Err(e) => {
                    return Err(e);
                },
            }
            let ghost o1 = out@;
            emit_store_addr(addr, file, line, out);
            proof {
                lemma_extends_trans(o0, o1, out@, file, line);
                assert(texts(out@) =~= texts(o0) + assign_lines(s@, nv(vars@), nv(consts@), line, o0.len()).unwrap());
            }
            return Ok(());
        },
        None => {},
    }
    if !validate_ident(lhs.as_slice()) {
        return Err(CError { file, line, kind: CErrorKind::InvalidIdentifier });
    }
    let target = match find_named(vars, lhs.as_slice()) {
        Some(a) => a as u8,
        None => {
            return Err(CError { file, line, kind: CErrorKind::UnknownVariable });
        },
    };
    match parse_mem_access_expr(rhs.as_slice(), vars, consts) {
        Some(mem) => {
            let addr = match parse_addr_expr(mem.as_slice(), vars, consts) {
                Ok(a) => a,
                Err(_) => {
                    return Err(CError { file, line, kind: CErrorKind::BadAddressExpression });
                },
            };
            emit_load_addr(addr, file, line, out);
            let ghost o1 = out@;
            emit(out, op_zp("STA", target), file, line);
            proof {
                lemma_extends_trans(o0, o1, out@, file, line);
                assert(texts(out@) =~= texts(o0) + assign_lines(s@, nv(vars@), nv(consts@), line, o0.len()).unwrap());
            }
            return Ok(());
        },
        None => {},
    }
    match emit_expr_into_a(rhs.as_slice(), vars, consts, file, line, out) {
        Ok(()) => {},
        Err(e) => {
            return Err(e);
        },
    }
    let ghost o1 = out@;
    emit(out, op_zp("STA", target), file, line);
    proof {
        lemma_extends_trans(o0, o1, out@, file, line);
        assert(texts(out@) =~= texts(o0) + assign_lines(s@, nv(vars@), nv(consts@), line, o0.len()).unwrap());
    }
    Ok(())
}

/// An open control-flow construct and the labels it resolves when its
/// closing brace is seen.
pub enum FlowBlock {
    If { else_label: Vec<u8>, end_label: Vec<u8> },
    Else { end_label: Vec<u8> },
    While { start_label: Vec<u8>, end_label: Vec<u8> },
    For { start_label: Vec<u8>, end_label: Vec<u8>, step: Option<Vec<u8>> },
}

/// Whether `a` sorts before `b`, byte by byte, from position `i`.
pub open spec fn less_from(a: Seq<u8>, b: Seq<u8>, i: int) -> bool
    decreases a.len() - i,
{
    if i < 0 || i >= a.len() || i >= b.len() {
        a.len() < b.len()
    } else if a[i] != b[i] {
        a[i] < b[i]
    } else {
        less_from(a, b, i + 1)
    }
}

/// Whether `a` sorts before `b`, byte by byte.
fn bytes_less(a: &[u8], b: &[u8]) -> (r: bool)
    ensures
        r == less_from(a@, b@, 0),
{
    let mut i: usize = 0;
    while i < a.len() && i < b.len()
        invariant
            i <= a@.len(),
            i <= b@.len(),
            less_from(a@, b@, 0) == less_from(a@, b@, i as int),
        decreases a@.len() - i,
    {
        if a[i] != b[i] {
            return a[i] < b[i];
        }
        i = i + 1;
    }
    a.len() < b.len()
}

/// Whether file `i` is compiled before file `p`: `main.c` first, then by
/// path.
pub open spec fn sorts_before(files: Seq<SourceFile>, i: int, p: int) -> bool {
    let mi = files[i].path@ == "main.c".spec_bytes();
    let mp = files[p].path@ == "main.c".spec_bytes();
    if mi != mp { mi } else { less_from(files[i].path@, files[p].path@, 0) }
}

/// Where file `i` goes in the order `r` built so far: after every entry it
/// does not sort before, scanning back from `pos`.
pub open spec fn ins_pos(files: Seq<SourceFile>, r: Seq<usize>, i: int, pos: int) -> int
    decreases pos,
{
    if pos <= 0 {
        0
    } else if !sorts_before(files, i, r[pos - 1] as int) {
        pos
    } else {
        ins_pos(files, r, i, pos - 1)
    }
}

/// The compile order of the first `k` files.
pub open spec fn order_upto(files: Seq<SourceFile>, k: int) -> Seq<usize>
    decreases k,
{
    if k <= 0 {
        Seq::empty()
    } else {
        let r = order_upto(files, k - 1);
        r.insert(ins_pos(files, r, k - 1, r.len() as int), (k - 1) as usize)
    }
}

pub open spec fn c_order(files: Seq<SourceFile>) -> Seq<usize> {
    order_upto(files, files.len() as int)
}

proof fn lemma_ins_pos_bound(files: Seq<SourceFile>, r: Seq<usize>, i: int, pos: int)
    requires
        0 <= pos <= r.len(),
    ensures
        0 <= ins_pos(files, r, i, pos) <= pos,
    decreases pos,
{
    if pos > 0 && sorts_before(files, i, r[pos - 1] as int) {
        lemma_ins_pos_bound(files, r, i, pos - 1);
    }
}

/// The order in which C sources are compiled: `main.c` first, then the
/// others by path.
pub fn order_c_files(files: &Vec<SourceFile>) -> (r: Vec<usize>)
    ensures
        r@ == c_order(files@),
        r@.len() == files@.len(),
        forall|i: int| 0 <= i < r@.len() ==> r@[i] < files@.len(),
        forall|k: usize| k < files@.len() ==> r@.contains(k),
{
    let mut r: Vec<usize> = Vec::new();
    let mut i: usize = 0;
    while i < files.len()
        invariant
            i <= files@.len(),
            r@.len() == i,
            r@ == order_upto(files@, i as int),
            forall|k: int| 0 <= k < r@.len() ==> r@[k] < files@.len(),
            forall|k: usize| k < i ==> r@.contains(k),
        decreases files@.len() - i,
    {
        // insert i after every entry that sorts before it
        let main_i = same_text(files[i].path.as_slice(), "main.c");
        let mut pos: usize = r.len();
        let ghost r0 = r@;
        while pos > 0
            invariant
                pos <= r@.len(),
                r@ == r0,
                r@.len() == i,
                i < files@.len(),
                forall|k: int| 0 <= k < r@.len() ==> r@[k] < files@.len(),
                main_i == (files@[i as int].path@ == "main.c".spec_bytes()),
                ins_pos(files@, r0, i as int, r0.len() as int) == ins_pos(files@, r0, i as int, pos as int),
            ensures
                pos <= r@.len(),
                r@ == r0,
                ins_pos(files@, r0, i as int, r0.len() as int) == pos,
            decreases pos,
        {
            let prev = r[pos - 1];
            let main_p = same_text(files[prev].path.as_slice(), "main.c");
            let before = if main_i != main_p {
                main_i
            } else {
                bytes_less(files[i].path.as_slice(), files[prev].path.as_slice())
            };
            if !before {
                break;
            }
            pos = pos - 1;
        }
        let ghost before = r@;
        r.insert(pos, i);
        proof {
            assert(r@ == before.insert(pos as int, i));
            assert forall|k: usize| k < i + 1 implies r@.contains(k) by {
                if k == i {
                    assert(r@[pos as int] == i);
                } else {
                    assert(before.contains(k));
                    let idx = choose|idx: int| 0 <= idx < before.len() && before[idx] == k;
                    if idx < pos {
                        assert(r@[idx] == k);
                    } else {
                        assert(r@[idx + 1] == k);
                    }
                }
            }
        }
        i = i + 1;
    }
    r
}

/// A copy of a table of names.
fn copy_table(t: &Vec<NamedValue>) -> (r: Vec<NamedValue>)
    ensures
        r@.len() == t@.len(),
        forall|i: int| 0 <= i < r@.len() ==> r@[i].name@ == t@[i].name@ && r@[i].value == t@[i].value,
{
    let mut r: Vec<NamedValue> = Vec::new();
    let mut i: usize = 0;
    while i < t.len()
        invariant
            i <= t@.len(),
            r@.len() == i,
            forall|k: int| 0 <= k < i ==> r@[k].name@ == t@[k].name@ && r@[k].value == t@[k].value,
        decreases t@.len() - i,
    {
        let n = copy_range(t[i].name.as_slice(), 0, t[i].name.len());
        assert(n@ =~= t@[i as int].name@);
        r.push(NamedValue { name: n, value: t[i].value });
        i = i + 1;
    }
    r
}

/// The variables visible in a function body: the globals and its locals.
fn scoped_vars(globals: &Vec<NamedValue>, locals: &Vec<NamedValue>) -> (r: Vec<NamedValue>)
    requires
        zp_vars(globals@),
        zp_vars(locals@),
    ensures
        zp_vars(r@),
        nv(r@) == nv(globals@) + nv(locals@),
{
    let mut r = copy_table(globals);
    assert(nv(r@) =~= nv(globals@));
    let mut i: usize = 0;
    while i < locals.len()
        invariant
            i <= locals@.len(),
            zp_vars(r@),
            zp_vars(locals@),
            nv(r@) == nv(globals@) + nv(locals@.subrange(0, i as int)),
        decreases locals@.len() - i,
    {
        let n = copy_range(locals[i].name.as_slice(), 0, locals[i].name.len());
        assert(n@ =~= locals@[i as int].name@);
        let ghost r0 = r@;
        r.push(NamedValue { name: n, value: locals[i].value });
        assert(nv(r@) =~= nv(r0).push((locals@[i as int].name@, locals@[i as int].value)));
        assert(nv(locals@.subrange(0, i + 1)) =~= nv(locals@.subrange(0, i as int)).push(
            (locals@[i as int].name@, locals@[i as int].value),
        ));
        i = i + 1;
        assert(nv(r@) =~= nv(globals@) + nv(locals@.subrange(0, i as int)));
    }
    assert(locals@.subrange(0, locals@.len() as int) =~= locals@);
    r
}

fn cerr(file: usize, line: usize, kind: CErrorKind) -> (r: CError)
    ensures
        r == (CError { file, line, kind }),
{
    CError { file, line, kind }
}

/// A source line with its comment removed and whitespace trimmed.
/// A source line with its comment removed and whitespace trimmed.
pub open spec fn clean(raw: Seq<u8>) -> Seq<u8> {
    crate::cparse::trimmed(crate::cparse::comment_cut(raw))
}

fn clean_line(raw: &[u8]) -> (r: Vec<u8>)
    ensures
        r@ == clean(raw@),
{
    let s = strip_c_comments(raw);
    trim_all(s.as_slice())
}

/// The first pass's state: the globals so far, the zero-page cursor, and
/// the brace depth inside a function body (zero outside functions).
pub struct GState {
    pub vars: Seq<(Seq<u8>, u16)>,
    pub zp: u8,
    pub depth: usize,
}

/// One cleaned line in the first pass: function bodies are skipped by
/// brace depth, and each global declaration takes the next zero-page
/// address; a duplicate global or an exhausted zero page is an error.
#[verifier::opaque]
pub open spec fn global_step(line: Seq<u8>, st: GState) -> Option<GState> {
    if line.len() == 0 || crate::cparse::has_prefix(line, "#include".spec_bytes()) {
        Some(st)
    } else if st.depth > 0 {
        if line == "}".spec_bytes() {
            Some(GState { depth: (st.depth - 1) as usize, ..st })
        } else if crate::cparse::has_suffix(line, "{".spec_bytes()) && st.depth < usize::MAX {
            Some(GState { depth: (st.depth + 1) as usize, ..st })
        } else {
            Some(st)
        }
    } else {
        match crate::cparse::fn_header(line, true) {
            Err(_) => None,
            Ok(Some(_)) => Some(st),
            Ok(None) => match extern_spec(line) {
                Err(_) => None,
                Ok(true) => Some(st),
                Ok(false) => match crate::cparse::fn_header(line, false) {
                    Err(_) => None,
                    Ok(Some(_)) => Some(GState { depth: 1, ..st }),
                    Ok(None) => match crate::cparse::global_decl(line) {
                        Err(_) => None,
                        Ok(None) => Some(st),
                        Ok(Some(name)) => if named_from(st.vars, name, 0) is Some || st.zp == 0xFF {
                            None
                        } else {
                            Some(GState { vars: st.vars.push((name, st.zp as u16)), zp: (st.zp + 1) as u8, ..st })
                        },
                    },
                },
            },
        }
    }
}

/// The first pass over the first `k` lines of a file.
pub open spec fn global_fold(lines: Seq<Seq<u8>>, k: int, st: GState) -> Option<GState>
    decreases k,
{
    if k <= 0 {
        Some(st)
    } else {
        match global_fold(lines, k - 1, st) {
            None => None,
            Some(s) => global_step(clean(lines[k - 1]), s),
        }
    }
}

/// The first pass over the files in compile order, from the first `k`.
pub open spec fn globals_upto(files: Seq<SourceFile>, order: Seq<usize>, k: int) -> Option<(Seq<(Seq<u8>, u16)>, u8)>
    decreases k,
{
    if k <= 0 {
        Some((Seq::empty(), 0x40u8))
    } else {
        match globals_upto(files, order, k - 1) {
            None => None,
            Some((v, z)) => {
                let ls = lines_of(files[order[k - 1] as int].text@);
                match global_fold(ls, ls.len() as int, GState { vars: v, zp: z, depth: 0 }) {
                    None => None,
                    Some(s) => Some((s.vars, s.zp)),
                }
            },
        }
    }
}

proof fn lemma_global_none(lines: Seq<Seq<u8>>, k: int, n: int, st: GState)
    requires
        0 <= k <= n,
        global_fold(lines, k, st) is None,
    ensures
        global_fold(lines, n, st) is None,
    decreases n - k,
{
    if k < n {
        lemma_global_none(lines, k + 1, n, st);
    }
}

proof fn lemma_globals_none(files: Seq<SourceFile>, order: Seq<usize>, k: int, n: int)
    requires
        0 <= k <= n,
        globals_upto(files, order, k) is None,
    ensures
        globals_upto(files, order, n) is None,
    decreases n - k,
{
    if k < n {
        lemma_globals_none(files, order, k + 1, n);
    }
}

/// One line of the first pass.
#[verifier::spinoff_prover]
#[verifier::rlimit(100)]
fn global_line(line: &[u8], f: usize, line_no: usize, vars: &mut Vec<NamedValue>, next_zp: &mut u8, depth: &mut usize) -> (r: Result<(), CError>)
    requires
        zp_vars(old(vars)@),
    ensures
        r matches Err(e) ==> e.file == f,
        zp_vars(final(vars)@),
        match global_step(line@, GState { vars: nv(old(vars)@), zp: *old(next_zp), depth: *old(depth) }) {
            None => r is Err,
            Some(s) => r is Ok && s == GState { vars: nv(final(vars)@), zp: *final(next_zp), depth: *final(depth) },
        },
{
    reveal(global_step);
    if line.len() == 0 || starts_with(line, "#include") {
        return Ok(());
    }
    if *depth > 0 {
        if same_text(line, "}") {
            *depth = *depth - 1;
        } else if ends_with(line, "{") && *depth < usize::MAX {
            *depth = *depth + 1;
        }
        return Ok(());
    }
    match parse_fn_proto(line) {
        Ok(Some(_)) => {
            return Ok(());
        },
        Ok(None) => {},
        Err(k) => {
            return Err(cerr(f, line_no, k));
        },
    }
    match parse_extern_decl(line) {
        Ok(true) => {
            return Ok(());
        },
        Ok(false) => {},
        Err(k) => {
            return Err(cerr(f, line_no, k));
        },
    }
    match parse_fn_start(line) {
        Ok(Some(_)) => {
            *depth = 1;
            return Ok(());
        },
        Ok(None) => {},
        Err(k) => {
            return Err(cerr(f, line_no, k));
        },
    }
    match parse_global_char_decl(line) {
        Ok(Some(name)) => {
            if find_named(vars, name.as_slice()).is_some() {
                return Err(cerr(f, line_no, CErrorKind::DuplicateGlobal));
            }
            if *next_zp == 0xFF {
                return Err(cerr(f, line_no, CErrorKind::OutOfZeroPage));
            }
            let ghost v0 = vars@;
            let ghost nm = name@;
            vars.push(NamedValue { name, value: *next_zp as u16 });
            assert(nv(vars@) =~= nv(v0).push((nm, *next_zp as u16)));
            *next_zp = *next_zp + 1;
            Ok(())
        },
        Ok(None) => Ok(()),
        Err(k) => Err(cerr(f, line_no, k)),
    }
}

/// The first pass: allocates the globals of every file, in compile order,
/// from one zero-page cursor starting at `$40`.
fn collect_globals(files: &Vec<SourceFile>, order: &Vec<usize>, vars: &mut Vec<NamedValue>, next_zp: &mut u8) -> (r: Result<(), CError>)
    requires
        forall|i: int| 0 <= i < order@.len() ==> order@[i] < files@.len(),
        old(vars)@.len() == 0,
        *old(next_zp) == 0x40,
    ensures
        r matches Err(e) ==> e.file < files@.len(),
        zp_vars(final(vars)@),
        match globals_upto(files@, order@, order@.len() as int) {
            None => r is Err,
            Some((v, z)) => r is Ok && nv(final(vars)@) == v && *final(next_zp) == z,
        },
{
    let mut oi: usize = 0;
    assert(nv(vars@) =~= Seq::<(Seq<u8>, u16)>::empty());
    while oi < order.len()
        invariant
            oi <= order@.len(),
            forall|i: int| 0 <= i < order@.len() ==> order@[i] < files@.len(),
            zp_vars(vars@),
            globals_upto(files@, order@, oi as int) == Some((nv(vars@), *next_zp)),
        decreases order@.len() - oi,
    {
        let f = order[oi];
        let lines = split_lines(files[f].text.as_slice());
        let ghost ls = crate::assembler::deep_view(lines@);
        let ghost st0 = GState { vars: nv(vars@), zp: *next_zp, depth: 0 };
        let mut depth: usize = 0;
        let mut idx: usize = 0;
        while idx < lines.len()
            invariant
                idx <= lines@.len(),
                ls == crate::assembler::deep_view(lines@),
                ls == lines_of(files@[f as int].text@),
                zp_vars(vars@),
                f < files@.len(),
                f == order@[oi as int],
                oi < order@.len(),
                globals_upto(files@, order@, oi as int) == Some((st0.vars, st0.zp)),
                st0.depth == 0,
                global_fold(ls, idx as int, st0) == Some(GState { vars: nv(vars@), zp: *next_zp, depth: depth }),
            decreases lines@.len() - idx,
        {
            let line_no = idx + 1;
            let line = clean_line(lines[idx].as_slice());
            assert(lines@[idx as int]@ == ls[idx as int]);
            let r = global_line(line.as_slice(), f, line_no, vars, next_zp, &mut depth);
            idx = idx + 1;
            match r {
                Ok(()) => {},
                Err(e) => {
                    proof {
                        lemma_global_none(ls, idx as int, ls.len() as int, st0);
                        lemma_globals_none(files@, order@, oi + 1, order@.len() as int);
                    }
                    return Err(e);
                },
            }
        }
        oi = oi + 1;
    }
    Ok(())
}

/// Appends `text` to a copy of `s`.
fn with_suffix(s: &[u8], text: &str) -> (r: Vec<u8>)
    ensures
        r@ == s@ + text.spec_bytes(),
{
    let mut r = copy_range(s, 0, s.len());
    assert(r@ =~= s@);
    push_text(&mut r, text);
    r
}

/// Whether a name is among a list of names.
fn has_name(names: &Vec<Vec<u8>>, name: &[u8]) -> (r: bool)
    ensures
        r == crate::assembler::deep_view(names@).contains(name@),
{
    let mut i: usize = 0;
    while i < names.len()
        invariant
            i <= names@.len(),
            forall|k: int| 0 <= k < i ==> names@[k]@ != name@,
        decreases names@.len() - i,
    {
        let n = &names[i];
        assert(n@.subrange(0, n@.len() as int) =~= n@);
        if crate::text::range_eq(n.as_slice(), 0, n.len(), name) {
            assert(crate::assembler::deep_view(names@)[i as int] == name@);
            return true;
        }
        i = i + 1;
    }
    assert(!crate::assembler::deep_view(names@).contains(name@)) by {
        if crate::assembler::deep_view(names@).contains(name@) {
            let k = choose|k: int| 0 <= k < names@.len() && crate::assembler::deep_view(names@)[k] == name@;
            assert(names@[k]@ == name@);
        }
    }
    false
}

/// Every generated line names a file of the list and a line from 1 on.
pub open spec fn files_in(out: Seq<AsmLine>, n: int) -> bool {
    forall|i: int| 0 <= i < out.len() ==> (#[trigger] out[i]).file < n && out[i].line >= 1
}

proof fn lemma_files_in_extends(a: Seq<AsmLine>, b: Seq<AsmLine>, f: usize, line: usize, n: int)
    requires
        files_in(a, n),
        extends(a, b, f, line),
        f < n,
        line >= 1,
    ensures
        files_in(b, n),
{
    assert forall|i: int| 0 <= i < b.len() implies (#[trigger] b[i]).file < n && b[i].line >= 1 by {
        if i < a.len() {
            assert(b.subrange(0, a.len() as int)[i] == a[i]);
        }
    }
}


/// An open control construct, as text: the labels it will resolve.
pub enum GFlow {
    If(Seq<u8>, Seq<u8>),
    Else(Seq<u8>),
    While(Seq<u8>, Seq<u8>),
    For(Seq<u8>, Seq<u8>, Option<Seq<u8>>),
}

/// The state of a function body being compiled, as text: its name, its
/// locals, the open constructs, and an `if` whose `else` may follow.
pub struct GBody {
    pub name: Seq<u8>,
    pub locals: Seq<(Seq<u8>, u16)>,
    pub flow: Seq<GFlow>,
    pub pending: Option<Seq<u8>>,
}

/// What one body line yields: its code, the body after it (`None` once
/// the function is closed), the zero-page cursor and the label counter.
pub struct BodyOut {
    pub lines: Seq<Seq<u8>>,
    pub body: Option<GBody>,
    pub zp: u8,
    pub counter: usize,
}

pub open spec fn flow_view(b: FlowBlock) -> GFlow {
    match b {
        FlowBlock::If { else_label, end_label } => GFlow::If(else_label@, end_label@),
        FlowBlock::Else { end_label } => GFlow::Else(end_label@),
        FlowBlock::While { start_label, end_label } => GFlow::While(start_label@, end_label@),
        FlowBlock::For { start_label, end_label, step } => GFlow::For(start_label@, end_label@, crate::cparse::opt_view(step)),
    }
}

pub open spec fn body_view(b: BodyState) -> GBody {
    GBody {
        name: b.name@,
        locals: nv(b.locals@),
        flow: b.flow@.map_values(|x: FlowBlock| flow_view(x)),
        pending: crate::cparse::opt_view(b.pending_else_end),
    }
}

pub open spec fn sat_inc(c: usize) -> usize {
    if c < usize::MAX { (c + 1) as usize } else { c }
}

/// `PREFIX` and a counter value in decimal.
pub open spec fn label_of(prefix: Seq<u8>, c: usize) -> Seq<u8> {
    prefix + dec_digits(c as nat)
}

/// The counter after a condition: `<=` takes one more label.
pub open spec fn after_cond(cond: Seq<u8>, c: usize) -> usize {
    if crate::cparse::cond_op(cond) == Some(CmpOp::Le) { sat_inc(c) } else { c }
}

/// The code of a condition that jumps to `false_label`.
pub open spec fn cond_code(cond: Seq<u8>, vars: Seq<(Seq<u8>, u16)>, consts: Seq<(Seq<u8>, u16)>, false_label: Seq<u8>, c: usize, line: usize, n: nat) -> Option<Seq<Seq<u8>>> {
    match cond_trees(cond, vars, consts) {
        Some((l, r)) => Some(cond_lines(l, r, crate::cparse::cond_op(cond).unwrap(), false_label, c, line, n)),
        None => None,
    }
}

/// The closing brace of an open construct: an `if` jumps past its `else`
/// part and may take an `else`, a loop jumps back to its start (a `for`
/// after its step), and every construct ends with its end label.
#[verifier::opaque]
pub open spec fn close_spec(block: GFlow, name: Seq<u8>, vars: Seq<(Seq<u8>, u16)>, consts: Seq<(Seq<u8>, u16)>, line: usize, n: nat) -> Option<(Seq<Seq<u8>>, Option<Seq<u8>>)> {
    match block {
        GFlow::If(else_l, end_l) => Some((seq![label_text("JMP".spec_bytes(), end_l), else_l.push(58u8)], Some(end_l))),
        GFlow::Else(end_l) => Some((seq![end_l.push(58u8)], None)),
        GFlow::While(start, end_l) => Some((seq![label_text("JMP".spec_bytes(), start), end_l.push(58u8)], None)),
        GFlow::For(start, end_l, step) => {
            let step_code: Option<Seq<Seq<u8>>> = match step {
                Some(st) => stmt_lines(st + ";".spec_bytes(), name, vars, consts, line, n),
                None => Some(Seq::empty()),
            };
            match step_code {
                Some(sc) => Some((sc + seq![label_text("JMP".spec_bytes(), start), end_l.push(58u8)], None)),
                None => None,
            }
        },
    }
}

/// Prefixes the code already produced for a line.
pub open spec fn with_pre(pre: Seq<Seq<u8>>, o: Option<BodyOut>) -> Option<BodyOut> {
    match o {
        Some(x) => Some(BodyOut { lines: pre + x.lines, ..x }),
        None => None,
    }
}

/// A local declaration: the next zero-page address, and its initializer
/// (compiled with the new local visible) stored there.
#[verifier::opaque]
pub open spec fn decl_branch(scoped: Seq<(Seq<u8>, u16)>, consts: Seq<(Seq<u8>, u16)>, name: Seq<u8>, init: Option<Seq<u8>>, ln: usize, b: GBody, zp: u8, c: usize, n: nat) -> Option<BodyOut> {
    if named_from(scoped, name, 0) is Some || zp == 0xFF {
        None
    } else {
        let nb = GBody { locals: b.locals.push((name, zp as u16)), ..b };
        match init {
            None => Some(BodyOut { lines: Seq::empty(), body: Some(nb), zp: (zp + 1) as u8, counter: c }),
            Some(e) => match expr_tree(e, scoped.push((name, zp as u16)), consts) {
                None => None,
                Some(t) => Some(BodyOut {
                    lines: cexpr_lines(t, ln, n) + seq![zp_text("STA".spec_bytes(), zp)],
                    body: Some(nb),
                    zp: (zp + 1) as u8,
                    counter: c,
                }),
            },
        }
    }
}

/// `if (cond) {`: two fresh labels (end, then else) and a jump to the else
/// label when the condition fails.
#[verifier::opaque]
pub open spec fn if_branch(scoped: Seq<(Seq<u8>, u16)>, consts: Seq<(Seq<u8>, u16)>, cond: Seq<u8>, ln: usize, b: GBody, zp: u8, c: usize, n: nat) -> Option<BodyOut> {
    let end_l = label_of("CIFEND".spec_bytes(), c);
    let c1 = sat_inc(c);
    let else_l = label_of("CIFELSE".spec_bytes(), c1);
    let c2 = sat_inc(c1);
    match cond_code(cond, scoped, consts, else_l, c2, ln, n) {
        None => None,
        Some(code) => Some(BodyOut {
            lines: code,
            body: Some(GBody { flow: b.flow.push(GFlow::If(else_l, end_l)), ..b }),
            zp: zp,
            counter: after_cond(cond, c2),
        }),
    }
}

/// `while (cond) {`: a start label, then a jump to the end label when the
/// condition fails.
#[verifier::opaque]
pub open spec fn while_branch(scoped: Seq<(Seq<u8>, u16)>, consts: Seq<(Seq<u8>, u16)>, cond: Seq<u8>, ln: usize, b: GBody, zp: u8, c: usize, n: nat) -> Option<BodyOut> {
    let start = label_of("CWHILES".spec_bytes(), c);
    let c1 = sat_inc(c);
    let end_l = label_of("CWHILEE".spec_bytes(), c1);
    let c2 = sat_inc(c1);
    match cond_code(cond, scoped, consts, end_l, c2, ln, n + 1) {
        None => None,
        Some(code) => Some(BodyOut {
            lines: seq![start.push(58u8)] + code,
            body: Some(GBody { flow: b.flow.push(GFlow::While(start, end_l)), ..b }),
            zp: zp,
            counter: after_cond(cond, c2),
        }),
    }
}

/// `for (init; cond; step) {`: the init once, a start label, then the
/// condition as in `while`; the step waits for the closing brace.
#[verifier::opaque]
pub open spec fn for_branch(scoped: Seq<(Seq<u8>, u16)>, consts: Seq<(Seq<u8>, u16)>, init: Option<Seq<u8>>, cond: Option<Seq<u8>>, step: Option<Seq<u8>>, ln: usize, b: GBody, zp: u8, c: usize, n: nat) -> Option<BodyOut> {
    let init_code: Option<Seq<Seq<u8>>> = match init {
        Some(i) => stmt_lines(i + ";".spec_bytes(), b.name, scoped, consts, ln, n),
        None => Some(Seq::empty()),
    };
    match init_code {
        None => None,
        Some(ic) => {
            let start = label_of("CFORS".spec_bytes(), c);
            let c1 = sat_inc(c);
            let end_l = label_of("CFORE".spec_bytes(), c1);
            let c2 = sat_inc(c1);
            let n2 = n + ic.len() + 1;
            let cond_part: Option<(Seq<Seq<u8>>, usize)> = match cond {
                Some(cd) => match cond_code(cd, scoped, consts, end_l, c2, ln, n2) {
                    Some(code) => Some((code, after_cond(cd, c2))),
                    None => None,
                },
                None => Some((Seq::empty(), c2)),
            };
            match cond_part {
                None => None,
                Some((code, c3)) => Some(BodyOut {
                    lines: ic + seq![start.push(58u8)] + code,
                    body: Some(GBody { flow: b.flow.push(GFlow::For(start, end_l, step)), ..b }),
                    zp: zp,
                    counter: c3,
                }),
            }
        },
    }
}

/// A closing brace: it closes the innermost construct, or else the
/// function, which ends with `BRK` (`Init`, `Update`) or `RTS` and an
/// empty line.
#[verifier::opaque]
pub open spec fn close_branch(scoped: Seq<(Seq<u8>, u16)>, consts: Seq<(Seq<u8>, u16)>, ln: usize, b: GBody, zp: u8, c: usize, n: nat) -> Option<BodyOut> {
    if b.flow.len() > 0 {
        match close_spec(b.flow.last(), b.name, scoped, consts, ln, n) {
            None => None,
            Some((code, pend)) => Some(BodyOut {
                lines: code,
                body: Some(GBody { flow: b.flow.drop_last(), pending: pend, ..b }),
                zp: zp,
                counter: c,
            }),
        }
    } else {
        let ret = if b.name == "Init".spec_bytes() || b.name == "Update".spec_bytes() {
            "BRK".spec_bytes()
        } else {
            "RTS".spec_bytes()
        };
        Some(BodyOut { lines: seq![ret, Seq::empty()], body: None, zp: zp, counter: c })
    }
}

/// One line of a function body, after any pending `else` was settled;
/// `pre` is the code that settling produced.
#[verifier::opaque]
pub open spec fn body_rest(g: Seq<(Seq<u8>, u16)>, consts: Seq<(Seq<u8>, u16)>, line: Seq<u8>, ln: usize, b: GBody, zp: u8, c: usize, n: nat, pre: Seq<Seq<u8>>) -> Option<BodyOut> {
    let scoped = g + b.locals;
    let n1 = n + pre.len();
    with_pre(pre, match crate::cparse::char_decl(line) {
        Err(_) => None,
        Ok(Some((name, init))) => decl_branch(scoped, consts, name, init, ln, b, zp, c, n1),
        Ok(None) => match crate::cparse::paren_spec(crate::cparse::trimmed(line), "if".spec_bytes()) {
            Err(_) => None,
            Ok(Some(cond)) => if_branch(scoped, consts, cond, ln, b, zp, c, n1),
            Ok(None) => match crate::cparse::paren_spec(crate::cparse::trimmed(line), "while".spec_bytes()) {
                Err(_) => None,
                Ok(Some(cond)) => while_branch(scoped, consts, cond, ln, b, zp, c, n1),
                Ok(None) => match crate::cparse::for_spec(line) {
                    Err(_) => None,
                    Ok(Some((init, cond, step))) => for_branch(scoped, consts, init, cond, step, ln, b, zp, c, n1),
                    Ok(None) => if line == "}".spec_bytes() {
                        close_branch(scoped, consts, ln, b, zp, c, n1)
                    } else {
                        match stmt_lines(line, b.name, scoped, consts, ln, n1) {
                            None => None,
                            Some(code) => Some(BodyOut { lines: code, body: Some(b), zp: zp, counter: c }),
                        }
                    },
                },
            },
        },
    })
}

/// One line of a function body: a pending `else` is taken up, or its end
/// label placed, then the line is compiled.
#[verifier::opaque]
pub open spec fn body_step(g: Seq<(Seq<u8>, u16)>, consts: Seq<(Seq<u8>, u16)>, line: Seq<u8>, ln: usize, b: GBody, zp: u8, c: usize, n: nat) -> Option<BodyOut> {
    match b.pending {
        Some(end_l) => if crate::cparse::trimmed(line) == "else {".spec_bytes() || crate::cparse::trimmed(line) == "else{".spec_bytes() {
            Some(BodyOut {
                lines: Seq::empty(),
                body: Some(GBody { flow: b.flow.push(GFlow::Else(end_l)), pending: None, ..b }),
                zp: zp,
                counter: c,
            })
        } else {
            body_rest(g, consts, line, ln, GBody { pending: None, ..b }, zp, c, n, seq![end_l.push(58u8)])
        },
        None => body_rest(g, consts, line, ln, b, zp, c, n, Seq::empty()),
    }
}

/// The state of the function body being compiled.
pub struct BodyState {
    pub name: Vec<u8>,
    pub locals: Vec<NamedValue>,
    pub flow: Vec<FlowBlock>,
    pub pending_else_end: Option<Vec<u8>>,
}

/// Closes the innermost control construct at a closing brace.
#[verifier::spinoff_prover]
#[verifier::rlimit(100)]
fn close_block(
    block: FlowBlock,
    st_name: &[u8],
    scoped: &Vec<NamedValue>,
    consts: &Vec<NamedValue>,
    pending: &mut Option<Vec<u8>>,
    f: usize,
    line_no: usize,
    out: &mut Vec<AsmLine>,
) -> (r: Result<(), CError>)
    requires
        zp_vars(scoped@),
        *old(pending) is None,
    ensures
        r matches Err(e) ==> e.file == f,
        extends(old(out)@, final(out)@, f, line_no),
        match close_spec(flow_view(block), st_name@, nv(scoped@), nv(consts@), line_no, old(out)@.len()) {
            None => r is Err,
            Some((code, pend)) => r is Ok && texts(final(out)@) == texts(old(out)@) + code && crate::cparse::opt_view(
                *final(pending),
            ) == pend,
        },
{
    reveal(close_spec);
    let ghost o0 = out@;
    let ghost t0 = texts(out@);
    let ghost spec = close_spec(flow_view(block), st_name@, nv(scoped@), nv(consts@), line_no, o0.len());
    proof { lemma_extends_refl(o0, f, line_no); }
    match block {
        FlowBlock::If { else_label, end_label } => {
            emit(out, op_label("JMP", end_label.as_slice()), f, line_no);
            let ghost o1 = out@;
            emit(out, label_def(else_label.as_slice()), f, line_no);
            proof { lemma_extends_trans(o0, o1, out@, f, line_no); }
            assert(texts(out@) =~= t0 + spec.unwrap().0);
            *pending = Some(end_label);
        },
        FlowBlock::Else { end_label } => {
            emit(out, label_def(end_label.as_slice()), f, line_no);
            assert(texts(out@) =~= t0 + spec.unwrap().0);
        },
        FlowBlock::While { start_label, end_label } => {
            emit(out, op_label("JMP", start_label.as_slice()), f, line_no);
            let ghost o1 = out@;
            emit(out, label_def(end_label.as_slice()), f, line_no);
            proof { lemma_extends_trans(o0, o1, out@, f, line_no); }
            assert(texts(out@) =~= t0 + spec.unwrap().0);
        },
        FlowBlock::For { start_label, end_label, step } => {
            let ghost sv = crate::cparse::opt_view(step);
            match step {
                Some(step) => {
                    let stmt = with_suffix(step.as_slice(), ";");
                    match compile_c_stmt(stmt.as_slice(), st_name, scoped, consts, f, line_no, out) {
                        Ok(()) => {},
                        Err(e) => {
                            return Err(e);
                        },
                    }
                },
                None => {
                    assert(texts(out@) =~= t0 + Seq::<Seq<u8>>::empty());
                },
            }
            let ghost o1 = out@;
            emit(out, op_label("JMP", start_label.as_slice()), f, line_no);
            proof { lemma_extends_trans(o0, o1, out@, f, line_no); }
            let ghost o2 = out@;
            emit(out, label_def(end_label.as_slice()), f, line_no);
            proof { lemma_extends_trans(o0, o2, out@, f, line_no); }
            assert(texts(out@) =~= t0 + spec.unwrap().0);
        },
    }
    Ok(())
}

/// The exec state after a branch of a body line matches its spec result.
pub open spec fn branch_done(o: Option<BodyOut>, r: Result<bool, CError>, t_old: Seq<Seq<u8>>, t_new: Seq<Seq<u8>>, zp: u8, c: usize, b: GBody) -> bool {
    match o {
        None => r is Err,
        Some(x) => r is Ok && t_new == t_old + x.lines && zp == x.zp && c == x.counter && (r == Ok::<bool, CError>(true)
            <==> x.body is None) && (x.body matches Some(nb) ==> b == nb),
    }
}

#[verifier::spinoff_prover]
#[verifier::rlimit(100)]
fn decl_line(name: Vec<u8>, init: Option<Vec<u8>>, f: usize, line_no: usize, st: &mut BodyState, scoped: &Vec<NamedValue>,
    consts: &Vec<NamedValue>, next_zp: &mut u8, counter: &mut usize, out: &mut Vec<AsmLine>) -> (r: Result<bool, CError>)
    requires
        zp_vars(scoped@),
        zp_vars(old(st).locals@),
    ensures
        r matches Err(e) ==> e.file == f,
        extends(old(out)@, final(out)@, f, line_no),
        zp_vars(final(st).locals@),
        branch_done(decl_branch(nv(scoped@), nv(consts@), name@, crate::cparse::opt_view(init), line_no, body_view(*old(st)),
            *old(next_zp), *old(counter), old(out)@.len()), r, texts(old(out)@), texts(final(out)@), *final(next_zp), *final(counter),
            body_view(*final(st))),
{
    reveal(decl_branch);
    let ghost o0 = out@;
    let ghost b0 = body_view(*st);
    proof { lemma_extends_refl(o0, f, line_no); }
    if find_named(scoped, name.as_slice()).is_some() {
        return Err(cerr(f, line_no, CErrorKind::DuplicateLocal));
    }
    if *next_zp == 0xFF {
        return Err(cerr(f, line_no, CErrorKind::OutOfZeroPage));
    }
    let addr = *next_zp;
    *next_zp = *next_zp + 1;
    match init {
        Some(expr) => {
            let mut with_local = copy_table(scoped);
            assert(nv(with_local@) =~= nv(scoped@));
            let n = copy_range(name.as_slice(), 0, name.len());
            assert(n@ =~= name@);
            let ghost w0 = with_local@;
            with_local.push(NamedValue { name: n, value: addr as u16 });
            assert(nv(with_local@) =~= nv(w0).push((name@, addr as u16)));
            assert(zp_vars(with_local@));
            match emit_expr_into_a(expr.as_slice(), &with_local, consts, f, line_no, out) {
                Ok(()) => {},
                Err(e) => {
                    return Err(e);
                },
            }
            let ghost o1 = out@;
            emit(out, op_zp("STA", addr), f, line_no);
            proof { lemma_extends_trans(o0, o1, out@, f, line_no); }
            assert(texts(out@) =~= texts(o0) + (cexpr_lines(expr_tree(expr@, nv(scoped@).push((name@, addr as u16)), nv(consts@)).unwrap(),
                line_no, o0.len()) + seq![zp_text("STA".spec_bytes(), addr)]));
        },
        None => {
            assert(texts(out@) =~= texts(o0) + Seq::<Seq<u8>>::empty());
        },
    }
    let ghost l0 = st.locals@;
    st.locals.push(NamedValue { name, value: addr as u16 });
    assert(nv(st.locals@) =~= nv(l0).push((name@, addr as u16)));
    assert(body_view(*st) =~= GBody { locals: b0.locals.push((name@, addr as u16)), ..b0 });
    assert(*next_zp == (addr + 1) as u8);
    Ok(false)
}

#[verifier::spinoff_prover]
#[verifier::rlimit(100)]
fn if_line(cond: Vec<u8>, f: usize, line_no: usize, st: &mut BodyState, scoped: &Vec<NamedValue>,
    consts: &Vec<NamedValue>, next_zp: &mut u8, counter: &mut usize, out: &mut Vec<AsmLine>) -> (r: Result<bool, CError>)
    requires
        zp_vars(scoped@),
        zp_vars(old(st).locals@),
    ensures
        r matches Err(e) ==> e.file == f,
        extends(old(out)@, final(out)@, f, line_no),
        zp_vars(final(st).locals@),
        branch_done(if_branch(nv(scoped@), nv(consts@), cond@, line_no, body_view(*old(st)), *old(next_zp), *old(counter),
            old(out)@.len()), r, texts(old(out)@), texts(final(out)@), *final(next_zp), *final(counter), body_view(*final(st))),
{
    reveal(if_branch);
    let ghost b0 = body_view(*st);
    let ghost c0 = *counter;
    let end_label = fresh_label("CIFEND", *counter);
    *counter = counter.saturating_add(1);
    let else_label = fresh_label("CIFELSE", *counter);
    *counter = counter.saturating_add(1);
    let r = emit_condition_false_jump(cond.as_slice(), else_label.as_slice(), scoped, consts, f, line_no, out, counter);
    match r {
        Ok(()) => {},
        Err(e) => {
            return Err(e);
        },
    }
    let ghost fl0 = st.flow@;
    st.flow.push(FlowBlock::If { else_label, end_label });
    assert(st.flow@.map_values(|x: FlowBlock| flow_view(x)) =~= fl0.map_values(|x: FlowBlock| flow_view(x)).push(
        GFlow::If(label_of("CIFELSE".spec_bytes(), sat_inc(c0)), label_of("CIFEND".spec_bytes(), c0)),
    ));
    assert(body_view(*st) =~= GBody { flow: b0.flow.push(GFlow::If(label_of("CIFELSE".spec_bytes(), sat_inc(c0)), label_of("CIFEND".spec_bytes(), c0))), ..b0 });
    Ok(false)
}

#[verifier::spinoff_prover]
#[verifier::rlimit(100)]
fn while_line(cond: Vec<u8>, f: usize, line_no: usize, st: &mut BodyState, scoped: &Vec<NamedValue>,
    consts: &Vec<NamedValue>, next_zp: &mut u8, counter: &mut usize, out: &mut Vec<AsmLine>) -> (r: Result<bool, CError>)
    requires
        zp_vars(scoped@),
        zp_vars(old(st).locals@),
    ensures
        r matches Err(e) ==> e.file == f,
        extends(old(out)@, final(out)@, f, line_no),
        zp_vars(final(st).locals@),
        branch_done(while_branch(nv(scoped@), nv(consts@), cond@, line_no, body_view(*old(st)), *old(next_zp), *old(counter),
            old(out)@.len()), r, texts(old(out)@), texts(final(out)@), *final(next_zp), *final(counter), body_view(*final(st))),
{
    reveal(while_branch);
    let ghost o0 = out@;
    let ghost b0 = body_view(*st);
    let ghost c0 = *counter;
    let start_label = fresh_label("CWHILES", *counter);
    *counter = counter.saturating_add(1);
    let end_label = fresh_label("CWHILEE", *counter);
    *counter = counter.saturating_add(1);
    emit(out, label_def(start_label.as_slice()), f, line_no);
    let ghost o1 = out@;
    let r = emit_condition_false_jump(cond.as_slice(), end_label.as_slice(), scoped, consts, f, line_no, out, counter);
    proof { lemma_extends_trans(o0, o1, out@, f, line_no); }
    match r {
        Ok(()) => {},
        Err(e) => {
            return Err(e);
        },
    }
    let ghost fl0 = st.flow@;
    st.flow.push(FlowBlock::While { start_label, end_label });
    assert(st.flow@.map_values(|x: FlowBlock| flow_view(x)) =~= fl0.map_values(|x: FlowBlock| flow_view(x)).push(
        GFlow::While(label_of("CWHILES".spec_bytes(), c0), label_of("CWHILEE".spec_bytes(), sat_inc(c0))),
    ));
    assert(body_view(*st) =~= GBody { flow: b0.flow.push(GFlow::While(label_of("CWHILES".spec_bytes(), c0), label_of("CWHILEE".spec_bytes(), sat_inc(c0)))), ..b0 });
    assert(texts(out@) =~= texts(o0) + while_branch(nv(scoped@), nv(consts@), cond@, line_no, b0, *old(next_zp), c0, o0.len()).unwrap().lines);
    Ok(false)
}

#[verifier::spinoff_prover]
#[verifier::rlimit(100)]
fn for_line(init: Option<Vec<u8>>, cond: Option<Vec<u8>>, step: Option<Vec<u8>>, f: usize, line_no: usize, st: &mut BodyState,
    scoped: &Vec<NamedValue>, consts: &Vec<NamedValue>, next_zp: &mut u8, counter: &mut usize, out: &mut Vec<AsmLine>) -> (r: Result<bool, CError>)
    requires
        zp_vars(scoped@),
        zp_vars(old(st).locals@),
    ensures
        r matches Err(e) ==> e.file == f,
        extends(old(out)@, final(out)@, f, line_no),
        zp_vars(final(st).locals@),
        branch_done(for_branch(nv(scoped@), nv(consts@), crate::cparse::opt_view(init), crate::cparse::opt_view(cond),
            crate::cparse::opt_view(step), line_no, body_view(*old(st)), *old(next_zp), *old(counter), old(out)@.len()), r,
            texts(old(out)@), texts(final(out)@), *final(next_zp), *final(counter), body_view(*final(st))),
{
    reveal(for_branch);
    let ghost o0 = out@;
    let ghost b0 = body_view(*st);
    let ghost c0 = *counter;
    let ghost sv = crate::cparse::opt_view(step);
    proof { lemma_extends_refl(o0, f, line_no); }
    match init {
        Some(init) => {
            let stmt = with_suffix(init.as_slice(), ";");
            match compile_c_stmt(stmt.as_slice(), st.name.as_slice(), scoped, consts, f, line_no, out) {
                Ok(()) => {},
                Err(e) => {
                    return Err(e);
                },
            }
        },
        None => {
            assert(texts(out@) =~= texts(o0) + Seq::<Seq<u8>>::empty());
        },
    }
    let ghost o1 = out@;
    let start_label = fresh_label("CFORS", *counter);
    *counter = counter.saturating_add(1);
    let end_label = fresh_label("CFORE", *counter);
    *counter = counter.saturating_add(1);
    emit(out, label_def(start_label.as_slice()), f, line_no);
    proof { lemma_extends_trans(o0, o1, out@, f, line_no); }
    let ghost o2 = out@;
    match cond {
        Some(cond) => {
            let r = emit_condition_false_jump(cond.as_slice(), end_label.as_slice(), scoped, consts, f, line_no, out, counter);
            proof { lemma_extends_trans(o0, o2, out@, f, line_no); }
            match r {
                Ok(()) => {},
                Err(e) => {
                    return Err(e);
                },
            }
        },
        None => {
            assert(texts(out@) =~= texts(o2) + Seq::<Seq<u8>>::empty());
        },
    }
    let ghost fl0 = st.flow@;
    st.flow.push(FlowBlock::For { start_label, end_label, step });
    assert(st.flow@.map_values(|x: FlowBlock| flow_view(x)) =~= fl0.map_values(|x: FlowBlock| flow_view(x)).push(
        GFlow::For(label_of("CFORS".spec_bytes(), c0), label_of("CFORE".spec_bytes(), sat_inc(c0)), sv),
    ));
    assert(body_view(*st) =~= GBody { flow: b0.flow.push(GFlow::For(label_of("CFORS".spec_bytes(), c0), label_of("CFORE".spec_bytes(), sat_inc(c0)), sv)), ..b0 });
    assert(texts(out@) =~= texts(o0) + for_branch(nv(scoped@), nv(consts@), crate::cparse::opt_view(init), crate::cparse::opt_view(cond),
        sv, line_no, b0, *old(next_zp), c0, o0.len()).unwrap().lines);
    Ok(false)
}

#[verifier::spinoff_prover]
#[verifier::rlimit(100)]
fn close_line(f: usize, line_no: usize, st: &mut BodyState, scoped: &Vec<NamedValue>,
    consts: &Vec<NamedValue>, next_zp: &mut u8, counter: &mut usize, out: &mut Vec<AsmLine>) -> (r: Result<bool, CError>)
    requires
        zp_vars(scoped@),
        zp_vars(old(st).locals@),
        old(st).pending_else_end is None,
    ensures
        r matches Err(e) ==> e.file == f,
        extends(old(out)@, final(out)@, f, line_no),
        zp_vars(final(st).locals@),
        branch_done(close_branch(nv(scoped@), nv(consts@), line_no, body_view(*old(st)), *old(next_zp), *old(counter),
            old(out)@.len()), r, texts(old(out)@), texts(final(out)@), *final(next_zp), *final(counter), body_view(*final(st))),
{
    reveal(close_branch);
    let ghost o0 = out@;
    let ghost b0 = body_view(*st);
    let ghost fl0 = st.flow@;
    proof { lemma_extends_refl(o0, f, line_no); }
    match st.flow.pop() {
        Some(block) => {
            assert(fl0.map_values(|x: FlowBlock| flow_view(x)).last() == flow_view(block));
            assert(st.flow@.map_values(|x: FlowBlock| flow_view(x)) =~= fl0.map_values(|x: FlowBlock| flow_view(x)).drop_last());
            let r = close_block(block, st.name.as_slice(), scoped, consts, &mut st.pending_else_end, f, line_no, out);
            return match r {
                Ok(()) => Ok(false),
                Err(e) => Err(e),
            };
        },
        None => {},
    }
    if is_frame_function(st.name.as_slice()) {
        emit_text("BRK", f, line_no, out);
    } else {
        emit_text("RTS", f, line_no, out);
    }
    let ghost o1 = out@;
    emit(out, Vec::new(), f, line_no);
    proof { lemma_extends_trans(o0, o1, out@, f, line_no); }
    st.locals = Vec::new();
    assert(texts(out@) =~= texts(o0) + close_branch(nv(scoped@), nv(consts@), line_no, b0, *old(next_zp), *old(counter), o0.len()).unwrap().lines);
    Ok(true)
}

/// Compiles one line inside a function body. Returns whether the line
/// closed the function.
fn body_line(
    line: &[u8],
    f: usize,
    line_no: usize,
    st: &mut BodyState,
    globals: &Vec<NamedValue>,
    consts: &Vec<NamedValue>,
    next_zp: &mut u8,
    counter: &mut usize,
    out: &mut Vec<AsmLine>,
) -> (r: Result<bool, CError>)
    requires
        zp_vars(globals@),
        zp_vars(old(st).locals@),
    ensures
        r matches Err(e) ==> e.file == f,
        extends(old(out)@, final(out)@, f, line_no),
        zp_vars(final(st).locals@),
        branch_done(body_step(nv(globals@), nv(consts@), line@, line_no, body_view(*old(st)), *old(next_zp), *old(counter),
            old(out)@.len()), r, texts(old(out)@), texts(final(out)@), *final(next_zp), *final(counter), body_view(*final(st))),
{
    reveal(body_step);
    reveal(body_rest);
    let ghost o0 = out@;
    let ghost t0 = texts(out@);
    let ghost b0 = body_view(*st);
    proof { lemma_extends_refl(o0, f, line_no); }
    let scoped = scoped_vars(globals, &st.locals);
    let ghost pre: Seq<Seq<u8>> = Seq::empty();
    match st.pending_else_end.take() {
        Some(end_label) => {
            assert(end_label@ == b0.pending.unwrap());
            if parse_else_start(line) {
                let ghost fl0 = st.flow@;
                st.flow.push(FlowBlock::Else { end_label });
                assert(st.flow@.map_values(|x: FlowBlock| flow_view(x)) =~= fl0.map_values(|x: FlowBlock| flow_view(x)).push(
                    GFlow::Else(b0.pending.unwrap()),
                ));
                assert(body_view(*st) =~= GBody { flow: b0.flow.push(GFlow::Else(b0.pending.unwrap())), pending: None, ..b0 });
                assert(texts(out@) =~= t0 + Seq::<Seq<u8>>::empty());
                return Ok(false);
            }
            emit(out, label_def(end_label.as_slice()), f, line_no);
            proof { pre = seq![b0.pending.unwrap().push(58u8)]; }
        },
        None => {},
    }
    let ghost b1 = body_view(*st);
    assert(b1 =~= GBody { pending: None, ..b0 });
    let ghost o1 = out@;
    assert(texts(o1) =~= t0 + pre);
    proof { lemma_extends_refl(o1, f, line_no); }
    let r = match parse_char_decl(line) {
        Ok(Some((name, init))) => decl_line(name, init, f, line_no, st, &scoped, consts, next_zp, counter, out),
        Err(k) => Err(cerr(f, line_no, k)),
        Ok(None) => match parse_if_start(line) {
            Ok(Some(cond)) => if_line(cond, f, line_no, st, &scoped, consts, next_zp, counter, out),
            Err(k) => Err(cerr(f, line_no, k)),
            Ok(None) => match parse_while_start(line) {
                Ok(Some(cond)) => while_line(cond, f, line_no, st, &scoped, consts, next_zp, counter, out),
                Err(k) => Err(cerr(f, line_no, k)),
                Ok(None) => match parse_for_start(line) {
                    Ok(Some((init, cond, step))) => for_line(init, cond, step, f, line_no, st, &scoped, consts, next_zp, counter, out),
                    Err(k) => Err(cerr(f, line_no, k)),
                    Ok(None) => if same_text(line, "}") {
                        close_line(f, line_no, st, &scoped, consts, next_zp, counter, out)
                    } else {
                        match compile_c_stmt(line, st.name.as_slice(), &scoped, consts, f, line_no, out) {
                            Ok(()) => Ok(false),
                            Err(e) => Err(e),
                        }
                    },
                },
            },
        },
    };
    proof { lemma_extends_trans(o0, o1, out@, f, line_no); }
    proof {
        if r is Ok {
            assert(texts(out@) =~= t0 + body_step(nv(globals@), nv(consts@), line@, line_no, b0, *old(next_zp), *old(counter), o0.len()).unwrap().lines);
        }
    }
    r
}

/// The compile state between lines of the second pass, as text: the open
/// function (if any), the zero-page cursor, the label counter, the names
/// of the functions defined so far, and the output with its origins.
pub struct FState {
    pub body: Option<GBody>,
    pub zp: u8,
    pub counter: usize,
    pub defined: Seq<Seq<u8>>,
    pub texts: Seq<Seq<u8>>,
    pub origins: Seq<LineOrigin>,
}

/// `k` origins naming file `f`, line `ln`.
pub open spec fn tags(k: nat, f: usize, ln: usize) -> Seq<LineOrigin> {
    Seq::new(k, |i: int| LineOrigin { file: f, line: ln })
}

/// `extern ...;` lines: `Ok(true)` for one, an error without the `;`.
pub open spec fn extern_spec(line: Seq<u8>) -> Result<bool, CErrorKind> {
    if !crate::cparse::has_prefix(crate::cparse::trimmed(line), "extern ".spec_bytes()) {
        Ok(false)
    } else if crate::cparse::has_suffix(crate::cparse::trimmed(line), ";".spec_bytes()) {
        Ok(true)
    } else {
        Err(CErrorKind::ExternWithoutSemicolon)
    }
}

/// One cleaned line of a file in the second pass. Outside a function, global
/// declarations, `extern` declarations and prototypes are skipped and a
/// function header opens a function (its label is emitted; a second
/// function of one name is an error); anything else is an error. Inside a
/// function the line is compiled as a body line.
#[verifier::opaque]
pub open spec fn top_step(g: Seq<(Seq<u8>, u16)>, consts: Seq<(Seq<u8>, u16)>, f: usize, ln: usize, line: Seq<u8>, st: FState) -> Option<FState> {
    if line.len() == 0 || crate::cparse::has_prefix(line, "#include".spec_bytes()) {
        Some(st)
    } else {
        match st.body {
            None => match crate::cparse::global_decl(line) {
                Err(_) => None,
                Ok(Some(_)) => Some(st),
                Ok(None) => match extern_spec(line) {
                    Err(_) => None,
                    Ok(true) => Some(st),
                    Ok(false) => match crate::cparse::fn_header(line, true) {
                        Err(_) => None,
                        Ok(Some(_)) => Some(st),
                        Ok(None) => match crate::cparse::fn_header(line, false) {
                            Ok(Some(name)) => if st.defined.contains(name) {
                                None
                            } else {
                                Some(FState {
                                    body: Some(GBody { name: name, locals: Seq::empty(), flow: Seq::empty(), pending: None }),
                                    defined: st.defined.push(name),
                                    texts: st.texts.push(name.push(58u8)),
                                    origins: st.origins.push(LineOrigin { file: f, line: ln }),
                                    ..st
                                })
                            },
                            _ => None,
                        },
                    },
                },
            },
            Some(b) => match body_step(g, consts, line, ln, b, st.zp, st.counter, st.texts.len()) {
                None => None,
                Some(o) => Some(FState {
                    body: o.body,
                    zp: o.zp,
                    counter: o.counter,
                    texts: st.texts + o.lines,
                    origins: st.origins + tags(o.lines.len(), f, ln),
                    ..st
                }),
            },
        }
    }
}

/// The second pass over the first `k` lines of a file.
pub open spec fn file_fold(g: Seq<(Seq<u8>, u16)>, consts: Seq<(Seq<u8>, u16)>, f: usize, lines: Seq<Seq<u8>>, k: int, st: FState) -> Option<FState>
    decreases k,
{
    if k <= 0 {
        Some(st)
    } else {
        match file_fold(g, consts, f, lines, k - 1, st) {
            None => None,
            Some(s) => top_step(g, consts, f, k as usize, clean(lines[k - 1]), s),
        }
    }
}

/// The second pass over a whole file; a function still open at its end is
/// an error.
#[verifier::opaque]
pub open spec fn file_spec(g: Seq<(Seq<u8>, u16)>, consts: Seq<(Seq<u8>, u16)>, f: usize, text: Seq<u8>, st: FState) -> Option<FState> {
    match file_fold(g, consts, f, lines_of(text), lines_of(text).len() as int, st) {
        Some(s) => if s.body is None { Some(s) } else { None },
        None => None,
    }
}

pub open spec fn opt_body(b: Option<BodyState>) -> Option<GBody> {
    match b {
        Some(x) => Some(body_view(x)),
        None => None,
    }
}

pub open spec fn fstate(body: Option<BodyState>, zp: u8, c: usize, defined: Seq<Vec<u8>>, out: Seq<AsmLine>) -> FState {
    FState {
        body: opt_body(body),
        zp: zp,
        counter: c,
        defined: crate::assembler::deep_view(defined),
        texts: texts(out),
        origins: origins(out),
    }
}

proof fn lemma_origins_extend(a: Seq<AsmLine>, b: Seq<AsmLine>, f: usize, ln: usize)
    requires
        extends(a, b, f, ln),
    ensures
        origins(b) == origins(a) + tags((b.len() - a.len()) as nat, f, ln),
        texts(b).len() == texts(a).len() + (b.len() - a.len()),
{
    assert forall|i: int| 0 <= i < a.len() implies b[i] == a[i] by {
        assert(b.subrange(0, a.len() as int)[i] == a[i]);
    }
    assert(origins(b) =~= origins(a) + tags((b.len() - a.len()) as nat, f, ln));
}

proof fn lemma_fold_none(g: Seq<(Seq<u8>, u16)>, consts: Seq<(Seq<u8>, u16)>, f: usize, lines: Seq<Seq<u8>>, k: int, n: int, st: FState)
    requires
        0 <= k <= n,
        file_fold(g, consts, f, lines, k, st) is None,
    ensures
        file_fold(g, consts, f, lines, n, st) is None,
    decreases n - k,
{
    if k < n {
        lemma_fold_none(g, consts, f, lines, k + 1, n, st);
    }
}

/// One line of a file in the second pass.
#[verifier::spinoff_prover]
#[verifier::rlimit(100)]
fn file_line(
    line: &[u8],
    f: usize,
    line_no: usize,
    body: &mut Option<BodyState>,
    globals: &Vec<NamedValue>,
    consts: &Vec<NamedValue>,
    next_zp: &mut u8,
    counter: &mut usize,
    defined: &mut Vec<Vec<u8>>,
    out: &mut Vec<AsmLine>,
) -> (r: Result<(), CError>)
    requires
        zp_vars(globals@),
        *old(body) matches Some(b) ==> zp_vars(b.locals@),
    ensures
        r matches Err(e) ==> e.file == f,
        extends(old(out)@, final(out)@, f, line_no),
        *final(body) matches Some(b) ==> zp_vars(b.locals@),
        match top_step(nv(globals@), nv(consts@), f, line_no, line@, fstate(*old(body), *old(next_zp), *old(counter), old(defined)@, old(out)@)) {
            None => r is Err,
            Some(s) => r is Ok && fstate(*final(body), *final(next_zp), *final(counter), final(defined)@, final(out)@) == s,
        },
{
    reveal(top_step);
    let ghost o0 = out@;
    let ghost s0 = fstate(*body, *next_zp, *counter, defined@, out@);
    proof { lemma_extends_refl(o0, f, line_no); }
    if line.len() == 0 || starts_with(line, "#include") {
        return Ok(());
    }
    match body.take() {
        None => {
            match parse_global_char_decl(line) {
                Ok(Some(_)) => {
                    return Ok(());
                },
                Ok(None) => {},
                Err(k) => {
                    return Err(cerr(f, line_no, k));
                },
            }
            match parse_extern_decl(line) {
                Ok(true) => {
                    return Ok(());
                },
                Ok(false) => {},
                Err(k) => {
                    return Err(cerr(f, line_no, k));
                },
            }
            match parse_fn_proto(line) {
                Ok(Some(_)) => {
                    return Ok(());
                },
                Ok(None) => {},
                Err(k) => {
                    return Err(cerr(f, line_no, k));
                },
            }
            match parse_fn_start(line) {
                Ok(Some(name)) => {
                    if has_name(defined, name.as_slice()) {
                        return Err(cerr(f, line_no, CErrorKind::DuplicateFunction));
                    }
                    let nc = copy_range(name.as_slice(), 0, name.len());
                    assert(nc@ =~= name@);
                    let ghost d0 = defined@;
                    defined.push(nc);
                    assert(crate::assembler::deep_view(defined@) =~= crate::assembler::deep_view(d0).push(name@));
                    emit(out, label_def(name.as_slice()), f, line_no);
                    proof { lemma_origins_extend(o0, out@, f, line_no); }
                    assert(origins(out@) =~= origins(o0).push(LineOrigin { file: f, line: line_no }));
                    let ghost lv: Seq<BodyState> = Seq::empty();
                    *body = Some(BodyState { name, locals: Vec::new(), flow: Vec::new(), pending_else_end: None });
                    proof {
                        let b = body.unwrap();
                        assert(nv(b.locals@) =~= Seq::<(Seq<u8>, u16)>::empty());
                        assert(b.flow@.map_values(|x: FlowBlock| flow_view(x)) =~= Seq::<GFlow>::empty());
                    }
                    return Ok(());
                },
                Ok(None) => {},
                Err(k) => {
                    return Err(cerr(f, line_no, k));
                },
            }
            Err(cerr(f, line_no, CErrorKind::ExpectedDeclarationOrFunction))
        },
        Some(mut st) => {
            let r = body_line(line, f, line_no, &mut st, globals, consts, next_zp, counter, out);
            proof { lemma_origins_extend(o0, out@, f, line_no); }
            match r {
                Ok(true) => {
                    *body = None;
                    Ok(())
                },
                Ok(false) => {
                    *body = Some(st);
                    Ok(())
                },
                Err(e) => Err(e),
            }
        },
    }
}

/// Compiles the functions of one file (the second pass).
fn compile_file(
    files: &Vec<SourceFile>,
    f: usize,
    globals: &Vec<NamedValue>,
    consts: &Vec<NamedValue>,
    next_zp: &mut u8,
    counter: &mut usize,
    defined: &mut Vec<Vec<u8>>,
    out: &mut Vec<AsmLine>,
) -> (r: Result<(), CError>)
    requires
        f < files@.len(),
        zp_vars(globals@),
        files_in(old(out)@, files@.len() as int),
    ensures
        r matches Err(e) ==> e.file == f,
        files_in(final(out)@, files@.len() as int),
        match file_spec(nv(globals@), nv(consts@), f, files@[f as int].text@, fstate(None, *old(next_zp), *old(counter), old(defined)@, old(out)@)) {
            None => r is Err,
            Some(s) => r is Ok && fstate(None, *final(next_zp), *final(counter), final(defined)@, final(out)@) == s,
        },
{
    reveal(file_spec);
    let lines = split_lines(files[f].text.as_slice());
    let ghost ls = crate::assembler::deep_view(lines@);
    let ghost g = nv(globals@);
    let ghost cs = nv(consts@);
    let ghost s0 = fstate(None, *next_zp, *counter, defined@, out@);
    let mut body: Option<BodyState> = None;
    let mut idx: usize = 0;
    while idx < lines.len()
        invariant
            idx <= lines@.len(),
            ls == crate::assembler::deep_view(lines@),
            ls == lines_of(files@[f as int].text@),
            g == nv(globals@),
            cs == nv(consts@),
            s0 == fstate(None, *old(next_zp), *old(counter), old(defined)@, old(out)@),
            f < files@.len(),
            zp_vars(globals@),
            files_in(out@, files@.len() as int),
            body matches Some(b) ==> zp_vars(b.locals@),
            file_fold(g, cs, f, ls, idx as int, s0) == Some(fstate(body, *next_zp, *counter, defined@, out@)),
        decreases lines@.len() - idx,
    {
        let line_no = idx + 1;
        let line = clean_line(lines[idx].as_slice());
        assert(lines@[idx as int]@ == ls[idx as int]);
        let ghost o0 = out@;
        let r = file_line(line.as_slice(), f, line_no, &mut body, globals, consts, next_zp, counter, defined, out);
        proof {
            lemma_files_in_extends(o0, out@, f, line_no, files@.len() as int);
        }
        idx = idx + 1;
        match r {
            Ok(()) => {},
            Err(e) => {
                assert(file_fold(g, cs, f, ls, idx as int, s0) is None);
                proof {
                    lemma_fold_none(g, cs, f, ls, idx as int, ls.len() as int, s0);
                    reveal(file_spec);
                }
                assert(file_spec(g, cs, f, files@[f as int].text@, s0) is None);
                return Err(e);
            },
        }
    }
    assert(file_fold(g, cs, f, ls, ls.len() as int, s0) == Some(fstate(body, *next_zp, *counter, defined@, out@)));
    // an open control block keeps its function open too
    match body {
        None => Ok(()),
        Some(_) => Err(cerr(f, 0, CErrorKind::UnterminatedFunction)),
    }
}

pub open spec fn texts(out: Seq<AsmLine>) -> Seq<Seq<u8>> {
    out.map_values(|l: AsmLine| l.text@)
}

pub open spec fn origins(out: Seq<AsmLine>) -> Seq<LineOrigin> {
    out.map_values(|l: AsmLine| LineOrigin { file: l.file, line: l.line })
}

/// Merged text and line origins from generated lines.
fn to_expanded(out: &Vec<AsmLine>) -> (r: ExpandedAsm)
    ensures
        r.bytes@ == flatten(texts(out@)),
        r.line_map@ == origins(out@),
{
    let mut bytes: Vec<u8> = Vec::new();
    let mut line_map: Vec<LineOrigin> = Vec::new();
    let mut k: usize = 0;
    while k < out.len()
        invariant
            k <= out@.len(),
            bytes@ == flatten(texts(out@.subrange(0, k as int))),
            line_map@ == origins(out@.subrange(0, k as int)),
        decreases out@.len() - k,
    {
        let ghost before = out@.subrange(0, k as int);
        let ghost after = out@.subrange(0, k + 1);
        assert(texts(after).drop_last() =~= texts(before));
        crate::ctext::push_bytes(&mut bytes, out[k].text.as_slice());
        bytes.push(10);
        line_map.push(LineOrigin { file: out[k].file, line: out[k].line });
        k = k + 1;
        assert(bytes@ =~= flatten(texts(after)));
        assert(line_map@ =~= origins(after));
    }
    assert(out@.subrange(0, out@.len() as int) =~= out@);
    ExpandedAsm { bytes, line_map }
}

/// The second pass over the files in compile order, from the first `k`.
pub open spec fn pass2_upto(files: Seq<SourceFile>, order: Seq<usize>, g: Seq<(Seq<u8>, u16)>, consts: Seq<(Seq<u8>, u16)>, k: int, st: FState) -> Option<FState>
    decreases k,
{
    if k <= 0 {
        Some(st)
    } else {
        match pass2_upto(files, order, g, consts, k - 1, st) {
            None => None,
            Some(s) => file_spec(g, consts, order[k - 1], files[order[k - 1] as int].text@, s),
        }
    }
}

/// The compiled program of a set of C sources: its lines and, for each, the
/// file and line that produced it; `None` where compiling fails. Globals
/// take zero-page addresses from `$40` in compile order, then locals as
/// they are declared (never reclaimed); labels come from one counter.
pub open spec fn c_output(files: Seq<SourceFile>, consts: Seq<(Seq<u8>, u16)>) -> Option<(Seq<Seq<u8>>, Seq<LineOrigin>)> {
    let order = c_order(files);
    match globals_upto(files, order, order.len() as int) {
        None => None,
        Some((g, z)) => match pass2_upto(files, order, g, consts, order.len() as int, FState {
            body: None,
            zp: z,
            counter: 0,
            defined: Seq::empty(),
            texts: Seq::empty(),
            origins: Seq::empty(),
        }) {
            None => None,
            Some(s) => Some((s.texts, s.origins)),
        },
    }
}

proof fn lemma_pass2_none(files: Seq<SourceFile>, order: Seq<usize>, g: Seq<(Seq<u8>, u16)>, consts: Seq<(Seq<u8>, u16)>, k: int, n: int, st: FState)
    requires
        0 <= k <= n,
        pass2_upto(files, order, g, consts, k, st) is None,
    ensures
        pass2_upto(files, order, g, consts, n, st) is None,
    decreases n - k,
{
    if k < n {
        lemma_pass2_none(files, order, g, consts, k + 1, n, st);
    }
}

/// Compiles a set of C sources into merged assembly text with one origin
/// per line, each naming the `.c` file and line that produced it. Globals
/// of every file are allocated first, then locals as they are declared,
/// from one zero-page cursor starting at `$40` that is never rewound.
/// Control constructs take their labels from one counter.
#[verifier::spinoff_prover]
#[verifier::rlimit(100)]
pub fn transpile_c_sources(files: &Vec<SourceFile>, consts: &Vec<NamedValue>) -> (r: Result<ExpandedAsm, CError>)
    ensures
        match c_output(files@, nv(consts@)) {
            None => r is Err,
            Some((t, o)) => r matches Ok(x) && x.bytes@ == flatten(t) && x.line_map@ == o,
        },
        r matches Ok(x) ==> forall|i: int| 0 <= i < x.line_map@.len() ==> (#[trigger] x.line_map@[i]).file < files@.len()
            && x.line_map@[i].line >= 1,
        r matches Err(e) ==> e.file < files@.len(),
{
    let order = order_c_files(files);
    let mut vars: Vec<NamedValue> = Vec::new();
    let mut next_zp: u8 = 0x40;
    match collect_globals(files, &order, &mut vars, &mut next_zp) {
        Ok(()) => {},
        Err(e) => {
            return Err(e);
        },
    }
    let ghost g = nv(vars@);
    let ghost cs = nv(consts@);
    let mut out: Vec<AsmLine> = Vec::new();
    let mut counter: usize = 0;
    let mut defined: Vec<Vec<u8>> = Vec::new();
    let ghost st0 = fstate(None, next_zp, counter, defined@, out@);
    assert(st0 == FState { body: None, zp: next_zp, counter: 0, defined: Seq::empty(), texts: Seq::empty(), origins: Seq::empty() }) by {
        assert(crate::assembler::deep_view(defined@) =~= Seq::<Seq<u8>>::empty());
        assert(texts(out@) =~= Seq::<Seq<u8>>::empty());
        assert(origins(out@) =~= Seq::<LineOrigin>::empty());
    }
    let mut oi: usize = 0;
    while oi < order.len()
        invariant
            oi <= order@.len(),
            order@ == c_order(files@),
            forall|i: int| 0 <= i < order@.len() ==> order@[i] < files@.len(),
            zp_vars(vars@),
            g == nv(vars@),
            cs == nv(consts@),
            files_in(out@, files@.len() as int),
            globals_upto(files@, order@, order@.len() as int) == Some((g, st0.zp)),
            st0 == (FState { body: None, zp: st0.zp, counter: 0, defined: Seq::empty(), texts: Seq::empty(), origins: Seq::empty() }),
            pass2_upto(files@, order@, g, cs, oi as int, st0) == Some(fstate(None, next_zp, counter, defined@, out@)),
        decreases order@.len() - oi,
    {
        match compile_file(files, order[oi], &vars, consts, &mut next_zp, &mut counter, &mut defined, &mut out) {
            Ok(()) => {},
            Err(e) => {
                proof { lemma_pass2_none(files@, order@, g, cs, oi + 1, order@.len() as int, st0); }
                return Err(e);
            },
        }
        oi = oi + 1;
    }
    let x = to_expanded(&out);
    assert(texts(out@).len() == x.line_map@.len());
    assert forall|i: int| 0 <= i < x.line_map@.len() implies (#[trigger] x.line_map@[i]).file < files@.len()
        && x.line_map@[i].line >= 1 by {
        assert(out@[i].file < files@.len() && out@[i].line >= 1);
    }
    Ok(x)
}

/// Labels drawn from one counter never collide: a prefix followed by two
/// different counter values gives two different names.
pub proof fn lemma_fresh_labels_distinct(prefix: Seq<u8>, a: nat, b: nat)
    requires
        a != b,
    ensures
        prefix + dec_digits(a) != prefix + dec_digits(b),
{
    crate::ctext::lemma_dec_digits_injective(a, b);
    if prefix + dec_digits(a) == prefix + dec_digits(b) {
        assert((prefix + dec_digits(a)).subrange(prefix.len() as int, (prefix + dec_digits(a)).len() as int) =~= dec_digits(a));
        assert((prefix + dec_digits(b)).subrange(prefix.len() as int, (prefix + dec_digits(b)).len() as int) =~= dec_digits(b));
    }
}

} // verus!
