//! The instruction-line grammar: one mnemonic, then an operand whose
//! addressing mode is the first alternative, in a fixed order, that matches.
use vstd::prelude::*;
use crate::text::{
    is_space, is_alpha, in_class, skip_spaces, scan_end, num_value, digit_val, CharClass,
    skip_ws, scan, read_number, is_alpha_byte, is_space_byte, lemma_skip_spaces_bounds,
    lemma_scan_end_bounds,
};

verus! {

/// The instruction identities of the CPU, independent of operand form.
#[derive(Clone, Copy, PartialEq, Eq, Structural, Debug)]
pub enum Mnemonic {
    Adc, And, Asl, Bcc, Bcs, Beq, Bit, Bmi, Bne, Bpl, Brk, Bvc, Bvs, Clc,
    Cld, Cli, Clv, Cmp, Cpx, Cpy, Dec, Dex, Dey, Eor, Inc, Inx, Iny, Jmp,
    Jsr, Lda, Ldx, Ldy, Lsr, Nop, Ora, Pha, Php, Pla, Plp, Rol, Ror, Rti,
    Rts, Sbc, Sec, Sed, Sei, Sta, Stx, Sty, Tax, Tay, Tsx, Txa, Txs, Tya,
}

/// Whether a byte literal was written with an explicit minus sign.
#[derive(Clone, Copy, PartialEq, Eq, Structural, Debug)]
pub enum Sign {
    Implied,
    Negative,
}

/// How an instruction's operand is located. A symbol operand carries the
/// placeholder value zero; its value is found during assembly.
#[derive(Clone, Copy, PartialEq, Eq, Structural, Debug)]
pub enum AddressingMode {
    Implied,
    Accumulator,
    Immediate(u8, Sign),
    ZeroPageOrRelative(u8, Sign),
    ZeroPageX(u8),
    ZeroPageY(u8),
    AbsoluteX(u16),
    AbsoluteY(u16),
    Absolute(u16),
    Indirect(u16),
    IndexedIndirect(u8),
    IndirectIndexed(u8),
}

/// A parsed instruction: its mnemonic and its operand form.
#[derive(Clone, Copy, PartialEq, Eq, Structural, Debug)]
pub struct OpCode(pub Mnemonic, pub AddressingMode);

/// Which part of a symbol's value an operand takes.
#[derive(Clone, Copy, PartialEq, Eq, Structural, Debug)]
pub enum SymPart {
    Whole,
    Low,
    High,
}

/// A symbol named in the operand, as the span `start..end` of the line.
#[derive(Clone, Copy, PartialEq, Eq, Structural, Debug)]
pub struct SymRef {
    pub start: usize,
    pub end: usize,
    pub part: SymPart,
}

/// A literal or symbolic operand value.
#[derive(Clone, Copy, PartialEq, Eq, Structural, Debug)]
pub struct Num {
    pub value: u16,
    pub sign: Sign,
    pub sym: Option<SymRef>,
}

/// The result of parsing one instruction line: the instruction, the symbol
/// its operand names if any, and the position where parsing stopped.
#[derive(Clone, Copy, PartialEq, Eq, Structural, Debug)]
pub struct ParsedLine {
    pub op: OpCode,
    pub sym: Option<SymRef>,
    pub end: usize,
}

/// The three upper-case letters that name a mnemonic.
pub open spec fn name_of(m: Mnemonic) -> (u8, u8, u8) {
    match m {
        Mnemonic::Adc => (65, 68, 67), Mnemonic::And => (65, 78, 68),
        Mnemonic::Asl => (65, 83, 76), Mnemonic::Bcc => (66, 67, 67),
        Mnemonic::Bcs => (66, 67, 83), Mnemonic::Beq => (66, 69, 81),
        Mnemonic::Bit => (66, 73, 84), Mnemonic::Bmi => (66, 77, 73),
        Mnemonic::Bne => (66, 78, 69), Mnemonic::Bpl => (66, 80, 76),
        Mnemonic::Brk => (66, 82, 75), Mnemonic::Bvc => (66, 86, 67),
        Mnemonic::Bvs => (66, 86, 83), Mnemonic::Clc => (67, 76, 67),
        Mnemonic::Cld => (67, 76, 68), Mnemonic::Cli => (67, 76, 73),
        Mnemonic::Clv => (67, 76, 86), Mnemonic::Cmp => (67, 77, 80),
        Mnemonic::Cpx => (67, 80, 88), Mnemonic::Cpy => (67, 80, 89),
        Mnemonic::Dec => (68, 69, 67), Mnemonic::Dex => (68, 69, 88),
        Mnemonic::Dey => (68, 69, 89), Mnemonic::Eor => (69, 79, 82),
        Mnemonic::Inc => (73, 78, 67), Mnemonic::Inx => (73, 78, 88),
        Mnemonic::Iny => (73, 78, 89), Mnemonic::Jmp => (74, 77, 80),
        Mnemonic::Jsr => (74, 83, 82), Mnemonic::Lda => (76, 68, 65),
        Mnemonic::Ldx => (76, 68, 88), Mnemonic::Ldy => (76, 68, 89),
        Mnemonic::Lsr => (76, 83, 82), Mnemonic::Nop => (78, 79, 80),
        Mnemonic::Ora => (79, 82, 65), Mnemonic::Pha => (80, 72, 65),
        Mnemonic::Php => (80, 72, 80), Mnemonic::Pla => (80, 76, 65),
        Mnemonic::Plp => (80, 76, 80), Mnemonic::Rol => (82, 79, 76),
        Mnemonic::Ror => (82, 79, 82), Mnemonic::Rti => (82, 84, 73),
        Mnemonic::Rts => (82, 84, 83), Mnemonic::Sbc => (83, 66, 67),
        Mnemonic::Sec => (83, 69, 67), Mnemonic::Sed => (83, 69, 68),
        Mnemonic::Sei => (83, 69, 73), Mnemonic::Sta => (83, 84, 65),
        Mnemonic::Stx => (83, 84, 88), Mnemonic::Sty => (83, 84, 89),
        Mnemonic::Tax => (84, 65, 88), Mnemonic::Tay => (84, 65, 89),
        Mnemonic::Tsx => (84, 83, 88), Mnemonic::Txa => (84, 88, 65),
        Mnemonic::Txs => (84, 88, 83), Mnemonic::Tya => (84, 89, 65),
    }
}

pub open spec fn upper(b: u8) -> u8 {
    if 97 <= b && b <= 122 {
        (b - 32) as u8
    } else {
        b
    }
}

/// Finds the mnemonic whose name is the three upper-case letters given.
pub fn lookup_mnemonic(a: u8, b: u8, c: u8) -> (r: Option<Mnemonic>)
    ensures
        r matches Some(m) ==> name_of(m) == (a, b, c),
        r is None ==> forall|m: Mnemonic| name_of(m) != (a, b, c),
{
    match (a, b, c) {
        (65, 68, 67) => Some(Mnemonic::Adc), (65, 78, 68) => Some(Mnemonic::And),
        (65, 83, 76) => Some(Mnemonic::Asl), (66, 67, 67) => Some(Mnemonic::Bcc),
        (66, 67, 83) => Some(Mnemonic::Bcs), (66, 69, 81) => Some(Mnemonic::Beq),
        (66, 73, 84) => Some(Mnemonic::Bit), (66, 77, 73) => Some(Mnemonic::Bmi),
        (66, 78, 69) => Some(Mnemonic::Bne), (66, 80, 76) => Some(Mnemonic::Bpl),
        (66, 82, 75) => Some(Mnemonic::Brk), (66, 86, 67) => Some(Mnemonic::Bvc),
        (66, 86, 83) => Some(Mnemonic::Bvs), (67, 76, 67) => Some(Mnemonic::Clc),
        (67, 76, 68) => Some(Mnemonic::Cld), (67, 76, 73) => Some(Mnemonic::Cli),
        (67, 76, 86) => Some(Mnemonic::Clv), (67, 77, 80) => Some(Mnemonic::Cmp),
        (67, 80, 88) => Some(Mnemonic::Cpx), (67, 80, 89) => Some(Mnemonic::Cpy),
        (68, 69, 67) => Some(Mnemonic::Dec), (68, 69, 88) => Some(Mnemonic::Dex),
        (68, 69, 89) => Some(Mnemonic::Dey), (69, 79, 82) => Some(Mnemonic::Eor),
        (73, 78, 67) => Some(Mnemonic::Inc), (73, 78, 88) => Some(Mnemonic::Inx),
        (73, 78, 89) => Some(Mnemonic::Iny), (74, 77, 80) => Some(Mnemonic::Jmp),
        (74, 83, 82) => Some(Mnemonic::Jsr), (76, 68, 65) => Some(Mnemonic::Lda),
        (76, 68, 88) => Some(Mnemonic::Ldx), (76, 68, 89) => Some(Mnemonic::Ldy),
        (76, 83, 82) => Some(Mnemonic::Lsr), (78, 79, 80) => Some(Mnemonic::Nop),
        (79, 82, 65) => Some(Mnemonic::Ora), (80, 72, 65) => Some(Mnemonic::Pha),
        (80, 72, 80) => Some(Mnemonic::Php), (80, 76, 65) => Some(Mnemonic::Pla),
        (80, 76, 80) => Some(Mnemonic::Plp), (82, 79, 76) => Some(Mnemonic::Rol),
        (82, 79, 82) => Some(Mnemonic::Ror), (82, 84, 73) => Some(Mnemonic::Rti),
        (82, 84, 83) => Some(Mnemonic::Rts), (83, 66, 67) => Some(Mnemonic::Sbc),
        (83, 69, 67) => Some(Mnemonic::Sec), (83, 69, 68) => Some(Mnemonic::Sed),
        (83, 69, 73) => Some(Mnemonic::Sei), (83, 84, 65) => Some(Mnemonic::Sta),
        (83, 84, 88) => Some(Mnemonic::Stx), (83, 84, 89) => Some(Mnemonic::Sty),
        (84, 65, 88) => Some(Mnemonic::Tax), (84, 65, 89) => Some(Mnemonic::Tay),
        (84, 83, 88) => Some(Mnemonic::Tsx), (84, 88, 65) => Some(Mnemonic::Txa),
        (84, 88, 83) => Some(Mnemonic::Txs), (84, 89, 65) => Some(Mnemonic::Tya),
        _ => None,
    }
}


/// Whether position `i` of `s` holds the byte `b`.
pub open spec fn at(s: Seq<u8>, i: int, b: u8) -> bool {
    0 <= i < s.len() && s[i] == b
}

pub fn at_byte(s: &[u8], i: usize, b: u8) -> (r: bool)
    ensures
        r == at(s@, i as int, b),
        s@.len() <= usize::MAX,
{
    let n = s.len();
    i < n && s[i] == b
}

pub open spec fn lit(v: u16, sign: Sign) -> Num {
    Num { value: v, sign: sign, sym: None }
}

/// A symbol: a letter or underscore, then letters, digits and underscores.
/// Gives the end of the symbol.
pub open spec fn p_symbol(s: Seq<u8>, i: int) -> Option<int> {
    if 0 <= i < s.len() && (is_alpha(s[i]) || s[i] == 95) {
        Some(scan_end(s, i + 1, CharClass::Ident))
    } else {
        None
    }
}

pub open spec fn p_sym_num(s: Seq<u8>, i: int, part: SymPart) -> Option<(Num, usize)> {
    match p_symbol(s, i) {
        Some(e) => Some(
            (
                Num {
                    value: 0,
                    sign: Sign::Implied,
                    sym: Some(SymRef { start: i as usize, end: e as usize, part: part }),
                },
                e as usize,
            ),
        ),
        None => None,
    }
}

/// `$` and one or two hex digits.
pub open spec fn p_byte_hex(s: Seq<u8>, i: int) -> Option<(Num, usize)> {
    let e = scan_end(s, i + 1, CharClass::Hex);
    if at(s, i, 36) && e > i + 1 && e - (i + 1) <= 2 && num_value(s, i + 1, e, 16) <= 255 {
        Some((lit(num_value(s, i + 1, e, 16) as u16, Sign::Implied), e as usize))
    } else {
        None
    }
}

/// `$` and three or more hex digits whose value fits in 16 bits.
pub open spec fn p_word_hex(s: Seq<u8>, i: int) -> Option<(Num, usize)> {
    let e = scan_end(s, i + 1, CharClass::Hex);
    if at(s, i, 36) && e - (i + 1) > 2 && num_value(s, i + 1, e, 16) <= 0xFFFF {
        Some((lit(num_value(s, i + 1, e, 16) as u16, Sign::Implied), e as usize))
    } else {
        None
    }
}

/// `$` and any number of hex digits whose value fits in 16 bits.
pub open spec fn p_word_hex_loose(s: Seq<u8>, i: int) -> Option<(Num, usize)> {
    let e = scan_end(s, i + 1, CharClass::Hex);
    if at(s, i, 36) && e > i + 1 && num_value(s, i + 1, e, 16) <= 0xFFFF {
        Some((lit(num_value(s, i + 1, e, 16) as u16, Sign::Implied), e as usize))
    } else {
        None
    }
}

/// The length of a binary prefix (`%`, `0b` or `0B`) at `i`, or zero.
pub open spec fn bin_prefix(s: Seq<u8>, i: int) -> int {
    if at(s, i, 37) {
        1
    } else if at(s, i, 48) && (at(s, i + 1, 98) || at(s, i + 1, 66)) {
        2
    } else {
        0
    }
}

/// A binary prefix and up to eight binary digits.
pub open spec fn p_byte_bin(s: Seq<u8>, i: int) -> Option<(Num, usize)> {
    let d = i + bin_prefix(s, i);
    let e = scan_end(s, d, CharClass::Bin);
    if bin_prefix(s, i) > 0 && e > d && e - d <= 8 && num_value(s, d, e, 2) <= 255 {
        Some((lit(num_value(s, d, e, 2) as u16, Sign::Implied), e as usize))
    } else {
        None
    }
}

/// A binary prefix and more than eight binary digits whose value fits in 16 bits.
pub open spec fn p_word_bin(s: Seq<u8>, i: int) -> Option<(Num, usize)> {
    let d = i + bin_prefix(s, i);
    let e = scan_end(s, d, CharClass::Bin);
    if bin_prefix(s, i) > 0 && e - d > 8 && num_value(s, d, e, 2) <= 0xFFFF {
        Some((lit(num_value(s, d, e, 2) as u16, Sign::Implied), e as usize))
    } else {
        None
    }
}

/// A binary prefix and binary digits whose value fits in 32 bits, kept
/// modulo 2^16.
pub open spec fn p_word_bin_loose(s: Seq<u8>, i: int) -> Option<(Num, usize)> {
    let d = i + bin_prefix(s, i);
    let e = scan_end(s, d, CharClass::Bin);
    if bin_prefix(s, i) > 0 && e > d && num_value(s, d, e, 2) <= u32::MAX {
        Some((lit((num_value(s, d, e, 2) % 0x10000) as u16, Sign::Implied), e as usize))
    } else {
        None
    }
}

/// A quoted character: its first byte is the value.
pub open spec fn p_byte_char(s: Seq<u8>, i: int) -> Option<(Num, usize)> {
    let e = scan_end(s, i + 1, CharClass::NotQuote);
    if at(s, i, 39) && e > i + 1 && at(s, e, 39) {
        Some((lit(s[i + 1] as u16, Sign::Implied), (e + 1) as usize))
    } else {
        None
    }
}

/// An optional minus sign and one to three decimal digits, at most 255.
pub open spec fn p_byte_dec(s: Seq<u8>, i: int) -> Option<(Num, usize)> {
    let neg = at(s, i, 45);
    let d = if neg { i + 1 } else { i };
    let e = scan_end(s, d, CharClass::Dec);
    if e > d && e - d <= 3 && num_value(s, d, e, 10) <= 255 {
        Some(
            (
                lit(num_value(s, d, e, 10) as u16, if neg { Sign::Negative } else { Sign::Implied }),
                e as usize,
            ),
        )
    } else {
        None
    }
}

/// Decimal digits whose value lies in 256..=65535.
pub open spec fn p_word_dec(s: Seq<u8>, i: int) -> Option<(Num, usize)> {
    let e = scan_end(s, i, CharClass::Dec);
    if e > i && 255 < num_value(s, i, e, 10) <= 0xFFFF {
        Some((lit(num_value(s, i, e, 10) as u16, Sign::Implied), e as usize))
    } else {
        None
    }
}

/// Decimal digits whose value fits in 32 bits, kept modulo 2^16.
pub open spec fn p_word_dec_loose(s: Seq<u8>, i: int) -> Option<(Num, usize)> {
    let e = scan_end(s, i, CharClass::Dec);
    if e > i && num_value(s, i, e, 10) <= u32::MAX {
        Some((lit((num_value(s, i, e, 10) % 0x10000) as u16, Sign::Implied), e as usize))
    } else {
        None
    }
}

pub open spec fn or_else(a: Option<(Num, usize)>, b: Option<(Num, usize)>) -> Option<(Num, usize)> {
    if a is Some {
        a
    } else {
        b
    }
}

/// A byte-sized operand value.
pub open spec fn p_byte_value(s: Seq<u8>, i: int) -> Option<(Num, usize)> {
    or_else(
        p_byte_hex(s, i),
        or_else(
            p_byte_bin(s, i),
            or_else(
                p_byte_dec(s, i),
                or_else(p_byte_char(s, i), p_sym_num(s, i, SymPart::Whole)),
            ),
        ),
    )
}

/// A word-sized literal. A bare symbol is no word here: it falls through
/// to the byte forms, the catch-all for symbols.
pub open spec fn p_word_value(s: Seq<u8>, i: int) -> Option<(Num, usize)> {
    or_else(p_word_hex(s, i), or_else(p_word_bin(s, i), p_word_dec(s, i)))
}

/// A word value with no lower bound on its digit count.
pub open spec fn p_word_loose(s: Seq<u8>, i: int) -> Option<(Num, usize)> {
    or_else(
        p_word_hex_loose(s, i),
        or_else(
            p_word_bin_loose(s, i),
            or_else(p_word_dec_loose(s, i), p_sym_num(s, i, SymPart::Whole)),
        ),
    )
}

fn symbol_at(s: &[u8], i: usize, part: SymPart) -> (r: Option<(Num, usize)>)
    requires
        i <= s@.len(),
    ensures
        r == p_sym_num(s@, i as int, part),
        r matches Some((n, e)) ==> i < e <= s@.len(),
        r matches Some((n, e)) ==> (n.sym matches Some(sr) ==> sr.start <= sr.end <= s@.len()),
{
    if i < s.len() && (is_alpha_byte(s[i]) || s[i] == 95) {
        let e = scan(s, i + 1, CharClass::Ident);
        Some((Num { value: 0, sign: Sign::Implied, sym: Some(SymRef { start: i, end: e, part }) }, e))
    } else {
        None
    }
}

proof fn lemma_digits(s: Seq<u8>, lo: int, c: CharClass, base: nat)
    requires
        0 <= lo <= s.len(),
        c == CharClass::Hex && base == 16 || c == CharClass::Dec && base == 10 || c
            == CharClass::Bin && base == 2,
    ensures
        lo <= scan_end(s, lo, c) <= s.len(),
        forall|k: int| lo <= k < scan_end(s, lo, c) ==> digit_val(#[trigger] s[k]) < base,
{
    lemma_scan_end_bounds(s, lo, c);
    assert forall|k: int| lo <= k < scan_end(s, lo, c) implies digit_val(#[trigger] s[k]) < base by {
        assert(in_class(c, s[k]));
    }
}

fn byte_hex(s: &[u8], i: usize) -> (r: Option<(Num, usize)>)
    requires
        i <= s@.len(),
    ensures
        r == p_byte_hex(s@, i as int),
        r matches Some((n, e)) ==> i < e <= s@.len(),
        r matches Some((n, e)) ==> (n.sym matches Some(sr) ==> sr.start <= sr.end <= s@.len()),
{
    if !at_byte(s, i, 36) {
        return None;
    }
    let e = scan(s, i + 1, CharClass::Hex);
    proof { lemma_digits(s@, i + 1, CharClass::Hex, 16); }
    if e > i + 1 && e - (i + 1) <= 2 {
        match read_number(s, i + 1, e, 16) {
            Some(v) => {
                if v <= 255 {
                    return Some((Num { value: v as u16, sign: Sign::Implied, sym: None }, e));
                }
            },
            None => {},
        }
    }
    None
}

fn word_hex(s: &[u8], i: usize, loose: bool) -> (r: Option<(Num, usize)>)
    requires
        i <= s@.len(),
    ensures
        loose ==> r == p_word_hex_loose(s@, i as int),
        !loose ==> r == p_word_hex(s@, i as int),
        r matches Some((n, e)) ==> i < e <= s@.len(),
        r matches Some((n, e)) ==> (n.sym matches Some(sr) ==> sr.start <= sr.end <= s@.len()),
{
    if !at_byte(s, i, 36) {
        return None;
    }
    let e = scan(s, i + 1, CharClass::Hex);
    proof { lemma_digits(s@, i + 1, CharClass::Hex, 16); }
    if (loose && e > i + 1) || (!loose && e - (i + 1) > 2) {
        match read_number(s, i + 1, e, 16) {
            Some(v) => {
                if v <= 0xFFFF {
                    return Some((Num { value: v as u16, sign: Sign::Implied, sym: None }, e));
                }
            },
            None => {},
        }
    }
    None
}

fn bin_prefix_len(s: &[u8], i: usize) -> (r: usize)
    requires
        i <= s@.len(),
    ensures
        r == bin_prefix(s@, i as int),
        i + r <= s@.len(),
        s@.len() <= usize::MAX,
{
    if at_byte(s, i, 37) {
        1
    } else if at_byte(s, i, 48) && (at_byte(s, i + 1, 98) || at_byte(s, i + 1, 66)) {
        2
    } else {
        0
    }
}

/// Binary literals: `mode` 0 is the byte form, 1 the word form, 2 the loose
/// word form.
fn binary(s: &[u8], i: usize, mode: u8) -> (r: Option<(Num, usize)>)
    requires
        i <= s@.len(),
    ensures
        mode == 0 ==> r == p_byte_bin(s@, i as int),
        mode == 1 ==> r == p_word_bin(s@, i as int),
        mode == 2 ==> r == p_word_bin_loose(s@, i as int),
        r matches Some((n, e)) ==> i < e <= s@.len(),
        r matches Some((n, e)) ==> (n.sym matches Some(sr) ==> sr.start <= sr.end <= s@.len()),
{
    let pl = bin_prefix_len(s, i);
    if pl == 0 {
        return None;
    }
    let d = i + pl;
    let e = scan(s, d, CharClass::Bin);
    proof { lemma_digits(s@, d as int, CharClass::Bin, 2); }
    let len_ok = if mode == 0 {
        e > d && e - d <= 8
    } else if mode == 1 {
        e - d > 8
    } else {
        e > d
    };
    if !len_ok {
        return None;
    }
    match read_number(s, d, e, 2) {
        Some(v) => {
            if mode == 0 {
                if v <= 255 {
                    return Some((Num { value: v as u16, sign: Sign::Implied, sym: None }, e));
                }
            } else if mode == 1 {
                if v <= 0xFFFF {
                    return Some((Num { value: v as u16, sign: Sign::Implied, sym: None }, e));
                }
            } else {
                return Some((Num { value: (v % 0x10000) as u16, sign: Sign::Implied, sym: None }, e));
            }
        },
        None => {},
    }
    None
}

fn byte_char(s: &[u8], i: usize) -> (r: Option<(Num, usize)>)
    requires
        i <= s@.len(),
    ensures
        r == p_byte_char(s@, i as int),
        r matches Some((n, e)) ==> i < e <= s@.len(),
        r matches Some((n, e)) ==> (n.sym matches Some(sr) ==> sr.start <= sr.end <= s@.len()),
{
    if !at_byte(s, i, 39) {
        return None;
    }
    let e = scan(s, i + 1, CharClass::NotQuote);
    if e > i + 1 && at_byte(s, e, 39) {
        Some((Num { value: s[i + 1] as u16, sign: Sign::Implied, sym: None }, e + 1))
    } else {
        None
    }
}

fn byte_dec(s: &[u8], i: usize) -> (r: Option<(Num, usize)>)
    requires
        i <= s@.len(),
    ensures
        r == p_byte_dec(s@, i as int),
        r matches Some((n, e)) ==> i < e <= s@.len(),
        r matches Some((n, e)) ==> (n.sym matches Some(sr) ==> sr.start <= sr.end <= s@.len()),
{
    let neg = at_byte(s, i, 45);
    let d = if neg { i + 1 } else { i };
    let e = scan(s, d, CharClass::Dec);
    proof { lemma_digits(s@, d as int, CharClass::Dec, 10); }
    if e > d && e - d <= 3 {
        match read_number(s, d, e, 10) {
            Some(v) => {
                if v <= 255 {
                    let sign = if neg { Sign::Negative } else { Sign::Implied };
                    return Some((Num { value: v as u16, sign, sym: None }, e));
                }
            },
            None => {},
        }
    }
    None
}

fn word_dec(s: &[u8], i: usize, loose: bool) -> (r: Option<(Num, usize)>)
    requires
        i <= s@.len(),
    ensures
        loose ==> r == p_word_dec_loose(s@, i as int),
        !loose ==> r == p_word_dec(s@, i as int),
        r matches Some((n, e)) ==> i < e <= s@.len(),
        r matches Some((n, e)) ==> (n.sym matches Some(sr) ==> sr.start <= sr.end <= s@.len()),
{
    let e = scan(s, i, CharClass::Dec);
    proof { lemma_digits(s@, i as int, CharClass::Dec, 10); }
    if e > i {
        match read_number(s, i, e, 10) {
            Some(v) => {
                if loose {
                    return Some((Num { value: (v % 0x10000) as u16, sign: Sign::Implied, sym: None }, e));
                } else if 255 < v && v <= 0xFFFF {
                    return Some((Num { value: v as u16, sign: Sign::Implied, sym: None }, e));
                }
            },
            None => {},
        }
    }
    None
}

pub fn byte_value(s: &[u8], i: usize) -> (r: Option<(Num, usize)>)
    requires
        i <= s@.len(),
    ensures
        r == p_byte_value(s@, i as int),
        r matches Some((n, e)) ==> i < e <= s@.len(),
        r matches Some((n, e)) ==> (n.sym matches Some(sr) ==> sr.start <= sr.end <= s@.len()),
{
    let a = byte_hex(s, i);
    if a.is_some() {
        return a;
    }
    let b = binary(s, i, 0);
    if b.is_some() {
        return b;
    }
    let c = byte_dec(s, i);
    if c.is_some() {
        return c;
    }
    let d = byte_char(s, i);
    if d.is_some() {
        return d;
    }
    symbol_at(s, i, SymPart::Whole)
}

pub fn word_value(s: &[u8], i: usize) -> (r: Option<(Num, usize)>)
    requires
        i <= s@.len(),
    ensures
        r == p_word_value(s@, i as int),
        r matches Some((n, e)) ==> i < e <= s@.len(),
        r matches Some((n, e)) ==> (n.sym matches Some(sr) ==> sr.start <= sr.end <= s@.len()),
{
    let a = word_hex(s, i, false);
    if a.is_some() {
        return a;
    }
    let b = binary(s, i, 1);
    if b.is_some() {
        return b;
    }
    word_dec(s, i, false)
}

pub fn word_loose(s: &[u8], i: usize) -> (r: Option<(Num, usize)>)
    requires
        i <= s@.len(),
    ensures
        r == p_word_loose(s@, i as int),
        r matches Some((n, e)) ==> i < e <= s@.len(),
        r matches Some((n, e)) ==> (n.sym matches Some(sr) ==> sr.start <= sr.end <= s@.len()),
{
    let a = word_hex(s, i, true);
    if a.is_some() {
        return a;
    }
    let b = binary(s, i, 2);
    if b.is_some() {
        return b;
    }
    let c = word_dec(s, i, true);
    if c.is_some() {
        return c;
    }
    symbol_at(s, i, SymPart::Whole)
}


/// An addressing mode, the symbol it names, and where it ends.
#[derive(Clone, Copy, PartialEq, Eq, Structural, Debug)]
pub struct ModeParse {
    pub mode: AddressingMode,
    pub sym: Option<SymRef>,
    pub end: usize,
}

pub open spec fn mp(mode: AddressingMode, sym: Option<SymRef>, end: int) -> ModeParse {
    ModeParse { mode: mode, sym: sym, end: end as usize }
}

/// `,X` or `,x` (with `u` the upper-case letter) at `i`.
pub open spec fn at_index(s: Seq<u8>, i: int, u: u8) -> bool {
    at(s, i, 44) && (at(s, i + 1, u) || at(s, i + 1, (u + 32) as u8))
}

pub open spec fn m_accumulator(s: Seq<u8>, j: int) -> Option<ModeParse> {
    if at(s, j, 65) || at(s, j, 97) {
        Some(mp(AddressingMode::Accumulator, None, j + 1))
    } else {
        None
    }
}

pub open spec fn imm_value(s: Seq<u8>, k: int) -> Option<(Num, usize)> {
    if at(s, k, 62) && p_symbol(s, k + 1) is Some {
        p_sym_num(s, k + 1, SymPart::High)
    } else if at(s, k, 60) && p_symbol(s, k + 1) is Some {
        p_sym_num(s, k + 1, SymPart::Low)
    } else {
        or_else(
            p_byte_hex(s, k),
            or_else(
                p_byte_bin(s, k),
                or_else(
                    p_byte_char(s, k),
                    or_else(p_byte_dec(s, k), p_sym_num(s, k, SymPart::Whole)),
                ),
            ),
        )
    }
}

pub open spec fn m_immediate(s: Seq<u8>, j: int) -> Option<ModeParse> {
    if at(s, j, 35) {
        match imm_value(s, j + 1) {
            Some((n, e)) => Some(
                mp(AddressingMode::Immediate(n.value as u8, n.sign), n.sym, e as int),
            ),
            None => None,
        }
    } else {
        None
    }
}

/// `( byte ) ,Y`
pub open spec fn m_indirect_indexed(s: Seq<u8>, j: int) -> Option<ModeParse> {
    if at(s, j, 40) {
        match p_byte_value(s, skip_spaces(s, j + 1)) {
            Some((n, b)) => {
                let c = skip_spaces(s, b as int);
                let d = skip_spaces(s, c + 1);
                if at(s, c, 41) && at_index(s, d, 89) {
                    Some(mp(AddressingMode::IndirectIndexed(n.value as u8), n.sym, d + 2))
                } else {
                    None
                }
            },
            None => None,
        }
    } else {
        None
    }
}

/// `( byte ,X )`
pub open spec fn m_indexed_indirect(s: Seq<u8>, j: int) -> Option<ModeParse> {
    if at(s, j, 40) {
        match p_byte_value(s, skip_spaces(s, j + 1)) {
            Some((n, b)) => {
                let c = skip_spaces(s, b as int);
                let d = skip_spaces(s, c + 2);
                if at_index(s, c, 88) && at(s, d, 41) {
                    Some(mp(AddressingMode::IndexedIndirect(n.value as u8), n.sym, d + 1))
                } else {
                    None
                }
            },
            None => None,
        }
    } else {
        None
    }
}

/// `( word )`
pub open spec fn m_indirect(s: Seq<u8>, j: int) -> Option<ModeParse> {
    if at(s, j, 40) {
        match p_word_loose(s, skip_spaces(s, j + 1)) {
            Some((n, b)) => {
                let c = skip_spaces(s, b as int);
                if at(s, c, 41) {
                    Some(mp(AddressingMode::Indirect(n.value), n.sym, c + 1))
                } else {
                    None
                }
            },
            None => None,
        }
    } else {
        None
    }
}

/// A word and an index register (`u` is `X` or `Y`), or a bare word
/// where `u` is zero.
pub open spec fn m_word(s: Seq<u8>, j: int, u: u8) -> Option<ModeParse> {
    match p_word_value(s, j) {
        Some((n, b)) => {
            let c = skip_spaces(s, b as int);
            if u == 0 {
                Some(mp(AddressingMode::Absolute(n.value), n.sym, b as int))
            } else if at_index(s, c, u) {
                let mode = if u == 88 {
                    AddressingMode::AbsoluteX(n.value)
                } else {
                    AddressingMode::AbsoluteY(n.value)
                };
                Some(mp(mode, n.sym, c + 2))
            } else {
                None
            }
        },
        None => None,
    }
}

/// A byte and an index register (`u` is `X` or `Y`), or a bare byte
/// where `u` is zero.
pub open spec fn m_byte(s: Seq<u8>, j: int, u: u8) -> Option<ModeParse> {
    match p_byte_value(s, j) {
        Some((n, b)) => {
            let c = skip_spaces(s, b as int);
            if u == 0 {
                Some(mp(AddressingMode::ZeroPageOrRelative(n.value as u8, n.sign), n.sym, b as int))
            } else if at_index(s, c, u) {
                let mode = if u == 88 {
                    AddressingMode::ZeroPageX(n.value as u8)
                } else {
                    AddressingMode::ZeroPageY(n.value as u8)
                };
                Some(mp(mode, n.sym, c + 2))
            } else {
                None
            }
        },
        None => None,
    }
}

pub open spec fn or_mode(a: Option<ModeParse>, b: Option<ModeParse>) -> Option<ModeParse> {
    if a is Some {
        a
    } else {
        b
    }
}

/// The operand grammar: the alternatives in their fixed order of priority.
pub open spec fn p_mode(s: Seq<u8>, i: int) -> Option<ModeParse> {
    let j = skip_spaces(s, i);
    if j >= s.len() || s[j] == 10 || s[j] == 13 {
        Some(mp(AddressingMode::Implied, None, j))
    } else {
        or_mode(m_accumulator(s, j),
        or_mode(m_immediate(s, j),
        or_mode(m_indirect_indexed(s, j),
        or_mode(m_indexed_indirect(s, j),
        or_mode(m_indirect(s, j),
        or_mode(m_word(s, j, 88),
        or_mode(m_word(s, j, 89),
        or_mode(m_word(s, j, 0),
        or_mode(m_byte(s, j, 88),
        or_mode(m_byte(s, j, 89), m_byte(s, j, 0)))))))))))
    }
}

/// The mnemonic named by the letters `s[j..e]`, in either case.
pub open spec fn mnemonic_at(s: Seq<u8>, j: int, e: int) -> Option<Mnemonic> {
    if e - j == 3 && 0 <= j && e <= s.len() && exists|m: Mnemonic|
        name_of(m) == (upper(s[j]), upper(s[j + 1]), upper(s[j + 2])) {
        Some(choose|m: Mnemonic| name_of(m) == (upper(s[j]), upper(s[j + 1]), upper(s[j + 2])))
    } else {
        None
    }
}

/// One instruction line: leading whitespace, a mnemonic, and, after at
/// least one whitespace character, an operand; an operand that does not
/// parse leaves the instruction implied. Trailing whitespace is consumed.
pub open spec fn p_line(s: Seq<u8>) -> Option<ParsedLine> {
    let j = skip_spaces(s, 0);
    let e = scan_end(s, j, CharClass::Alpha);
    match mnemonic_at(s, j, e) {
        Some(m) => {
            if e < s.len() && is_space(s[e]) && p_mode(s, skip_spaces(s, e)) is Some {
                let r = p_mode(s, skip_spaces(s, e)).unwrap();
                Some(ParsedLine { op: OpCode(m, r.mode), sym: r.sym, end: skip_spaces(s, r.end as int) as usize })
            } else {
                Some(ParsedLine { op: OpCode(m, AddressingMode::Implied), sym: None, end: skip_spaces(s, e) as usize })
            }
        },
        None => None,
    }
}

fn index_at(s: &[u8], i: usize, u: u8) -> (r: bool)
    requires
        u == 88 || u == 89,
    ensures
        r == at_index(s@, i as int, u),
        r ==> i + 2 <= s@.len(),
{
    at_byte(s, i, 44) && i + 1 < s.len() && (s[i + 1] == u || s[i + 1] == u + 32)
}

fn upper_byte(b: u8) -> (r: u8)
    ensures
        r == upper(b),
{
    if 97 <= b && b <= 122 {
        b - 32
    } else {
        b
    }
}

fn immediate(s: &[u8], j: usize) -> (r: Option<ModeParse>)
    requires
        j <= s@.len(),
    ensures
        r == m_immediate(s@, j as int),
        r matches Some(p) ==> j < p.end <= s@.len(),
        r matches Some(p) ==> (p.sym matches Some(sr) ==> sr.start <= sr.end <= s@.len()),
{
    if !at_byte(s, j, 35) {
        return None;
    }
    let k = j + 1;
    let v = if at_byte(s, k, 62) && symbol_at(s, k + 1, SymPart::High).is_some() {
        symbol_at(s, k + 1, SymPart::High)
    } else if at_byte(s, k, 60) && symbol_at(s, k + 1, SymPart::Low).is_some() {
        symbol_at(s, k + 1, SymPart::Low)
    } else {
        let a = byte_hex(s, k);
        if a.is_some() {
            a
        } else {
            let b = binary(s, k, 0);
            if b.is_some() {
                b
            } else {
                let c = byte_char(s, k);
                if c.is_some() {
                    c
                } else {
                    let d = byte_dec(s, k);
                    if d.is_some() {
                        d
                    } else {
                        symbol_at(s, k, SymPart::Whole)
                    }
                }
            }
        }
    };
    match v {
        Some((n, e)) => Some(
            ModeParse { mode: AddressingMode::Immediate(n.value as u8, n.sign), sym: n.sym, end: e },
        ),
        None => None,
    }
}

fn indirect_forms(s: &[u8], j: usize) -> (r: Option<ModeParse>)
    requires
        j <= s@.len(),
    ensures
        r == or_mode(m_indirect_indexed(s@, j as int),
            or_mode(m_indexed_indirect(s@, j as int), m_indirect(s@, j as int))),
        r matches Some(p) ==> j < p.end <= s@.len(),
        r matches Some(p) ==> (p.sym matches Some(sr) ==> sr.start <= sr.end <= s@.len()),
{
    if !at_byte(s, j, 40) {
        return None;
    }
    let a = skip_ws(s, j + 1);
    match byte_value(s, a) {
        Some((n, b)) => {
            let c = skip_ws(s, b);
            if at_byte(s, c, 41) {
                let d = skip_ws(s, c + 1);
                if index_at(s, d, 89) {
                    return Some(ModeParse { mode: AddressingMode::IndirectIndexed(n.value as u8), sym: n.sym, end: d + 2 });
                }
            }
            if index_at(s, c, 88) {
                let d = skip_ws(s, c + 2);
                if at_byte(s, d, 41) {
                    return Some(ModeParse { mode: AddressingMode::IndexedIndirect(n.value as u8), sym: n.sym, end: d + 1 });
                }
            }
        },
        None => {},
    }
    match word_loose(s, a) {
        Some((n, b)) => {
            let c = skip_ws(s, b);
            if at_byte(s, c, 41) {
                return Some(ModeParse { mode: AddressingMode::Indirect(n.value), sym: n.sym, end: c + 1 });
            }
        },
        None => {},
    }
    None
}

fn word_mode(s: &[u8], j: usize, u: u8) -> (r: Option<ModeParse>)
    requires
        j <= s@.len(),
        u == 0 || u == 88 || u == 89,
    ensures
        r == m_word(s@, j as int, u),
        r matches Some(p) ==> j < p.end <= s@.len(),
        r matches Some(p) ==> (p.sym matches Some(sr) ==> sr.start <= sr.end <= s@.len()),
{
    match word_value(s, j) {
        Some((n, b)) => {
            let c = skip_ws(s, b);
            if u == 0 {
                Some(ModeParse { mode: AddressingMode::Absolute(n.value), sym: n.sym, end: b })
            } else if index_at(s, c, u) {
                let mode = if u == 88 {
                    AddressingMode::AbsoluteX(n.value)
                } else {
                    AddressingMode::AbsoluteY(n.value)
                };
                Some(ModeParse { mode, sym: n.sym, end: c + 2 })
            } else {
                None
            }
        },
        None => None,
    }
}

fn byte_mode(s: &[u8], j: usize, u: u8) -> (r: Option<ModeParse>)
    requires
        j <= s@.len(),
        u == 0 || u == 88 || u == 89,
    ensures
        r == m_byte(s@, j as int, u),
        r matches Some(p) ==> j < p.end <= s@.len(),
        r matches Some(p) ==> (p.sym matches Some(sr) ==> sr.start <= sr.end <= s@.len()),
{
    match byte_value(s, j) {
        Some((n, b)) => {
            let c = skip_ws(s, b);
            if u == 0 {
                Some(ModeParse { mode: AddressingMode::ZeroPageOrRelative(n.value as u8, n.sign), sym: n.sym, end: b })
            } else if index_at(s, c, u) {
                let mode = if u == 88 {
                    AddressingMode::ZeroPageX(n.value as u8)
                } else {
                    AddressingMode::ZeroPageY(n.value as u8)
                };
                Some(ModeParse { mode, sym: n.sym, end: c + 2 })
            } else {
                None
            }
        },
        None => None,
    }
}

/// Parses an operand at `i`, trying each addressing mode in its order of
/// priority.
pub fn addressing_mode(s: &[u8], i: usize) -> (r: Option<ModeParse>)
    requires
        i <= s@.len(),
    ensures
        r == p_mode(s@, i as int),
        r matches Some(p) ==> i <= p.end <= s@.len(),
        r matches Some(p) ==> (p.sym matches Some(sr) ==> sr.start <= sr.end <= s@.len()),
{
    let j = skip_ws(s, i);
    if j >= s.len() || s[j] == 10 || s[j] == 13 {
        return Some(ModeParse { mode: AddressingMode::Implied, sym: None, end: j });
    }
    if at_byte(s, j, 65) || at_byte(s, j, 97) {
        return Some(ModeParse { mode: AddressingMode::Accumulator, sym: None, end: j + 1 });
    }
    let a = immediate(s, j);
    if a.is_some() {
        return a;
    }
    let b = indirect_forms(s, j);
    if b.is_some() {
        return b;
    }
    let c = word_mode(s, j, 88);
    if c.is_some() {
        return c;
    }
    let d = word_mode(s, j, 89);
    if d.is_some() {
        return d;
    }
    let e = word_mode(s, j, 0);
    if e.is_some() {
        return e;
    }
    let f = byte_mode(s, j, 88);
    if f.is_some() {
        return f;
    }
    let g = byte_mode(s, j, 89);
    if g.is_some() {
        return g;
    }
    byte_mode(s, j, 0)
}

/// Parses one instruction line. `None` is the generic parse failure: the
/// line does not start with a known mnemonic.
pub fn parse_opcode_line(s: &[u8]) -> (r: Option<ParsedLine>)
    ensures
        r == p_line(s@),
        r matches Some(p) ==> p.end <= s@.len(),
        r matches Some(p) ==> (p.sym matches Some(sr) ==> sr.start <= sr.end <= s@.len()),
{
    let j = skip_ws(s, 0);
    let e = scan(s, j, CharClass::Alpha);
    if e - j != 3 {
        return None;
    }
    let m = match lookup_mnemonic(upper_byte(s[j]), upper_byte(s[j + 1]), upper_byte(s[j + 2])) {
        Some(m) => m,
        None => {
            return None;
        },
    };
    assert(mnemonic_at(s@, j as int, e as int) == Some(m));
    if e < s.len() && is_space_byte(s[e]) {
        let k = skip_ws(s, e);
        match addressing_mode(s, k) {
            Some(r) => {
                let end = skip_ws(s, r.end);
                return Some(ParsedLine { op: OpCode(m, r.mode), sym: r.sym, end });
            },
            None => {},
        }
    }
    let end = skip_ws(s, e);
    Some(ParsedLine { op: OpCode(m, AddressingMode::Implied), sym: None, end })
}


/// The end of the symbol that starts at `i`, if one does.
pub fn p_symbol_exec(s: &[u8], i: usize) -> (r: Option<usize>)
    requires
        i <= s@.len(),
    ensures
        r matches Some(e) ==> p_symbol(s@, i as int) == Some(e as int) && i < e <= s@.len(),
        r is None ==> p_symbol(s@, i as int) is None,
{
    if i < s.len() && (is_alpha_byte(s[i]) || s[i] == 95) {
        Some(scan(s, i + 1, CharClass::Ident))
    } else {
        None
    }
}


/// The instructions of `s` from position `i` on: after whitespace, one
/// instruction line as [`p_line`] reads it, then the rest; `None` where
/// one does not parse (or consumes nothing).
pub open spec fn lines_from(s: Seq<u8>, i: int) -> Option<Seq<OpCode>>
    decreases s.len() - i,
{
    let j = skip_spaces(s, i);
    if i < 0 || j < i || j >= s.len() {
        if 0 <= i && i <= j { Some(Seq::empty()) } else { None }
    } else {
        match p_line(s.subrange(j, s.len() as int)) {
            None => None,
            Some(pl) => if pl.end == 0 || pl.end > s.len() - j {
                None
            } else {
                match lines_from(s, j + pl.end) {
                    Some(rest) => Some(seq![pl.op] + rest),
                    None => None,
                }
            },
        }
    }
}

/// Parses a sequence of instructions separated by whitespace, each as
/// [`parse_opcode_line`] reads it from where the previous one stopped.
/// `None` where one of them does not start with a known mnemonic.
pub fn parse_lines(s: &[u8]) -> (r: Option<Vec<OpCode>>)
    ensures
        match lines_from(s@, 0) {
            Some(codes) => r matches Some(v) && v@ == codes,
            None => r is None,
        },
{
    let mut codes: Vec<OpCode> = Vec::new();
    let mut i: usize = skip_ws(s, 0);
    proof { lemma_skip_spaces_bounds(s@, 0); }
    assert(lines_from(s@, 0) == lines_from(s@, i as int)) by {
        lemma_skip_spaces_bounds(s@, i as int);
    }
    assert(lines_from(s@, 0) == match lines_from(s@, i as int) {
        Some(rest) => Some(codes@ + rest),
        None => None::<Seq<OpCode>>,
    }) by {
        match lines_from(s@, i as int) {
            Some(rest) => { assert(codes@ + rest =~= rest); },
            None => {},
        }
    }
    while i < s.len()
        invariant
            i <= s@.len(),
            skip_spaces(s@, i as int) == i,
            lines_from(s@, 0) == match lines_from(s@, i as int) {
                Some(rest) => Some(codes@ + rest),
                None => None::<Seq<OpCode>>,
            },
        decreases s@.len() - i,
    {
        let rest = crate::text::copy_range(s, i, s.len());
        let p = match parse_opcode_line(rest.as_slice()) {
            Some(p) => p,
            None => {
                return None;
            },
        };
        if p.end == 0 {
            return None;
        }
        let ghost c0 = codes@;
        codes.push(p.op);
        let k = skip_ws(s, i + p.end);
        proof {
            lemma_skip_spaces_bounds(s@, i + p.end);
            lemma_skip_spaces_bounds(s@, k as int);
            match lines_from(s@, i + p.end) {
                Some(tail) => {
                    assert(c0 + (seq![p.op] + tail) =~= codes@ + tail);
                },
                None => {},
            }
            assert(lines_from(s@, i + p.end) == lines_from(s@, k as int));
        }
        i = k;
    }
    assert(codes@ + Seq::<OpCode>::empty() =~= codes@);
    Some(codes)
}

} // verus!
