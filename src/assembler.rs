//! The two-pass assembler: pass one sizes every instruction and binds
//! labels and constants, pass two resolves symbols and emits bytes.
use vstd::prelude::*;
use crate::text::{is_space, skip_spaces, skip_ws, copy_range, range_eq};
use crate::parser::{
    AddressingMode, ParsedLine, SymPart, Sign, p_symbol, p_line, p_word_loose, at, parse_opcode_line,
    word_loose, at_byte, Num,
};
use crate::opcodes::{ModeKind, kind_of, kind_len, opcode_of, opcode, mode_kind, length_of};

verus! {

/// Why a unit failed to assemble.
#[derive(Clone, Copy, PartialEq, Eq, Structural, Debug)]
pub enum AsmErrorKind {
    /// The line does not start with a known mnemonic.
    UnknownMnemonic,
    /// Text follows a parsed instruction.
    TrailingInput,
    /// A `.const` directive without a name and a literal value.
    BadConst,
    /// The mnemonic does not take this operand form.
    IllegalMode,
    /// A label or constant defined twice.
    DuplicateSymbol,
    /// An operand names a symbol that is never defined.
    UndefinedSymbol,
    /// A branch target lies outside -128..=127 of the next instruction.
    BranchOutOfRange,
    /// A symbol's value does not fit in a byte-sized operand.
    ValueTooWide,
    /// The program runs past the end of the address space.
    ProgramTooLarge,
}

/// An assembly error and the 1-based line of the merged text it came from.
#[derive(Clone, Copy, PartialEq, Eq, Structural, Debug)]
pub struct AsmError {
    pub line: usize,
    pub kind: AsmErrorKind,
}

/// A label (an address) or a constant, by name.
#[derive(Debug)]
pub struct Symbol {
    pub name: Vec<u8>,
    pub value: u16,
    pub is_label: bool,
}

pub open spec fn sym_view(s: Symbol) -> (Seq<u8>, u16, bool) {
    (s.name@, s.value, s.is_label)
}

pub open spec fn table_view(t: Seq<Symbol>) -> Seq<(Seq<u8>, u16, bool)> {
    t.map_values(|s: Symbol| sym_view(s))
}

/// The classified form of one source line; spans index the line with its
/// comment removed (`instr` spans index the text after any label).
#[derive(Clone, Copy, Debug)]
pub struct Stmt {
    pub label: Option<(usize, usize)>,
    pub konst: Option<(usize, usize, u16)>,
    pub instr: Option<(usize, ParsedLine)>,
}

/// The bytes, symbols and byte-to-line map of an assembled unit.
pub struct AssembleOutput {
    pub bytes: Vec<u8>,
    pub symbols: Vec<Symbol>,
    /// For each emitted byte, the 1-based line that produced it.
    pub pc_line: Vec<usize>,
}

// ---------------------------------------------------------------- lines

pub open spec fn split_acc(s: Seq<u8>, i: int) -> (Seq<Seq<u8>>, Seq<u8>)
    decreases i,
{
    if i <= 0 {
        (Seq::empty(), Seq::empty())
    } else {
        let (d, c) = split_acc(s, i - 1);
        if s[i - 1] == 10 {
            (d.push(c), Seq::empty())
        } else {
            (d, c.push(s[i - 1]))
        }
    }
}

/// The lines of a text: split at each newline, without a final empty line.
pub open spec fn lines_of(s: Seq<u8>) -> Seq<Seq<u8>> {
    let (d, c) = split_acc(s, s.len() as int);
    if c.len() > 0 {
        d.push(c)
    } else {
        d
    }
}

pub open spec fn deep_view(v: Seq<Vec<u8>>) -> Seq<Seq<u8>> {
    v.map_values(|x: Vec<u8>| x@)
}

/// Splits a text into its lines.
pub fn split_lines(s: &[u8]) -> (r: Vec<Vec<u8>>)
    ensures
        deep_view(r@) == lines_of(s@),
{
    let mut done: Vec<Vec<u8>> = Vec::new();
    let mut cur: Vec<u8> = Vec::new();
    let mut i: usize = 0;
    while i < s.len()
        invariant
            i <= s@.len(),
            deep_view(done@) == split_acc(s@, i as int).0,
            cur@ == split_acc(s@, i as int).1,
        decreases s@.len() - i,
    {
        if s[i] == 10 {
            let line = cur;
            done.push(line);
            cur = Vec::new();
            assert(deep_view(done@) =~= split_acc(s@, i + 1).0);
        } else {
            cur.push(s[i]);
        }
        i = i + 1;
    }
    if cur.len() > 0 {
        done.push(cur);
    }
    assert(deep_view(done@) =~= lines_of(s@));
    done
}

// ------------------------------------------------------------ statements

/// The position of the first `;`, or the length where there is none.
pub open spec fn comment_start(s: Seq<u8>, i: int) -> int
    decreases s.len() - i,
{
    if i < 0 || i >= s.len() {
        s.len() as int
    } else if s[i] == 59 {
        i
    } else {
        comment_start(s, i + 1)
    }
}

/// A line with its comment removed.
pub open spec fn body_of(s: Seq<u8>) -> Seq<u8> {
    s.subrange(0, comment_start(s, 0))
}

pub open spec fn const_word() -> Seq<u8> {
    seq![46u8, 99u8, 111u8, 110u8, 115u8, 116u8]
}

pub open spec fn starts_const(b: Seq<u8>, t: int) -> bool {
    0 <= t && t + 6 <= b.len() && b.subrange(t, t + 6) == const_word()
}

/// `.const NAME value` starting at `t`.
pub open spec fn p_const(b: Seq<u8>, t: int) -> Result<Stmt, AsmErrorKind> {
    let a = t + 6;
    let n0 = skip_spaces(b, a);
    if a < b.len() && is_space(b[a]) && p_symbol(b, n0) is Some {
        let ne = p_symbol(b, n0).unwrap();
        let v0 = skip_spaces(b, ne);
        if v0 > ne && p_word_loose(b, v0) is Some {
            let (n, ve) = p_word_loose(b, v0).unwrap();
            if n.sym is None && skip_spaces(b, ve as int) == b.len() {
                Ok(Stmt { label: None, konst: Some((n0 as usize, ne as usize, n.value)), instr: None })
            } else {
                Err(AsmErrorKind::BadConst)
            }
        } else {
            Err(AsmErrorKind::BadConst)
        }
    } else {
        Err(AsmErrorKind::BadConst)
    }
}

/// An instruction in `b[a..]`, after a label if `label` is set.
pub open spec fn p_instr(b: Seq<u8>, a: int, label: Option<(usize, usize)>) -> Result<Stmt, AsmErrorKind> {
    let sub = b.subrange(a, b.len() as int);
    match p_line(sub) {
        None => Err(AsmErrorKind::UnknownMnemonic),
        Some(pl) => if pl.end == sub.len() {
            Ok(Stmt { label: label, konst: None, instr: Some((a as usize, pl)) })
        } else {
            Err(AsmErrorKind::TrailingInput)
        },
    }
}

/// Classifies one line: blank, a constant, a label with an optional
/// instruction, or an instruction.
#[verifier::opaque]
pub open spec fn p_stmt(s: Seq<u8>) -> Result<Stmt, AsmErrorKind> {
    let b = body_of(s);
    let t = skip_spaces(b, 0);
    if t >= b.len() {
        Ok(Stmt { label: None, konst: None, instr: None })
    } else if starts_const(b, t) {
        p_const(b, t)
    } else if p_symbol(b, t) is Some && at(b, p_symbol(b, t).unwrap(), 58) {
        let e = p_symbol(b, t).unwrap();
        let label = Some((t as usize, e as usize));
        if skip_spaces(b, e + 1) >= b.len() {
            Ok(Stmt { label: label, konst: None, instr: None })
        } else {
            p_instr(b, e + 1, label)
        }
    } else {
        p_instr(b, 0, None)
    }
}

fn comment_pos(s: &[u8]) -> (r: usize)
    ensures
        r == comment_start(s@, 0),
        r <= s@.len(),
{
    let mut i: usize = 0;
    while i < s.len()
        invariant
            i <= s@.len(),
            comment_start(s@, 0) == comment_start(s@, i as int),
        decreases s@.len() - i,
    {
        if s[i] == 59 {
            return i;
        }
        i = i + 1;
    }
    i
}

fn symbol_end(b: &[u8], i: usize) -> (r: Option<usize>)
    requires
        i <= b@.len(),
    ensures
        r matches Some(e) ==> p_symbol(b@, i as int) == Some(e as int) && i < e <= b@.len(),
        r is None ==> p_symbol(b@, i as int) is None,
{
    match crate::parser::p_symbol_exec(b, i) {
        Some(e) => Some(e),
        None => None,
    }
}

/// The spans of a classified line lie within its body.
pub open spec fn stmt_wf(st: Stmt, b: Seq<u8>) -> bool {
    &&& (st.label matches Some((a, e)) ==> a <= e <= b.len())
    &&& (st.konst matches Some((a, e, v)) ==> a <= e <= b.len())
    &&& (st.instr matches Some((a, pl)) ==> a <= b.len() && (pl.sym matches Some(sr) ==> sr.start
        <= sr.end <= b.len() - a))
}

/// Classifies one line of source.
pub fn classify(s: &[u8]) -> (r: Result<Stmt, AsmErrorKind>)
    ensures
        r == p_stmt(s@),
        r matches Ok(st) ==> stmt_wf(st, body_of(s@)),
{
    reveal(p_stmt);
    let ce = comment_pos(s);
    let b = copy_range(s, 0, ce);
    assert(b@ == body_of(s@));
    let t = skip_ws(b.as_slice(), 0);
    if t >= b.len() {
        return Ok(Stmt { label: None, konst: None, instr: None });
    }
    let cw: [u8; 6] = [46, 99, 111, 110, 115, 116];
    if b.len() - t >= 6 && range_eq(b.as_slice(), t, t + 6, cw.as_slice()) {
        assert(cw@ == const_word());
        return parse_const(b.as_slice(), t);
    }
    assert(!starts_const(b@, t as int)) by {
        if t + 6 <= b@.len() {
            assert(cw@ =~= const_word());
        }
    }
    match symbol_end(b.as_slice(), t) {
        Some(e) => {
            if at_byte(b.as_slice(), e, 58) {
                let label = Some((t, e));
                if skip_ws(b.as_slice(), e + 1) >= b.len() {
                    return Ok(Stmt { label, konst: None, instr: None });
                }
                return parse_instr(b.as_slice(), e + 1, label);
            }
        },
        None => {},
    }
    parse_instr(b.as_slice(), 0, None)
}

fn parse_const(b: &[u8], t: usize) -> (r: Result<Stmt, AsmErrorKind>)
    requires
        t + 6 <= b@.len(),
    ensures
        r == p_const(b@, t as int),
        r matches Ok(st) ==> stmt_wf(st, b@),
{
    let len = b.len();
    let a = t + 6;
    let n0 = skip_ws(b, a);
    if a < b.len() && crate::text::is_space_byte(b[a]) {
        match symbol_end(b, n0) {
            Some(ne) => {
                let v0 = skip_ws(b, ne);
                if v0 > ne {
                    match word_loose(b, v0) {
                        Some((n, ve)) => {
                            if n.sym.is_none() && skip_ws(b, ve) == b.len() {
                                return Ok(Stmt { label: None, konst: Some((n0, ne, n.value)), instr: None });
                            }
                        },
                        None => {},
                    }
                }
            },
            None => {},
        }
    }
    Err(AsmErrorKind::BadConst)
}

fn parse_instr(b: &[u8], a: usize, label: Option<(usize, usize)>) -> (r: Result<Stmt, AsmErrorKind>)
    requires
        a <= b@.len(),
    ensures
        r == p_instr(b@, a as int, label),
        r matches Ok(st) ==> (st.instr matches Some((a2, pl)) ==> a2 <= b@.len() && (pl.sym matches Some(sr)
            ==> sr.start <= sr.end <= b@.len() - a2)),
        r matches Ok(st) ==> st.label == label && st.konst is None,
{
    let sub = copy_range(b, a, b.len());
    match parse_opcode_line(sub.as_slice()) {
        None => Err(AsmErrorKind::UnknownMnemonic),
        Some(pl) => {
            if pl.end == sub.len() {
                Ok(Stmt { label, konst: None, instr: Some((a, pl)) })
            } else {
                Err(AsmErrorKind::TrailingInput)
            }
        },
    }
}


// ----------------------------------------------------------------- pass 1

/// The operand form of a parsed instruction line.
pub open spec fn line_kind(pl: ParsedLine) -> ModeKind {
    kind_of(pl.op.0, pl.op.1, pl.sym is Some)
}

/// The emitted length of a classified line.
pub open spec fn stmt_size(r: Result<Stmt, AsmErrorKind>) -> nat {
    match r {
        Ok(st) => match st.instr {
            Some((a, pl)) => kind_len(line_kind(pl)),
            None => 0,
        },
        Err(_) => 0,
    }
}

/// The number of bytes emitted by the first `k` lines.
pub open spec fn size_upto(lines: Seq<Seq<u8>>, k: int) -> nat
    decreases k,
{
    if k <= 0 {
        0
    } else {
        size_upto(lines, k - 1) + stmt_size(p_stmt(lines[k - 1]))
    }
}

/// The symbols a line defines when it starts at address `addr`.
pub open spec fn defs_of(line: Seq<u8>, addr: int) -> Seq<(Seq<u8>, u16, bool)> {
    match p_stmt(line) {
        Ok(st) => match st.label {
            Some((a, e)) => seq![(body_of(line).subrange(a as int, e as int), addr as u16, true)],
            None => match st.konst {
                Some((a, e, v)) => seq![(body_of(line).subrange(a as int, e as int), v, false)],
                None => Seq::empty(),
            },
        },
        Err(_) => Seq::empty(),
    }
}

/// The symbol table after the first `k` lines: labels bound to the address
/// at which they are declared, constants to their values, in order.
pub open spec fn table_upto(lines: Seq<Seq<u8>>, origin: int, k: int) -> Seq<(Seq<u8>, u16, bool)>
    decreases k,
{
    if k <= 0 {
        Seq::empty()
    } else {
        table_upto(lines, origin, k - 1) + defs_of(lines[k - 1], origin + size_upto(lines, k - 1))
    }
}

pub open spec fn has_name(t: Seq<(Seq<u8>, u16, bool)>, name: Seq<u8>) -> bool {
    exists|i: int| 0 <= i < t.len() && #[trigger] t[i].0 == name
}

/// The pass-one error of a line, given the symbols defined before it and
/// its address.
#[verifier::opaque]
pub open spec fn pass1_error(line: Seq<u8>, t: Seq<(Seq<u8>, u16, bool)>, addr: int) -> Option<AsmErrorKind> {
    match p_stmt(line) {
        Err(e) => Some(e),
        Ok(st) => {
            if defs_of(line, addr).len() > 0 && has_name(t, defs_of(line, addr)[0].0) {
                Some(AsmErrorKind::DuplicateSymbol)
            } else if st.instr is Some && opcode_of(
                st.instr.unwrap().1.op.0,
                line_kind(st.instr.unwrap().1),
            ) is None {
                Some(AsmErrorKind::IllegalMode)
            } else if addr + stmt_size(p_stmt(line)) > 0x10000 {
                Some(AsmErrorKind::ProgramTooLarge)
            } else {
                None
            }
        },
    }
}

pub open spec fn pass1_ok(lines: Seq<Seq<u8>>, origin: int, k: int) -> bool
    decreases k,
{
    k <= 0 || (pass1_ok(lines, origin, k - 1) && pass1_error(
        lines[k - 1],
        table_upto(lines, origin, k - 1),
        origin + size_upto(lines, k - 1),
    ) is None)
}

fn find_symbol(t: &Vec<Symbol>, name: &[u8]) -> (r: Option<usize>)
    ensures
        r matches Some(i) ==> i < t@.len() && t@[i as int].name@ == name@ && lookup(table_view(t@), name@) == Some(t@[i as int].value),
        r is None ==> !has_name(table_view(t@), name@) && lookup(table_view(t@), name@) is None,
{
    let mut i: usize = 0;
    while i < t.len()
        invariant
            i <= t@.len(),
            forall|j: int| 0 <= j < i ==> t@[j].name@ != name@,
            lookup(table_view(t@), name@) == lookup_from(table_view(t@), name@, i as int),
        decreases t@.len() - i,
    {
        let n = &t[i].name;
        if range_eq(n.as_slice(), 0, n.len(), name) {
            assert(n@.subrange(0, n@.len() as int) =~= n@);
            return Some(i);
        }
        assert(n@.subrange(0, n@.len() as int) =~= n@);
        i = i + 1;
    }
    assert forall|j: int| 0 <= j < table_view(t@).len() implies #[trigger] table_view(t@)[j].0 != name@ by {
        assert(t@[j].name@ != name@);
    }
    None
}

/// The value bound to a name: the first entry that has it.
pub open spec fn lookup_from(t: Seq<(Seq<u8>, u16, bool)>, name: Seq<u8>, i: int) -> Option<u16>
    decreases t.len() - i,
{
    if i < 0 || i >= t.len() {
        None
    } else if t[i].0 == name {
        Some(t[i].1)
    } else {
        lookup_from(t, name, i + 1)
    }
}

pub open spec fn lookup(t: Seq<(Seq<u8>, u16, bool)>, name: Seq<u8>) -> Option<u16> {
    lookup_from(t, name, 0)
}

/// A line with its comment removed, as a new buffer.
fn body_copy(s: &[u8]) -> (r: Vec<u8>)
    ensures
        r@ == body_of(s@),
{
    let ce = comment_pos(s);
    copy_range(s, 0, ce)
}

/// Pass one on a single line at address `addr`: adds the symbols it
/// defines and gives its emitted length.
#[verifier::rlimit(40)]
fn pass1_line(line: &[u8], table: &mut Vec<Symbol>, addr: u32) -> (r: Result<u32, AsmErrorKind>)
    requires
        addr <= 0x10000,
    ensures
        r is Ok <==> pass1_error(line@, table_view(old(table)@), addr as int) is None,
        r matches Ok(sz) ==> addr + sz <= 0x10000,
        r matches Ok(sz) ==> sz == stmt_size(p_stmt(line@)) && table_view(final(table)@)
            == table_view(old(table)@) + defs_of(line@, addr as int),
        r matches Err(e) ==> pass1_error(line@, table_view(old(table)@), addr as int) == Some(e),
{
    reveal(pass1_error);
    let st = match classify(line) {
        Ok(st) => st,
        Err(kind) => {
            return Err(kind);
        },
    };
    let body = body_copy(line);
    let ghost before = table_view(table@);
    let ghost defs = defs_of(line@, addr as int);
    match st.label {
        Some((a, e)) => {
            let name = copy_range(body.as_slice(), a, e);
            match find_symbol(table, name.as_slice()) {
                Some(i) => {
                    assert(before[i as int].0 == name@);
                    return Err(AsmErrorKind::DuplicateSymbol);
                },
                None => {},
            }
            table.push(Symbol { name, value: #[verifier::truncate] (addr as u16), is_label: true });
        },
        None => match st.konst {
            Some((a, e, v)) => {
                let name = copy_range(body.as_slice(), a, e);
                match find_symbol(table, name.as_slice()) {
                    Some(i) => {
                        assert(before[i as int].0 == name@);
                        return Err(AsmErrorKind::DuplicateSymbol);
                    },
                    None => {},
                }
                table.push(Symbol { name, value: v, is_label: false });
            },
            None => {},
        },
    }
    assert(table_view(table@) =~= before + defs);
    let mut size: u32 = 0;
    match st.instr {
        Some((a, pl)) => {
            let kind = mode_kind(pl.op.0, pl.op.1, pl.sym.is_some());
            if opcode(pl.op.0, kind).is_none() {
                return Err(AsmErrorKind::IllegalMode);
            }
            size = length_of(kind) as u32;
        },
        None => {},
    }
    if addr + size > 0x10000 {
        return Err(AsmErrorKind::ProgramTooLarge);
    }
    Ok(size)
}

/// Pass one over all lines: builds the symbol table and checks that every
/// instruction is legal and that the program fits in the address space.
fn pass1(lines: &Vec<Vec<u8>>, origin: u16) -> (r: Result<Vec<Symbol>, AsmError>)
    ensures
        r is Ok <==> pass1_ok(deep_view(lines@), origin as int, lines@.len() as int),
        r matches Ok(t) ==> table_view(t@) == table_upto(deep_view(lines@), origin as int, lines@.len() as int),
        r matches Err(e) ==> 1 <= e.line <= lines@.len() && pass1_ok(deep_view(lines@), origin as int, e.line - 1)
            && pass1_error(
            deep_view(lines@)[e.line - 1],
            table_upto(deep_view(lines@), origin as int, e.line - 1),
            origin + size_upto(deep_view(lines@), e.line - 1),
        ) == Some(e.kind),
{
    let ghost ls = deep_view(lines@);
    let mut table: Vec<Symbol> = Vec::new();
    let mut addr: u32 = origin as u32;
    let mut k: usize = 0;
    assert(table_view(table@) =~= Seq::empty());
    while k < lines.len()
        invariant
            k <= lines@.len(),
            ls == deep_view(lines@),
            pass1_ok(ls, origin as int, k as int),
            table_view(table@) == table_upto(ls, origin as int, k as int),
            addr == origin + size_upto(ls, k as int),
            addr <= 0x10000,
        decreases lines@.len() - k,
    {
        let line = &lines[k];
        assert(line@ == ls[k as int]);
        match pass1_line(line.as_slice(), &mut table, addr) {
            Ok(size) => {
                addr = addr + size;
            },
            Err(kind) => {
                proof {
                    lemma_pass1_stops(ls, origin as int, k as int + 1, lines@.len() as int);
                }
                return Err(AsmError { line: k + 1, kind });
            },
        }
        k = k + 1;
    }
    Ok(table)
}

/// Once a line fails pass one, every longer prefix fails too.
proof fn lemma_pass1_stops(lines: Seq<Seq<u8>>, origin: int, k: int, n: int)
    requires
        1 <= k <= n,
        !pass1_ok(lines, origin, k),
    ensures
        !pass1_ok(lines, origin, n),
    decreases n - k,
{
    if k < n {
        lemma_pass1_stops(lines, origin, k + 1, n);
    }
}

// ----------------------------------------------------------------- pass 2

pub open spec fn part_value(v: u16, p: SymPart) -> u16 {
    match p {
        SymPart::Whole => v,
        SymPart::Low => v % 256,
        SymPart::High => v / 256,
    }
}

/// A byte literal: an explicit minus sign gives the two's complement.
pub open spec fn signed_byte(b: u8, sign: Sign) -> u16 {
    if sign == Sign::Negative {
        ((256 - b) % 256) as u16
    } else {
        b as u16
    }
}

fn signed_byte_exec(b: u8, sign: Sign) -> (r: u16)
    ensures
        r == signed_byte(b, sign),
{
    if sign == Sign::Negative {
        ((256 - b as u16) % 256) as u16
    } else {
        b as u16
    }
}

/// The number written in an operand, widened to a word.
pub open spec fn literal_of(mode: AddressingMode) -> u16 {
    match mode {
        AddressingMode::Implied | AddressingMode::Accumulator => 0,
        AddressingMode::Immediate(b, sign) => signed_byte(b, sign),
        AddressingMode::ZeroPageOrRelative(b, sign) => signed_byte(b, sign),
        AddressingMode::ZeroPageX(b) => b as u16,
        AddressingMode::ZeroPageY(b) => b as u16,
        AddressingMode::AbsoluteX(w) => w,
        AddressingMode::AbsoluteY(w) => w,
        AddressingMode::Absolute(w) => w,
        AddressingMode::Indirect(w) => w,
        AddressingMode::IndexedIndirect(b) => b as u16,
        AddressingMode::IndirectIndexed(b) => b as u16,
    }
}

/// The operand's value: the literal, or the named symbol's value (or the
/// part of it the operand asks for).
pub open spec fn operand_of(sub: Seq<u8>, pl: ParsedLine, t: Seq<(Seq<u8>, u16, bool)>) -> Option<u16> {
    match pl.sym {
        Some(r) => match lookup(t, sub.subrange(r.start as int, r.end as int)) {
            Some(v) => Some(part_value(v, r.part)),
            None => None,
        },
        None => Some(literal_of(pl.op.1)),
    }
}

/// The bytes of one instruction placed at `addr`: the opcode, then a byte
/// operand or a little-endian word. A branch to an address holds the
/// displacement from the end of the branch.
#[verifier::opaque]
pub open spec fn enc(sub: Seq<u8>, pl: ParsedLine, t: Seq<(Seq<u8>, u16, bool)>, addr: int) -> Result<Seq<u8>, AsmErrorKind> {
    let m = pl.op.0;
    let mode = pl.op.1;
    let k = line_kind(pl);
    match opcode_of(m, k) {
        None => Err(AsmErrorKind::IllegalMode),
        Some(op) => match operand_of(sub, pl, t) {
            None => Err(AsmErrorKind::UndefinedSymbol),
            Some(v) => if kind_len(k) == 1 {
                Ok(seq![op])
            } else if k == ModeKind::Relative {
                if mode is ZeroPageOrRelative && pl.sym is None {
                    Ok(seq![op, v as u8])
                } else if -128 <= v - (addr + 2) <= 127 {
                    Ok(seq![op, ((v - (addr + 2)) % 256) as u8])
                } else {
                    Err(AsmErrorKind::BranchOutOfRange)
                }
            } else if kind_len(k) == 2 {
                if v <= 255 {
                    Ok(seq![op, v as u8])
                } else {
                    Err(AsmErrorKind::ValueTooWide)
                }
            } else {
                Ok(seq![op, (v % 256) as u8, (v / 256) as u8])
            },
        },
    }
}

/// The bytes a line emits at `addr`.
pub open spec fn enc_line(line: Seq<u8>, t: Seq<(Seq<u8>, u16, bool)>, addr: int) -> Result<Seq<u8>, AsmErrorKind> {
    match p_stmt(line) {
        Ok(st) => match st.instr {
            Some((a, pl)) => enc(body_of(line).subrange(a as int, body_of(line).len() as int), pl, t, addr),
            None => Ok(Seq::empty()),
        },
        Err(e) => Err(e),
    }
}

pub open spec fn enc_or_empty(r: Result<Seq<u8>, AsmErrorKind>) -> Seq<u8> {
    match r {
        Ok(b) => b,
        Err(_) => Seq::empty(),
    }
}

pub open spec fn line_bytes(lines: Seq<Seq<u8>>, t: Seq<(Seq<u8>, u16, bool)>, origin: int, k: int) -> Seq<u8> {
    enc_or_empty(enc_line(lines[k], t, origin + size_upto(lines, k)))
}

/// The bytes of the first `k` lines.
pub open spec fn image(lines: Seq<Seq<u8>>, t: Seq<(Seq<u8>, u16, bool)>, origin: int, k: int) -> Seq<u8>
    decreases k,
{
    if k <= 0 {
        Seq::empty()
    } else {
        image(lines, t, origin, k - 1) + line_bytes(lines, t, origin, k - 1)
    }
}

/// For each byte of the first `k` lines, the 1-based line that emitted it.
pub open spec fn pcmap(lines: Seq<Seq<u8>>, t: Seq<(Seq<u8>, u16, bool)>, origin: int, k: int) -> Seq<usize>
    decreases k,
{
    if k <= 0 {
        Seq::empty()
    } else {
        pcmap(lines, t, origin, k - 1) + Seq::new(line_bytes(lines, t, origin, k - 1).len(), |j: int| k as usize)
    }
}

pub open spec fn pass2_ok(lines: Seq<Seq<u8>>, t: Seq<(Seq<u8>, u16, bool)>, origin: int, k: int) -> bool
    decreases k,
{
    k <= 0 || (pass2_ok(lines, t, origin, k - 1) && enc_line(lines[k - 1], t, origin + size_upto(lines, k - 1)) is Ok)
}

fn encode(sub: &[u8], pl: ParsedLine, t: &Vec<Symbol>, addr: u32) -> (r: Result<Vec<u8>, AsmErrorKind>)
    requires
        addr <= 0x10000,
        pl.sym matches Some(sr) ==> sr.start <= sr.end <= sub@.len(),
    ensures
        match r {
            Ok(v) => enc(sub@, pl, table_view(t@), addr as int) == Ok::<Seq<u8>, AsmErrorKind>(v@),
            Err(e) => enc(sub@, pl, table_view(t@), addr as int) == Err::<Seq<u8>, AsmErrorKind>(e),
        },
{
    reveal(enc);
    let m = pl.op.0;
    let mode = pl.op.1;
    let k = mode_kind(m, mode, pl.sym.is_some());
    let op = match opcode(m, k) {
        Some(op) => op,
        None => {
            return Err(AsmErrorKind::IllegalMode);
        },
    };
    let v: u16 = match pl.sym {
        Some(sr) => {
            let name = copy_range(sub, sr.start, sr.end);
            match find_symbol(t, name.as_slice()) {
                Some(i) => {
                    let raw = t[i].value;
                    match sr.part {
                        SymPart::Whole => raw,
                        SymPart::Low => raw % 256,
                        SymPart::High => raw / 256,
                    }
                },
                None => {
                    return Err(AsmErrorKind::UndefinedSymbol);
                },
            }
        },
        None => match mode {
            AddressingMode::Implied | AddressingMode::Accumulator => 0,
            AddressingMode::Immediate(b, sign) => signed_byte_exec(b, sign),
            AddressingMode::ZeroPageOrRelative(b, sign) => signed_byte_exec(b, sign),
            AddressingMode::ZeroPageX(b) => b as u16,
            AddressingMode::ZeroPageY(b) => b as u16,
            AddressingMode::AbsoluteX(w) => w,
            AddressingMode::AbsoluteY(w) => w,
            AddressingMode::Absolute(w) => w,
            AddressingMode::Indirect(w) => w,
            AddressingMode::IndexedIndirect(b) => b as u16,
            AddressingMode::IndirectIndexed(b) => b as u16,
        },
    };
    assert(operand_of(sub@, pl, table_view(t@)) == Some(v));
    let len = length_of(k);
    let mut out: Vec<u8> = Vec::new();
    out.push(op);
    if len == 1 {
        assert(out@ =~= seq![op]);
        return Ok(out);
    }
    if k == ModeKind::Relative {
        let raw_byte = match mode {
            AddressingMode::ZeroPageOrRelative(_, _) => pl.sym.is_none(),
            _ => false,
        };
        if raw_byte {
            out.push(v as u8);
            assert(out@ =~= seq![op, v as u8]);
            return Ok(out);
        }
        let d: i64 = v as i64 - (addr as i64 + 2);
        if d < -128 || d > 127 {
            return Err(AsmErrorKind::BranchOutOfRange);
        }
        let b: u8 = if d < 0 { (d + 256) as u8 } else { d as u8 };
        assert(b == ((v - (addr + 2)) % 256) as u8);
        out.push(b);
        assert(out@ =~= seq![op, b]);
        return Ok(out);
    }
    if len == 2 {
        if v > 255 {
            return Err(AsmErrorKind::ValueTooWide);
        }
        out.push(v as u8);
        assert(out@ =~= seq![op, v as u8]);
        return Ok(out);
    }
    out.push((v % 256) as u8);
    out.push((v / 256) as u8);
    assert(out@ =~= seq![op, (v % 256) as u8, (v / 256) as u8]);
    Ok(out)
}


proof fn lemma_enc_len(line: Seq<u8>, t: Seq<(Seq<u8>, u16, bool)>, addr: int)
    ensures
        enc_line(line, t, addr) is Ok ==> enc_or_empty(enc_line(line, t, addr)).len() == stmt_size(
            p_stmt(line),
        ),
{
    match p_stmt(line) {
        Ok(st) => match st.instr {
            Some((a, pl)) => {
                lemma_enc_size(body_of(line).subrange(a as int, body_of(line).len() as int), pl, t, addr);
            },
            None => {},
        },
        Err(_) => {},
    }
}

proof fn lemma_enc_size(sub: Seq<u8>, pl: ParsedLine, t: Seq<(Seq<u8>, u16, bool)>, addr: int)
    ensures
        enc(sub, pl, t, addr) matches Ok(b) ==> b.len() == kind_len(line_kind(pl)),
{
    reveal(enc);
}

proof fn lemma_pass1_error_bound(line: Seq<u8>, t: Seq<(Seq<u8>, u16, bool)>, addr: int)
    ensures
        pass1_error(line, t, addr) is None ==> addr + stmt_size(p_stmt(line)) <= 0x10000,
{
    reveal(pass1_error);
}

/// Pass one holds of every prefix of a unit that passes it, and each prefix
/// ends inside the address space.
proof fn lemma_pass1_prefix(lines: Seq<Seq<u8>>, origin: int, k: int, n: int)
    requires
        0 <= k <= n,
        0 <= origin <= 0xFFFF,
        pass1_ok(lines, origin, n),
    ensures
        pass1_ok(lines, origin, k),
        origin + size_upto(lines, k) <= 0x10000,
    decreases n - k,
{
    if k < n {
        lemma_pass1_prefix(lines, origin, k + 1, n);
    }
    if k > 0 {
        lemma_pass1_error_bound(lines[k - 1], table_upto(lines, origin, k - 1), origin + size_upto(lines, k - 1));
    }
}

fn pass2_line(line: &[u8], t: &Vec<Symbol>, addr: u32) -> (r: Result<Vec<u8>, AsmErrorKind>)
    requires
        addr <= 0x10000,
    ensures
        match r {
            Ok(v) => enc_line(line@, table_view(t@), addr as int) == Ok::<Seq<u8>, AsmErrorKind>(v@),
            Err(e) => enc_line(line@, table_view(t@), addr as int) == Err::<Seq<u8>, AsmErrorKind>(e),
        },
{
    let st = match classify(line) {
        Ok(st) => st,
        Err(e) => {
            return Err(e);
        },
    };
    match st.instr {
        None => Ok(Vec::new()),
        Some((a, pl)) => {
            let body = body_copy(line);
            let sub = copy_range(body.as_slice(), a, body.len());
            encode(sub.as_slice(), pl, t, addr)
        },
    }
}

/// Pass two: encodes every line against the finished symbol table.
fn pass2(lines: &Vec<Vec<u8>>, t: &Vec<Symbol>, origin: u16) -> (r: Result<(Vec<u8>, Vec<usize>), AsmError>)
    requires
        pass1_ok(deep_view(lines@), origin as int, lines@.len() as int),
    ensures
        r is Ok <==> pass2_ok(deep_view(lines@), table_view(t@), origin as int, lines@.len() as int),
        r matches Ok((b, p)) ==> b@ == image(deep_view(lines@), table_view(t@), origin as int, lines@.len() as int)
            && p@ == pcmap(deep_view(lines@), table_view(t@), origin as int, lines@.len() as int),
        r matches Err(e) ==> 1 <= e.line <= lines@.len() && pass2_ok(deep_view(lines@), table_view(t@), origin as int, e.line - 1)
            && enc_line(
            deep_view(lines@)[e.line - 1],
            table_view(t@),
            origin + size_upto(deep_view(lines@), e.line - 1),
        ) == Err::<Seq<u8>, AsmErrorKind>(e.kind),
{
    let ghost ls = deep_view(lines@);
    let ghost tv = table_view(t@);
    let ghost n = lines@.len() as int;
    let mut bytes: Vec<u8> = Vec::new();
    let mut pcs: Vec<usize> = Vec::new();
    let mut addr: u32 = origin as u32;
    let mut k: usize = 0;
    let nlines = lines.len();
    while k < nlines
        invariant
            k <= lines@.len(),
            nlines == lines@.len(),
            n == lines@.len(),
            ls == deep_view(lines@),
            tv == table_view(t@),
            pass1_ok(ls, origin as int, n),
            pass2_ok(ls, tv, origin as int, k as int),
            addr == origin + size_upto(ls, k as int),
            bytes@ == image(ls, tv, origin as int, k as int),
            pcs@ == pcmap(ls, tv, origin as int, k as int),
        decreases lines@.len() - k,
    {
        proof {
            lemma_pass1_prefix(ls, origin as int, k as int, n);
        }
        let line = &lines[k];
        assert(line@ == ls[k as int]);
        let enc = match pass2_line(line.as_slice(), t, addr) {
            Ok(v) => v,
            Err(kind) => {
                proof {
                    lemma_pass2_stops(ls, tv, origin as int, k as int + 1, n);
                }
                return Err(AsmError { line: k + 1, kind });
            },
        };
        proof {
            lemma_enc_len(ls[k as int], tv, addr as int);
            lemma_pass1_prefix(ls, origin as int, k as int + 1, n);
        }
        let ghost b0 = bytes@;
        let ghost p0 = pcs@;
        let mut j: usize = 0;
        while j < enc.len()
            invariant
                j <= enc@.len(),
                k < nlines,
                bytes@ == b0 + enc@.subrange(0, j as int),
                pcs@ == p0 + Seq::new(j as nat, |i: int| (k + 1) as usize),
            decreases enc@.len() - j,
        {
            bytes.push(enc[j]);
            pcs.push(k + 1);
            j = j + 1;
            assert(bytes@ =~= b0 + enc@.subrange(0, j as int));
            assert(pcs@ =~= p0 + Seq::new(j as nat, |i: int| (k + 1) as usize));
        }
        assert(enc@.subrange(0, enc@.len() as int) =~= enc@);
        assert(line_bytes(ls, tv, origin as int, k as int) == enc@);
        assert(bytes@ =~= image(ls, tv, origin as int, k + 1));
        assert(pcs@ =~= pcmap(ls, tv, origin as int, k + 1));
        addr = addr + enc.len() as u32;
        k = k + 1;
    }
    Ok((bytes, pcs))
}

proof fn lemma_pass2_stops(lines: Seq<Seq<u8>>, t: Seq<(Seq<u8>, u16, bool)>, origin: int, k: int, n: int)
    requires
        1 <= k <= n,
        !pass2_ok(lines, t, origin, k),
    ensures
        !pass2_ok(lines, t, origin, n),
    decreases n - k,
{
    if k < n {
        lemma_pass2_stops(lines, t, origin, k + 1, n);
    }
}

/// The symbol table of a unit: every label and constant, in order of
/// definition.
pub open spec fn symbols_of(src: Seq<u8>, origin: u16) -> Seq<(Seq<u8>, u16, bool)> {
    table_upto(lines_of(src), origin as int, lines_of(src).len() as int)
}

/// Whether a unit assembles: both passes succeed on every line.
pub open spec fn assembles(src: Seq<u8>, origin: u16) -> bool {
    pass1_ok(lines_of(src), origin as int, lines_of(src).len() as int) && pass2_ok(
        lines_of(src),
        symbols_of(src, origin),
        origin as int,
        lines_of(src).len() as int,
    )
}

/// The program bytes of a unit.
pub open spec fn image_of(src: Seq<u8>, origin: u16) -> Seq<u8> {
    image(lines_of(src), symbols_of(src, origin), origin as int, lines_of(src).len() as int)
}

/// The byte-to-line map of a unit.
pub open spec fn pcmap_of(src: Seq<u8>, origin: u16) -> Seq<usize> {
    pcmap(lines_of(src), symbols_of(src, origin), origin as int, lines_of(src).len() as int)
}

/// `e` is the first error of the unit: the first line that fails pass one,
/// or, when pass one succeeds, the first line that fails pass two.
pub open spec fn first_error(src: Seq<u8>, origin: u16, e: AsmError) -> bool {
    let lines = lines_of(src);
    let n = lines.len() as int;
    let k = e.line - 1;
    let o = origin as int;
    &&& 1 <= e.line <= n
    &&& ((pass1_ok(lines, o, k) && pass1_error(lines[k], table_upto(lines, o, k), o + size_upto(lines, k)) == Some(e.kind))
        || (pass1_ok(lines, o, n) && pass2_ok(lines, symbols_of(src, origin), o, k) && enc_line(
        lines[k],
        symbols_of(src, origin),
        o + size_upto(lines, k),
    ) == Err::<Seq<u8>, AsmErrorKind>(e.kind)))
}

/// `out` holds exactly the symbols, bytes and byte-to-line map of the unit.
pub open spec fn assembled_as(src: Seq<u8>, origin: u16, out: AssembleOutput) -> bool {
    &&& table_view(out.symbols@) == symbols_of(src, origin)
    &&& out.bytes@ == image_of(src, origin)
    &&& out.pc_line@ == pcmap_of(src, origin)
}

/// Assembles a merged source text whose first byte is placed at `origin`.
/// Fails on the first line in error; on success the bytes, the symbol
/// table and the byte-to-line map are exactly those the two passes define.
pub fn assemble(src: &[u8], origin: u16) -> (r: Result<AssembleOutput, AsmError>)
    ensures
        r is Ok <==> assembles(src@, origin),
        r matches Ok(out) ==> assembled_as(src@, origin, out),
        r matches Err(e) ==> first_error(src@, origin, e),
{
    let lines = split_lines(src);
    let symbols = match pass1(&lines, origin) {
        Ok(t) => t,
        Err(e) => {
            return Err(e);
        },
    };
    match pass2(&lines, &symbols, origin) {
        Ok((bytes, pc_line)) => Ok(AssembleOutput { bytes, symbols, pc_line }),
        Err(e) => Err(e),
    }
}


// ------------------------------------------------------------------ laws

/// Assembling the same text at the same origin twice gives the same bytes,
/// the same symbol table and the same byte-to-line map.
pub proof fn lemma_assembly_deterministic(src: Seq<u8>, origin: u16, a: AssembleOutput, b: AssembleOutput)
    requires
        assembled_as(src, origin, a),
        assembled_as(src, origin, b),
    ensures
        a.bytes@ == b.bytes@,
        table_view(a.symbols@) == table_view(b.symbols@),
        a.pc_line@ == b.pc_line@,
{
}

proof fn lemma_lookup_first(t: Seq<(Seq<u8>, u16, bool)>, name: Seq<u8>, i: int, idx: int)
    requires
        0 <= i <= idx < t.len(),
        t[idx].0 == name,
        forall|j: int| i <= j < idx ==> t[j].0 != name,
    ensures
        lookup_from(t, name, i) == Some(t[idx].1),
    decreases idx - i,
{
    if i < idx {
        lemma_lookup_first(t, name, i + 1, idx);
    }
}

proof fn lemma_table_prefix(lines: Seq<Seq<u8>>, origin: int, k: int, n: int)
    requires
        0 <= k <= n,
    ensures
        table_upto(lines, origin, k).len() <= table_upto(lines, origin, n).len(),
        table_upto(lines, origin, n).subrange(0, table_upto(lines, origin, k).len() as int) == table_upto(lines, origin, k),
    decreases n - k,
{
    if k < n {
        lemma_table_prefix(lines, origin, k, n - 1);
        let a = table_upto(lines, origin, k);
        let b = table_upto(lines, origin, n - 1);
        let c = table_upto(lines, origin, n);
        assert(c.subrange(0, a.len() as int) =~= b.subrange(0, a.len() as int));
    } else {
        assert(table_upto(lines, origin, n).subrange(0, table_upto(lines, origin, n).len() as int) =~= table_upto(lines, origin, n));
    }
}

/// The name a line defines as a label.
pub open spec fn label_name(line: Seq<u8>) -> Seq<u8> {
    body_of(line).subrange(p_stmt(line).unwrap().label.unwrap().0 as int, p_stmt(line).unwrap().label.unwrap().1 as int)
}

/// In a unit that assembles, a label is bound to the origin plus the sizes
/// of the lines before its definition. Instruction sizes depend on the
/// operand form alone, so the address does not depend on whether the
/// label is referenced before or after it is defined.
pub proof fn lemma_label_address(src: Seq<u8>, origin: u16, k: int)
    requires
        assembles(src, origin),
        0 <= k < lines_of(src).len(),
        p_stmt(lines_of(src)[k]) is Ok,
        p_stmt(lines_of(src)[k]).unwrap().label is Some,
    ensures
        lookup(symbols_of(src, origin), label_name(lines_of(src)[k])) == Some(
            (origin + size_upto(lines_of(src), k)) as u16,
        ),
{
    let lines = lines_of(src);
    let n = lines.len() as int;
    let o = origin as int;
    let name = label_name(lines[k]);
    lemma_pass1_prefix(lines, o, k + 1, n);
    let tk = table_upto(lines, o, k);
    let addr = o + size_upto(lines, k);
    assert(pass1_error(lines[k], tk, addr) is None);
    reveal(pass1_error);
    let d = defs_of(lines[k], addr);
    assert(d == seq![(name, addr as u16, true)]);
    assert(!has_name(tk, name));
    let t1 = table_upto(lines, o, k + 1);
    assert(t1 == tk + d);
    lemma_table_prefix(lines, o, k + 1, n);
    let tn = table_upto(lines, o, n);
    let idx = tk.len() as int;
    assert(tn[idx] == t1[idx]);
    assert forall|j: int| 0 <= j < idx implies tn[j].0 != name by {
        assert(tn[j] == t1[j]);
        assert(t1[j] == tk[j]);
        if tk[j].0 == name {
            assert(has_name(tk, name));
        }
    }
    lemma_lookup_first(tn, name, 0, idx);
}

proof fn lemma_enc_first(line: Seq<u8>, t: Seq<(Seq<u8>, u16, bool)>, addr: int)
    requires
        enc_line(line, t, addr) is Ok,
        enc_or_empty(enc_line(line, t, addr)).len() > 0,
    ensures
        p_stmt(line) is Ok,
        p_stmt(line).unwrap().instr is Some,
        opcode_of(
            p_stmt(line).unwrap().instr.unwrap().1.op.0,
            line_kind(p_stmt(line).unwrap().instr.unwrap().1),
        ) == Some(enc_or_empty(enc_line(line, t, addr))[0]),
{
    reveal(enc);
}

proof fn lemma_image_shape(lines: Seq<Seq<u8>>, t: Seq<(Seq<u8>, u16, bool)>, origin: int, k: int)
    requires
        0 <= k <= lines.len(),
        pass2_ok(lines, t, origin, k),
    ensures
        image(lines, t, origin, k).len() == size_upto(lines, k),
        pcmap(lines, t, origin, k).len() == image(lines, t, origin, k).len(),
    decreases k,
{
    if k > 0 {
        lemma_image_shape(lines, t, origin, k - 1);
        lemma_enc_len(lines[k - 1], t, origin + size_upto(lines, k - 1));
    }
}

/// Where a byte of the first `k` lines came from: line `j` (0-based) emitted
/// it, its bytes start at offset `size_upto(j)`, and their first byte is
/// the opcode of the instruction that line parses to on its own.
pub open spec fn traced(lines: Seq<Seq<u8>>, t: Seq<(Seq<u8>, u16, bool)>, origin: int, k: int, b: int) -> bool {
    let j = pcmap(lines, t, origin, k)[b] - 1;
    &&& 0 <= j < k
    &&& p_stmt(lines[j]) is Ok
    &&& p_stmt(lines[j]).unwrap().instr is Some
    &&& size_upto(lines, j) <= b < size_upto(lines, j + 1)
    &&& opcode_of(
        p_stmt(lines[j]).unwrap().instr.unwrap().1.op.0,
        line_kind(p_stmt(lines[j]).unwrap().instr.unwrap().1),
    ) == Some(image(lines, t, origin, k)[size_upto(lines, j) as int])
}

proof fn lemma_trace(lines: Seq<Seq<u8>>, t: Seq<(Seq<u8>, u16, bool)>, origin: int, k: int, b: int)
    requires
        0 <= k <= lines.len(),
        k <= usize::MAX,
        pass2_ok(lines, t, origin, k),
        0 <= b < image(lines, t, origin, k).len(),
    ensures
        traced(lines, t, origin, k, b),
    decreases k,
{
    lemma_image_shape(lines, t, origin, k);
    lemma_image_shape(lines, t, origin, k - 1);
    let prev = image(lines, t, origin, k - 1);
    let lb = line_bytes(lines, t, origin, k - 1);
    lemma_enc_len(lines[k - 1], t, origin + size_upto(lines, k - 1));
    if b < prev.len() {
        lemma_trace(lines, t, origin, k - 1, b);
        let j = pcmap(lines, t, origin, k - 1)[b] - 1;
        assert(pcmap(lines, t, origin, k)[b] == pcmap(lines, t, origin, k - 1)[b]);
        lemma_size_mono(lines, j + 1, k - 1);
        assert(image(lines, t, origin, k)[size_upto(lines, j) as int] == prev[size_upto(lines, j) as int]);
    } else {
        assert(pcmap(lines, t, origin, k)[b] == k);
        lemma_enc_first(lines[k - 1], t, origin + size_upto(lines, k - 1));
        assert(image(lines, t, origin, k)[size_upto(lines, k - 1) as int] == lb[0]);
    }
}

proof fn lemma_size_mono(lines: Seq<Seq<u8>>, a: int, b: int)
    requires
        0 <= a <= b,
    ensures
        size_upto(lines, a) <= size_upto(lines, b),
    decreases b - a,
{
    if a < b {
        lemma_size_mono(lines, a, b - 1);
    }
}

/// Every byte of an assembled unit traces to the line that emitted it: that
/// line, parsed on its own, is an instruction whose bytes span the offset
/// and begin with its opcode.
pub proof fn lemma_bytes_trace_to_lines(src: Seq<u8>, origin: u16, b: int)
    requires
        src.len() <= usize::MAX,
        assembles(src, origin),
        0 <= b < image_of(src, origin).len(),
    ensures
        traced(lines_of(src), symbols_of(src, origin), origin as int, lines_of(src).len() as int, b),
{
    lemma_lines_count(src);
    lemma_trace(lines_of(src), symbols_of(src, origin), origin as int, lines_of(src).len() as int, b);
}

proof fn lemma_split_count(s: Seq<u8>, i: int)
    requires
        0 <= i <= s.len(),
    ensures
        split_acc(s, i).0.len() + split_acc(s, i).1.len() <= i,
    decreases i,
{
    if i > 0 {
        lemma_split_count(s, i - 1);
    }
}

/// A text has no more lines than bytes.
pub proof fn lemma_lines_count(s: Seq<u8>)
    ensures
        lines_of(s).len() <= s.len(),
{
    lemma_split_count(s, s.len() as int);
}


/// The byte-to-line map of a unit that assembles has one entry per byte.
pub proof fn lemma_image_len_of(src: Seq<u8>, origin: u16)
    requires
        assembles(src, origin),
    ensures
        pcmap_of(src, origin).len() == image_of(src, origin).len(),
{
    lemma_lines_count(src);
    lemma_image_shape(lines_of(src), symbols_of(src, origin), origin as int, lines_of(src).len() as int);
}

} // verus!
