//! Provenance: concatenating expanded units, composing the assembler's
//! byte-to-line map with the merged text's line origins, and placing an
//! assembly error in its source file and line.
use vstd::prelude::*;
use vstd::string::StringSliceAdditionalSpecFns;
use crate::expand::{ExpandedAsm, LineOrigin};
use crate::assembler::{assemble, AsmError, AsmErrorKind, AssembleOutput, Symbol, split_lines, deep_view, lines_of,
    assembles, image_of, pcmap_of, symbols_of, table_view, lookup};
use crate::text::copy_range;
use crate::expand::{SourceFile, Merged, expansion, exp_file, exp_upto, flatten, file_lines, find_file_from,
    include_of, IncludeLine, IncludeError};
use crate::assembler::{split_acc, p_stmt, traced, size_upto, lemma_bytes_trace_to_lines};
use crate::opcodes::opcode_of;
use crate::assembler::line_kind;

verus! {

/// The origin of a 1-based merged line, if the map has one (line 0 is
/// read as line 1).
pub open spec fn origin_of(map: Seq<LineOrigin>, line: usize) -> Option<LineOrigin> {
    let i = if line == 0 { 0 } else { line - 1 };
    if i < map.len() {
        Some(map[i])
    } else {
        None
    }
}

/// The composed map: for each byte, the origin of the line that emitted it;
/// bytes whose line has no origin are left out.
pub open spec fn composed(pc: Seq<usize>, map: Seq<LineOrigin>) -> Seq<LineOrigin>
    decreases pc.len(),
{
    if pc.len() == 0 {
        Seq::empty()
    } else {
        let prev = composed(pc.drop_last(), map);
        match origin_of(map, pc.last()) {
            Some(o) => prev.push(o),
            None => prev,
        }
    }
}

/// Looks up the origin of a 1-based merged line.
pub fn line_origin(map: &Vec<LineOrigin>, line: usize) -> (r: Option<LineOrigin>)
    ensures
        r == origin_of(map@, line),
{
    let i = if line == 0 { 0 } else { line - 1 };
    if i < map.len() {
        Some(map[i])
    } else {
        None
    }
}

/// Composes a byte-to-merged-line map with the merged lines' origins into a
/// byte-to-source map.
pub fn compose(pc: &Vec<usize>, map: &Vec<LineOrigin>) -> (r: Vec<LineOrigin>)
    ensures
        r@ == composed(pc@, map@),
{
    let mut r: Vec<LineOrigin> = Vec::new();
    let mut k: usize = 0;
    while k < pc.len()
        invariant
            k <= pc@.len(),
            r@ == composed(pc@.subrange(0, k as int), map@),
        decreases pc@.len() - k,
    {
        assert(pc@.subrange(0, k + 1).drop_last() =~= pc@.subrange(0, k as int));
        match line_origin(map, pc[k]) {
            Some(o) => r.push(o),
            None => {},
        }
        k = k + 1;
    }
    assert(pc@.subrange(0, pc@.len() as int) =~= pc@);
    r
}

/// Whether merged text ends with a newline.
pub open spec fn ends_with_newline(b: Seq<u8>) -> bool {
    b.len() > 0 && b.last() == 10
}

/// Concatenates two expanded units. Where the first does not end with a
/// newline one is added, and its new last line takes the origin of the
/// line before it (or line 1 of file 0 where there is none).
pub fn merge_expanded(a: ExpandedAsm, b: ExpandedAsm) -> (r: ExpandedAsm)
    ensures
        ends_with_newline(a.bytes@) ==> r.bytes@ == a.bytes@ + b.bytes@ && r.line_map@ == a.line_map@
            + b.line_map@,
        !ends_with_newline(a.bytes@) ==> r.bytes@ == a.bytes@.push(10) + b.bytes@ && r.line_map@
            == a.line_map@.push(
            if a.line_map@.len() > 0 { a.line_map@.last() } else { LineOrigin { file: 0, line: 1 } },
        ) + b.line_map@,
{
    let mut bytes = a.bytes;
    let mut line_map = a.line_map;
    let n = bytes.len();
    if !(n > 0 && bytes[n - 1] == 10) {
        bytes.push(10);
        let m = line_map.len();
        let o = if m > 0 { line_map[m - 1] } else { LineOrigin { file: 0, line: 1 } };
        line_map.push(o);
    }
    let ghost b0 = bytes@;
    let ghost l0 = line_map@;
    let mut k: usize = 0;
    while k < b.bytes.len()
        invariant
            k <= b.bytes@.len(),
            bytes@ == b0 + b.bytes@.subrange(0, k as int),
        decreases b.bytes@.len() - k,
    {
        bytes.push(b.bytes[k]);
        k = k + 1;
        assert(bytes@ =~= b0 + b.bytes@.subrange(0, k as int));
    }
    let mut j: usize = 0;
    while j < b.line_map.len()
        invariant
            j <= b.line_map@.len(),
            bytes@ == b0 + b.bytes@.subrange(0, b.bytes@.len() as int),
            line_map@ == l0 + b.line_map@.subrange(0, j as int),
        decreases b.line_map@.len() - j,
    {
        line_map.push(b.line_map[j]);
        j = j + 1;
        assert(line_map@ =~= l0 + b.line_map@.subrange(0, j as int));
    }
    assert(b.bytes@.subrange(0, b.bytes@.len() as int) =~= b.bytes@);
    assert(b.line_map@.subrange(0, b.line_map@.len() as int) =~= b.line_map@);
    ExpandedAsm { bytes, line_map }
}


/// What a successful build hands to the debugger.
pub struct BuildArtifacts {
    pub program: Vec<u8>,
    pub entry_point: Option<u16>,
    /// The labels of the unit, in order of definition.
    pub labels: Vec<Symbol>,
    pub load_addr: u16,
    /// Merged line to source file and line.
    pub line_map: Vec<LineOrigin>,
    /// Byte offset to source file and line.
    pub pc_line_map: Vec<LineOrigin>,
    /// The merged text, one entry per line.
    pub asm_lines: Vec<Vec<u8>>,
    /// Byte offset to 1-based merged line.
    pub pc_asm_line_map: Vec<usize>,
}

/// An assembly error, and the source file and line of the merged line it
/// names where the line map has one.
#[derive(Clone, Copy, PartialEq, Eq, Structural, Debug)]
pub struct BuildError {
    pub error: AsmError,
    pub origin: Option<LineOrigin>,
}

/// The label entries of a symbol table, in order.
pub open spec fn labels_of(t: Seq<(Seq<u8>, u16, bool)>) -> Seq<(Seq<u8>, u16, bool)>
    decreases t.len(),
{
    if t.len() == 0 {
        Seq::empty()
    } else if t.last().2 {
        labels_of(t.drop_last()).push(t.last())
    } else {
        labels_of(t.drop_last())
    }
}

pub open spec fn init_name() -> Seq<u8> {
    seq![73u8, 110u8, 105u8, 116u8]
}

pub open spec fn update_name() -> Seq<u8> {
    seq![85u8, 112u8, 100u8, 97u8, 116u8, 101u8]
}

/// The entry point: the label `Init`, or else the label `Update`.
pub open spec fn entry_of(labels: Seq<(Seq<u8>, u16, bool)>) -> Option<u16> {
    match lookup(labels, init_name()) {
        Some(a) => Some(a),
        None => lookup(labels, update_name()),
    }
}

fn label_entries(t: &Vec<Symbol>) -> (r: Vec<Symbol>)
    ensures
        table_view(r@) == labels_of(table_view(t@)),
{
    let mut r: Vec<Symbol> = Vec::new();
    let mut k: usize = 0;
    while k < t.len()
        invariant
            k <= t@.len(),
            table_view(r@) == labels_of(table_view(t@.subrange(0, k as int))),
        decreases t@.len() - k,
    {
        assert(table_view(t@.subrange(0, k + 1)).drop_last() =~= table_view(t@.subrange(0, k as int)));
        let ghost before = r@;
        if t[k].is_label {
            let name = copy_range(t[k].name.as_slice(), 0, t[k].name.len());
            assert(name@ =~= t@[k as int].name@);
            r.push(Symbol { name, value: t[k].value, is_label: true });
            assert(table_view(r@) =~= table_view(before).push(sym_entry(t@[k as int])));
        }
        k = k + 1;
    }
    assert(t@.subrange(0, t@.len() as int) =~= t@);
    r
}

pub open spec fn sym_entry(s: Symbol) -> (Seq<u8>, u16, bool) {
    (s.name@, s.value, s.is_label)
}

fn find_value(t: &Vec<Symbol>, name: &[u8]) -> (r: Option<u16>)
    ensures
        r == lookup(table_view(t@), name@),
{
    let mut i: usize = 0;
    while i < t.len()
        invariant
            i <= t@.len(),
            lookup(table_view(t@), name@) == crate::assembler::lookup_from(table_view(t@), name@, i as int),
        decreases t@.len() - i,
    {
        let n = &t[i].name;
        let same = crate::text::range_eq(n.as_slice(), 0, n.len(), name);
        assert(n@.subrange(0, n@.len() as int) =~= n@);
        if same {
            return Some(t[i].value);
        }
        i = i + 1;
    }
    None
}

/// `a` is the build of merged text `bytes` with line origins `lm` at
/// `origin`: the assembled program, its maps, labels and entry point.
pub open spec fn built_as(a: BuildArtifacts, bytes: Seq<u8>, lm: Seq<LineOrigin>, origin: u16) -> bool {
    &&& a.program@ == image_of(bytes, origin)
    &&& a.pc_asm_line_map@ == pcmap_of(bytes, origin)
    &&& a.pc_line_map@ == composed(pcmap_of(bytes, origin), lm)
    &&& table_view(a.labels@) == labels_of(symbols_of(bytes, origin))
    &&& a.entry_point == entry_of(labels_of(symbols_of(bytes, origin)))
    &&& a.load_addr == origin
    &&& a.line_map@ == lm
    &&& deep_view(a.asm_lines@) == lines_of(bytes)
}

/// Two builds of the same merged text and origins are the same build:
/// program, maps, labels, entry point and listing.
pub proof fn lemma_build_deterministic(a: BuildArtifacts, b: BuildArtifacts, bytes: Seq<u8>, lm: Seq<LineOrigin>, origin: u16)
    requires
        built_as(a, bytes, lm, origin),
        built_as(b, bytes, lm, origin),
    ensures
        a.program@ == b.program@,
        a.pc_asm_line_map@ == b.pc_asm_line_map@,
        a.pc_line_map@ == b.pc_line_map@,
        table_view(a.labels@) == table_view(b.labels@),
        a.entry_point == b.entry_point,
        a.line_map@ == b.line_map@,
        deep_view(a.asm_lines@) == deep_view(b.asm_lines@),
{
}

/// The report of a build error: `Assembly error: FILE:LINE -> DETAIL`
/// where the error has a source line (`file` names its file), else
/// `Assembly error: ` and the whole message.
pub open spec fn report_text(e: BuildError, file: Seq<u8>) -> Seq<u8> {
    match e.origin {
        Some(o) => "Assembly error: ".spec_bytes() + file + seq![58u8] + crate::ctext::dec_digits(o.line as nat)
            + " -> ".spec_bytes() + kind_detail(e.error.kind),
        None => "Assembly error: ".spec_bytes() + error_message(e.error.line, kind_detail(e.error.kind)),
    }
}

/// Renders a build error for a reader.
pub fn error_report(e: &BuildError, file: &[u8]) -> (r: Vec<u8>)
    ensures
        r@ == report_text(*e, file@),
{
    let mut t = crate::ccompiler::text_of("Assembly error: ");
    match e.origin {
        Some(o) => {
            crate::ctext::push_bytes(&mut t, file);
            t.push(58);
            crate::ctext::push_dec(&mut t, o.line);
            crate::ctext::push_text(&mut t, " -> ");
            let d = kind_text(e.error.kind);
            crate::ctext::push_bytes(&mut t, d.as_slice());
        },
        None => {
            let m = error_text(&e.error);
            crate::ctext::push_bytes(&mut t, m.as_slice());
        },
    }
    assert(t@ =~= report_text(*e, file@));
    t
}

/// `e` is the first assembly error of merged text `bytes`, placed in the
/// source file and line that `lm` gives its merged line.
pub open spec fn build_failed_as(e: BuildError, bytes: Seq<u8>, lm: Seq<LineOrigin>, origin: u16) -> bool {
    &&& e.origin == origin_of(lm, e.error.line)
    &&& crate::assembler::first_error(bytes, origin, e.error)
}

/// Assembles expanded source at `origin` and composes its provenance: the
/// program bytes, the labels, the entry point, and the byte-to-source maps.
/// An error carries the source file and line of the merged line it names.
pub fn build_artifacts(expanded: ExpandedAsm, origin: u16) -> (r: Result<BuildArtifacts, BuildError>)
    ensures
        r is Ok <==> assembles(expanded.bytes@, origin),
        r matches Ok(a) ==> built_as(a, expanded.bytes@, expanded.line_map@, origin),
        r matches Err(e) ==> build_failed_as(e, expanded.bytes@, expanded.line_map@, origin),
{
    match assemble(expanded.bytes.as_slice(), origin) {
        Err(error) => {
            let o = line_origin(&expanded.line_map, error.line);
            Err(BuildError { error, origin: o })
        },
        Ok(out) => {
            let pc_line_map = compose(&out.pc_line, &expanded.line_map);
            let labels = label_entries(&out.symbols);
            let init: [u8; 4] = [73, 110, 105, 116];
            let update: [u8; 6] = [85, 112, 100, 97, 116, 101];
            assert(init@ =~= init_name());
            assert(update@ =~= update_name());
            let entry_point = match find_value(&labels, init.as_slice()) {
                Some(a) => Some(a),
                None => find_value(&labels, update.as_slice()),
            };
            let asm_lines = split_lines(expanded.bytes.as_slice());
            Ok(BuildArtifacts {
                program: out.bytes,
                entry_point,
                labels,
                load_addr: origin,
                line_map: expanded.line_map,
                pc_line_map,
                asm_lines,
                pc_asm_line_map: out.pc_line,
            })
        },
    }
}


impl BuildArtifacts {
    /// The source file and line of the instruction byte at address `pc`.
    pub fn line_for_pc(&self, pc: u16) -> (r: Option<LineOrigin>)
        ensures
            r == (if pc < self.load_addr || pc - self.load_addr >= self.pc_line_map@.len() {
                None
            } else {
                Some(self.pc_line_map@[pc - self.load_addr])
            }),
    {
        if pc < self.load_addr {
            return None;
        }
        let idx = (pc - self.load_addr) as usize;
        if idx < self.pc_line_map.len() {
            Some(self.pc_line_map[idx])
        } else {
            None
        }
    }
}

/// The text every assembly error message starts with.
pub open spec fn error_prefix() -> Seq<u8> {
    seq![80u8, 97u8, 114u8, 115u8, 101u8, 32u8, 101u8, 114u8, 114u8, 111u8, 114u8, 32u8, 111u8, 110u8,
        32u8, 108u8, 105u8, 110u8, 101u8, 32u8]
}

/// `Parse error on line N: DETAIL`.
pub open spec fn error_message(line: usize, detail: Seq<u8>) -> Seq<u8> {
    error_prefix() + crate::ctext::dec_digits(line as nat) + seq![58u8, 32u8] + detail
}

/// A short description of an assembly error.
pub open spec fn kind_detail(k: AsmErrorKind) -> Seq<u8> {
    match k {
        AsmErrorKind::UnknownMnemonic => "unknown mnemonic".spec_bytes(),
        AsmErrorKind::TrailingInput => "unexpected text after the instruction".spec_bytes(),
        AsmErrorKind::BadConst => "expected .const NAME value".spec_bytes(),
        AsmErrorKind::IllegalMode => "addressing mode not allowed for this mnemonic".spec_bytes(),
        AsmErrorKind::DuplicateSymbol => "symbol defined twice".spec_bytes(),
        AsmErrorKind::UndefinedSymbol => "undefined symbol".spec_bytes(),
        AsmErrorKind::BranchOutOfRange => "branch target out of range".spec_bytes(),
        AsmErrorKind::ValueTooWide => "value does not fit in a byte".spec_bytes(),
        AsmErrorKind::ProgramTooLarge => "program does not fit in memory".spec_bytes(),
    }
}

pub fn kind_text(k: AsmErrorKind) -> (r: Vec<u8>)
    ensures
        r@ == kind_detail(k),
{
    crate::ccompiler::text_of(match k {
        AsmErrorKind::UnknownMnemonic => "unknown mnemonic",
        AsmErrorKind::TrailingInput => "unexpected text after the instruction",
        AsmErrorKind::BadConst => "expected .const NAME value",
        AsmErrorKind::IllegalMode => "addressing mode not allowed for this mnemonic",
        AsmErrorKind::DuplicateSymbol => "symbol defined twice",
        AsmErrorKind::UndefinedSymbol => "undefined symbol",
        AsmErrorKind::BranchOutOfRange => "branch target out of range",
        AsmErrorKind::ValueTooWide => "value does not fit in a byte",
        AsmErrorKind::ProgramTooLarge => "program does not fit in memory",
    })
}

/// The message of an assembly error, naming its merged line.
pub fn error_text(e: &AsmError) -> (r: Vec<u8>)
    ensures
        r@ == error_message(e.line, kind_detail(e.kind)),
        exists|detail: Seq<u8>| r@ == error_message(e.line, detail),
{
    let mut t: Vec<u8> = Vec::new();
    let prefix: [u8; 20] = [80, 97, 114, 115, 101, 32, 101, 114, 114, 111, 114, 32, 111, 110, 32, 108, 105, 110, 101, 32];
    assert(prefix@ =~= error_prefix());
    crate::ctext::push_bytes(&mut t, prefix.as_slice());
    crate::ctext::push_dec(&mut t, e.line);
    t.push(58);
    t.push(32);
    let detail = kind_text(e.kind);
    crate::ctext::push_bytes(&mut t, detail.as_slice());
    assert(t@ =~= error_message(e.line, detail@));
    t
}

proof fn lemma_num_value_ext(s: Seq<u8>, t: Seq<u8>, lo: int, hi: int)
    requires
        0 <= lo <= hi <= s.len(),
        hi <= t.len(),
        forall|i: int| lo <= i < hi ==> s[i] == t[i],
    ensures
        crate::text::num_value(s, lo, hi, 10) == crate::text::num_value(t, lo, hi, 10),
    decreases hi - lo,
{
    if hi > lo {
        lemma_num_value_ext(s, t, lo, hi - 1);
    }
}

/// Decimal digits read back give the number they write.
proof fn lemma_dec_round_trip(n: nat)
    ensures
        crate::text::num_value(crate::ctext::dec_digits(n), 0, crate::ctext::dec_digits(n).len() as int, 10) == n,
        forall|i: int| 0 <= i < crate::ctext::dec_digits(n).len() ==> crate::text::is_dec(#[trigger] crate::ctext::dec_digits(n)[i]),
    decreases n,
{
    let d = crate::ctext::dec_digits(n);
    if n < 10 {
        assert(d == seq![(48 + n) as u8]);
        assert(crate::text::digit_val((48 + n) as u8) == n);
        assert(crate::text::num_value(d, 0, 0, 10) == 0);
        assert(crate::text::num_value(d, 0, 1, 10) == crate::text::num_value(d, 0, 0, 10) * 10 + crate::text::digit_val(d[0]));
    }
    if n >= 10 {
        lemma_dec_round_trip(n / 10);
        let p = crate::ctext::dec_digits(n / 10);
        assert(d == p.push((48 + n % 10) as u8));
        lemma_num_value_ext(d, p, 0, p.len() as int);
        assert(crate::text::digit_val((48 + n % 10) as u8) == n % 10);
        assert(crate::text::num_value(d, 0, d.len() as int, 10) == crate::text::num_value(d, 0, p.len() as int, 10) * 10
            + crate::text::digit_val(d[p.len() as int]));
        assert(d[p.len() as int] == (48 + n % 10) as u8);
        assert((n / 10) * 10 + n % 10 == n) by (nonlinear_arith);
        assert forall|i: int| 0 <= i < d.len() implies crate::text::is_dec(#[trigger] d[i]) by {
            if i < p.len() {
                assert(d[i] == p[i]);
            }
        }
    }
}

/// Reads the decimal number written by all of `s`, if it fits in `usize`.
/// Whether `s` is a decimal number that fits in `usize`.
pub open spec fn usize_digits(s: Seq<u8>) -> bool {
    s.len() > 0 && (forall|i: int| 0 <= i < s.len() ==> crate::text::is_dec(#[trigger] s[i]))
        && crate::text::num_value(s, 0, s.len() as int, 10) <= usize::MAX
}

fn read_usize(s: &[u8]) -> (r: Option<usize>)
    ensures
        r is Some ==> usize_digits(s@),
        (s@.len() > 0 && (forall|i: int| 0 <= i < s@.len() ==> crate::text::is_dec(#[trigger] s@[i]))
            && crate::text::num_value(s@, 0, s@.len() as int, 10) <= usize::MAX) ==> r == Some(
            crate::text::num_value(s@, 0, s@.len() as int, 10) as usize,
        ),
{
    if s.len() == 0 {
        return None;
    }
    let mut acc: usize = 0;
    let mut k: usize = 0;
    while k < s.len()
        invariant
            k <= s@.len(),
            acc == crate::text::num_value(s@, 0, k as int, 10),
            forall|m: int| 0 <= m < k ==> crate::text::is_dec(#[trigger] s@[m]),
        decreases s@.len() - k,
    {
        if !crate::text::is_dec_byte(s[k]) {
            return None;
        }
        let d = (s[k] - 48) as usize;
        if acc > (usize::MAX - d) / 10 {
            proof {
                lemma_num_value_mono(s@, k + 1, s@.len() as int);
            }
            return None;
        }
        acc = acc * 10 + d;
        k = k + 1;
    }
    Some(acc)
}

proof fn lemma_num_value_mono(s: Seq<u8>, a: int, b: int)
    requires
        0 <= a <= b <= s.len(),
    ensures
        crate::text::num_value(s, 0, a, 10) <= crate::text::num_value(s, 0, b, 10),
    decreases b - a,
{
    if a < b {
        lemma_num_value_mono(s, a, b - 1);
    }
}

/// The source file and line of an assembly error, read from its message:
/// the number after `Parse error on line ` and before the next `:`, looked
/// up in the line map. `None` where the message has no such number or the
/// map no such line.
/// The merged line a message names: the decimal number between the first
/// `Parse error on line ` and the next `:` (or the end), trimmed.
pub open spec fn error_line_of(msg: Seq<u8>) -> Option<usize> {
    if !crate::cparse::occurs(msg, error_prefix()) {
        None
    } else {
        let rest = msg.subrange(crate::cparse::first_occ(msg, error_prefix()) + 20, msg.len() as int);
        let colon = match crate::cparse::first_of(rest, 58) {
            Some(c) => c,
            None => rest.len() as int,
        };
        let digits = crate::cparse::trimmed(rest.subrange(0, colon));
        if usize_digits(digits) {
            Some(crate::text::num_value(digits, 0, digits.len() as int, 10) as usize)
        } else {
            None
        }
    }
}

pub fn map_error_to_origin(msg: &[u8], map: &Vec<LineOrigin>) -> (r: Option<LineOrigin>)
    ensures
        r == match error_line_of(msg@) {
            Some(l) => origin_of(map@, l),
            None => None,
        },
        forall|line: usize, detail: Seq<u8>| #[trigger] error_message(line, detail) == msg@ ==> r == origin_of(map@, line),
{
    let prefix: [u8; 20] = [80, 97, 114, 115, 101, 32, 101, 114, 114, 111, 114, 32, 111, 110, 32, 108, 105, 110, 101, 32];
    assert(prefix@ =~= error_prefix());
    let idx = match crate::cparse::find_text(msg, prefix.as_slice()) {
        Some(i) => i,
        None => {
            proof {
                assert forall|line: usize, detail: Seq<u8>| #[trigger] error_message(line, detail) == msg@ implies false by {
                    assert(msg@.subrange(0, 20) =~= error_prefix());
                    let j = 0int;
                    assert(msg@.subrange(j, j + prefix@.len()) == error_prefix());
                }
            }
            return None;
        },
    };
    proof {
        let p = error_prefix();
        assert(crate::cparse::occurs(msg@, p));
        let j = crate::cparse::first_occ(msg@, p);
        if j < idx {
        } else if j > idx {
            assert(msg@.subrange(idx as int, idx + p.len()) != p);
        }
    }
    let mlen = msg.len();
    let rest = crate::text::copy_range(msg, idx + 20, mlen);
    let colon = match crate::cparse::find_byte(rest.as_slice(), 58) {
        Some(c) => c,
        None => rest.len(),
    };
    let digits = crate::cparse::trim_range(rest.as_slice(), 0, colon);
    let n = match read_usize(digits.as_slice()) {
        Some(n) => n,
        None => {
            proof { lemma_no_message(msg@, idx as int, rest@, colon as int, digits@); }
            return None;
        },
    };
    proof { lemma_message_line(msg@, idx as int, rest@, colon as int, digits@, n); }
    line_origin(map, n)
}

proof fn lemma_message_shape(msg: Seq<u8>, line: usize, detail: Seq<u8>, idx: int, rest: Seq<u8>, colon: int, digits: Seq<u8>)
    requires
        msg == error_message(line, detail),
        0 <= idx,
        idx + 20 <= msg.len(),
        msg.subrange(idx, idx + 20) == error_prefix(),
        forall|j: int| 0 <= j < idx ==> #[trigger] msg.subrange(j, j + 20) != error_prefix(),
        rest == msg.subrange(idx + 20, msg.len() as int),
        0 <= colon <= rest.len(),
        colon < rest.len() ==> rest[colon] == 58,
        forall|j: int| 0 <= j < colon ==> rest[j] != 58,
        digits == crate::cparse::trimmed(rest.subrange(0, colon)),
    ensures
        digits == crate::ctext::dec_digits(line as nat),
{
    let d = crate::ctext::dec_digits(line as nat);
    lemma_dec_round_trip(line as nat);
    crate::ctext::lemma_dec_digits_len(line as nat);
    assert(msg.subrange(0, 20) =~= error_prefix());
    if idx > 0 {
        let j = 0int;
        assert(msg.subrange(j, j + 20) != error_prefix());
    }
    assert(idx == 0);
    assert(rest =~= d + seq![58u8, 32u8] + detail);
    assert(rest[d.len() as int] == 58);
    assert forall|j: int| 0 <= j < d.len() implies rest[j] != 58 by {
        assert(rest[j] == d[j]);
    }
    assert(colon == d.len());
    assert(rest.subrange(0, colon) =~= d);
    assert(crate::text::skip_spaces(d, 0) == 0);
    assert(crate::cparse::trim_end(d, 0, d.len() as int) == d.len());
    assert(d.subrange(0, d.len() as int) =~= d);
}

proof fn lemma_message_line(msg: Seq<u8>, idx: int, rest: Seq<u8>, colon: int, digits: Seq<u8>, n: usize)
    requires
        0 <= idx,
        idx + 20 <= msg.len(),
        msg.subrange(idx, idx + 20) == error_prefix(),
        forall|j: int| 0 <= j < idx ==> #[trigger] msg.subrange(j, j + 20) != error_prefix(),
        rest == msg.subrange(idx + 20, msg.len() as int),
        0 <= colon <= rest.len(),
        colon < rest.len() ==> rest[colon] == 58,
        forall|j: int| 0 <= j < colon ==> rest[j] != 58,
        digits == crate::cparse::trimmed(rest.subrange(0, colon)),
        (digits.len() > 0 && (forall|i: int| 0 <= i < digits.len() ==> crate::text::is_dec(#[trigger] digits[i]))
            && crate::text::num_value(digits, 0, digits.len() as int, 10) <= usize::MAX) ==> Some(n) == Some(
            crate::text::num_value(digits, 0, digits.len() as int, 10) as usize,
        ),
    ensures
        forall|line: usize, detail: Seq<u8>| #[trigger] error_message(line, detail) == msg ==> line == n,
{
    assert forall|line: usize, detail: Seq<u8>| #[trigger] error_message(line, detail) == msg implies line == n by {
        lemma_message_shape(msg, line, detail, idx, rest, colon, digits);
        lemma_dec_round_trip(line as nat);
        crate::ctext::lemma_dec_digits_len(line as nat);
    }
}

proof fn lemma_no_message(msg: Seq<u8>, idx: int, rest: Seq<u8>, colon: int, digits: Seq<u8>)
    requires
        0 <= idx,
        idx + 20 <= msg.len(),
        msg.subrange(idx, idx + 20) == error_prefix(),
        forall|j: int| 0 <= j < idx ==> #[trigger] msg.subrange(j, j + 20) != error_prefix(),
        rest == msg.subrange(idx + 20, msg.len() as int),
        0 <= colon <= rest.len(),
        colon < rest.len() ==> rest[colon] == 58,
        forall|j: int| 0 <= j < colon ==> rest[j] != 58,
        digits == crate::cparse::trimmed(rest.subrange(0, colon)),
        !(digits.len() > 0 && (forall|i: int| 0 <= i < digits.len() ==> crate::text::is_dec(#[trigger] digits[i]))
            && crate::text::num_value(digits, 0, digits.len() as int, 10) <= usize::MAX),
    ensures
        forall|line: usize, detail: Seq<u8>| #[trigger] error_message(line, detail) != msg,
{
    assert forall|line: usize, detail: Seq<u8>| #[trigger] error_message(line, detail) != msg by {
        if error_message(line, detail) == msg {
            lemma_message_shape(msg, line, detail, idx, rest, colon, digits);
            lemma_dec_round_trip(line as nat);
            crate::ctext::lemma_dec_digits_len(line as nat);
        }
    }
}

// ------------------------------------------------------------------ laws

pub open spec fn no_newline(l: Seq<u8>) -> bool {
    forall|i: int| 0 <= i < l.len() ==> l[i] != 10
}

proof fn lemma_split_no_newline(s: Seq<u8>, i: int)
    requires
        0 <= i <= s.len(),
    ensures
        no_newline(split_acc(s, i).1),
        forall|j: int| 0 <= j < split_acc(s, i).0.len() ==> no_newline(#[trigger] split_acc(s, i).0[j]),
    decreases i,
{
    if i > 0 {
        lemma_split_no_newline(s, i - 1);
        let (d, c) = split_acc(s, i - 1);
        if s[i - 1] != 10 {
            let c2 = c.push(s[i - 1]);
            assert forall|k: int| 0 <= k < c2.len() implies #[trigger] c2[k] != 10 by {
                if k < c.len() {
                    assert(c[k] != 10);
                }
            }
        } else {
            assert forall|j: int| 0 <= j < d.push(c).len() implies no_newline(#[trigger] d.push(c)[j]) by {
                if j < d.len() {
                    assert(no_newline(d[j]));
                }
            }
        }
    }
}

/// The lines of a text hold no newline.
pub proof fn lemma_lines_no_newline(s: Seq<u8>)
    ensures
        forall|j: int| 0 <= j < lines_of(s).len() ==> no_newline(#[trigger] lines_of(s)[j]),
{
    lemma_split_no_newline(s, s.len() as int);
    let (d, c) = split_acc(s, s.len() as int);
    if c.len() > 0 {
        assert forall|j: int| 0 <= j < d.push(c).len() implies no_newline(#[trigger] d.push(c)[j]) by {
            if j < d.len() {
                assert(no_newline(d[j]));
            }
        }
    }
}

proof fn lemma_split_prefix(s: Seq<u8>, t: Seq<u8>, i: int)
    requires
        0 <= i <= s.len(),
        i <= t.len(),
        s.subrange(0, i) == t.subrange(0, i),
    ensures
        split_acc(s, i) == split_acc(t, i),
    decreases i,
{
    if i > 0 {
        assert(s.subrange(0, i - 1) =~= s.subrange(0, i).subrange(0, i - 1));
        assert(t.subrange(0, i - 1) =~= t.subrange(0, i).subrange(0, i - 1));
        lemma_split_prefix(s, t, i - 1);
        assert(s[i - 1] == s.subrange(0, i)[i - 1]);
        assert(t[i - 1] == t.subrange(0, i)[i - 1]);
    }
}

proof fn lemma_split_line(s: Seq<u8>, base: int, d: Seq<Seq<u8>>, l: Seq<u8>, j: int)
    requires
        0 <= base,
        0 <= j <= l.len(),
        base + l.len() <= s.len(),
        split_acc(s, base) == (d, Seq::<u8>::empty()),
        s.subrange(base, base + l.len()) == l,
        no_newline(l),
    ensures
        split_acc(s, base + j) == (d, l.subrange(0, j)),
    decreases j,
{
    if j > 0 {
        lemma_split_line(s, base, d, l, j - 1);
        assert(s[base + j - 1] == l[j - 1]);
        assert(l.subrange(0, j - 1).push(l[j - 1]) =~= l.subrange(0, j));
    } else {
        assert(l.subrange(0, 0) =~= Seq::<u8>::empty());
    }
}

proof fn lemma_split_flatten(ls: Seq<Seq<u8>>)
    requires
        forall|j: int| 0 <= j < ls.len() ==> no_newline(#[trigger] ls[j]),
    ensures
        split_acc(flatten(ls), flatten(ls).len() as int) == (ls, Seq::<u8>::empty()),
    decreases ls.len(),
{
    if ls.len() > 0 {
        let prev = ls.drop_last();
        let l = ls.last();
        assert forall|j: int| 0 <= j < prev.len() implies no_newline(#[trigger] prev[j]) by {
            assert(prev[j] == ls[j]);
        }
        lemma_split_flatten(prev);
        let f0 = flatten(prev);
        let f = flatten(ls);
        assert(f == f0 + l + seq![10u8]);
        assert(f.subrange(0, f0.len() as int) =~= f0.subrange(0, f0.len() as int));
        lemma_split_prefix(f, f0, f0.len() as int);
        assert(f.subrange(f0.len() as int, (f0.len() + l.len()) as int) =~= l);
        assert(no_newline(ls[ls.len() - 1]));
        lemma_split_line(f, f0.len() as int, prev, l, l.len() as int);
        assert(l.subrange(0, l.len() as int) =~= l);
        assert(f[(f0.len() + l.len()) as int] == 10);
        assert(prev.push(l) =~= ls);
    }
}

/// Merged text made of newline-free lines splits back into those lines.
pub proof fn lemma_lines_of_flatten(ls: Seq<Seq<u8>>)
    requires
        forall|j: int| 0 <= j < ls.len() ==> no_newline(#[trigger] ls[j]),
    ensures
        lines_of(flatten(ls)) == ls,
{
    lemma_split_flatten(ls);
}

/// Each merged line is the line of the file its origin names.
pub open spec fn prov_ok(files: Seq<SourceFile>, m: Merged) -> bool {
    &&& m.0.len() == m.1.len()
    &&& forall|i: int| 0 <= i < m.1.len() ==> {
        &&& (#[trigger] m.1[i]).file < files.len()
        &&& 1 <= m.1[i].line <= file_lines(files, m.1[i].file as int).len()
        &&& m.0[i] == file_lines(files, m.1[i].file as int)[m.1[i].line - 1]
    }
}

proof fn lemma_find_file_bound(files: Seq<SourceFile>, key: Seq<u8>, i: int)
    requires
        0 <= i,
    ensures
        find_file_from(files, key, i) matches Some(g) ==> 0 <= g < files.len(),
    decreases files.len() - i,
{
    if i < files.len() {
        lemma_find_file_bound(files, key, i + 1);
    }
}

proof fn lemma_prov_concat(files: Seq<SourceFile>, a: Merged, b: Merged)
    requires
        prov_ok(files, a),
        prov_ok(files, b),
    ensures
        prov_ok(files, (a.0 + b.0, a.1 + b.1)),
{
    let c: Merged = (a.0 + b.0, a.1 + b.1);
    assert forall|i: int| 0 <= i < c.1.len() implies {
        &&& (#[trigger] c.1[i]).file < files.len()
        &&& 1 <= c.1[i].line <= file_lines(files, c.1[i].file as int).len()
        &&& c.0[i] == file_lines(files, c.1[i].file as int)[c.1[i].line - 1]
    } by {
        if i < a.1.len() {
            assert(c.1[i] == a.1[i]);
            assert(c.0[i] == a.0[i]);
        } else {
            assert(c.1[i] == b.1[i - a.1.len()]);
            assert(c.0[i] == b.0[i - a.0.len()]);
        }
    }
}

/// The files fit in memory: each text's length fits in `usize`.
pub open spec fn files_fit(files: Seq<SourceFile>) -> bool {
    &&& files.len() <= usize::MAX
    &&& forall|g: int| 0 <= g < files.len() ==> (#[trigger] files[g]).text@.len() <= usize::MAX
}

proof fn lemma_exp_file_prov(files: Seq<SourceFile>, g: int, stack: Seq<usize>, depth: nat)
    requires
        0 <= g < files.len(),
        files_fit(files),
    ensures
        exp_file(files, g, stack, depth) matches Ok(m) ==> prov_ok(files, m),
    decreases depth + 1, 0nat,
{
    if !(depth == 0 || stack.contains(g as usize)) {
        lemma_exp_upto_prov(files, g, stack.push(g as usize), (depth - 1) as nat, file_lines(files, g).len() as int);
    }
}

proof fn lemma_exp_upto_prov(files: Seq<SourceFile>, f: int, stack: Seq<usize>, depth: nat, k: int)
    requires
        0 <= f < files.len(),
        files_fit(files),
        k <= file_lines(files, f).len(),
    ensures
        exp_upto(files, f, stack, depth, k) matches Ok(m) ==> prov_ok(files, m),
    decreases depth + 1, if k <= 0 { 0nat } else { (k + 1) as nat },
{
    if k > 0 {
        crate::assembler::lemma_lines_count(files[f].text@);
        lemma_exp_upto_prov(files, f, stack, depth, k - 1);
        match exp_upto(files, f, stack, depth, k - 1) {
            Ok(prev) => {
                let line = file_lines(files, f)[k - 1];
                match include_of(line) {
                    IncludeLine::Plain => {
                        let o = LineOrigin { file: f as usize, line: k as usize };
                        let one: Merged = (seq![line], seq![o]);
                        assert(prov_ok(files, one));
                        lemma_prov_concat(files, prev, one);
                        assert(prev.0.push(line) =~= prev.0 + one.0);
                        assert(prev.1.push(o) =~= prev.1 + one.1);
                    },
                    IncludeLine::Malformed => {},
                    IncludeLine::Target(a, b) => {
                        let key = crate::expand::include_key(files[f].path@, line.subrange(a as int, b as int));
                        lemma_find_file_bound(files, key, 0);
                        match find_file_from(files, key, 0) {
                            None => {},
                            Some(g) => {
                                lemma_exp_file_prov(files, g, stack, depth);
                                match exp_file(files, g, stack, depth) {
                                    Ok(sub) => lemma_prov_concat(files, prev, sub),
                                    Err(_) => {},
                                }
                            },
                        }
                    },
                }
            },
            Err(_) => {},
        }
    }
}

proof fn lemma_composed_full(pc: Seq<usize>, map: Seq<LineOrigin>)
    requires
        forall|i: int| 0 <= i < pc.len() ==> 1 <= #[trigger] pc[i] <= map.len(),
    ensures
        composed(pc, map).len() == pc.len(),
        forall|i: int| 0 <= i < pc.len() ==> #[trigger] composed(pc, map)[i] == map[pc[i] - 1],
    decreases pc.len(),
{
    if pc.len() > 0 {
        let prev = pc.drop_last();
        assert forall|i: int| 0 <= i < prev.len() implies 1 <= #[trigger] prev[i] <= map.len() by {
            assert(prev[i] == pc[i]);
        }
        lemma_composed_full(prev, map);
        assert forall|i: int| 0 <= i < pc.len() implies #[trigger] composed(pc, map)[i] == map[pc[i] - 1] by {
            if i < prev.len() {
                assert(prev[i] == pc[i]);
            }
        }
    }
}

/// For every byte a build of an expanded root file emits, the composed
/// byte-to-source map names a file and line whose text, parsed on its own,
/// is the instruction that emitted the byte: an instruction whose opcode
/// starts the bytes of that line, which span the offset.
pub proof fn lemma_bytes_trace_to_source(files: Seq<SourceFile>, root: int, origin: u16, b: int)
    requires
        0 <= root < files.len(),
        files_fit(files),
        expansion(files, root) is Ok,
        flatten(expansion(files, root).unwrap().0).len() <= usize::MAX,
        assembles(flatten(expansion(files, root).unwrap().0), origin),
        0 <= b < image_of(flatten(expansion(files, root).unwrap().0), origin).len(),
    ensures
        ({
            let m = expansion(files, root).unwrap();
            let src = flatten(m.0);
            let o = composed(pcmap_of(src, origin), m.1)[b];
            let j = pcmap_of(src, origin)[b] - 1;
            let text = file_lines(files, o.file as int)[o.line - 1];
            &&& composed(pcmap_of(src, origin), m.1).len() == image_of(src, origin).len()
            &&& o.file < files.len()
            &&& p_stmt(text) is Ok
            &&& p_stmt(text).unwrap().instr is Some
            &&& size_upto(lines_of(src), j) <= b < size_upto(lines_of(src), j + 1)
            &&& opcode_of(
                p_stmt(text).unwrap().instr.unwrap().1.op.0,
                line_kind(p_stmt(text).unwrap().instr.unwrap().1),
            ) == Some(image_of(src, origin)[size_upto(lines_of(src), j) as int])
        }),
{
    let m = expansion(files, root).unwrap();
    let src = flatten(m.0);
    lemma_exp_file_prov(files, root, Seq::empty(), files.len());
    assert forall|j: int| 0 <= j < m.0.len() implies no_newline(#[trigger] m.0[j]) by {
        let o = m.1[j];
        lemma_lines_no_newline(files[o.file as int].text@);
        assert(no_newline(file_lines(files, o.file as int)[o.line - 1]));
    }
    lemma_lines_of_flatten(m.0);
    let lines = lines_of(src);
    assert(lines == m.0);
    let pc = pcmap_of(src, origin);
    let img = image_of(src, origin);
    crate::assembler::lemma_lines_count(src);
    assert forall|i: int| 0 <= i < pc.len() implies 1 <= #[trigger] pc[i] <= m.1.len() by {
        crate::assembler::lemma_image_len_of(src, origin);
        lemma_bytes_trace_to_lines(src, origin, i);
    }
    crate::assembler::lemma_image_len_of(src, origin);
    lemma_composed_full(pc, m.1);
    lemma_bytes_trace_to_lines(src, origin, b);
}

} // verus!
