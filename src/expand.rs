//! The include expander: inlines `.include "path"` directives at the point
//! where they stand, detects include cycles, and records for every retained
//! line the file and line it came from.
use vstd::prelude::*;
use crate::text::{skip_spaces, skip_ws, range_eq, copy_range};
use crate::parser::at;
use crate::assembler::{lines_of, split_lines, deep_view};

verus! {

/// A source file known to the expander, by its path.
pub struct SourceFile {
    pub path: Vec<u8>,
    pub text: Vec<u8>,
}

/// Where a line of merged text came from: a file (an index into the list
/// of source files) and a 1-based line number in it.
#[derive(Clone, Copy, PartialEq, Eq, Structural, Debug)]
pub struct LineOrigin {
    pub file: usize,
    pub line: usize,
}

/// Merged text with one origin for each of its lines.
pub struct ExpandedAsm {
    pub bytes: Vec<u8>,
    pub line_map: Vec<LineOrigin>,
}

/// Why an include expansion failed.
#[derive(Clone, Copy, PartialEq, Eq, Structural, Debug)]
pub enum IncludeError {
    /// The file includes itself, directly or through others.
    Cycle { file: usize },
    /// An `.include` directive without a quoted path.
    Malformed { file: usize, line: usize },
    /// The included path names no known file.
    Missing { file: usize, line: usize },
}

/// How a line reads to the expander.
#[derive(Clone, Copy, PartialEq, Eq, Structural, Debug)]
pub enum IncludeLine {
    Plain,
    Malformed,
    /// An include of the path held in `start..end` of the line.
    Target(usize, usize),
}

pub open spec fn include_word() -> Seq<u8> {
    seq![46u8, 105u8, 110u8, 99u8, 108u8, 117u8, 100u8, 101u8]
}

/// The first `"` at or after `i`, or the length.
pub open spec fn quote_from(s: Seq<u8>, i: int) -> int
    decreases s.len() - i,
{
    if i < 0 || i >= s.len() {
        s.len() as int
    } else if s[i] == 34 {
        i
    } else {
        quote_from(s, i + 1)
    }
}

/// A line is an include directive when, after leading whitespace, it starts
/// with `.include`; the path is the text between the next two quotes.
pub open spec fn include_of(s: Seq<u8>) -> IncludeLine {
    let t = skip_spaces(s, 0);
    if t + 8 <= s.len() && s.subrange(t, t + 8) == include_word() {
        let r = skip_spaces(s, t + 8);
        let q = quote_from(s, r + 1);
        if at(s, r, 34) && q < s.len() {
            IncludeLine::Target((r + 1) as usize, q as usize)
        } else {
            IncludeLine::Malformed
        }
    } else {
        IncludeLine::Plain
    }
}

/// The position just after the last `/` before `i`, or zero.
pub open spec fn dir_end(p: Seq<u8>, i: int) -> int
    decreases i,
{
    if i <= 0 {
        0
    } else if p[i - 1] == 47 {
        i
    } else {
        dir_end(p, i - 1)
    }
}

/// An included path, taken relative to the directory of the including file.
pub open spec fn include_key(base: Seq<u8>, rel: Seq<u8>) -> Seq<u8> {
    base.subrange(0, dir_end(base, base.len() as int)) + rel
}

/// The first file whose path is `key`, from index `i` on.
pub open spec fn find_file_from(files: Seq<SourceFile>, key: Seq<u8>, i: int) -> Option<int>
    decreases files.len() - i,
{
    if i < 0 || i >= files.len() {
        None
    } else if files[i].path@ == key {
        Some(i)
    } else {
        find_file_from(files, key, i + 1)
    }
}

pub open spec fn file_lines(files: Seq<SourceFile>, f: int) -> Seq<Seq<u8>> {
    lines_of(files[f].text@)
}

pub type Merged = (Seq<Seq<u8>>, Seq<LineOrigin>);

/// The expansion of file `g` reached with the files in `stack` open.
/// `depth` bounds the nesting; it starts at the number of files, so a chain
/// that exhausts it has repeated a file and is a cycle.
pub open spec fn exp_file(files: Seq<SourceFile>, g: int, stack: Seq<usize>, depth: nat) -> Result<Merged, IncludeError>
    decreases depth + 1, 0nat,
{
    if depth == 0 || stack.contains(g as usize) {
        Err(IncludeError::Cycle { file: g as usize })
    } else {
        exp_upto(files, g, stack.push(g as usize), (depth - 1) as nat, file_lines(files, g).len() as int)
    }
}

/// The expansion of the first `k` lines of file `f`.
pub open spec fn exp_upto(files: Seq<SourceFile>, f: int, stack: Seq<usize>, depth: nat, k: int) -> Result<Merged, IncludeError>
    decreases depth + 1, if k <= 0 { 0nat } else { (k + 1) as nat },
{
    if k <= 0 {
        Ok((Seq::empty(), Seq::empty()))
    } else {
        match exp_upto(files, f, stack, depth, k - 1) {
            Err(e) => Err(e),
            Ok(prev) => {
                let line = file_lines(files, f)[k - 1];
                match include_of(line) {
                    IncludeLine::Plain => Ok(
                        (prev.0.push(line), prev.1.push(LineOrigin { file: f as usize, line: k as usize })),
                    ),
                    IncludeLine::Malformed => Err(IncludeError::Malformed { file: f as usize, line: k as usize }),
                    IncludeLine::Target(a, b) => {
                        let key = include_key(files[f].path@, line.subrange(a as int, b as int));
                        match find_file_from(files, key, 0) {
                            None => Err(IncludeError::Missing { file: f as usize, line: k as usize }),
                            Some(g) => match exp_file(files, g, stack, depth) {
                                Err(e) => Err(e),
                                Ok(sub) => Ok((prev.0 + sub.0, prev.1 + sub.1)),
                            },
                        }
                    },
                }
            },
        }
    }
}

/// Merged text: each line followed by a newline.
pub open spec fn flatten(ls: Seq<Seq<u8>>) -> Seq<u8>
    decreases ls.len(),
{
    if ls.len() == 0 {
        Seq::empty()
    } else {
        flatten(ls.drop_last()) + ls.last() + seq![10u8]
    }
}

/// The expansion of the root file of a set of sources.
pub open spec fn expansion(files: Seq<SourceFile>, root: int) -> Result<Merged, IncludeError> {
    exp_file(files, root, Seq::empty(), files.len())
}

fn include_line(s: &[u8]) -> (r: IncludeLine)
    ensures
        r == include_of(s@),
        r matches IncludeLine::Target(a, b) ==> a <= b <= s@.len(),
{
    let t = skip_ws(s, 0);
    let w: [u8; 8] = [46, 105, 110, 99, 108, 117, 100, 101];
    assert(w@ =~= include_word());
    if s.len() - t >= 8 && range_eq(s, t, t + 8, w.as_slice()) {
        let r = skip_ws(s, t + 8);
        if r < s.len() && s[r] == 34 {
            let mut q: usize = r + 1;
            while q < s.len() && s[q] != 34
                invariant
                    r + 1 <= q <= s@.len(),
                    quote_from(s@, r + 1) == quote_from(s@, q as int),
                decreases s@.len() - q,
            {
                q = q + 1;
            }
            if q < s.len() {
                return IncludeLine::Target(r + 1, q);
            }
        }
        IncludeLine::Malformed
    } else {
        IncludeLine::Plain
    }
}

fn key_for(base: &[u8], rel: &[u8]) -> (r: Vec<u8>)
    ensures
        r@ == include_key(base@, rel@),
{
    let mut i: usize = base.len();
    while i > 0 && base[i - 1] != 47
        invariant
            i <= base@.len(),
            dir_end(base@, base@.len() as int) == dir_end(base@, i as int),
        decreases i,
    {
        i = i - 1;
    }
    let mut r = copy_range(base, 0, i);
    let mut k: usize = 0;
    while k < rel.len()
        invariant
            k <= rel@.len(),
            r@ == base@.subrange(0, i as int) + rel@.subrange(0, k as int),
        decreases rel@.len() - k,
    {
        r.push(rel[k]);
        k = k + 1;
        assert(r@ =~= base@.subrange(0, i as int) + rel@.subrange(0, k as int));
    }
    assert(rel@.subrange(0, rel@.len() as int) =~= rel@);
    r
}

fn find_file(files: &Vec<SourceFile>, key: &[u8]) -> (r: Option<usize>)
    ensures
        r matches Some(i) ==> find_file_from(files@, key@, 0) == Some(i as int) && i < files@.len(),
        r is None ==> find_file_from(files@, key@, 0) is None,
{
    let mut i: usize = 0;
    while i < files.len()
        invariant
            i <= files@.len(),
            find_file_from(files@, key@, 0) == find_file_from(files@, key@, i as int),
        decreases files@.len() - i,
    {
        let p = &files[i].path;
        let same = range_eq(p.as_slice(), 0, p.len(), key);
        assert(p@.subrange(0, p@.len() as int) =~= p@);
        if same {
            return Some(i);
        }
        i = i + 1;
    }
    None
}


proof fn lemma_exp_err_stays(files: Seq<SourceFile>, f: int, stack: Seq<usize>, depth: nat, k: int, n: int, e: IncludeError)
    requires
        0 <= k <= n,
        exp_upto(files, f, stack, depth, k) == Err::<Merged, IncludeError>(e),
    ensures
        exp_upto(files, f, stack, depth, n) == Err::<Merged, IncludeError>(e),
    decreases n - k,
{
    if k < n {
        assert(exp_upto(files, f, stack, depth, k + 1) == Err::<Merged, IncludeError>(e));
        lemma_exp_err_stays(files, f, stack, depth, k + 1, n, e);
    }
}

proof fn lemma_flatten_concat(a: Seq<Seq<u8>>, b: Seq<Seq<u8>>)
    ensures
        flatten(a + b) == flatten(a) + flatten(b),
    decreases b.len(),
{
    if b.len() == 0 {
        assert(a + b =~= a);
        assert(flatten(b) =~= Seq::empty());
        assert(flatten(a) + flatten(b) =~= flatten(a));
    } else {
        assert((a + b).drop_last() =~= a + b.drop_last());
        lemma_flatten_concat(a, b.drop_last());
        assert((a + b).last() == b.last());
        assert(flatten(a + b) =~= flatten(a) + flatten(b));
    }
}

fn contains_file(stack: &Vec<usize>, g: usize) -> (r: bool)
    ensures
        r == stack@.contains(g),
{
    let mut i: usize = 0;
    while i < stack.len()
        invariant
            i <= stack@.len(),
            forall|j: int| 0 <= j < i ==> stack@[j] != g,
        decreases stack@.len() - i,
    {
        if stack[i] == g {
            return true;
        }
        i = i + 1;
    }
    false
}

fn push_line(out: &mut Vec<u8>, line: &Vec<u8>)
    ensures
        final(out)@ == old(out)@ + line@ + seq![10u8],
{
    let ghost start = out@;
    let mut k: usize = 0;
    while k < line.len()
        invariant
            k <= line@.len(),
            out@ == start + line@.subrange(0, k as int),
        decreases line@.len() - k,
    {
        out.push(line[k]);
        k = k + 1;
        assert(out@ =~= start + line@.subrange(0, k as int));
    }
    out.push(10);
    assert(line@.subrange(0, line@.len() as int) =~= line@);
    assert(out@ =~= start + line@ + seq![10u8]);
}

/// Expands file `g` onto the end of `out` and `lm`, with the files in
/// `stack` open; `stack` is left as it was.
fn expand_into(
    files: &Vec<SourceFile>,
    g: usize,
    stack: &mut Vec<usize>,
    depth: usize,
    out: &mut Vec<u8>,
    lm: &mut Vec<LineOrigin>,
) -> (r: Result<(), IncludeError>)
    requires
        g < files@.len(),
    ensures
        final(stack)@ == old(stack)@,
        match exp_file(files@, g as int, old(stack)@, depth as nat) {
            Ok(m) => r is Ok && final(out)@ == old(out)@ + flatten(m.0) && final(lm)@ == old(lm)@ + m.1,
            Err(e) => r == Err::<(), IncludeError>(e),
        },
    decreases depth + 1, 0nat,
{
    if depth == 0 || contains_file(stack, g) {
        return Err(IncludeError::Cycle { file: g });
    }
    let ghost st0 = stack@;
    let ghost out0 = out@;
    let ghost lm0 = lm@;
    stack.push(g);
    let ghost st1 = stack@;
    let lines = split_lines(files[g].text.as_slice());
    let ghost ls = deep_view(lines@);
    assert(ls == file_lines(files@, g as int));
    let ghost d1: nat = (depth - 1) as nat;
    let ghost mut acc: Merged = (Seq::empty(), Seq::empty());
    assert(flatten(acc.0) =~= Seq::empty());
    assert(out@ =~= out0 + flatten(acc.0));
    assert(lm@ =~= lm0 + acc.1);
    let mut k: usize = 0;
    while k < lines.len()
        invariant
            g < files@.len(),
            depth > 0,
            d1 == depth - 1,
            k <= lines@.len(),
            ls == deep_view(lines@),
            ls == file_lines(files@, g as int),
            stack@ == st1,
            st1 == st0.push(g),
            st0 == old(stack)@,
            out0 == old(out)@,
            lm0 == old(lm)@,
            !st0.contains(g),
            exp_upto(files@, g as int, st1, d1, k as int) == Ok::<Merged, IncludeError>(acc),
            out@ == out0 + flatten(acc.0),
            lm@ == lm0 + acc.1,
        decreases lines@.len() - k,
    {
        let line = &lines[k];
        assert(line@ == ls[k as int]);
        match include_line(line.as_slice()) {
            IncludeLine::Plain => {
                push_line(out, line);
                lm.push(LineOrigin { file: g, line: k + 1 });
                proof {
                    let next: Merged = (acc.0.push(line@), acc.1.push(LineOrigin { file: g, line: (k + 1) as usize }));
                    assert(next.0.drop_last() =~= acc.0);
                    assert(out@ =~= out0 + flatten(next.0));
                    assert(lm@ =~= lm0 + next.1);
                    acc = next;
                }
            },
            IncludeLine::Malformed => {
                proof {
                    lemma_exp_err_stays(files@, g as int, st1, d1, k + 1, ls.len() as int,
                        IncludeError::Malformed { file: g, line: (k + 1) as usize });
                }
                stack.pop();
                assert(stack@ =~= st0);
                return Err(IncludeError::Malformed { file: g, line: k + 1 });
            },
            IncludeLine::Target(a, b) => {
                let rel = copy_range(line.as_slice(), a, b);
                let key = key_for(files[g].path.as_slice(), rel.as_slice());
                match find_file(files, key.as_slice()) {
                    None => {
                        proof {
                            lemma_exp_err_stays(files@, g as int, st1, d1, k + 1, ls.len() as int,
                                IncludeError::Missing { file: g, line: (k + 1) as usize });
                        }
                        stack.pop();
                        assert(stack@ =~= st0);
                        return Err(IncludeError::Missing { file: g, line: k + 1 });
                    },
                    Some(h) => {
                        let ghost out1 = out@;
                        let ghost lm1 = lm@;
                        match expand_into(files, h, stack, depth - 1, out, lm) {
                            Ok(()) => {
                                proof {
                                    let sub = exp_file(files@, h as int, st1, d1).unwrap();
                                    let next: Merged = (acc.0 + sub.0, acc.1 + sub.1);
                                    lemma_flatten_concat(acc.0, sub.0);
                                    assert(out@ =~= out0 + flatten(next.0));
                                    assert(lm@ =~= lm0 + next.1);
                                    acc = next;
                                }
                            },
                            Err(e) => {
                                proof {
                                    lemma_exp_err_stays(files@, g as int, st1, d1, k + 1, ls.len() as int, e);
                                }
                                stack.pop();
                                assert(stack@ =~= st0);
                                return Err(e);
                            },
                        }
                    },
                }
            },
        }
        k = k + 1;
    }
    stack.pop();
    assert(stack@ =~= st0);
    Ok(())
}

/// Expands the root file of a set of sources: every `.include` directive is
/// replaced, where it stands, by the expansion of the file it names, and
/// each retained line is tagged with the file and line it came from. A file
/// that includes itself, directly or through others, is a cycle error
/// naming that file; the same file may be included again from an unrelated
/// point.
pub fn expand_sources(files: &Vec<SourceFile>, root: usize) -> (r: Result<ExpandedAsm, IncludeError>)
    requires
        root < files@.len(),
    ensures
        match expansion(files@, root as int) {
            Ok(m) => r matches Ok(x) && x.bytes@ == flatten(m.0) && x.line_map@ == m.1,
            Err(e) => r == Err::<ExpandedAsm, IncludeError>(e),
        },
{
    let mut stack: Vec<usize> = Vec::new();
    let mut bytes: Vec<u8> = Vec::new();
    let mut line_map: Vec<LineOrigin> = Vec::new();
    proof {
        assert(stack@ =~= Seq::<usize>::empty());
    }
    match expand_into(files, root, &mut stack, files.len(), &mut bytes, &mut line_map) {
        Ok(()) => {
            proof {
                assert(bytes@ =~= flatten(expansion(files@, root as int).unwrap().0));
                assert(line_map@ =~= expansion(files@, root as int).unwrap().1);
            }
            Ok(ExpandedAsm { bytes, line_map })
        },
        Err(e) => Err(e),
    }
}

} // verus!
