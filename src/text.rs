//! Byte-level helpers shared by the parsers: character classes, scanning,
//! and the numeric value of digit runs.
use vstd::prelude::*;

verus! {

/// Whitespace as the line grammar understands it.
pub open spec fn is_space(b: u8) -> bool {
    b == 32 || b == 9 || b == 10 || b == 13 || b == 11 || b == 12
}

pub open spec fn is_alpha(b: u8) -> bool {
    (97 <= b && b <= 122) || (65 <= b && b <= 90)
}

pub open spec fn is_dec(b: u8) -> bool {
    48 <= b && b <= 57
}

pub open spec fn is_hex(b: u8) -> bool {
    is_dec(b) || (97 <= b && b <= 102) || (65 <= b && b <= 70)
}

pub open spec fn is_bin(b: u8) -> bool {
    b == 48 || b == 49
}

/// A character class scanned by [`scan`].
#[derive(Clone, Copy, PartialEq, Eq, Structural, Debug)]
pub enum CharClass {
    Hex,
    Dec,
    Bin,
    Alpha,
    /// Letters, digits and underscore.
    Ident,
    /// Anything but a single quote.
    NotQuote,
}

pub open spec fn in_class(c: CharClass, b: u8) -> bool {
    match c {
        CharClass::Hex => is_hex(b),
        CharClass::Dec => is_dec(b),
        CharClass::Bin => is_bin(b),
        CharClass::Alpha => is_alpha(b),
        CharClass::Ident => is_alpha(b) || is_dec(b) || b == 95,
        CharClass::NotQuote => b != 39,
    }
}

pub fn is_space_byte(b: u8) -> (r: bool)
    ensures
        r == is_space(b),
{
    b == 32 || b == 9 || b == 10 || b == 13 || b == 11 || b == 12
}

pub fn is_alpha_byte(b: u8) -> (r: bool)
    ensures
        r == is_alpha(b),
{
    (97 <= b && b <= 122) || (65 <= b && b <= 90)
}

pub fn is_dec_byte(b: u8) -> (r: bool)
    ensures
        r == is_dec(b),
{
    48 <= b && b <= 57
}

pub fn class_has(c: CharClass, b: u8) -> (r: bool)
    ensures
        r == in_class(c, b),
{
    match c {
        CharClass::Hex => is_dec_byte(b) || (97 <= b && b <= 102) || (65 <= b && b <= 70),
        CharClass::Dec => is_dec_byte(b),
        CharClass::Bin => b == 48 || b == 49,
        CharClass::Alpha => is_alpha_byte(b),
        CharClass::Ident => is_alpha_byte(b) || is_dec_byte(b) || b == 95,
        CharClass::NotQuote => b != 39,
    }
}

/// The first position at or after `i` that does not hold whitespace.
pub open spec fn skip_spaces(s: Seq<u8>, i: int) -> int
    decreases s.len() - i,
{
    if 0 <= i < s.len() && is_space(s[i]) {
        skip_spaces(s, i + 1)
    } else {
        i
    }
}

/// The end of the run of class `c` that starts at `i`.
pub open spec fn scan_end(s: Seq<u8>, i: int, c: CharClass) -> int
    decreases s.len() - i,
{
    if 0 <= i < s.len() && in_class(c, s[i]) {
        scan_end(s, i + 1, c)
    } else {
        i
    }
}

pub proof fn lemma_skip_spaces_bounds(s: Seq<u8>, i: int)
    requires
        0 <= i <= s.len(),
    ensures
        i <= skip_spaces(s, i) <= s.len(),
        skip_spaces(s, i) < s.len() ==> !is_space(s[skip_spaces(s, i)]),
    decreases s.len() - i,
{
    if i < s.len() && is_space(s[i]) {
        lemma_skip_spaces_bounds(s, i + 1);
    }
}

pub proof fn lemma_scan_end_bounds(s: Seq<u8>, i: int, c: CharClass)
    requires
        0 <= i <= s.len(),
    ensures
        i <= scan_end(s, i, c) <= s.len(),
        forall|k: int| i <= k < scan_end(s, i, c) ==> in_class(c, #[trigger] s[k]),
        scan_end(s, i, c) < s.len() ==> !in_class(c, s[scan_end(s, i, c)]),
    decreases s.len() - i,
{
    if i < s.len() && in_class(c, s[i]) {
        lemma_scan_end_bounds(s, i + 1, c);
    }
}

pub fn skip_ws(s: &[u8], i: usize) -> (r: usize)
    requires
        i <= s@.len(),
    ensures
        r == skip_spaces(s@, i as int),
        i <= r <= s@.len(),
        s@.len() <= usize::MAX,
{
    let n = s.len();
    let mut j: usize = i;
    while j < s.len() && is_space_byte(s[j])
        invariant
            i <= j <= s@.len(),
            skip_spaces(s@, i as int) == skip_spaces(s@, j as int),
        decreases s@.len() - j,
    {
        j = j + 1;
    }
    j
}

pub fn scan(s: &[u8], i: usize, c: CharClass) -> (r: usize)
    requires
        i <= s@.len(),
    ensures
        r == scan_end(s@, i as int, c),
        i <= r <= s@.len(),
        s@.len() <= usize::MAX,
{
    let n = s.len();
    let mut j: usize = i;
    while j < s.len() && class_has(c, s[j])
        invariant
            i <= j <= s@.len(),
            scan_end(s@, i as int, c) == scan_end(s@, j as int, c),
        decreases s@.len() - j,
    {
        j = j + 1;
    }
    j
}

/// The value of one digit character (hex letters in either case).
pub open spec fn digit_val(b: u8) -> nat {
    if is_dec(b) {
        (b - 48) as nat
    } else if 97 <= b && b <= 102 {
        (b - 87) as nat
    } else if 65 <= b && b <= 70 {
        (b - 55) as nat
    } else {
        0
    }
}

/// The number written by the digits `s[lo..hi]` in base `base`.
pub open spec fn num_value(s: Seq<u8>, lo: int, hi: int, base: nat) -> nat
    decreases hi - lo,
{
    if hi <= lo {
        0
    } else {
        num_value(s, lo, hi - 1, base) * base + digit_val(s[hi - 1])
    }
}

pub fn digit_of(b: u8) -> (r: u8)
    ensures
        r as nat == digit_val(b),
{
    if is_dec_byte(b) {
        b - 48
    } else if 97 <= b && b <= 102 {
        b - 87
    } else if 65 <= b && b <= 70 {
        b - 55
    } else {
        0
    }
}

/// Reads the digits `s[lo..hi]` as a number in base `base`, or `None`
/// where it does not fit in 32 bits.
pub fn read_number(s: &[u8], lo: usize, hi: usize, base: u8) -> (r: Option<u32>)
    requires
        lo <= hi <= s@.len(),
        2 <= base <= 16,
        forall|k: int| lo <= k < hi ==> digit_val(#[trigger] s@[k]) < base,
    ensures
        num_value(s@, lo as int, hi as int, base as nat) <= u32::MAX ==> r == Some(
            num_value(s@, lo as int, hi as int, base as nat) as u32,
        ),
        num_value(s@, lo as int, hi as int, base as nat) > u32::MAX ==> r is None,
{
    let cap: u64 = 0x1_0000_0000;
    let mut acc: u64 = 0;
    let mut k: usize = lo;
    while k < hi
        invariant
            lo <= k <= hi <= s@.len(),
            2 <= base <= 16,
            forall|m: int| lo <= m < hi ==> digit_val(#[trigger] s@[m]) < base,
            cap == 0x1_0000_0000,
            num_value(s@, lo as int, k as int, base as nat) < cap ==> acc == num_value(
                s@,
                lo as int,
                k as int,
                base as nat,
            ),
            num_value(s@, lo as int, k as int, base as nat) >= cap ==> acc == cap,
        decreases hi - k,
    {
        let d = digit_of(s[k]);
        let ghost prev = num_value(s@, lo as int, k as int, base as nat);
        assert(num_value(s@, lo as int, k + 1, base as nat) == prev * (base as nat) + d as nat);
        if acc >= cap {
            assert(prev >= cap);
            assert(prev * (base as nat) >= prev) by (nonlinear_arith)
                requires
                    base >= 2,
            ;
        } else {
            assert(acc * (base as u64) <= (cap - 1) * 16) by (nonlinear_arith)
                requires
                    acc < cap,
                    base <= 16,
            ;
            let next: u64 = acc * (base as u64) + (d as u64);
            if next >= cap {
                acc = cap;
            } else {
                acc = next;
            }
        }
        k = k + 1;
    }
    if acc >= cap {
        None
    } else {
        Some(acc as u32)
    }
}

/// A copy of `s[lo..hi]`.
pub fn copy_range(s: &[u8], lo: usize, hi: usize) -> (r: Vec<u8>)
    requires
        lo <= hi <= s@.len(),
    ensures
        r@ == s@.subrange(lo as int, hi as int),
{
    let mut r: Vec<u8> = Vec::new();
    let mut k: usize = lo;
    while k < hi
        invariant
            lo <= k <= hi <= s@.len(),
            r@ == s@.subrange(lo as int, k as int),
        decreases hi - k,
    {
        r.push(s[k]);
        k = k + 1;
        assert(r@ =~= s@.subrange(lo as int, k as int));
    }
    r
}

/// Whether `s[lo..hi]` spells `t`.
pub fn range_eq(s: &[u8], lo: usize, hi: usize, t: &[u8]) -> (r: bool)
    requires
        lo <= hi <= s@.len(),
    ensures
        r == (s@.subrange(lo as int, hi as int) == t@),
{
    if hi - lo != t.len() {
        assert(s@.subrange(lo as int, hi as int).len() != t@.len());
        return false;
    }
    let mut k: usize = 0;
    while k < t.len()
        invariant
            lo <= hi <= s@.len(),
            hi - lo == t@.len(),
            k <= t@.len(),
            forall|m: int| 0 <= m < k ==> s@[lo + m] == t@[m],
        decreases t@.len() - k,
    {
        if s[lo + k] != t[k] {
            assert(s@.subrange(lo as int, hi as int)[k as int] != t@[k as int]);
            return false;
        }
        k = k + 1;
    }
    assert(s@.subrange(lo as int, hi as int) =~= t@);
    true
}

} // verus!
