//! Sprite sources: the `.spr` text format, 2-bit pixel packing, and the
//! sprite-index constants shared with both source languages.
use vstd::prelude::*;
use crate::text::{copy_range, is_alpha, is_dec, is_alpha_byte, is_dec_byte, read_number, digit_val};
use crate::cparse::{trim_all, starts_with, strip_prefix, same_text, find_byte};
use crate::assembler::split_lines;
use crate::ctext::push_text;

verus! {

/// One packed sprite inside a sprite pack.
pub struct SpriteImage {
    pub name: Vec<u8>,
    pub index: u16,
    pub width: u8,
    pub height: u8,
    pub colors: [u8; 3],
    pub offset: usize,
    pub len: usize,
}

/// All sprites of a project, packed one after another.
pub struct SpritePack {
    pub data: Vec<u8>,
    pub images: Vec<SpriteImage>,
}

/// A parsed sprite source.
pub struct SprFile {
    pub name: Vec<u8>,
    pub width: u8,
    pub height: u8,
    pub colors: [u8; 3],
    pub pixels: Vec<Vec<u8>>,
}

/// Why a sprite source was rejected; `line` is 1-based, `row` counts
/// pixel rows from 1.
#[derive(Clone, Copy, PartialEq, Eq, Structural, Debug)]
pub enum SpriteError {
    BadSize { line: usize },
    SizeNotSupported { line: usize },
    BadColors { line: usize },
    BadColorIndex { line: usize },
    ColorOutOfRange { line: usize },
    UnexpectedLine { line: usize },
    MissingSize,
    MissingColors,
    RowCount,
    RowWidth { row: usize },
    BadPixel { row: usize },
}

/// The 2-bit code of a pixel character: `.` 0, `1` 1, `2` 2, `3` 3.
pub open spec fn pixel_code(c: u8) -> int {
    if c == 49 {
        1
    } else if c == 50 {
        2
    } else if c == 51 {
        3
    } else {
        0
    }
}

pub open spec fn is_pixel(c: u8) -> bool {
    c == 46 || c == 49 || c == 50 || c == 51
}

pub open spec fn code_at(row: Seq<u8>, k: int) -> int {
    if 0 <= k < row.len() {
        pixel_code(row[k])
    } else {
        0
    }
}

/// The `j`th byte of a packed row: four pixels, the first in the top bits.
pub open spec fn packed_byte(row: Seq<u8>, j: int) -> u8 {
    (code_at(row, 4 * j) * 64 + code_at(row, 4 * j + 1) * 16 + code_at(row, 4 * j + 2) * 4
        + code_at(row, 4 * j + 3)) as u8
}

/// A row packed four pixels to the byte.
pub open spec fn packed_row(row: Seq<u8>) -> Seq<u8> {
    Seq::new(((row.len() + 3) / 4) as nat, |j: int| packed_byte(row, j))
}

/// Rows packed one after another.
pub open spec fn packed_rows(rows: Seq<Seq<u8>>) -> Seq<u8>
    decreases rows.len(),
{
    if rows.len() == 0 {
        Seq::empty()
    } else {
        packed_rows(rows.drop_last()) + packed_row(rows.last())
    }
}

fn code_of(c: u8) -> (r: u8)
    ensures
        r as int == pixel_code(c),
{
    if c == 49 {
        1
    } else if c == 50 {
        2
    } else if c == 51 {
        3
    } else {
        0
    }
}

fn code_at_exec(row: &Vec<u8>, base: usize, off: usize) -> (r: u8)
    requires
        base < row@.len(),
    ensures
        r as int == code_at(row@, base + off),
        r < 4,
{
    if off < row.len() - base {
        code_of(row[base + off])
    } else {
        0
    }
}

fn pack_row(row: &Vec<u8>, out: &mut Vec<u8>)
    ensures
        final(out)@ == old(out)@ + packed_row(row@),
{
    let ghost start = out@;
    let n = (row.len() / 4) + if row.len() % 4 == 0 { 0 } else { 1 };
    assert(n == (row@.len() + 3) / 4);
    let len = row.len();
    let mut j: usize = 0;
    while j < n
        invariant
            len == row@.len(),
            j <= n,
            n == (row@.len() + 3) / 4,
            n <= row@.len(),
            out@ == start + packed_row(row@).subrange(0, j as int),
        decreases n - j,
    {
        assert(4 * j < row@.len()) by (nonlinear_arith)
            requires
                j < n,
                n == (row@.len() + 3) / 4,
        ;
        let base = 4 * j;
        let a = code_at_exec(row, base, 0);
        let b = code_at_exec(row, base, 1);
        let c = code_at_exec(row, base, 2);
        let d = code_at_exec(row, base, 3);
        out.push(a * 64 + b * 16 + c * 4 + d);
        j = j + 1;
        assert(out@ =~= start + packed_row(row@).subrange(0, j as int));
    }
    assert(packed_row(row@).subrange(0, n as int) =~= packed_row(row@));
}

/// Packs a sprite's pixel rows, four 2-bit pixels per byte.
pub fn pack_sprite(spr: &SprFile) -> (r: Vec<u8>)
    ensures
        r@ == packed_rows(spr.pixels@.map_values(|row: Vec<u8>| row@)),
{
    let ghost rows = spr.pixels@.map_values(|row: Vec<u8>| row@);
    let mut out: Vec<u8> = Vec::new();
    let mut i: usize = 0;
    while i < spr.pixels.len()
        invariant
            i <= spr.pixels@.len(),
            rows == spr.pixels@.map_values(|row: Vec<u8>| row@),
            out@ == packed_rows(rows.subrange(0, i as int)),
        decreases spr.pixels@.len() - i,
    {
        assert(rows.subrange(0, i + 1).drop_last() =~= rows.subrange(0, i as int));
        pack_row(&spr.pixels[i], &mut out);
        i = i + 1;
    }
    assert(rows.subrange(0, rows.len() as int) =~= rows);
    out
}

/// A small unsigned decimal (`u8`) written with digits only.
fn parse_u8(s: &[u8]) -> (r: Option<u8>)
    ensures
        r matches Some(v) ==> v as nat == crate::text::num_value(s@, 0, s@.len() as int, 10),
{
    if s.len() == 0 {
        return None;
    }
    let mut i: usize = 0;
    while i < s.len()
        invariant
            i <= s@.len(),
            forall|k: int| 0 <= k < i ==> is_dec(#[trigger] s@[k]),
        decreases s@.len() - i,
    {
        if !is_dec_byte(s[i]) {
            return None;
        }
        i = i + 1;
    }
    proof {
        assert forall|k: int| 0 <= k < s@.len() implies digit_val(#[trigger] s@[k]) < 10 by {
            assert(is_dec(s@[k]));
        }
    }
    match read_number(s, 0, s.len(), 10) {
        Some(v) => if v <= 255 { Some(v as u8) } else { None },
        None => None,
    }
}

/// Splits at runs of whitespace, dropping empty parts.
fn split_words(s: &[u8]) -> (r: Vec<Vec<u8>>)
{
    let mut out: Vec<Vec<u8>> = Vec::new();
    let mut i: usize = 0;
    while i < s.len()
        invariant
            i <= s@.len(),
        decreases s@.len() - i,
    {
        if crate::text::is_space_byte(s[i]) {
            i = i + 1;
            continue;
        }
        let start = i;
        while i < s.len() && !crate::text::is_space_byte(s[i])
            invariant
                start <= i <= s@.len(),
            decreases s@.len() - i,
        {
            i = i + 1;
        }
        out.push(copy_range(s, start, i));
    }
    out
}

fn all_pixels(row: &Vec<u8>) -> (r: bool)
    ensures
        r == forall|k: int| 0 <= k < row@.len() ==> is_pixel(#[trigger] row@[k]),
{
    let mut i: usize = 0;
    while i < row.len()
        invariant
            i <= row@.len(),
            forall|k: int| 0 <= k < i ==> is_pixel(#[trigger] row@[k]),
        decreases row@.len() - i,
    {
        let c = row[i];
        if !(c == 46 || c == 49 || c == 50 || c == 51) {
            return false;
        }
        i = i + 1;
    }
    true
}

/// Parses a sprite source: `size WxH` (8x8 or 16x16), `colors A B C`
/// (palette indices 1..=15), then `pixels` and one row per line of `.`,
/// `1`, `2`, `3`. Blank lines and `#` comments are skipped.
pub fn parse_spr_str(name: &[u8], content: &[u8]) -> (r: Result<SprFile, SpriteError>)
    ensures
        r matches Ok(s) ==> (s.width == 8 && s.height == 8) || (s.width == 16 && s.height == 16),
        r matches Ok(s) ==> s.pixels@.len() == s.height,
        r matches Ok(s) ==> forall|i: int| 0 <= i < s.pixels@.len() ==> (#[trigger] s.pixels@[i])@.len() == s.width
            && forall|k: int| 0 <= k < s.pixels@[i]@.len() ==> is_pixel(#[trigger] s.pixels@[i]@[k]),
        r matches Ok(s) ==> forall|i: int| 0 <= i < 3 ==> 1 <= #[trigger] s.colors@[i] <= 15,
{
    let mut size: Option<u8> = None;
    let mut colors: Option<[u8; 3]> = None;
    let mut in_pixels = false;
    let mut pixels: Vec<Vec<u8>> = Vec::new();
    let lines = split_lines(content);
    let mut idx: usize = 0;
    while idx < lines.len()
        invariant
            idx <= lines@.len(),
            size matches Some(w) ==> w == 8 || w == 16,
            colors matches Some(c) ==> forall|i: int| 0 <= i < 3 ==> 1 <= #[trigger] c@[i] <= 15,
        decreases lines@.len() - idx,
    {
        let line_no = idx + 1;
        let t = trim_all(lines[idx].as_slice());
        idx = idx + 1;
        if t.len() == 0 || starts_with(t.as_slice(), "#") {
            continue;
        }
        if in_pixels {
            pixels.push(t);
            continue;
        }
        match strip_prefix(t.as_slice(), "size") {
            Some(rest) => {
                let r = trim_all(rest.as_slice());
                let x = match find_byte(r.as_slice(), 120) {
                    Some(x) => x,
                    None => {
                        return Err(SpriteError::BadSize { line: line_no });
                    },
                };
                let rlen = r.len();
                let tail = copy_range(r.as_slice(), x + 1, rlen);
                if find_byte(tail.as_slice(), 120).is_some() {
                    return Err(SpriteError::BadSize { line: line_no });
                }
                let w = match parse_u8(trim_all(copy_range(r.as_slice(), 0, x).as_slice()).as_slice()) {
                    Some(w) => w,
                    None => {
                        return Err(SpriteError::BadSize { line: line_no });
                    },
                };
                let h = match parse_u8(trim_all(tail.as_slice()).as_slice()) {
                    Some(h) => h,
                    None => {
                        return Err(SpriteError::BadSize { line: line_no });
                    },
                };
                if !((w == 8 && h == 8) || (w == 16 && h == 16)) {
                    return Err(SpriteError::SizeNotSupported { line: line_no });
                }
                size = Some(w);
                continue;
            },
            None => {},
        }
        match strip_prefix(t.as_slice(), "colors") {
            Some(rest) => {
                let parts = split_words(rest.as_slice());
                if parts.len() != 3 {
                    return Err(SpriteError::BadColors { line: line_no });
                }
                let mut vals: [u8; 3] = [1, 1, 1];
                let mut i: usize = 0;
                while i < 3
                    invariant
                        i <= 3,
                        parts@.len() == 3,
                        forall|k: int| 0 <= k < 3 ==> 1 <= #[trigger] vals@[k] <= 15,
                    decreases 3 - i,
                {
                    let v = match parse_u8(parts[i].as_slice()) {
                        Some(v) => v,
                        None => {
                            return Err(SpriteError::BadColorIndex { line: line_no });
                        },
                    };
                    if v == 0 || v > 15 {
                        return Err(SpriteError::ColorOutOfRange { line: line_no });
                    }
                    vals[i] = v;
                    i = i + 1;
                }
                colors = Some(vals);
                continue;
            },
            None => {},
        }
        if same_text(t.as_slice(), "pixels") {
            in_pixels = true;
            continue;
        }
        return Err(SpriteError::UnexpectedLine { line: line_no });
    }
    let w = match size {
        Some(w) => w,
        None => {
            return Err(SpriteError::MissingSize);
        },
    };
    let c = match colors {
        Some(c) => c,
        None => {
            return Err(SpriteError::MissingColors);
        },
    };
    if pixels.len() != w as usize {
        return Err(SpriteError::RowCount);
    }
    let mut r: usize = 0;
    while r < pixels.len()
        invariant
            r <= pixels@.len(),
            forall|i: int| 0 <= i < r ==> (#[trigger] pixels@[i])@.len() == w
                && forall|k: int| 0 <= k < pixels@[i]@.len() ==> is_pixel(#[trigger] pixels@[i]@[k]),
        decreases pixels@.len() - r,
    {
        if pixels[r].len() != w as usize {
            return Err(SpriteError::RowWidth { row: r + 1 });
        }
        if !all_pixels(&pixels[r]) {
            return Err(SpriteError::BadPixel { row: r + 1 });
        }
        r = r + 1;
    }
    let n = copy_range(name, 0, name.len());
    Ok(SprFile { name: n, width: w, height: w, colors: c, pixels })
}

/// The upper-case form of a name, one byte per character: ASCII letters
/// and digits stay (letters in upper case), any other character becomes
/// `_`; the continuation bytes of a multi-byte character are dropped.
pub open spec fn const_chars(name: Seq<u8>) -> Seq<u8>
    decreases name.len(),
{
    if name.len() == 0 {
        Seq::empty()
    } else {
        let c = name.last();
        let prev = const_chars(name.drop_last());
        if 0x80 <= c && c <= 0xBF {
            prev
        } else {
            prev.push(const_char(c))
        }
    }
}

/// What `str::to_uppercase` makes of a name's text (read as UTF-8).
pub uninterp spec fn upper_of(s: Seq<u8>) -> Seq<u8>;

/// Relies on `str::to_uppercase` for the upper-case form of a name's text,
/// which depends on the text alone (invalid UTF-8 is read as U+FFFD).
#[verifier::external_body]
fn uppercase(s: &[u8]) -> (r: Vec<u8>)
    ensures
        r@ == upper_of(s@),
{
    String::from_utf8_lossy(s).to_uppercase().into_bytes()
}

/// The constant name of a sprite: `SPR_` and its name in upper case, each
/// character that is not an ASCII letter or digit replaced by `_`.
pub open spec fn const_name(name: Seq<u8>) -> Seq<u8> {
    seq![83u8, 80u8, 82u8, 95u8] + const_chars(upper_of(name))
}

pub open spec fn const_char(c: u8) -> u8 {
    if 97 <= c <= 122 {
        (c - 32) as u8
    } else if is_alpha(c) || is_dec(c) {
        c
    } else {
        95
    }
}

/// The constants naming each sprite's index.
pub fn sprite_consts(images: &Vec<SpriteImage>) -> (r: Vec<(Vec<u8>, u32)>)
    ensures
        r@.len() == images@.len(),
        forall|i: int| 0 <= i < r@.len() ==> (#[trigger] r@[i]).0@ == const_name(images@[i].name@) && r@[i].1 == images@[i].index as u32,
{
    let mut out: Vec<(Vec<u8>, u32)> = Vec::new();
    let mut i: usize = 0;
    while i < images.len()
        invariant
            i <= images@.len(),
            out@.len() == i,
            forall|k: int| 0 <= k < i ==> (#[trigger] out@[k]).0@ == const_name(images@[k].name@) && out@[k].1 == images@[k].index as u32,
        decreases images@.len() - i,
    {
        let name = uppercase(images[i].name.as_slice());
        let mut t: Vec<u8> = Vec::new();
        t.push(83);
        t.push(80);
        t.push(82);
        t.push(95);
        let mut k: usize = 0;
        while k < name.len()
            invariant
                k <= name@.len(),
                t@ == seq![83u8, 80u8, 82u8, 95u8] + const_chars(name@.subrange(0, k as int)),
            name@ == upper_of(images@[i as int].name@),
            decreases name@.len() - k,
        {
            let c = name[k];
            assert(name@.subrange(0, k + 1).drop_last() =~= name@.subrange(0, k as int));
            if !(0x80 <= c && c <= 0xBF) {
                let u = if 97 <= c && c <= 122 {
                    c - 32
                } else if is_alpha_byte(c) || is_dec_byte(c) {
                    c
                } else {
                    95
                };
                t.push(u);
            }
            k = k + 1;
            assert(t@ =~= seq![83u8, 80u8, 82u8, 95u8] + const_chars(name@.subrange(0, k as int)));
        }
        assert(name@.subrange(0, name@.len() as int) =~= name@);
        out.push((t, images[i].index as u32));
        i = i + 1;
    }
    out
}

/// The images lie back to back from offset zero and end where the data
/// ends.
pub open spec fn packed_run(images: Seq<SpriteImage>, total: nat) -> bool {
    &&& forall|i: int| 0 <= i < images.len() ==> (#[trigger] images[i]).offset == (if i == 0 { 0 } else {
        images[i - 1].offset + images[i - 1].len
    })
    &&& total == (if images.len() == 0 { 0 } else { images.last().offset + images.last().len })
}

/// Packs sprites given as (name, source) pairs, in order; each image's
/// index is its position.
pub fn load_sprite_pack_from_embedded(items: &Vec<(Vec<u8>, Vec<u8>)>) -> (r: Result<SpritePack, SpriteError>)
    ensures
        r matches Ok(p) ==> p.images@.len() == items@.len(),
        r matches Ok(p) ==> forall|i: int| 0 <= i < p.images@.len() ==> (#[trigger] p.images@[i]).index == i
            && p.images@[i].offset + p.images@[i].len <= p.data@.len(),
        r matches Ok(p) ==> packed_run(p.images@, p.data@.len()),
{
    let mut data: Vec<u8> = Vec::new();
    let mut images: Vec<SpriteImage> = Vec::new();
    let mut i: usize = 0;
    while i < items.len()
        invariant
            i <= items@.len(),
            images@.len() == i,
            forall|k: int| 0 <= k < i ==> (#[trigger] images@[k]).index == k && images@[k].offset + images@[k].len <= data@.len(),
            packed_run(images@, data@.len()),
        decreases items@.len() - i,
    {
        let spr = match parse_spr_str(items[i].0.as_slice(), items[i].1.as_slice()) {
            Ok(s) => s,
            Err(e) => {
                return Err(e);
            },
        };
        let packed = pack_sprite(&spr);
        let offset = data.len();
        if packed.len() > usize::MAX - offset || i > 0xFFFF {
            return Err(SpriteError::RowCount);
        }
        crate::ctext::push_bytes(&mut data, packed.as_slice());
        images.push(SpriteImage {
            name: spr.name,
            index: i as u16,
            width: spr.width,
            height: spr.height,
            colors: spr.colors,
            offset,
            len: packed.len(),
        });
        i = i + 1;
    }
    Ok(SpritePack { data, images })
}

} // verus!
