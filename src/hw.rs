//! The memory-mapped video regions: palette RAM, sprite RAM and the
//! 4-bit-per-pixel bitmap.
use vstd::prelude::*;
use crate::config::{MemoryMap, PaletteConfig, sat16, sat32};

verus! {

/// Packed RGB bytes of the global palette at `base..base + data_len`.
pub struct Palette {
    pub data: Vec<u8>,
    pub data_len: u16,
    pub base: u16,
    pub end: u16,
}

/// 64 sprite records of 8 bytes at `base..=end`.
pub struct SpriteRam {
    pub base: u16,
    pub end: u16,
    pub data: Vec<u8>,
}

/// The bitmap, two pixels per byte, at `base..=end`.
pub struct VideoRam {
    pub base: u16,
    pub end: u16,
    pub width: u32,
    pub height: u32,
    pub data: Vec<u8>,
}

impl SpriteRam {
    pub open spec fn view(&self) -> Seq<u8> {
        self.data@
    }

    pub fn new(map: &MemoryMap) -> (r: SpriteRam)
        ensures
            r.base == map.sprite_ram,
            r.end == sat16(map.sprite_ram + 511),
            r.view() == Seq::new(512, |i: int| 0u8),
    {
        let data = vec![0u8; 512];
        assert(data@ =~= Seq::new(512, |i: int| 0u8));
        SpriteRam { base: map.sprite_ram, end: map.sprite_ram.saturating_add(511), data }
    }

    /// The byte at `addr`, or zero past the region.
    pub fn read(&self, addr: u16) -> (r: u8)
        requires
            self.base <= addr,
        ensures
            r == (if addr - self.base < self.view().len() { self.view()[addr - self.base] } else { 0 }),
    {
        let idx = (addr - self.base) as usize;
        if idx < self.data.len() {
            self.data[idx]
        } else {
            0
        }
    }

    /// Stores a byte at `addr`; addresses past the region are ignored.
    pub fn write(&mut self, addr: u16, value: u8)
        requires
            old(self).base <= addr,
        ensures
            final(self).base == old(self).base,
            final(self).end == old(self).end,
            final(self).view() == (if addr - old(self).base < old(self).view().len() {
                old(self).view().update(addr - old(self).base, value)
            } else {
                old(self).view()
            }),
    {
        let idx = (addr - self.base) as usize;
        if idx < self.data.len() {
            self.data.set(idx, value);
        }
    }
}

/// The default palette: sixteen RGB colors.
pub open spec fn default_table() -> Seq<u8> {
    seq![
        0x1a, 0x1c, 0x2c, 0x5d, 0x27, 0x5d, 0xb1, 0x3e, 0x53, 0xef, 0x7d, 0x57,
        0xff, 0xcd, 0x75, 0xa7, 0xf0, 0x70, 0x38, 0xb7, 0x64, 0x25, 0x71, 0x79,
        0x29, 0x36, 0x6f, 0x3b, 0x5d, 0xc9, 0x41, 0xa6, 0xf6, 0x73, 0xef, 0xf7,
        0xf4, 0xf4, 0xf4, 0x94, 0xb0, 0xc2, 0x56, 0x6c, 0x86, 0x33, 0x3c, 0x57u8
    ]
}

fn default_palette_bytes() -> (r: Vec<u8>)
    ensures
        r@ == default_table(),
{
    let r: Vec<u8> = vec![
        0x1a, 0x1c, 0x2c, 0x5d, 0x27, 0x5d, 0xb1, 0x3e, 0x53, 0xef, 0x7d, 0x57,
        0xff, 0xcd, 0x75, 0xa7, 0xf0, 0x70, 0x38, 0xb7, 0x64, 0x25, 0x71, 0x79,
        0x29, 0x36, 0x6f, 0x3b, 0x5d, 0xc9, 0x41, 0xa6, 0xf6, 0x73, 0xef, 0xf7,
        0xf4, 0xf4, 0xf4, 0x94, 0xb0, 0xc2, 0x56, 0x6c, 0x86, 0x33, 0x3c, 0x57
    ];
    assert(r@ =~= default_table());
    r
}

impl Palette {
    pub open spec fn view(&self) -> Seq<u8> {
        self.data@
    }

    pub open spec fn wf(&self) -> bool {
        self.data@.len() == self.data_len
    }

    pub open spec fn base_addr(&self) -> u16 {
        self.base
    }

    /// A palette of `global_colors` RGB entries: the initial bytes where
    /// given (as many as fit), else the default colors.
    pub fn new(cfg: &PaletteConfig, map: &MemoryMap, initial: Option<&[u8]>) -> (r: Palette)
        ensures
            r.wf(),
            r.view().len() == (sat32(cfg.global_colors * 3) % 0x10000),
            r.base_addr() == map.palette_ram,
            initial matches Some(b) ==> forall|i: int| 0 <= i < r.view().len() ==> #[trigger] r.view()[i] == (if i < b@.len() { b@[i] } else { 0 }),
    {
        let len32 = crate::config::sat_mul(cfg.global_colors, 3);
        let data_len: u16 = (len32 % 0x10000) as u16;
        let base = map.palette_ram;
        let end = base.saturating_add(if data_len == 0 { 0 } else { data_len - 1 });
        let mut data: Vec<u8> = vec![0u8; data_len as usize];
        match initial {
            Some(bytes) => {
                let mut i: usize = 0;
                while i < data.len() && i < bytes.len()
                    invariant
                        data@.len() == data_len,
                        i <= data@.len(),
                        i <= bytes@.len(),
                        forall|k: int| 0 <= k < i ==> data@[k] == bytes@[k],
                        forall|k: int| i <= k < data@.len() ==> data@[k] == 0,
                    decreases data@.len() - i,
                {
                    data.set(i, bytes[i]);
                    i = i + 1;
                }
            },
            None => {
                let table = default_palette_bytes();
                let mut i: usize = 0;
                while i < 48 && i + 2 < data.len()
                    invariant
                        data@.len() == data_len,
                        table@.len() == 48,
                        i <= 48,
                        i % 3 == 0,
                    decreases 48 - i,
                {
                    data.set(i, table[i]);
                    data.set(i + 1, table[i + 1]);
                    data.set(i + 2, table[i + 2]);
                    i = i + 3;
                }
            },
        }
        Palette { data, data_len, base, end }
    }

    /// The byte at `addr` inside the palette, or zero.
    pub fn read(&self, addr: u16) -> (r: u8)
        requires
            self.wf(),
        ensures
            r == (if self.base <= addr < self.base + self.view().len() { self.view()[addr - self.base] } else { 0 }),
    {
        if self.base <= addr && (addr as u32) < self.base as u32 + self.data_len as u32 {
            self.data[(addr - self.base) as usize]
        } else {
            0
        }
    }

    /// Stores a byte inside the palette; other addresses are ignored.
    pub fn write(&mut self, addr: u16, value: u8)
        requires
            old(self).wf(),
        ensures
            final(self).wf(),
            final(self).base == old(self).base,
            final(self).view() == (if old(self).base <= addr < old(self).base + old(self).view().len() {
                old(self).view().update(addr - old(self).base, value)
            } else {
                old(self).view()
            }),
    {
        if self.base <= addr && (addr as u32) < self.base as u32 + self.data_len as u32 {
            let idx = (addr - self.base) as usize;
            self.data.set(idx, value);
        }
    }
}

/// A byte holding one color nibble in both halves.
pub open spec fn packed_nibble(c: u8) -> u8 {
    ((c % 16) + (c % 16) * 16) as u8
}

impl VideoRam {
    pub fn new(width: u32, height: u32, base: u16) -> (r: VideoRam)
        ensures
            r.width == width,
            r.height == height,
            r.base == base,
            r.data@.len() == (sat32(width * height) + 1) / 2,
            forall|i: int| 0 <= i < r.data@.len() ==> r.data@[i] == 0,
    {
        let pixels = crate::config::sat_mul(width, height);
        let bytes: usize = ((pixels as u64 + 1) / 2) as usize;
        let end = base.saturating_add(#[verifier::truncate] ((bytes as u64).wrapping_sub(1) as u16));
        VideoRam { base, end, width, height, data: vec![0u8; bytes] }
    }

    /// Fills the bitmap with one color: the low nibble of `color_nibble` in
    /// both pixels of every byte.
    pub fn clear(&mut self, color_nibble: u8)
        ensures
            final(self).data@.len() == old(self).data@.len(),
            forall|i: int| 0 <= i < final(self).data@.len() ==> final(self).data@[i] == packed_nibble(color_nibble),
            final(self).base == old(self).base,
            final(self).end == old(self).end,
            final(self).width == old(self).width,
            final(self).height == old(self).height,
    {
        let lo = color_nibble & 0x0F;
        assert((color_nibble & 0x0F) == color_nibble % 16) by (bit_vector);
        let packed: u8 = lo | (lo << 4);
        assert(((color_nibble & 0x0F) | ((color_nibble & 0x0F) << 4)) == (color_nibble % 16) + (color_nibble % 16) * 16) by (bit_vector);
        let mut i: usize = 0;
        while i < self.data.len()
            invariant
                i <= self.data@.len(),
                self.data@.len() == old(self).data@.len(),
                self.base == old(self).base,
                self.end == old(self).end,
                self.width == old(self).width,
                self.height == old(self).height,
                packed == packed_nibble(color_nibble),
                forall|k: int| 0 <= k < i ==> self.data@[k] == packed,
            decreases self.data@.len() - i,
        {
            self.data.set(i, packed);
            i = i + 1;
        }
    }

    /// The byte at `addr`, or zero past the bitmap.
    pub fn read(&self, addr: u16) -> (r: u8)
        requires
            self.base <= addr,
        ensures
            r == (if addr - self.base < self.data@.len() { self.data@[addr - self.base] } else { 0 }),
    {
        let idx = (addr - self.base) as usize;
        if idx < self.data.len() {
            self.data[idx]
        } else {
            0
        }
    }

    /// Stores a byte at `addr`; addresses past the bitmap are ignored.
    pub fn write(&mut self, addr: u16, value: u8)
        requires
            old(self).base <= addr,
        ensures
            final(self).data@ == (if addr - old(self).base < old(self).data@.len() {
                old(self).data@.update(addr - old(self).base, value)
            } else {
                old(self).data@
            }),
    {
        let idx = (addr - self.base) as usize;
        if idx < self.data.len() {
            self.data.set(idx, value);
        }
    }
}


/// Draws an RGBA image into a `0RGB` frame buffer, scaled by the largest
/// whole factor (at least 1) that fits, and centred. Pixels outside the
/// buffer, and source pixels past the end of `src`, are skipped.
pub fn blit_scaled_rgba_to_buffer(src: &[u8], src_w: u32, src_h: u32, dst_w: usize, dst_h: usize, dst: &mut Vec<u32>)
    ensures
        final(dst)@.len() == old(dst)@.len(),
        (src_w == 0 || src_h == 0 || dst_w == 0 || dst_h == 0) ==> final(dst)@ == old(dst)@,
{
    if src_w == 0 || src_h == 0 || dst_w == 0 || dst_h == 0 {
        return;
    }
    if dst_w > 0xFFFF_FFFF || dst_h > 0xFFFF_FFFF {
        return;
    }
    let scale_x = dst_w as u32 / src_w;
    let scale_y = dst_h as u32 / src_h;
    let m = if scale_x < scale_y { scale_x } else { scale_y };
    let scale: u128 = if m < 1 { 1 } else { m as u128 };
    assert((src_w as u128) * scale < 0x1_0000_0000_0000_0000 && (src_h as u128) * scale < 0x1_0000_0000_0000_0000) by (nonlinear_arith)
        requires
            scale <= 0xFFFF_FFFF,
            src_w <= 0xFFFF_FFFF,
            src_h <= 0xFFFF_FFFF,
    ;
    let draw_w: u128 = src_w as u128 * scale;
    let draw_h: u128 = src_h as u128 * scale;
    let off_x: u128 = if dst_w as u128 > draw_w { (dst_w as u128 - draw_w) / 2 } else { 0 };
    let off_y: u128 = if dst_h as u128 > draw_h { (dst_h as u128 - draw_h) / 2 } else { 0 };
    assert(draw_w < 0x1_0000_0000_0000_0000 && draw_h < 0x1_0000_0000_0000_0000) by (nonlinear_arith)
        requires
            draw_w == src_w as u128 * scale,
            draw_h == src_h as u128 * scale,
            scale <= 0xFFFF_FFFF,
            src_w <= 0xFFFF_FFFF,
            src_h <= 0xFFFF_FFFF,
    ;
    let n = dst.len();
    let mut y: u128 = 0;
    while y < draw_h
        invariant
            dst@.len() == n,
            1 <= scale,
            draw_w < 0x1_0000_0000_0000_0000,
            draw_h < 0x1_0000_0000_0000_0000,
            off_x <= 0xFFFF_FFFF,
            off_y <= 0xFFFF_FFFF,
            dst_w <= 0xFFFF_FFFF,
        decreases draw_h - y,
    {
        let sy = y / scale;
        let mut x: u128 = 0;
        while x < draw_w
            invariant
                dst@.len() == n,
                1 <= scale,
                y < draw_h,
                draw_w < 0x1_0000_0000_0000_0000,
                draw_h < 0x1_0000_0000_0000_0000,
                sy <= y,
                off_x <= 0xFFFF_FFFF,
                off_y <= 0xFFFF_FFFF,
                dst_w <= 0xFFFF_FFFF,
            decreases draw_w - x,
        {
            let sx = x / scale;
            assert(sy * (src_w as u128) < 0x1_0000_0000_0000_0000 * 0x1_0000_0000) by (nonlinear_arith)
                requires
                    sy < 0x1_0000_0000_0000_0000,
                    src_w <= 0xFFFF_FFFF,
            ;
            assert(sx <= x) by (nonlinear_arith)
                requires
                    sx == x / scale,
                    scale >= 1,
            ;
            let si: u128 = (sy * src_w as u128 + sx) * 4;
            if si + 2 < src.len() as u128 {
                let i = si as usize;
                let r = src[i] as u32;
                let g = src[i + 1] as u32;
                let b = src[i + 2] as u32;
                assert((off_y + y) * (dst_w as u128) < 0x2_0000_0000_0000_0000 * 0x1_0000_0000) by (nonlinear_arith)
                    requires
                        off_y + y < 0x2_0000_0000_0000_0000,
                        dst_w <= 0xFFFF_FFFF,
                ;
                let di: u128 = (off_y + y) * dst_w as u128 + (off_x + x);
                if di < n as u128 {
                    dst.set(di as usize, (r << 16) | (g << 8) | b);
                }
            }
            x = x + 1;
        }
        y = y + 1;
    }
}

} // verus!
