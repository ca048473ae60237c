//! Machine configuration and the memory map laid out from it.
use vstd::prelude::*;

verus! {

pub struct MachineConfig {
    pub cpu: String,
    pub clock_hz: u32,
    pub refresh_hz: u32,
}

pub struct VideoConfig {
    pub width: u32,
    pub height: u32,
    pub mode: String,
}

pub struct PaletteConfig {
    pub global_colors: u32,
    pub sprite_palettes: u32,
    pub colors_per_sprite: u32,
}

pub struct Config {
    pub machine: MachineConfig,
    pub video: VideoConfig,
    pub palette: PaletteConfig,
}

/// The base address of each region of the address space.
#[derive(Clone, Copy, PartialEq, Eq, Structural, Debug)]
pub struct MemoryMap {
    pub zero_page: u16,
    pub stack: u16,
    pub ram: u16,
    pub video_ram: u16,
    pub palette_ram: u16,
    pub palette_map: u16,
    pub sprite_ram: u16,
    pub io: u16,
    pub rom: u16,
}

pub open spec fn sat16(x: int) -> u16 {
    if x > 0xFFFF {
        0xFFFF
    } else {
        x as u16
    }
}

pub open spec fn sat32(x: int) -> u32 {
    if x > 0xFFFF_FFFF {
        0xFFFF_FFFF
    } else {
        x as u32
    }
}

/// The bytes of a 4-bit-per-pixel bitmap of the configured size.
pub open spec fn vram_bytes_of(width: u32, height: u32) -> int {
    (sat32(width * height) + 1) / 2
}

/// The memory map of a configuration: video RAM at `$2000` sized for the
/// bitmap, then palette data (three bytes per color), a 16-entry palette
/// map, 256 bytes of sprite RAM, 256 bytes of I/O, then ROM; each base
/// saturates at `$FFFF`.
pub open spec fn memory_map_of(width: u32, height: u32, colors: u32) -> MemoryMap {
    let palette_bytes = if sat32(colors * 3) > 0xFFFF { 0xFFFFu32 } else { sat32(colors * 3) };
    let palette_ram = sat16(0x2000 + (vram_bytes_of(width, height) as u16));
    let palette_map = sat16(palette_ram + (palette_bytes as u16));
    let sprite_ram = sat16(palette_map + 16);
    let io = sat16(sprite_ram + 0x100);
    let rom = sat16(io + 0x100);
    MemoryMap {
        zero_page: 0,
        stack: 0x100,
        ram: 0x200,
        video_ram: 0x2000,
        palette_ram,
        palette_map,
        sprite_ram,
        io,
        rom,
    }
}

/// `a * b`, saturating at the largest `u32`.
pub fn sat_mul(a: u32, b: u32) -> (r: u32)
    ensures
        r == sat32(a * b),
{
    assert((a as u64) * (b as u64) <= 0xFFFF_FFFFu64 * 0xFFFF_FFFFu64) by (nonlinear_arith)
        requires
            a <= 0xFFFF_FFFFu32,
            b <= 0xFFFF_FFFFu32,
    ;
    let p: u64 = a as u64 * b as u64;
    if p > 0xFFFF_FFFF {
        0xFFFF_FFFF
    } else {
        p as u32
    }
}

impl MemoryMap {
    /// Lays out memory so that the regions of the configuration do not
    /// overlap.
    pub fn from_config(cfg: &Config) -> (r: MemoryMap)
        ensures
            r == memory_map_of(cfg.video.width, cfg.video.height, cfg.palette.global_colors),
    {
        let video_ram: u16 = 0x2000;
        let pixels = sat_mul(cfg.video.width, cfg.video.height);
        let vram_bytes: u32 = ((pixels as u64 + 1) / 2) as u32;
        let pb = sat_mul(cfg.palette.global_colors, 3);
        let palette_bytes: u32 = if pb > 0xFFFF { 0xFFFF } else { pb };
        let palette_ram = video_ram.saturating_add(#[verifier::truncate] (vram_bytes as u16));
        let palette_map = palette_ram.saturating_add(palette_bytes as u16);
        let sprite_ram = palette_map.saturating_add(16);
        let io = sprite_ram.saturating_add(0x100);
        let rom = io.saturating_add(0x100);
        MemoryMap {
            zero_page: 0,
            stack: 0x100,
            ram: 0x200,
            video_ram,
            palette_ram,
            palette_map,
            sprite_ram,
            io,
            rom,
        }
    }
}

impl Default for MemoryMap {
    fn default() -> (r: MemoryMap)
        ensures
            r == (MemoryMap {
                zero_page: 0,
                stack: 0x100,
                ram: 0x200,
                video_ram: 0x2000,
                palette_ram: 0x2C00,
                palette_map: 0x2C60,
                sprite_ram: 0x2C70,
                io: 0x3000,
                rom: 0x8000,
            }),
    {
        MemoryMap {
            zero_page: 0,
            stack: 0x100,
            ram: 0x200,
            video_ram: 0x2000,
            palette_ram: 0x2C00,
            palette_map: 0x2C60,
            sprite_ram: 0x2C70,
            io: 0x3000,
            rom: 0x8000,
        }
    }
}


impl Default for MachineConfig {
    fn default() -> (r: MachineConfig)
        ensures
            r.cpu@ == "6502"@,
            r.clock_hz == 1_000_000,
            r.refresh_hz == 50,
    {
        MachineConfig { cpu: "6502".to_owned(), clock_hz: 1_000_000, refresh_hz: 50 }
    }
}

impl Default for VideoConfig {
    fn default() -> (r: VideoConfig)
        ensures
            r.width == 256,
            r.height == 192,
            r.mode@ == "bitmap"@,
    {
        VideoConfig { width: 256, height: 192, mode: "bitmap".to_owned() }
    }
}

impl Default for PaletteConfig {
    fn default() -> (r: PaletteConfig)
        ensures
            r.global_colors == 32,
            r.sprite_palettes == 4,
            r.colors_per_sprite == 4,
    {
        PaletteConfig { global_colors: 32, sprite_palettes: 4, colors_per_sprite: 4 }
    }
}

impl Default for Config {
    fn default() -> (r: Config)
        ensures
            r.machine.refresh_hz == 50 && r.machine.clock_hz == 1_000_000,
            r.video.width == 256 && r.video.height == 192,
            r.palette.global_colors == 32,
    {
        Config { machine: MachineConfig::default(), video: VideoConfig::default(), palette: PaletteConfig::default() }
    }
}

} // verus!
