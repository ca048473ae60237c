//! The machine's build front end: system constants, generated headers,
//! and the assembly of a project's sources into build artifacts.
use vstd::prelude::*;
use vstd::string::StringSliceAdditionalSpecFns;
use crate::config::{Config, MemoryMap, memory_map_of, sat32, sat_mul};
use crate::expand::{SourceFile, LineOrigin, ExpandedAsm, IncludeError, expand_sources, expansion, flatten};
use crate::ccompiler::{NamedValue, CError, transpile_c_sources, text_of, nv, c_output};
use crate::provenance::{BuildArtifacts, BuildError, build_artifacts, merge_expanded, built_as, build_failed_as};
use crate::assembler::{assembles, image_of, lines_of};
use crate::assembler::{Symbol, lookup, table_view};
use crate::sprites::{SpritePack, SpriteImage, SpriteError, parse_spr_str, sprite_consts};
use crate::ctext::{push_text, push_bytes, push_dec, push_hex};

verus! {

/// A named hardware constant shared by both source languages.
#[derive(Clone, Copy, Debug)]
pub struct SystemConst {
    pub name: &'static str,
    pub value: u32,
    pub is_hex: bool,
}

/// The language of a new project's starter source.
#[derive(Clone, Copy, PartialEq, Eq, Structural, Debug)]
pub enum ScaffoldLanguage {
    C,
    Asm,
}

/// Register values shown by the stepper.
#[derive(Clone, Copy, PartialEq, Eq, Structural, Debug)]
pub struct DebugRegisters {
    pub pc: u16,
    pub a: u8,
    pub x: u8,
    pub y: u8,
    pub sp: u8,
    pub status: u8,
}

/// The source file and line of an address.
#[derive(Clone, Copy, PartialEq, Eq, Structural, Debug)]
pub struct DebugLine {
    pub origin: LineOrigin,
}

/// A line of authored source, with its text.
pub struct DebugSourceLine {
    pub origin: LineOrigin,
    pub text: Vec<u8>,
}

/// A line of the merged listing; `current` marks the one being executed.
pub struct DebugAsmLine {
    pub line: usize,
    pub text: Vec<u8>,
    pub current: bool,
}

/// The state after a step.
#[derive(Clone, Copy, PartialEq, Eq, Structural, Debug)]
pub struct DebugStep {
    pub regs: DebugRegisters,
    pub line: Option<DebugLine>,
    pub halted: bool,
}

/// What a run needs: the configuration, constants, program and sprites.
pub struct RunArtifacts {
    pub config: Config,
    pub sys_consts: Vec<SystemConst>,
    pub program: Vec<u8>,
    pub sprites: SpritePack,
}

/// What a built image records about itself.
pub struct BuildMeta {
    pub config: Config,
    pub entry_point: Option<u16>,
    pub labels: Vec<Symbol>,
    pub palette_bytes: Vec<u8>,
    pub sprite_base: u16,
    pub program_len: usize,
    pub sprite_images: Vec<SpriteImage>,
}

/// The paths of a project, as text.
pub struct ProjectPaths {
    pub config: Vec<u8>,
    pub asm_main: Vec<u8>,
    pub build_dir: Vec<u8>,
    pub program_bin: Vec<u8>,
    pub vram_dump: Vec<u8>,
    pub palette: Vec<u8>,
}

/// The sources of a project: assembly files (with the index of `main.asm`
/// if there is one), C files, and the sprite pack.
pub struct ProjectSources {
    pub asm_files: Vec<SourceFile>,
    pub asm_main: Option<usize>,
    pub c_files: Vec<SourceFile>,
    pub sprites: SpritePack,
}

/// Why a build failed.
#[derive(Clone, Copy, PartialEq, Eq, Structural, Debug)]
pub enum MachineError {
    Include(IncludeError),
    Compile(CError),
    Assemble(BuildError),
    /// Neither `main.asm` nor any C source exists.
    MissingMain,
    /// Too many source files to number.
    TooManyFiles,
}

/// The value of each system constant, in order.
pub open spec fn sys_values(map: MemoryMap, width: u32, height: u32) -> Seq<u32> {
    seq![
        map.video_ram as u32,
        ((sat32(width * height) + 1) / 2) as u32,
        map.palette_ram as u32,
        map.sprite_ram as u32,
        map.io as u32,
        map.io as u32,
        (map.io + 1) as u32,
        (map.io + 2) as u32,
        (map.io + 3) as u32,
        (map.io + 4) as u32,
        (map.io + 5) as u32,
        0x01u32, 0x02u32, 0x04u32, 0x08u32, 0x10u32,
        map.rom as u32,
        width,
        height
    ]
}

fn sc(name: &'static str, value: u32, is_hex: bool) -> (r: SystemConst)
    ensures
        r.name == name && r.value == value && r.is_hex == is_hex,
{
    SystemConst { name, value, is_hex }
}

/// The hardware constants of a memory map and configuration: region bases,
/// input registers and bits, and the video size.
pub fn system_constants(map: &MemoryMap, cfg: &Config) -> (r: Vec<SystemConst>)
    ensures
        r@.len() == 19,
        forall|i: int| 0 <= i < 19 ==> (#[trigger] r@[i]).value == sys_values(*map, cfg.video.width, cfg.video.height)[i],
        forall|i: int| 0 <= i < 19 ==> (#[trigger] r@[i]).is_hex == (i < 17),
{
    let pixels = sat_mul(cfg.video.width, cfg.video.height);
    let vram_bytes: u32 = ((pixels as u64 + 1) / 2) as u32;
    let io = map.io as u32;
    let v: Vec<SystemConst> = vec![
        sc("VRAM", map.video_ram as u32, true),
        sc("VRAM_SIZE", vram_bytes, true),
        sc("PALETTE", map.palette_ram as u32, true),
        sc("SPRITE_RAM", map.sprite_ram as u32, true),
        sc("IO", io, true),
        sc("IO_INPUT", io, true),
        sc("IO_LEFT", io + 1, true),
        sc("IO_RIGHT", io + 2, true),
        sc("IO_UP", io + 3, true),
        sc("IO_DOWN", io + 4, true),
        sc("IO_FIRE", io + 5, true),
        sc("INPUT_LEFT", 0x01, true),
        sc("INPUT_RIGHT", 0x02, true),
        sc("INPUT_UP", 0x04, true),
        sc("INPUT_DOWN", 0x08, true),
        sc("INPUT_FIRE", 0x10, true),
        sc("ROM", map.rom as u32, true),
        sc("VIDEO_WIDTH", cfg.video.width, false),
        sc("VIDEO_HEIGHT", cfg.video.height, false),
    ];
    v
}

/// The number of hex digits `{:04X}` prints for `v`: at least four.
pub open spec fn hex_width(v: u32) -> nat {
    if v < 0x1_0000 {
        4
    } else if v < 0x10_0000 {
        5
    } else if v < 0x100_0000 {
        6
    } else if v < 0x1000_0000 {
        7
    } else {
        8
    }
}

/// Appends `v` in upper-case hex with at least four digits.
fn push_hex_min4(out: &mut Vec<u8>, v: u32)
    ensures
        final(out)@ == old(out)@ + crate::ctext::hex_digits(v as nat, hex_width(v)),
{
    let n: u32 = if v < 0x1_0000 {
        4
    } else if v < 0x10_0000 {
        5
    } else if v < 0x100_0000 {
        6
    } else if v < 0x1000_0000 {
        7
    } else {
        8
    };
    push_hex(out, v, n);
}

/// One constant of a header: `PREFIX NAME $HEX` (or ` 0x` in C, `hex`
/// giving the marker) or `PREFIX NAME DEC`, and a newline.
pub open spec fn const_line(prefix: Seq<u8>, hex: Seq<u8>, name: Seq<u8>, value: u32, is_hex: bool) -> Seq<u8> {
    prefix + name + (if is_hex {
        hex + crate::ctext::hex_digits(value as nat, hex_width(value))
    } else {
        seq![32u8] + crate::ctext::dec_digits(value as nat)
    }) + seq![10u8]
}

/// The lines of the first `k` system constants.
pub open spec fn sys_lines(prefix: Seq<u8>, hex: Seq<u8>, sys: Seq<SystemConst>, k: int) -> Seq<u8>
    decreases k,
{
    if k <= 0 {
        Seq::empty()
    } else {
        sys_lines(prefix, hex, sys, k - 1) + const_line(prefix, hex, sys[k - 1].name.spec_bytes(), sys[k - 1].value, sys[k - 1].is_hex)
    }
}

/// The lines of the first `k` sprite indices.
pub open spec fn sprite_lines(prefix: Seq<u8>, sprite: Seq<(Vec<u8>, u32)>, k: int) -> Seq<u8>
    decreases k,
{
    if k <= 0 {
        Seq::empty()
    } else {
        sprite_lines(prefix, sprite, k - 1) + const_line(prefix, Seq::empty(), sprite[k - 1].0@, sprite[k - 1].1, false)
    }
}

fn push_const_line(out: &mut Vec<u8>, prefix: &str, hex: &str, name: &[u8], value: u32, is_hex: bool)
    ensures
        final(out)@ == old(out)@ + const_line(prefix.spec_bytes(), hex.spec_bytes(), name@, value, is_hex),
{
    push_text(out, prefix);
    push_bytes(out, name);
    if is_hex {
        push_text(out, hex);
        push_hex_min4(out, value);
    } else {
        out.push(32);
        push_dec(out, value as usize);
    }
    out.push(10);
    assert(out@ =~= old(out)@ + const_line(prefix.spec_bytes(), hex.spec_bytes(), name@, value, is_hex));
}

/// Appends one line per system constant and, if there are sprites, a
/// heading and one line per sprite index.
fn push_const_lines(out: &mut Vec<u8>, prefix: &str, hex: &str, heading: &str, sys: &Vec<SystemConst>, sprite: &Vec<(Vec<u8>, u32)>)
    ensures
        final(out)@ == old(out)@ + sys_lines(prefix.spec_bytes(), hex.spec_bytes(), sys@, sys@.len() as int) + (if sprite@.len()
            > 0 {
            heading.spec_bytes() + sprite_lines(prefix.spec_bytes(), sprite@, sprite@.len() as int)
        } else {
            Seq::empty()
        }),
{
    let ghost start = out@;
    let mut i: usize = 0;
    while i < sys.len()
        invariant
            i <= sys@.len(),
            out@ == start + sys_lines(prefix.spec_bytes(), hex.spec_bytes(), sys@, i as int),
        decreases sys@.len() - i,
    {
        push_const_line(out, prefix, hex, sys[i].name.as_bytes(), sys[i].value, sys[i].is_hex);
        i = i + 1;
        assert(out@ =~= start + sys_lines(prefix.spec_bytes(), hex.spec_bytes(), sys@, i as int));
    }
    let ghost mid = out@;
    if sprite.len() > 0 {
        push_text(out, heading);
        let ghost head = out@;
        let mut j: usize = 0;
        while j < sprite.len()
            invariant
                j <= sprite@.len(),
                out@ == head + sprite_lines(prefix.spec_bytes(), sprite@, j as int),
            decreases sprite@.len() - j,
        {
            push_const_line(out, prefix, "", sprite[j].0.as_slice(), sprite[j].1, false);
            j = j + 1;
            assert(out@ =~= head + sprite_lines(prefix.spec_bytes(), sprite@, j as int));
        }
        assert(out@ =~= mid + (heading.spec_bytes() + sprite_lines(prefix.spec_bytes(), sprite@, sprite@.len() as int)));
    } else {
        assert(out@ =~= mid + Seq::<u8>::empty());
    }
}

/// The system constants as (name, value) pairs, values kept to 16 bits.
pub open spec fn sys_pairs(sys: Seq<SystemConst>) -> Seq<(Seq<u8>, u16)> {
    Seq::new(sys.len(), |i: int| (sys[i].name.spec_bytes(), (sys[i].value % 0x10000) as u16))
}

/// The sprite index constants as (name, value) pairs.
pub open spec fn sprite_pairs(images: Seq<SpriteImage>) -> Seq<(Seq<u8>, u16)> {
    Seq::new(images.len(), |i: int| (crate::sprites::const_name(images[i].name@), ((images[i].index as u32) % 0x10000) as u16))
}

/// The table of constants both compilers see: the system constants, then
/// the sprite indices.
pub fn const_table(sys: &Vec<SystemConst>, sprite: &Vec<(Vec<u8>, u32)>) -> (r: Vec<NamedValue>)
    ensures
        r@.len() == sys@.len() + sprite@.len(),
        nv(r@) == sys_pairs(sys@) + Seq::new(sprite@.len(), |k: int| (sprite@[k].0@, (sprite@[k].1 % 0x10000) as u16)),
{
    let mut out: Vec<NamedValue> = Vec::new();
    let mut i: usize = 0;
    while i < sys.len()
        invariant
            i <= sys@.len(),
            out@.len() == i,
            nv(out@) == sys_pairs(sys@).subrange(0, i as int),
        decreases sys@.len() - i,
    {
        let ghost o0 = nv(out@);
        out.push(NamedValue { name: text_of(sys[i].name), value: (sys[i].value % 0x10000) as u16 });
        i = i + 1;
        assert(nv(out@) =~= sys_pairs(sys@).subrange(0, i as int)) by {
            assert(nv(out@) =~= o0.push(sys_pairs(sys@)[i - 1]));
        }
    }
    let mut j: usize = 0;
    while j < sprite.len()
        invariant
            j <= sprite@.len(),
            out@.len() == sys@.len() + j,
            nv(out@) == sys_pairs(sys@) + Seq::new(j as nat, |k: int| (sprite@[k].0@, (sprite@[k].1 % 0x10000) as u16)),
        decreases sprite@.len() - j,
    {
        let n = crate::text::copy_range(sprite[j].0.as_slice(), 0, sprite[j].0.len());
        assert(n@ =~= sprite@[j as int].0@);
        let ghost o0 = nv(out@);
        let ghost v = (sprite@[j as int].1 % 0x10000) as u16;
        out.push(NamedValue { name: n, value: (sprite[j].1 % 0x10000) as u16 });
        assert(nv(out@) =~= o0.push((sprite@[j as int].0@, v)));
        j = j + 1;
        assert(nv(out@) =~= sys_pairs(sys@) + Seq::new(j as nat, |k: int| (sprite@[k].0@, (sprite@[k].1 % 0x10000) as u16)));
    }
    if sys.len() == sys.len() {
        assert(sys_pairs(sys@).subrange(0, sys@.len() as int) =~= sys_pairs(sys@));
    }
    out
}

/// The assembly header: a comment, then a `.const` line per system
/// constant and sprite index.
pub fn asm_header(sys: &Vec<SystemConst>, sprite: &Vec<(Vec<u8>, u32)>) -> (r: Vec<u8>)
    ensures
        r@ == "; chipcade system constants. Do not edit.\n; System constants\n".spec_bytes() + sys_lines(
            ".const ".spec_bytes(),
            " $".spec_bytes(),
            sys@,
            sys@.len() as int,
        ) + (if sprite@.len() > 0 {
            "\n; Sprite indices\n".spec_bytes() + sprite_lines(".const ".spec_bytes(), sprite@, sprite@.len() as int)
        } else {
            Seq::empty()
        }),
{
    let mut inc: Vec<u8> = Vec::new();
    push_text(&mut inc, "; chipcade system constants. Do not edit.\n; System constants\n");
    push_const_lines(&mut inc, ".const ", " $", "\n; Sprite indices\n", sys, sprite);
    assert(inc@ =~= "; chipcade system constants. Do not edit.\n; System constants\n".spec_bytes() + sys_lines(
        ".const ".spec_bytes(), " $".spec_bytes(), sys@, sys@.len() as int) + (if sprite@.len() > 0 {
        "\n; Sprite indices\n".spec_bytes() + sprite_lines(".const ".spec_bytes(), sprite@, sprite@.len() as int)
    } else {
        Seq::empty()
    }));
    inc
}

/// The text of the C header before its constants.
pub open spec fn c_prelude() -> Seq<u8> {
    "/* chipcade system constants. Do not edit. */\n#ifndef CHIPCADE_H\n#define CHIPCADE_H\n\n/* Pseudo memory views for editor/highlighter compatibility. */\nextern unsigned char mem[];\nextern unsigned char data[];\n\n/* Raw sprite attribute bytes (maps to SPRITE_RAM + i). */\nextern unsigned char sprite_data[];\n\ntypedef struct {\n    unsigned char x;\n    unsigned char y;\n    unsigned char tile;\n    unsigned char flags;\n    unsigned char c0;\n    unsigned char c1;\n    unsigned char c2;\n    unsigned char reserved;\n} ChipSprite;\nextern ChipSprite sprite[];\n\n/* System constants */\n".spec_bytes()
}

/// The C header: memory views, the sprite record type, and a `#define`
/// per system constant and sprite index.
pub fn c_header(sys: &Vec<SystemConst>, sprite: &Vec<(Vec<u8>, u32)>) -> (r: Vec<u8>)
    ensures
        r@ == c_prelude() + sys_lines("#define ".spec_bytes(), " 0x".spec_bytes(), sys@, sys@.len() as int) + (if sprite@.len()
            > 0 {
            "\n/* Sprite indices */\n".spec_bytes() + sprite_lines("#define ".spec_bytes(), sprite@, sprite@.len() as int)
        } else {
            Seq::empty()
        }) + "\n#endif /* CHIPCADE_H */\n".spec_bytes(),
{
    let mut h: Vec<u8> = Vec::new();
    push_text(&mut h, "/* chipcade system constants. Do not edit. */\n#ifndef CHIPCADE_H\n#define CHIPCADE_H\n\n/* Pseudo memory views for editor/highlighter compatibility. */\nextern unsigned char mem[];\nextern unsigned char data[];\n\n/* Raw sprite attribute bytes (maps to SPRITE_RAM + i). */\nextern unsigned char sprite_data[];\n\ntypedef struct {\n    unsigned char x;\n    unsigned char y;\n    unsigned char tile;\n    unsigned char flags;\n    unsigned char c0;\n    unsigned char c1;\n    unsigned char c2;\n    unsigned char reserved;\n} ChipSprite;\nextern ChipSprite sprite[];\n\n/* System constants */\n");
    push_const_lines(&mut h, "#define ", " 0x", "\n/* Sprite indices */\n", sys, sprite);
    push_text(&mut h, "\n#endif /* CHIPCADE_H */\n");
    assert(h@ =~= c_prelude() + sys_lines("#define ".spec_bytes(), " 0x".spec_bytes(), sys@, sys@.len() as int) + (if sprite@.len()
        > 0 {
        "\n/* Sprite indices */\n".spec_bytes() + sprite_lines("#define ".spec_bytes(), sprite@, sprite@.len() as int)
    } else {
        Seq::empty()
    }) + "\n#endif /* CHIPCADE_H */\n".spec_bytes());
    h
}

/// A directory path ending in `/` (an empty path stays empty).
pub open spec fn with_slash(root: Seq<u8>) -> Seq<u8> {
    if root.len() > 0 && root.last() != 47 {
        root.push(47)
    } else {
        root
    }
}

impl ProjectPaths {
    /// The paths of a project at `root`: sources live in `src/` unless only
    /// a legacy `asm/` directory exists.
    pub fn new(root: &[u8], src_exists: bool, legacy_asm_exists: bool) -> (r: ProjectPaths)
        ensures
            r.config@ == with_slash(root@) + "chipcade.toml".spec_bytes(),
            r.asm_main@ == with_slash(root@) + (if src_exists || !legacy_asm_exists {
                "src/main.asm".spec_bytes()
            } else {
                "asm/main.asm".spec_bytes()
            }),
            r.build_dir@ == with_slash(root@) + "build".spec_bytes(),
            r.program_bin@ == with_slash(root@) + "build/program.bin".spec_bytes(),
            r.vram_dump@ == with_slash(root@) + "build/vram_dump.png".spec_bytes(),
            r.palette@ == with_slash(root@) + "assets/palettes/default.pal".spec_bytes(),
    {
        let mut base = crate::text::copy_range(root, 0, root.len());
        assert(base@ =~= root@);
        if base.len() > 0 && base[base.len() - 1] != 47 {
            base.push(47);
        }
        assert(base@ == with_slash(root@));
        let dir = if src_exists || !legacy_asm_exists { "src/main.asm" } else { "asm/main.asm" };
        let mut config = crate::text::copy_range(base.as_slice(), 0, base.len());
        push_text(&mut config, "chipcade.toml");
        let mut asm_main = crate::text::copy_range(base.as_slice(), 0, base.len());
        push_text(&mut asm_main, dir);
        let mut build_dir = crate::text::copy_range(base.as_slice(), 0, base.len());
        push_text(&mut build_dir, "build");
        let mut program_bin = crate::text::copy_range(base.as_slice(), 0, base.len());
        push_text(&mut program_bin, "build/program.bin");
        let mut vram_dump = crate::text::copy_range(base.as_slice(), 0, base.len());
        push_text(&mut vram_dump, "build/vram_dump.png");
        let mut palette = base;
        push_text(&mut palette, "assets/palettes/default.pal");
        ProjectPaths { config, asm_main, build_dir, program_bin, vram_dump, palette }
    }
}

/// A configured machine: its memory map, constants, and frame timing.
pub struct Machine {
    pub config: Config,
    pub mem_map: MemoryMap,
    pub sys_consts: Vec<SystemConst>,
    pub palette_bytes: Option<Vec<u8>>,
    /// The time of the last tick in nanoseconds, if any.
    pub last_tick: Option<u64>,
    /// Time accumulated toward the next tick, in nanoseconds.
    pub tick_accum: u64,
}

/// The tick interval in nanoseconds at a refresh rate (at least 1 Hz).
pub open spec fn interval_of(hz: u32) -> u64 {
    (1_000_000_000u64 / (if hz == 0 { 1u64 } else { hz as u64 })) as u64
}

impl Machine {
    pub open spec fn wf(&self) -> bool {
        self.mem_map == memory_map_of(self.config.video.width, self.config.video.height, self.config.palette.global_colors)
    }

    /// A machine for a configuration.
    pub fn new(config: Config) -> (r: Machine)
        ensures
            r.wf(),
            r.config == config,
            r.last_tick is None,
            r.sys_consts@.len() == 19,
    {
        let mem_map = MemoryMap::from_config(&config);
        let sys_consts = system_constants(&mem_map, &config);
        Machine { config, mem_map, sys_consts, palette_bytes: None, last_tick: None, tick_accum: 0 }
    }

    /// A machine for the configuration recorded in a built image.
    pub fn from_build_meta(meta: BuildMeta) -> (r: Machine)
        ensures
            r.wf(),
            r.config == meta.config,
            r.last_tick is None,
            r.palette_bytes matches Some(p) && p@ == meta.palette_bytes@,
    {
        let mem_map = MemoryMap::from_config(&meta.config);
        let sys_consts = system_constants(&mem_map, &meta.config);
        Machine { config: meta.config, mem_map, sys_consts, palette_bytes: Some(meta.palette_bytes), last_tick: None, tick_accum: 0 }
    }

    /// Where execution starts: the entry point, or the start of RAM.
    pub fn entry_address(&self, entry_point: Option<u16>) -> (r: u16)
        ensures
            r == (match entry_point { Some(e) => e, None => self.mem_map.ram }),
    {
        match entry_point {
            Some(e) => e,
            None => self.mem_map.ram,
        }
    }

    pub fn config(&self) -> (r: &Config)
        ensures
            r == &self.config,
    {
        &self.config
    }

    /// The address of a label in a label table.
    pub fn label_address(labels: &Vec<Symbol>, name: &[u8]) -> (r: Option<u16>)
        ensures
            r == lookup(table_view(labels@), name@),
    {
        let mut i: usize = 0;
        while i < labels.len()
            invariant
                i <= labels@.len(),
                lookup(table_view(labels@), name@) == crate::assembler::lookup_from(table_view(labels@), name@, i as int),
            decreases labels@.len() - i,
        {
            let n = &labels[i].name;
            let same = crate::text::range_eq(n.as_slice(), 0, n.len(), name);
            assert(n@.subrange(0, n@.len() as int) =~= n@);
            if same {
                return Some(labels[i].value);
            }
            i = i + 1;
        }
        None
    }

    /// Whether a frame is due at time `now` (nanoseconds): the first call
    /// ticks; later calls add the elapsed time (capped at five intervals)
    /// and tick once a whole interval has built up.
    pub fn should_tick(&mut self, now: u64) -> (r: bool)
        ensures
            final(self).last_tick == Some(now),
            old(self).last_tick is None ==> r && final(self).tick_accum == 0,
            old(self).last_tick matches Some(last) ==> {
                let elapsed = if now >= last { now - last } else { 0 };
                let cap = interval_of(old(self).config.machine.refresh_hz) * 5;
                let acc = if old(self).tick_accum + elapsed > cap { cap } else { old(self).tick_accum + elapsed };
                r == (acc >= interval_of(old(self).config.machine.refresh_hz))
                    && final(self).tick_accum == (if r { acc - interval_of(old(self).config.machine.refresh_hz) } else { acc })
            },
    {
        let hz: u64 = if self.config.machine.refresh_hz == 0 { 1 } else { self.config.machine.refresh_hz as u64 };
        let interval: u64 = 1_000_000_000u64 / hz;
        match self.last_tick {
            None => {
                self.last_tick = Some(now);
                self.tick_accum = 0;
                true
            },
            Some(last) => {
                let elapsed = if now >= last { now - last } else { 0 };
                let cap = interval * 5;
                let sum: u128 = self.tick_accum as u128 + elapsed as u128;
                let acc: u64 = if sum > cap as u128 { cap } else { sum as u64 };
                self.last_tick = Some(now);
                if acc >= interval {
                    self.tick_accum = acc - interval;
                    true
                } else {
                    self.tick_accum = acc;
                    false
                }
            },
        }
    }

    pub fn video_size(&self) -> (r: (u32, u32))
        ensures
            r == (self.config.video.width, self.config.video.height),
    {
        (self.config.video.width, self.config.video.height)
    }

    /// Checks a sprite source.
    pub fn validate_sprite(&self, name: &[u8], content: &[u8]) -> (r: Result<(), SpriteError>)
    {
        match parse_spr_str(name, content) {
            Ok(_) => Ok(()),
            Err(e) => Err(e),
        }
    }
}


/// Renumbers the files of C output to follow `shift` assembly files.
/// Whether every origin can be renumbered by `shift`.
pub open spec fn shift_fits(lm: Seq<LineOrigin>, shift: usize) -> bool {
    forall|i: int| 0 <= i < lm.len() ==> (#[trigger] lm[i]).file <= usize::MAX - shift
}

/// Origins renumbered to follow `shift` other files.
pub open spec fn shifted(lm: Seq<LineOrigin>, shift: usize) -> Seq<LineOrigin> {
    Seq::new(lm.len(), |i: int| LineOrigin { file: (lm[i].file + shift) as usize, line: lm[i].line })
}

fn shift_files(x: ExpandedAsm, shift: usize) -> (r: Result<ExpandedAsm, MachineError>)
    ensures
        r matches Ok(y) ==> y.bytes@ == x.bytes@ && y.line_map@ == shifted(x.line_map@, shift),
        r is Ok <==> shift_fits(x.line_map@, shift),
        r matches Err(e) ==> e == MachineError::TooManyFiles,
{
    let mut map: Vec<LineOrigin> = Vec::new();
    let mut i: usize = 0;
    while i < x.line_map.len()
        invariant
            i <= x.line_map@.len(),
            map@.len() == i,
            map@ == shifted(x.line_map@.subrange(0, i as int), shift),
            forall|k: int| 0 <= k < i ==> (#[trigger] x.line_map@[k]).file <= usize::MAX - shift,
        decreases x.line_map@.len() - i,
    {
        let o = x.line_map[i];
        if o.file > usize::MAX - shift {
            return Err(MachineError::TooManyFiles);
        }
        map.push(LineOrigin { file: o.file + shift, line: o.line });
        i = i + 1;
        assert(map@ =~= shifted(x.line_map@.subrange(0, i as int), shift));
    }
    assert(x.line_map@.subrange(0, x.line_map@.len() as int) =~= x.line_map@);
    Ok(ExpandedAsm { bytes: x.bytes, line_map: map })
}

/// What a project's sources come to before assembly: merged text with its
/// origins, or the error that stops the build first.
pub enum PreBuild {
    Text(Seq<u8>, Seq<LineOrigin>),
    Fails(MachineError),
    /// The C sources do not compile.
    CompileFails,
}

/// Merged text of two units, as `merge_expanded` joins them.
pub open spec fn merge_spec(ab: Seq<u8>, am: Seq<LineOrigin>, bb: Seq<u8>, bm: Seq<LineOrigin>) -> (Seq<u8>, Seq<LineOrigin>) {
    if crate::provenance::ends_with_newline(ab) {
        (ab + bb, am + bm)
    } else {
        (ab.push(10) + bb, am.push(if am.len() > 0 { am.last() } else { LineOrigin { file: 0, line: 1 } }) + bm)
    }
}

/// The expanded `main.asm`, if there is one.
pub open spec fn asm_part(asm_files: Seq<SourceFile>, asm_main: Option<usize>) -> Option<Result<(Seq<u8>, Seq<LineOrigin>), MachineError>> {
    match asm_main {
        None => None,
        Some(m) => if m >= asm_files.len() {
            Some(Err(MachineError::MissingMain))
        } else {
            match expansion(asm_files, m as int) {
                Err(e) => Some(Err(MachineError::Include(e))),
                Ok(x) => Some(Ok((flatten(x.0), x.1))),
            }
        },
    }
}

/// A project's text before assembly: the C output (its files numbered
/// after the assembly files) appended to the expanded `main.asm`.
pub open spec fn pre_build(asm_files: Seq<SourceFile>, asm_main: Option<usize>, c_files: Seq<SourceFile>, consts: Seq<(Seq<u8>, u16)>) -> PreBuild {
    let a = asm_files.len() as usize;
    let main_part = asm_part(asm_files, asm_main);
    if c_files.len() > 0 {
        match c_output(c_files, consts) {
            None => PreBuild::CompileFails,
            Some((t, o)) => if !shift_fits(o, a) {
                PreBuild::Fails(MachineError::TooManyFiles)
            } else {
                let cb = flatten(t);
                let cm = shifted(o, a);
                match main_part {
                    None => PreBuild::Text(cb, cm),
                    Some(Err(e)) => PreBuild::Fails(e),
                    Some(Ok((ab, am))) => PreBuild::Text(merge_spec(ab, am, cb, cm).0, merge_spec(ab, am, cb, cm).1),
                }
            },
        }
    } else {
        match main_part {
            None => PreBuild::Fails(MachineError::MissingMain),
            Some(Err(e)) => PreBuild::Fails(e),
            Some(Ok((ab, am))) => PreBuild::Text(ab, am),
        }
    }
}

/// The result of assembling merged text `bytes` with origins `lm`.
pub open spec fn build_result(r: Result<BuildArtifacts, MachineError>, bytes: Seq<u8>, lm: Seq<LineOrigin>, origin: u16) -> bool {
    &&& (r is Ok <==> assembles(bytes, origin))
    &&& (r matches Ok(a) ==> built_as(a, bytes, lm, origin))
    &&& (r is Err ==> (r matches Err(MachineError::Assemble(b)) && build_failed_as(b, bytes, lm, origin)))
}

impl Machine {
    /// Builds a project's sources at the start of RAM: C sources are
    /// compiled and appended after the expanded `main.asm` (their files are
    /// numbered after the assembly files), then the merged text is
    /// assembled and its provenance composed.
    pub fn assemble(&self, sources: &ProjectSources) -> (r: Result<BuildArtifacts, MachineError>)
        ensures
            match pre_build(sources.asm_files@, sources.asm_main, sources.c_files@, sys_pairs(self.sys_consts@) + sprite_pairs(
                sources.sprites.images@,
            )) {
                PreBuild::CompileFails => r matches Err(MachineError::Compile(_)),
                PreBuild::Fails(e) => r == Err::<BuildArtifacts, MachineError>(e),
                PreBuild::Text(b, lm) => build_result(r, b, lm, self.mem_map.ram),
            },
            sources.c_files@.len() == 0 ==> match sources.asm_main {
                None => r == Err::<BuildArtifacts, MachineError>(MachineError::MissingMain),
                Some(m) => m < sources.asm_files@.len() ==> match expansion(sources.asm_files@, m as int) {
                    Err(e) => r == Err::<BuildArtifacts, MachineError>(MachineError::Include(e)),
                    Ok(x) => (r is Ok <==> assembles(flatten(x.0), self.mem_map.ram)) && (r matches Ok(a) ==> built_as(
                        a,
                        flatten(x.0),
                        x.1,
                        self.mem_map.ram,
                    )) && (r matches Err(MachineError::Assemble(b)) ==> build_failed_as(b, flatten(x.0), x.1, self.mem_map.ram)),
                },
            },
            r matches Ok(a) ==> exists|bytes: Seq<u8>, lm: Seq<LineOrigin>| assembles(bytes, self.mem_map.ram) && built_as(
                a,
                bytes,
                lm,
                self.mem_map.ram,
            ),
            r matches Err(MachineError::Assemble(b)) ==> exists|bytes: Seq<u8>, lm: Seq<LineOrigin>| !assembles(
                bytes,
                self.mem_map.ram,
            ) && build_failed_as(b, bytes, lm, self.mem_map.ram),
    {
        let sc = sprite_consts(&sources.sprites.images);
        let consts = const_table(&self.sys_consts, &sc);
        assert(nv(consts@) =~= sys_pairs(self.sys_consts@) + sprite_pairs(sources.sprites.images@)) by {
            assert(Seq::new(sc@.len(), |k: int| (sc@[k].0@, (sc@[k].1 % 0x10000) as u16)) =~= sprite_pairs(sources.sprites.images@));
        }
        let alen = sources.asm_files.len();
        let expanded = if sources.c_files.len() > 0 {
            let c = match transpile_c_sources(&sources.c_files, &consts) {
                Ok(c) => c,
                Err(e) => {
                    return Err(MachineError::Compile(e));
                },
            };
            let c = match shift_files(c, sources.asm_files.len()) {
                Ok(c) => c,
                Err(e) => {
                    return Err(e);
                },
            };
            match sources.asm_main {
                Some(m) => {
                    if m >= sources.asm_files.len() {
                        return Err(MachineError::MissingMain);
                    }
                    match expand_sources(&sources.asm_files, m) {
                        Ok(a) => merge_expanded(a, c),
                        Err(e) => {
                            return Err(MachineError::Include(e));
                        },
                    }
                },
                None => c,
            }
        } else {
            match sources.asm_main {
                Some(m) => {
                    if m >= sources.asm_files.len() {
                        return Err(MachineError::MissingMain);
                    }
                    match expand_sources(&sources.asm_files, m) {
                        Ok(a) => a,
                        Err(e) => {
                            return Err(MachineError::Include(e));
                        },
                    }
                },
                None => {
                    return Err(MachineError::MissingMain);
                },
            }
        };
        let ghost eb = expanded.bytes@;
        let ghost el = expanded.line_map@;
        match build_artifacts(expanded, self.mem_map.ram) {
            Ok(a) => {
                assert(assembles(eb, self.mem_map.ram) && built_as(a, eb, el, self.mem_map.ram));
                Ok(a)
            },
            Err(e) => {
                assert(!assembles(eb, self.mem_map.ram) && build_failed_as(e, eb, el, self.mem_map.ram));
                Err(MachineError::Assemble(e))
            },
        }
    }
}


pub open spec fn lower_ascii(c: u8) -> u8 {
    if 65 <= c && c <= 90 {
        (c + 32) as u8
    } else {
        c
    }
}

fn lower_byte(c: u8) -> (r: u8)
    ensures
        r == lower_ascii(c),
{
    if 65 <= c && c <= 90 { c + 32 } else { c }
}

/// The last `.` of a file name that starts at `name_start`, searching
/// below `i`; a dot that begins the name does not count. The path's length
/// where there is none.
pub open spec fn ext_dot(p: Seq<u8>, i: int, name_start: int) -> int
    decreases i - name_start,
{
    if i - name_start <= 1 {
        p.len() as int
    } else if p[i - 1] == 46 {
        i - 1
    } else {
        ext_dot(p, i - 1, name_start)
    }
}

/// The extension of a path's file name, in lower case.
pub open spec fn extension(p: Seq<u8>) -> Option<Seq<u8>> {
    let d = ext_dot(p, p.len() as int, crate::expand::dir_end(p, p.len() as int));
    if d >= p.len() {
        None
    } else {
        Some(Seq::new((p.len() - d - 1) as nat, |k: int| lower_ascii(p[d + 1 + k])))
    }
}

/// Whether a path names an assembly source: its extension is `asm`, `inc`
/// or `h`, in any case.
pub fn is_asm_source(path: &[u8]) -> (r: bool)
    ensures
        r == (extension(path@) matches Some(e) && (e == "asm".spec_bytes() || e == "inc".spec_bytes()
            || e == "h".spec_bytes())),
{
    let mut name_start: usize = path.len();
    while name_start > 0 && path[name_start - 1] != 47
        invariant
            name_start <= path@.len(),
            crate::expand::dir_end(path@, path@.len() as int) == crate::expand::dir_end(path@, name_start as int),
        decreases name_start,
    {
        name_start = name_start - 1;
    }
    let ghost ns = name_start as int;
    assert(crate::expand::dir_end(path@, name_start as int) == name_start);
    let mut dot: usize = path.len();
    let mut i: usize = path.len();
    while i - name_start > 1
        invariant_except_break
            dot == path@.len(),
        invariant
            ns == name_start as int,
            name_start <= i <= path@.len(),
            ext_dot(path@, path@.len() as int, ns) == ext_dot(path@, i as int, ns),
        ensures
            dot == ext_dot(path@, path@.len() as int, ns),
        decreases i,
    {
        if path[i - 1] == 46 {
            dot = i - 1;
            break;
        }
        i = i - 1;
    }
    if dot >= path.len() {
        return false;
    }
    let mut ext: Vec<u8> = Vec::new();
    let mut k: usize = dot + 1;
    while k < path.len()
        invariant
            dot < k <= path@.len(),
            ext@ == Seq::new((k - dot - 1) as nat, |m: int| lower_ascii(path@[dot + 1 + m])),
        decreases path@.len() - k,
    {
        ext.push(lower_byte(path[k]));
        k = k + 1;
        assert(ext@ =~= Seq::new((k - dot - 1) as nat, |m: int| lower_ascii(path@[dot + 1 + m])));
    }
    crate::cparse::same_text(ext.as_slice(), "asm") || crate::cparse::same_text(ext.as_slice(), "inc")
        || crate::cparse::same_text(ext.as_slice(), "h")
}

/// Why an in-memory source did not validate, and the line it concerns
/// where one is known.
pub struct AsmValidationError {
    pub origin: Option<LineOrigin>,
    pub error: MachineError,
}

/// Whether some `.include` line of a text names `chipcade.inc`.
/// `chipcade.inc`, as bytes.
pub open spec fn header_name() -> Seq<u8> {
    seq![99u8, 104u8, 105u8, 112u8, 99u8, 97u8, 100u8, 101u8, 46u8, 105u8, 110u8, 99u8]
}

/// An `.include` line naming `chipcade.inc`.
pub open spec fn header_line(l: Seq<u8>) -> bool {
    let t = crate::cparse::trimmed(l);
    let p = ".include".spec_bytes();
    crate::cparse::has_prefix(t, p) && crate::cparse::occurs(t.subrange(p.len() as int, t.len() as int), header_name())
}

/// Whether a source includes the header itself.
pub open spec fn names_header(text: Seq<u8>) -> bool {
    exists|i: int| 0 <= i < lines_of(text).len() && header_line(#[trigger] lines_of(text)[i])
}

fn includes_header(text: &[u8]) -> (r: bool)
    ensures
        r == names_header(text@),
{
    let lines = crate::assembler::split_lines(text);
    let ghost ls = crate::assembler::deep_view(lines@);
    let needle: [u8; 12] = [99, 104, 105, 112, 99, 97, 100, 101, 46, 105, 110, 99];
    assert(needle@ =~= header_name());
    let mut i: usize = 0;
    while i < lines.len()
        invariant
            i <= lines@.len(),
            ls == crate::assembler::deep_view(lines@),
            ls == lines_of(text@),
            needle@ == header_name(),
            forall|k: int| 0 <= k < i ==> !header_line(#[trigger] ls[k]),
        decreases lines@.len() - i,
    {
        assert(lines@[i as int]@ == ls[i as int]);
        let t = crate::cparse::trim_all(lines[i].as_slice());
        match crate::cparse::strip_prefix(t.as_slice(), ".include") {
            Some(rest) => {
                match crate::cparse::find_text(rest.as_slice(), needle.as_slice()) {
                    Some(k) => {
                        assert(header_line(ls[i as int]));
                        return true;
                    },
                    None => {
                        assert(!crate::cparse::occurs(rest@, header_name()));
                    },
                }
            },
            None => {},
        }
        i = i + 1;
    }
    false
}

fn copy_files(files: &Vec<SourceFile>) -> (r: Vec<SourceFile>)
    ensures
        r@.len() == files@.len(),
        forall|i: int| 0 <= i < r@.len() ==> (#[trigger] r@[i]).path@ == files@[i].path@ && r@[i].text@ == files@[i].text@,
{
    let mut r: Vec<SourceFile> = Vec::new();
    let mut i: usize = 0;
    while i < files.len()
        invariant
            i <= files@.len(),
            r@.len() == i,
            forall|k: int| 0 <= k < i ==> (#[trigger] r@[k]).path@ == files@[k].path@ && r@[k].text@ == files@[k].text@,
        decreases files@.len() - i,
    {
        let p = crate::text::copy_range(files[i].path.as_slice(), 0, files[i].path.len());
        let t = crate::text::copy_range(files[i].text.as_slice(), 0, files[i].text.len());
        assert(p@ =~= files@[i as int].path@);
        assert(t@ =~= files@[i as int].text@);
        r.push(SourceFile { path: p, text: t });
        i = i + 1;
    }
    r
}

/// The file name of a path: what follows its last `/`.
pub open spec fn base_name(p: Seq<u8>) -> Seq<u8> {
    p.subrange(crate::expand::dir_end(p, p.len() as int), p.len() as int)
}

/// The directory part of a path, with its final `/`.
pub open spec fn dir_name(p: Seq<u8>) -> Seq<u8> {
    p.subrange(0, crate::expand::dir_end(p, p.len() as int))
}

/// The path of the stand-in file that validation expands: in the checked
/// file's directory, under a name no include can spell.
pub open spec fn wrapper_path(p: Seq<u8>) -> Seq<u8> {
    dir_name(p) + seq![34u8]
}

/// The stand-in file: the header include (where asked for), then an
/// include of the checked file, so that its lines keep their own numbers.
pub open spec fn wrapper_text(p: Seq<u8>, header: bool) -> Seq<u8> {
    (if header { ".include \"include/chipcade.inc\"\n".spec_bytes() } else { Seq::empty() })
        + ".include \"".spec_bytes() + base_name(p) + seq![34u8, 10u8]
}

/// `work` is `files` with the stand-in file for `files[target]` added last.
pub open spec fn with_wrapper(files: Seq<SourceFile>, target: int, work: Seq<SourceFile>) -> bool {
    &&& work.len() == files.len() + 1
    &&& forall|i: int| 0 <= i < files.len() ==> (#[trigger] work[i]).path@ == files[i].path@ && work[i].text@ == files[i].text@
    &&& work.last().path@ == wrapper_path(files[target].path@)
    &&& work.last().text@ == wrapper_text(files[target].path@, !names_header(files[target].text@))
}

fn split_path(p: &[u8]) -> (r: usize)
    ensures
        r as int == crate::expand::dir_end(p@, p@.len() as int),
        r <= p@.len(),
{
    let mut i: usize = p.len();
    while i > 0 && p[i - 1] != 47
        invariant
            i <= p@.len(),
            crate::expand::dir_end(p@, p@.len() as int) == crate::expand::dir_end(p@, i as int),
        decreases i,
    {
        i = i - 1;
    }
    i
}

impl Machine {
    /// Checks an unsaved source, `files[target]`, by expanding and
    /// assembling it through a stand-in file that includes the header
    /// (unless the source includes `chipcade.inc` itself) and then the
    /// source. Lines of the source keep their own numbers; an assembly error
    /// carries the file and line it came from.
    pub fn validate_asm(&self, files: &Vec<SourceFile>, target: usize) -> (r: Result<(), AsmValidationError>)
        requires
            target < files@.len(),
        ensures
            exists|work: Seq<SourceFile>| {
                &&& with_wrapper(files@, target as int, work)
                &&& match expansion(work, files@.len() as int) {
                    Err(e) => r == Err::<(), AsmValidationError>(
                        AsmValidationError { origin: None, error: MachineError::Include(e) },
                    ),
                    Ok(x) => (r is Ok <==> assembles(flatten(x.0), self.mem_map.ram)) && (r matches Err(e) ==> (
                    e.error matches MachineError::Assemble(b) && e.origin == b.origin && build_failed_as(
                        b,
                        flatten(x.0),
                        x.1,
                        self.mem_map.ram,
                    ))),
                }
            },
    {
        let mut work = copy_files(files);
        let path = &files[target].path;
        let d = split_path(path.as_slice());
        let mut wp = crate::text::copy_range(path.as_slice(), 0, d);
        wp.push(34);
        let header = !includes_header(files[target].text.as_slice());
        let mut wt: Vec<u8> = Vec::new();
        if header {
            push_text(&mut wt, ".include \"include/chipcade.inc\"\n");
        }
        push_text(&mut wt, ".include \"");
        let base = crate::text::copy_range(path.as_slice(), d, path.len());
        push_bytes(&mut wt, base.as_slice());
        wt.push(34);
        wt.push(10);
        assert(wp@ =~= wrapper_path(files@[target as int].path@));
        assert(wt@ =~= wrapper_text(files@[target as int].path@, header));
        work.push(SourceFile { path: wp, text: wt });
        let ghost w = work@;
        assert(with_wrapper(files@, target as int, w));
        let n = files.len();
        let expanded = match expand_sources(&work, n) {
            Ok(x) => x,
            Err(e) => {
                return Err(AsmValidationError { origin: None, error: MachineError::Include(e) });
            },
        };
        match build_artifacts(expanded, self.mem_map.ram) {
            Ok(_) => Ok(()),
            Err(e) => Err(AsmValidationError { origin: e.origin, error: MachineError::Assemble(e) }),
        }
    }
}

impl Default for Machine {
    fn default() -> (r: Machine)
        ensures
            r.wf(),
            r.config.video.width == 256 && r.config.video.height == 192,
    {
        Machine::new(Config::default())
    }
}

} // verus!
