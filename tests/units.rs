use chipcade::assembler::{assemble, AsmErrorKind};
use chipcade::hw::blit_scaled_rgba_to_buffer;
use chipcade::machine::ProjectPaths;
use chipcade::parser::parse_lines;
use chipcade::ccompiler::{parse_level, tokenize_expr, transpile_c_sources, CBinOp, CExpr, CTerm, NamedValue};
use chipcade::config::{Config, MemoryMap};
use chipcade::cparse::{parse_condition, parse_for_start, CErrorKind, CmpOp};
use chipcade::eval::{eval_expression, EvalError};
use chipcade::expand::{ExpandedAsm, LineOrigin, SourceFile};
use chipcade::hw::{Palette, SpriteRam, VideoRam};
use chipcade::machine::{asm_header, c_header, is_asm_source, system_constants, Machine, MachineError, ProjectSources};
use chipcade::parser::{parse_opcode_line, AddressingMode, Mnemonic, OpCode, Sign, SymPart};
use chipcade::provenance::{compose, merge_expanded};
use chipcade::sprites::{load_sprite_pack_from_embedded, pack_sprite, parse_spr_str, sprite_consts, SpriteError};

fn op(src: &[u8]) -> OpCode {
    parse_opcode_line(src).unwrap().op
}

#[test]
fn addressing_modes_in_priority_order() {
    assert_eq!(op(b"LDA #$41"), OpCode(Mnemonic::Lda, AddressingMode::Immediate(0x41, Sign::Implied)));
    assert_eq!(op(b"lda $20,x"), OpCode(Mnemonic::Lda, AddressingMode::ZeroPageX(0x20)));
    assert_eq!(op(b"LDX $20,Y"), OpCode(Mnemonic::Ldx, AddressingMode::ZeroPageY(0x20)));
    assert_eq!(op(b"JMP ($1234)"), OpCode(Mnemonic::Jmp, AddressingMode::Indirect(0x1234)));
    assert_eq!(op(b"LDA ($20),Y"), OpCode(Mnemonic::Lda, AddressingMode::IndirectIndexed(0x20)));
    assert_eq!(op(b"LDA ($20,X)"), OpCode(Mnemonic::Lda, AddressingMode::IndexedIndirect(0x20)));
    assert_eq!(op(b"STA $0200,Y"), OpCode(Mnemonic::Sta, AddressingMode::AbsoluteY(0x0200)));
    assert_eq!(op(b"STA $0200,X"), OpCode(Mnemonic::Sta, AddressingMode::AbsoluteX(0x0200)));
    assert_eq!(op(b"ASL A"), OpCode(Mnemonic::Asl, AddressingMode::Accumulator));
    assert_eq!(op(b"BNE -3"), OpCode(Mnemonic::Bne, AddressingMode::ZeroPageOrRelative(3, Sign::Negative)));
    assert_eq!(op(b"LDA 300"), OpCode(Mnemonic::Lda, AddressingMode::Absolute(300)));
    assert_eq!(op(b"LDA %101"), OpCode(Mnemonic::Lda, AddressingMode::ZeroPageOrRelative(5, Sign::Implied)));
    assert_eq!(op(b"LDA %0000000100000000"), OpCode(Mnemonic::Lda, AddressingMode::Absolute(256)));
    assert_eq!(op(b"LDA #'A'"), OpCode(Mnemonic::Lda, AddressingMode::Immediate(65, Sign::Implied)));
    assert_eq!(op(b"  RTS  "), OpCode(Mnemonic::Rts, AddressingMode::Implied));
    assert!(parse_opcode_line(b"XYZ #1").is_none());
}

#[test]
fn symbol_operands_take_catch_all_form() {
    let p = parse_opcode_line(b"LDA label").unwrap();
    assert_eq!(p.op, OpCode(Mnemonic::Lda, AddressingMode::ZeroPageOrRelative(0, Sign::Implied)));
    let p = parse_opcode_line(b"BNE loop").unwrap();
    assert_eq!(p.op, OpCode(Mnemonic::Bne, AddressingMode::ZeroPageOrRelative(0, Sign::Implied)));
    let p = parse_opcode_line(b"LDA table,X").unwrap();
    assert_eq!(p.op, OpCode(Mnemonic::Lda, AddressingMode::ZeroPageX(0)));
    let s = p.sym.unwrap();
    assert_eq!((s.start, s.end, s.part), (4, 9, SymPart::Whole));
    let p = parse_opcode_line(b"LDA #>label").unwrap();
    assert_eq!(p.sym.unwrap().part, SymPart::High);
    // the accumulator form matches a leading `A` first
    let p = parse_opcode_line(b"JMP Apple").unwrap();
    assert_eq!(p.op, OpCode(Mnemonic::Jmp, AddressingMode::Accumulator));
    assert_eq!(p.end, 5);
}

#[test]
fn labels_resolve_the_same_before_and_after_definition() {
    let out = assemble(b"JMP end\nNOP\nend:\nJMP end\n", 0x0200).unwrap();
    assert_eq!(out.bytes, vec![0x4C, 0x04, 0x02, 0xEA, 0x4C, 0x04, 0x02]);
    let end = out.symbols.iter().find(|s| s.name == b"end").unwrap();
    assert_eq!(end.value, 0x0204);
    assert!(end.is_label);
}

#[test]
fn assembling_twice_is_deterministic() {
    let src = b"start: LDA #<data\nLDX #>data\n.const data $1234\nBNE start\n";
    let a = assemble(src, 0x0300).unwrap();
    let b = assemble(src, 0x0300).unwrap();
    assert_eq!(a.bytes, b.bytes);
    assert_eq!(a.pc_line, b.pc_line);
    assert_eq!(a.bytes, vec![0xA9, 0x34, 0xA2, 0x12, 0xD0, 0xFA]);
    let names: Vec<_> = a.symbols.iter().map(|s| (s.name.clone(), s.value)).collect();
    let names_b: Vec<_> = b.symbols.iter().map(|s| (s.name.clone(), s.value)).collect();
    assert_eq!(names, names_b);
}

#[test]
fn comments_blank_lines_and_consts() {
    let out = assemble(b"; header\n\n.const IO $3000 ; io base\n  STA IO ; store\n", 0x0200).unwrap();
    assert_eq!(out.bytes, vec![0x8D, 0x00, 0x30]);
    assert_eq!(out.pc_line, vec![4, 4, 4]);
}

#[test]
fn assembler_error_kinds() {
    let kind = |src: &[u8]| assemble(src, 0x0200).err().unwrap();
    assert_eq!(kind(b"FOO\n").kind, AsmErrorKind::UnknownMnemonic);
    assert_eq!(kind(b"NOP\nLDA #$41 junk\n").kind, AsmErrorKind::TrailingInput);
    assert_eq!(kind(b"NOP\nLDA #$41 junk\n").line, 2);
    assert_eq!(kind(b".const X\n").kind, AsmErrorKind::BadConst);
    assert_eq!(kind(b"STA #$10\n").kind, AsmErrorKind::IllegalMode);
    assert_eq!(kind(b"a:\na:\n").kind, AsmErrorKind::DuplicateSymbol);
    assert_eq!(kind(b"JMP nowhere\n").kind, AsmErrorKind::UndefinedSymbol);
    assert_eq!(kind(b".const big $1234\nLDA (big,X)\n").kind, AsmErrorKind::ValueTooWide);
    assert_eq!(assemble(b"LDA $1234\n", 0xFFFF).err().unwrap().kind, AsmErrorKind::ProgramTooLarge);
}

#[test]
fn eval_examples() {
    assert_eq!(eval_expression("1+2*3").unwrap().value, 7);
    assert_eq!(eval_expression("$10 + 0x1F").unwrap().value, 47);
    assert_eq!(eval_expression("%101").unwrap().value, 5);
    assert_eq!(eval_expression("-(4)").unwrap().value, -4);
    assert_eq!(eval_expression("7/2").unwrap().value, 3);
    assert_eq!(eval_expression("1_000").unwrap().value, 1000);
    assert_eq!(eval_expression("  ").err(), Some(EvalError::Empty));
    assert_eq!(eval_expression("1/0").err(), Some(EvalError::DivisionByZero));
    assert_eq!(eval_expression("1 2").err(), Some(EvalError::TrailingInput));
    assert_eq!(eval_expression("9223372036854775807+1").err(), Some(EvalError::AddOverflow));
    assert_eq!(eval_expression("(1").err(), Some(EvalError::ExpectedCloseParen));
}

const SPRITE: &str = "# ship\nsize 8x8\ncolors 1 2 3\npixels\n123.....\n........\n........\n........\n........\n........\n........\n.......3\n";

#[test]
fn sprite_parse_and_pack() {
    let spr = parse_spr_str(b"ship", SPRITE.as_bytes()).unwrap();
    assert_eq!((spr.width, spr.height, spr.colors), (8, 8, [1, 2, 3]));
    let packed = pack_sprite(&spr);
    assert_eq!(packed.len(), 16);
    assert_eq!(packed[0], 0x6C);
    assert_eq!(packed[1], 0x00);
    assert_eq!(packed[15], 0x03);
}

#[test]
fn sprite_errors() {
    assert_eq!(parse_spr_str(b"s", b"size 9x9\n").err(), Some(SpriteError::SizeNotSupported { line: 1 }));
    assert_eq!(parse_spr_str(b"s", b"size 8x8\npixels\n").err(), Some(SpriteError::MissingColors));
    assert_eq!(parse_spr_str(b"s", b"colors 1 2 16\n").err(), Some(SpriteError::ColorOutOfRange { line: 1 }));
    let bad_row = SPRITE.replace("123.....", "123....");
    assert_eq!(parse_spr_str(b"s", bad_row.as_bytes()).err(), Some(SpriteError::RowWidth { row: 1 }));
}

#[test]
fn sprite_pack_and_constants() {
    let items = vec![
        (b"my-ship".to_vec(), SPRITE.as_bytes().to_vec()),
        (b"rock".to_vec(), SPRITE.as_bytes().to_vec()),
    ];
    let pack = load_sprite_pack_from_embedded(&items).unwrap();
    assert_eq!(pack.data.len(), 32);
    assert_eq!(pack.images[1].offset, 16);
    let consts = sprite_consts(&pack.images);
    assert_eq!(consts[0], (b"SPR_MY_SHIP".to_vec(), 0));
    assert_eq!(consts[1], (b"SPR_ROCK".to_vec(), 1));
}

#[test]
fn video_regions() {
    let mut v = VideoRam::new(4, 2, 0x2000);
    assert_eq!(v.data.len(), 4);
    v.clear(0x13);
    assert!(v.data.iter().all(|b| *b == 0x33));
    v.write(0x2001, 7);
    assert_eq!(v.read(0x2001), 7);
    assert_eq!(v.read(0x2010), 0);
    let map = MemoryMap::default();
    let mut s = SpriteRam::new(&map);
    s.write(map.sprite_ram + 9, 0x55);
    assert_eq!(s.read(map.sprite_ram + 9), 0x55);
    let cfg = Config::default();
    let mut p = Palette::new(&cfg.palette, &map, None);
    assert_eq!(p.read(map.palette_ram), 0x1a);
    assert_eq!(p.read(map.palette_ram + 47), 0x57);
    assert_eq!(p.read(map.palette_ram + 48), 0);
    p.write(map.palette_ram + 1, 9);
    assert_eq!(p.read(map.palette_ram + 1), 9);
    let q = Palette::new(&cfg.palette, &map, Some(&[1, 2, 3][..]));
    assert_eq!(q.read(map.palette_ram + 2), 3);
    assert_eq!(q.read(map.palette_ram + 3), 0);
}

#[test]
fn memory_map_from_default_config() {
    let m = MemoryMap::from_config(&Config::default());
    assert_eq!(m.ram, 0x0200);
    assert_eq!(m.video_ram, 0x2000);
    assert_eq!(m.palette_ram, 0x8000);
    assert_eq!(m.palette_map, 0x8060);
    assert_eq!(m.sprite_ram, 0x8070);
    assert_eq!(m.io, 0x8170);
    assert_eq!(m.rom, 0x8270);
}

#[test]
fn constants_and_headers() {
    let machine = Machine::new(Config::default());
    let sys = system_constants(&machine.mem_map, &machine.config);
    assert_eq!(sys.len(), 19);
    assert_eq!((sys[0].name, sys[0].value), ("VRAM", 0x2000));
    assert_eq!((sys[1].name, sys[1].value), ("VRAM_SIZE", 0x6000));
    assert_eq!((sys[18].name, sys[18].value, sys[18].is_hex), ("VIDEO_HEIGHT", 192, false));
    let sprites = vec![(b"SPR_SHIP".to_vec(), 0u32)];
    let inc = String::from_utf8(asm_header(&sys, &sprites)).unwrap();
    assert!(inc.contains(".const VRAM $2000\n"));
    assert!(inc.contains(".const VIDEO_WIDTH 256\n"));
    assert!(inc.contains(".const SPR_SHIP 0\n"));
    let h = String::from_utf8(c_header(&sys, &sprites)).unwrap();
    assert!(h.contains("#define VRAM 0x2000\n"));
    assert!(h.ends_with("#endif /* CHIPCADE_H */\n"));
    assert_eq!(machine.entry_address(None), 0x0200);
    assert_eq!(machine.entry_address(Some(0x0300)), 0x0300);
    assert_eq!(machine.video_size(), (256, 192));
}

fn file(path: &str, text: &str) -> SourceFile {
    SourceFile { path: path.as_bytes().to_vec(), text: text.as_bytes().to_vec() }
}

fn project(asm_main: &str, c_main: Option<&str>) -> ProjectSources {
    let machine = Machine::new(Config::default());
    let inc = asm_header(&machine.sys_consts, &Vec::new());
    let header = SourceFile { path: b"include/chipcade.inc".to_vec(), text: inc };
    ProjectSources {
        asm_files: vec![file("main.asm", asm_main), header],
        asm_main: Some(0),
        c_files: c_main.map(|c| vec![file("main.c", c)]).unwrap_or_default(),
        sprites: load_sprite_pack_from_embedded(&Vec::new()).unwrap(),
    }
}

#[test]
fn machine_assembles_asm_project() {
    let machine = Machine::new(Config::default());
    let src = project(".include \"include/chipcade.inc\"\nInit:\n  LDA #$01\n  STA VRAM\n  BRK\n", None);
    let a = machine.assemble(&src).unwrap();
    assert_eq!(a.program, vec![0xA9, 0x01, 0x8D, 0x00, 0x20, 0x00]);
    assert_eq!(a.entry_point, Some(0x0200));
    assert_eq!(a.line_for_pc(0x0202), Some(LineOrigin { file: 0, line: 4 }));
    assert_eq!(a.line_for_pc(0x01FF), None);
}

#[test]
fn machine_assembles_c_after_asm() {
    let machine = Machine::new(Config::default());
    let src = project("NOP\n", Some("void Init() {\n}\n"));
    let a = machine.assemble(&src).unwrap();
    assert_eq!(a.program, vec![0xEA, 0x00]);
    assert_eq!(a.entry_point, Some(0x0201));
    // the C file is numbered after the two assembly files
    assert_eq!(a.pc_line_map[1], LineOrigin { file: 2, line: 2 });
}

#[test]
fn machine_reports_missing_main_and_c_errors() {
    let machine = Machine::new(Config::default());
    let mut src = project("NOP\n", None);
    src.asm_main = None;
    assert_eq!(machine.assemble(&src).err(), Some(MachineError::MissingMain));
    let src = project("NOP\n", Some("void Update() {\n  y = 1;\n}\n"));
    match machine.assemble(&src).err() {
        Some(MachineError::Compile(e)) => {
            assert_eq!((e.file, e.line, e.kind), (0, 2, CErrorKind::UnknownVariable));
        }
        other => panic!("unexpected {other:?}"),
    }
}

#[test]
fn validate_asm_places_errors() {
    let machine = Machine::new(Config::default());
    let src = project("LDA #$01\nFOO\n", None);
    let err = machine.validate_asm(&src.asm_files, 0).err().unwrap();
    // the source keeps its own line numbers
    assert_eq!(err.origin, Some(LineOrigin { file: 0, line: 2 }));
    let ok = project("LDA #<VRAM\n", None);
    assert!(machine.validate_asm(&ok.asm_files, 0).is_ok());
}

#[test]
fn frame_ticks_follow_refresh_rate() {
    let mut machine = Machine::new(Config::default());
    assert!(machine.should_tick(1_000_000_000));
    assert!(!machine.should_tick(1_001_000_000));
    assert!(machine.should_tick(1_021_000_000));
    assert_eq!(machine.tick_accum, 1_000_000);
}

#[test]
fn compose_and_merge() {
    let map = vec![LineOrigin { file: 3, line: 7 }, LineOrigin { file: 4, line: 1 }];
    assert_eq!(compose(&vec![1, 1, 2, 5], &map), vec![map[0], map[0], map[1]]);
    let a = ExpandedAsm { bytes: b"NOP".to_vec(), line_map: vec![LineOrigin { file: 0, line: 9 }] };
    let b = ExpandedAsm { bytes: b"BRK\n".to_vec(), line_map: vec![LineOrigin { file: 1, line: 1 }] };
    let m = merge_expanded(a, b);
    assert_eq!(m.bytes, b"NOP\nBRK\n".to_vec());
    assert_eq!(m.line_map.len(), 3);
    assert_eq!(m.line_map[1], LineOrigin { file: 0, line: 9 });
}

#[test]
fn c_pieces() {
    let (l, o, r) = parse_condition(b"x <= 3").unwrap();
    assert_eq!((l, o, r), (b"x".to_vec(), CmpOp::Le, b"3".to_vec()));
    let f = parse_for_start(b"for (i = 0; i < 8; i++) {").unwrap().unwrap();
    assert_eq!(f, (Some(b"i = 0".to_vec()), Some(b"i < 8".to_vec()), Some(b"i++".to_vec())));
    let toks = tokenize_expr(b"a<<2 + (b&3)").unwrap();
    let toks: Vec<String> = toks.into_iter().map(|t| String::from_utf8(t).unwrap()).collect();
    assert_eq!(toks, vec!["a", "<<", "2", "+", "(", "b", "&", "3", ")"]);
    assert!(is_asm_source(b"src/include/CHIPCADE.INC"));
    assert!(!is_asm_source(b"src/main.c"));
}

fn c_lines(src: &str) -> Vec<String> {
    let consts = vec![NamedValue { name: b"SPRITE_RAM".to_vec(), value: 0x2C70 }];
    let out = transpile_c_sources(&vec![file("main.c", src)], &consts).unwrap();
    String::from_utf8(out.bytes).unwrap().lines().map(|s| s.to_string()).collect()
}

#[test]
fn c_control_flow_shapes() {
    let w = c_lines("unsigned char i;\nvoid Tick() {\n  while (i < 3) {\n    i++;\n  }\n}\n");
    assert_eq!(w[1], "CWHILES0:");
    assert!(w.contains(&"BCS CWHILEE1".to_string()));
    assert!(w.contains(&"JMP CWHILES0".to_string()));
    assert_eq!(w[w.len() - 2], "RTS");
    let le = c_lines("unsigned char i;\nvoid Tick() {\n  if (i <= 3) {\n  }\n}\n");
    assert!(le.contains(&"BCC CCMPOK2".to_string()));
    assert!(le.contains(&"JMP CIFELSE1".to_string()));
    let shift = c_lines("unsigned char i;\nvoid Tick() {\n  i = i << 2;\n}\n");
    assert!(shift.contains(&"AND #$07".to_string()));
    assert!(shift.contains(&"ASL $20".to_string()));
    let for_loop = c_lines("void Tick() {\n  unsigned char i = 0;\n  for (; i < 2; i++) {\n  }\n}\n");
    let step = for_loop.iter().position(|l| l == "INC $40").unwrap();
    assert_eq!(for_loop[step + 1], "JMP CFORS0");
}

#[test]
fn c_errors() {
    let consts = Vec::new();
    let err = |src: &str| transpile_c_sources(&vec![file("main.c", src)], &consts).err().unwrap().kind;
    assert_eq!(err("unsigned char a;\nunsigned char a;\n"), CErrorKind::DuplicateGlobal);
    assert_eq!(err("void F() {\n  return;\n"), CErrorKind::UnterminatedFunction);
    assert_eq!(err("void F() {\n}\nvoid F() {\n}\n"), CErrorKind::DuplicateFunction);
    assert_eq!(err("int x;\n"), CErrorKind::ExpectedDeclarationOrFunction);
    assert_eq!(err("void F() {\n  unsigned char v = 1;\n  unsigned char v;\n}\n"), CErrorKind::DuplicateLocal);
}

#[test]
fn project_paths_and_labels() {
    let p = ProjectPaths::new(b"game", true, false);
    assert_eq!(p.config, b"game/chipcade.toml".to_vec());
    assert_eq!(p.asm_main, b"game/src/main.asm".to_vec());
    let legacy = ProjectPaths::new(b"game/", false, true);
    assert_eq!(legacy.asm_main, b"game/asm/main.asm".to_vec());
    assert_eq!(legacy.program_bin, b"game/build/program.bin".to_vec());
    let out = assemble(b"start:\nNOP\nloop: JMP loop\n", 0x0400).unwrap();
    assert_eq!(Machine::label_address(&out.symbols, b"loop"), Some(0x0401));
    assert_eq!(Machine::label_address(&out.symbols, b"none"), None);
}

#[test]
fn scaled_blit_fills_the_buffer() {
    let mut dst = vec![0u32; 9];
    blit_scaled_rgba_to_buffer(&[1, 2, 3, 255], 1, 1, 3, 3, &mut dst);
    assert!(dst.iter().all(|p| *p == 0x010203));
    let mut wide = vec![0u32; 8];
    blit_scaled_rgba_to_buffer(&[9, 9, 9, 255], 1, 1, 4, 2, &mut wide);
    // scale 2, centred: columns 1..3 of both rows
    assert_eq!(wide, vec![0, 0x090909, 0x090909, 0, 0, 0x090909, 0x090909, 0]);
}

#[test]
fn parse_lines_reads_a_sequence() {
    let codes = parse_lines(b"LDA #1\n  STA $20\n").unwrap();
    assert_eq!(
        codes,
        vec![
            OpCode(Mnemonic::Lda, AddressingMode::Immediate(1, Sign::Implied)),
            OpCode(Mnemonic::Sta, AddressingMode::ZeroPageOrRelative(0x20, Sign::Implied)),
        ]
    );
    assert!(parse_lines(b"LDA #1\n!!\n").is_none());
}

#[test]
fn symbol_operands_assemble_absolute() {
    let out = assemble(b".const T $1234\nLDA T\nLDA T,X\nSTY T,X\n", 0x0200);
    // STY has no absolute,X form, so a wide symbol there does not fit
    assert_eq!(out.err().unwrap().kind, AsmErrorKind::ValueTooWide);
    let out = assemble(b".const T $1234\n.const Z $20\nLDA T\nLDA T,X\nSTY Z,X\n", 0x0200).unwrap();
    assert_eq!(out.bytes, vec![0xAD, 0x34, 0x12, 0xBD, 0x34, 0x12, 0x94, 0x20]);
}

#[test]
fn negative_byte_literals_are_twos_complement() {
    assert_eq!(assemble(b"BNE -5\n", 0x0200).unwrap().bytes, vec![0xD0, 0xFB]);
    assert_eq!(assemble(b"LDA #-5\n", 0x0200).unwrap().bytes, vec![0xA9, 0xFB]);
    assert_eq!(assemble(b"LDA #-0\n", 0x0200).unwrap().bytes, vec![0xA9, 0x00]);
}

#[test]
fn globals_after_nested_blocks_keep_locals_local() {
    let src = "unsigned char g;\nvoid Tick() {\n  if (g == 1) {\n  }\n  unsigned char v = 2;\n}\n";
    let lines = c_lines(src);
    assert!(lines.contains(&"STA $41".to_string()));
}

#[test]
fn precedence_climbing_builds_left_associative_trees() {
    let toks = tokenize_expr(b"1 + 2 << 3 | 4").unwrap();
    let (tree, end) = parse_level(&toks, 0, 0, &Vec::new(), &Vec::new()).ok().unwrap();
    assert_eq!(end, toks.len());
    match tree {
        CExpr::Bin(lhs, CBinOp::Or, rhs) => {
            assert!(matches!(*rhs, CExpr::Term(CTerm::Imm(4))));
            match *lhs {
                CExpr::Bin(inner, CBinOp::Shl, three) => {
                    assert!(matches!(*three, CExpr::Term(CTerm::Imm(3))));
                    assert!(matches!(*inner, CExpr::Bin(_, CBinOp::Add, _)));
                }
                _ => panic!("expected a shift under the or"),
            }
        }
        _ => panic!("expected an or at the top"),
    }
}

#[test]
fn sprite_constant_names_use_one_underscore_per_character() {
    let items = vec![(b"caf\xc3\xa9 1".to_vec(), SPRITE.as_bytes().to_vec())];
    let pack = load_sprite_pack_from_embedded(&items).unwrap();
    let consts = sprite_consts(&pack.images);
    assert_eq!(consts[0].0, b"SPR_CAF__1".to_vec());
    assert_eq!(pack.images[0].offset, 0);
}

#[test]
fn sprite_constant_names_use_full_upper_case() {
    let items = vec![("ß".as_bytes().to_vec(), SPRITE.as_bytes().to_vec())];
    let pack = load_sprite_pack_from_embedded(&items).unwrap();
    assert_eq!(sprite_consts(&pack.images)[0].0, b"SPR_SS".to_vec());
}

#[test]
fn build_errors_render_with_their_source_line() {
    use_error_report();
}

fn use_error_report() {
    let machine = Machine::new(Config::default());
    let src = project("NOP\nFOO\n", None);
    match machine.assemble(&src).err() {
        Some(MachineError::Assemble(b)) => {
            let text = chipcade::provenance::error_report(&b, b"main.asm");
            assert_eq!(String::from_utf8(text).unwrap(), "Assembly error: main.asm:2 -> unknown mnemonic");
        }
        other => panic!("unexpected {other:?}"),
    }
}
