use chipcade::assembler::assemble;
use chipcade::ccompiler::{transpile_c_sources, NamedValue};
use chipcade::expand::{expand_sources, IncludeError, LineOrigin, SourceFile};
use chipcade::provenance::build_artifacts;

fn file(path: &str, text: &str) -> SourceFile {
    SourceFile { path: path.as_bytes().to_vec(), text: text.as_bytes().to_vec() }
}

fn lines(bytes: &[u8]) -> Vec<String> {
    String::from_utf8(bytes.to_vec()).unwrap().lines().map(|s| s.to_string()).collect()
}

#[test]
fn include_cycle_names_the_repeated_file() {
    let files = vec![
        file("a.inc", ".include \"b.inc\"\nNOP\n"),
        file("b.inc", ".include \"a.inc\"\n"),
    ];
    let err = expand_sources(&files, 0).err().unwrap();
    assert_eq!(err, IncludeError::Cycle { file: 0 });
}

#[test]
fn include_twice_without_cycle() {
    let files = vec![
        file("a.inc", ".include \"b.inc\"\nNOP\n.include \"b.inc\"\n"),
        file("b.inc", "INX\n"),
    ];
    let x = expand_sources(&files, 0).unwrap();
    assert_eq!(lines(&x.bytes), vec!["INX", "NOP", "INX"]);
    assert_eq!(
        x.line_map,
        vec![
            LineOrigin { file: 1, line: 1 },
            LineOrigin { file: 0, line: 2 },
            LineOrigin { file: 1, line: 1 },
        ]
    );
}

#[test]
fn const_only_include_emits_nothing() {
    let files = vec![
        file("main.asm", "LDA #$01\n.include \"consts.inc\"\nSTA FOO\nBRK\n"),
        file("consts.inc", ".const FOO $10\n"),
    ];
    let x = expand_sources(&files, 0).unwrap();
    assert_eq!(x.line_map[1], LineOrigin { file: 1, line: 1 });
    let a = build_artifacts(x, 0x0200).unwrap();
    // the include adds no bytes; a symbol operand takes the absolute form
    assert_eq!(a.program, vec![0xA9, 0x01, 0x8D, 0x10, 0x00, 0x00]);
    assert_eq!(a.pc_line_map[0], LineOrigin { file: 0, line: 1 });
    assert_eq!(a.pc_line_map[2], LineOrigin { file: 0, line: 3 });
    assert_eq!(a.pc_line_map[5], LineOrigin { file: 0, line: 4 });
}

#[test]
fn include_path_is_relative_to_includer() {
    let files = vec![
        file("src/main.asm", ".include \"include/x.inc\"\n"),
        file("src/include/x.inc", "NOP\n"),
    ];
    let x = expand_sources(&files, 0).unwrap();
    assert_eq!(lines(&x.bytes), vec!["NOP"]);
}

#[test]
fn missing_include_is_reported() {
    let files = vec![file("main.asm", "NOP\n.include \"none.inc\"\n")];
    let err = expand_sources(&files, 0).err().unwrap();
    assert_eq!(err, IncludeError::Missing { file: 0, line: 2 });
}

fn consts() -> Vec<NamedValue> {
    vec![NamedValue { name: b"SPRITE_RAM".to_vec(), value: 0x2C70 }]
}

#[test]
fn c_update_compiles_and_allocates() {
    let files = vec![file(
        "main.c",
        "unsigned char x = 5;\nvoid Update() {\n  x = x + 1;\n  sprite[0].x = x;\n}\n",
    )];
    // a global with an initializer is refused, as the grammar requires
    assert!(transpile_c_sources(&files, &consts()).is_err());
    let files = vec![file(
        "main.c",
        "unsigned char x;\nvoid Update() {\n  x = 5;\n  x = x + 1;\n  sprite[0].x = x;\n}\n",
    )];
    let out = transpile_c_sources(&files, &consts()).unwrap();
    let text = lines(&out.bytes);
    assert_eq!(text[0], "Update:");
    assert!(text.contains(&"STA $40".to_string()));
    assert!(text.contains(&"LDA $40".to_string()));
    assert!(text.contains(&"STA $2C70".to_string()));
    assert_eq!(out.line_map.len(), text.len());
    let last = text.iter().rposition(|l| l == "BRK").unwrap();
    assert_eq!(out.line_map[last], LineOrigin { file: 0, line: 6 });
}

#[test]
fn c_local_with_initializer() {
    let files = vec![file(
        "main.c",
        "void Update() {\n  unsigned char x = 5;\n  x = x + 1;\n  sprite[0].x = x;\n}\n",
    )];
    let out = transpile_c_sources(&files, &consts()).unwrap();
    let text = lines(&out.bytes);
    assert_eq!(
        &text[..4],
        &["Update:".to_string(), "LDA #$05".to_string(), "STA $40".to_string(), "LDA $40".to_string()]
    );
    assert!(text.contains(&"STA $2C70".to_string()));
    let built = assemble(&out.bytes, 0x0200).unwrap();
    assert_eq!(built.bytes[0], 0xA9);
}

#[test]
fn repeated_if_else_gets_distinct_labels() {
    let src = "unsigned char x;\nvoid Update() {\n  if (x == 1) {\n  }\n  else {\n  }\n  if (x == 1) {\n  }\n  else {\n  }\n}\n";
    let out = transpile_c_sources(&vec![file("main.c", src)], &consts()).unwrap();
    let labels: Vec<String> = lines(&out.bytes).into_iter().filter(|l| l.ends_with(':')).collect();
    let mut sorted = labels.clone();
    sorted.sort();
    sorted.dedup();
    assert_eq!(sorted.len(), labels.len());
    assert!(labels.contains(&"CIFEND0:".to_string()));
    assert!(labels.contains(&"CIFEND2:".to_string()));
    assert!(assemble(&out.bytes, 0x0200).is_ok());
}

#[test]
fn error_messages_locate_their_source_line() {
    let files = vec![
        file("main.asm", "NOP\n.include \"util.inc\"\n"),
        file("util.inc", "INX\nFOO\n"),
    ];
    let x = expand_sources(&files, 0).unwrap();
    let map = x.line_map.clone();
    let err = assemble(&x.bytes, 0x0200).err().unwrap();
    let msg = chipcade::provenance::error_text(&err);
    assert_eq!(String::from_utf8(msg.clone()).unwrap(), "Parse error on line 3: unknown mnemonic");
    assert_eq!(chipcade::provenance::map_error_to_origin(&msg, &map), Some(LineOrigin { file: 1, line: 2 }));
    assert_eq!(chipcade::provenance::map_error_to_origin(b"something else", &map), None);
    assert_eq!(chipcade::provenance::map_error_to_origin(b"Parse error on line 9: x", &map), None);
}
