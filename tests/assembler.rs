use chipcade::assembler::{assemble, AsmErrorKind};

#[test]
fn three_instructions_at_0200() {
    let src = b"LDA #$41\nSTA $2000\nBRK\n";
    let out = assemble(src, 0x0200).unwrap();
    assert_eq!(out.bytes, vec![0xA9, 0x41, 0x8D, 0x00, 0x20, 0x00]);
    assert!(out.symbols.iter().all(|s| !s.is_label));
    assert_eq!(out.pc_line, vec![1, 1, 2, 2, 2, 3]);
}

fn branch_program(forward: bool, gap: usize) -> Vec<u8> {
    let mut src = Vec::new();
    if forward {
        src.extend_from_slice(b"BNE target\n");
        for _ in 0..gap {
            src.extend_from_slice(b"NOP\n");
        }
        src.extend_from_slice(b"target:\nBRK\n");
    } else {
        src.extend_from_slice(b"target:\n");
        // the branch itself is two bytes; its end is `gap` bytes past the label
        for _ in 0..(gap - 2) {
            src.extend_from_slice(b"NOP\n");
        }
        src.extend_from_slice(b"BNE target\n");
    }
    src
}

#[test]
fn branch_reaches_127_forward() {
    let out = assemble(&branch_program(true, 127), 0x0200).unwrap();
    assert_eq!(out.bytes[0], 0xD0);
    assert_eq!(out.bytes[1], 127);
}

#[test]
fn branch_fails_128_forward() {
    let err = assemble(&branch_program(true, 128), 0x0200).err().unwrap();
    assert_eq!(err.kind, AsmErrorKind::BranchOutOfRange);
    assert_eq!(err.line, 1);
}

#[test]
fn branch_reaches_128_backward() {
    let out = assemble(&branch_program(false, 128), 0x0200).unwrap();
    let n = out.bytes.len();
    assert_eq!(out.bytes[n - 2], 0xD0);
    assert_eq!(out.bytes[n - 1], 0x80);
}

#[test]
fn branch_fails_129_backward() {
    let err = assemble(&branch_program(false, 129), 0x0200).err().unwrap();
    assert_eq!(err.kind, AsmErrorKind::BranchOutOfRange);
}
