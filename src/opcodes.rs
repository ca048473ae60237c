//! The legality and encoding table: which operand forms each mnemonic
//! accepts, the opcode byte of each legal pair, and its length.
use vstd::prelude::*;
use crate::parser::{Mnemonic, AddressingMode};

verus! {

/// The operand form after the zero-page-or-relative ambiguity is settled.
#[derive(Clone, Copy, PartialEq, Eq, Structural, Debug)]
pub enum ModeKind {
    Implied,
    Accumulator,
    Immediate,
    ZeroPage,
    ZeroPageX,
    ZeroPageY,
    Absolute,
    AbsoluteX,
    AbsoluteY,
    Indirect,
    IndexedIndirect,
    IndirectIndexed,
    Relative,
}

pub open spec fn is_branch(m: Mnemonic) -> bool {
    m == Mnemonic::Bcc || m == Mnemonic::Bcs || m == Mnemonic::Beq || m == Mnemonic::Bmi
        || m == Mnemonic::Bne || m == Mnemonic::Bpl || m == Mnemonic::Bvc || m == Mnemonic::Bvs
}

pub open spec fn is_shift(m: Mnemonic) -> bool {
    m == Mnemonic::Asl || m == Mnemonic::Lsr || m == Mnemonic::Rol || m == Mnemonic::Ror
}

/// Branches read a byte or word operand as a relative target. Other
/// mnemonics read a byte as a zero-page address, but an operand that names
/// a symbol takes the absolute form (indexed too, where the mnemonic has
/// it): its value is only known after pass one, so its width cannot depend
/// on it. A shift with no operand acts on the accumulator.
pub open spec fn kind_of(m: Mnemonic, mode: AddressingMode, sym: bool) -> ModeKind {
    match mode {
        AddressingMode::Implied => if is_shift(m) { ModeKind::Accumulator } else { ModeKind::Implied },
        AddressingMode::Accumulator => ModeKind::Accumulator,
        AddressingMode::Immediate(_, _) => ModeKind::Immediate,
        AddressingMode::ZeroPageOrRelative(_, _) => if is_branch(m) {
            ModeKind::Relative
        } else if sym {
            ModeKind::Absolute
        } else {
            ModeKind::ZeroPage
        },
        AddressingMode::ZeroPageX(_) => if sym && opcode_of(m, ModeKind::AbsoluteX) is Some {
            ModeKind::AbsoluteX
        } else {
            ModeKind::ZeroPageX
        },
        AddressingMode::ZeroPageY(_) => if sym && opcode_of(m, ModeKind::AbsoluteY) is Some {
            ModeKind::AbsoluteY
        } else {
            ModeKind::ZeroPageY
        },
        AddressingMode::AbsoluteX(_) => ModeKind::AbsoluteX,
        AddressingMode::AbsoluteY(_) => ModeKind::AbsoluteY,
        AddressingMode::Absolute(_) => if is_branch(m) { ModeKind::Relative } else { ModeKind::Absolute },
        AddressingMode::Indirect(_) => ModeKind::Indirect,
        AddressingMode::IndexedIndirect(_) => ModeKind::IndexedIndirect,
        AddressingMode::IndirectIndexed(_) => ModeKind::IndirectIndexed,
    }
}

/// The emitted length of an instruction, which depends on its operand form alone.
pub open spec fn kind_len(k: ModeKind) -> nat {
    match k {
        ModeKind::Implied | ModeKind::Accumulator => 1,
        ModeKind::Absolute | ModeKind::AbsoluteX | ModeKind::AbsoluteY | ModeKind::Indirect => 3,
        _ => 2,
    }
}

/// The row of the regular arithmetic group (ORA AND EOR ADC STA LDA CMP SBC).
pub open spec fn alu_row(m: Mnemonic) -> Option<u8> {
    match m {
        Mnemonic::Ora => Some(0u8), Mnemonic::And => Some(1u8), Mnemonic::Eor => Some(2u8),
        Mnemonic::Adc => Some(3u8), Mnemonic::Sta => Some(4u8), Mnemonic::Lda => Some(5u8),
        Mnemonic::Cmp => Some(6u8), Mnemonic::Sbc => Some(7u8), _ => None,
    }
}

/// The column of an operand form in the arithmetic group.
pub open spec fn alu_col(k: ModeKind) -> Option<u8> {
    match k {
        ModeKind::IndexedIndirect => Some(0u8), ModeKind::ZeroPage => Some(1u8),
        ModeKind::Immediate => Some(2u8), ModeKind::Absolute => Some(3u8),
        ModeKind::IndirectIndexed => Some(4u8), ModeKind::ZeroPageX => Some(5u8),
        ModeKind::AbsoluteY => Some(6u8), ModeKind::AbsoluteX => Some(7u8), _ => None,
    }
}

/// The row of the shift group (ASL ROL LSR ROR).
pub open spec fn shift_row(m: Mnemonic) -> Option<u8> {
    match m {
        Mnemonic::Asl => Some(0u8), Mnemonic::Rol => Some(1u8),
        Mnemonic::Lsr => Some(2u8), Mnemonic::Ror => Some(3u8), _ => None,
    }
}

pub open spec fn shift_col(k: ModeKind) -> Option<u8> {
    match k {
        ModeKind::ZeroPage => Some(1u8), ModeKind::Accumulator => Some(2u8),
        ModeKind::Absolute => Some(3u8), ModeKind::ZeroPageX => Some(5u8),
        ModeKind::AbsoluteX => Some(7u8), _ => None,
    }
}

/// The opcodes of the one-byte instructions and the branches.
pub open spec fn single_op(m: Mnemonic) -> Option<u8> {
    match m {
        Mnemonic::Brk => Some(0x00u8), Mnemonic::Clc => Some(0x18u8), Mnemonic::Cld => Some(0xD8u8),
        Mnemonic::Cli => Some(0x58u8), Mnemonic::Clv => Some(0xB8u8), Mnemonic::Dex => Some(0xCAu8),
        Mnemonic::Dey => Some(0x88u8), Mnemonic::Inx => Some(0xE8u8), Mnemonic::Iny => Some(0xC8u8),
        Mnemonic::Nop => Some(0xEAu8), Mnemonic::Pha => Some(0x48u8), Mnemonic::Php => Some(0x08u8),
        Mnemonic::Pla => Some(0x68u8), Mnemonic::Plp => Some(0x28u8), Mnemonic::Rti => Some(0x40u8),
        Mnemonic::Rts => Some(0x60u8), Mnemonic::Sec => Some(0x38u8), Mnemonic::Sed => Some(0xF8u8),
        Mnemonic::Sei => Some(0x78u8), Mnemonic::Tax => Some(0xAAu8), Mnemonic::Tay => Some(0xA8u8),
        Mnemonic::Tsx => Some(0xBAu8), Mnemonic::Txa => Some(0x8Au8), Mnemonic::Txs => Some(0x9Au8),
        Mnemonic::Tya => Some(0x98u8),
        Mnemonic::Bcc => Some(0x90u8), Mnemonic::Bcs => Some(0xB0u8), Mnemonic::Beq => Some(0xF0u8),
        Mnemonic::Bmi => Some(0x30u8), Mnemonic::Bne => Some(0xD0u8), Mnemonic::Bpl => Some(0x10u8),
        Mnemonic::Bvc => Some(0x50u8), Mnemonic::Bvs => Some(0x70u8),
        _ => None,
    }
}

/// The opcodes of the remaining mnemonics, one operand form at a time.
pub open spec fn other_op(m: Mnemonic, k: ModeKind) -> Option<u8> {
    match (m, k) {
        (Mnemonic::Bit, ModeKind::ZeroPage) => Some(0x24u8),
        (Mnemonic::Bit, ModeKind::Absolute) => Some(0x2Cu8),
        (Mnemonic::Cpx, ModeKind::Immediate) => Some(0xE0u8),
        (Mnemonic::Cpx, ModeKind::ZeroPage) => Some(0xE4u8),
        (Mnemonic::Cpx, ModeKind::Absolute) => Some(0xECu8),
        (Mnemonic::Cpy, ModeKind::Immediate) => Some(0xC0u8),
        (Mnemonic::Cpy, ModeKind::ZeroPage) => Some(0xC4u8),
        (Mnemonic::Cpy, ModeKind::Absolute) => Some(0xCCu8),
        (Mnemonic::Dec, ModeKind::ZeroPage) => Some(0xC6u8),
        (Mnemonic::Dec, ModeKind::ZeroPageX) => Some(0xD6u8),
        (Mnemonic::Dec, ModeKind::Absolute) => Some(0xCEu8),
        (Mnemonic::Dec, ModeKind::AbsoluteX) => Some(0xDEu8),
        (Mnemonic::Inc, ModeKind::ZeroPage) => Some(0xE6u8),
        (Mnemonic::Inc, ModeKind::ZeroPageX) => Some(0xF6u8),
        (Mnemonic::Inc, ModeKind::Absolute) => Some(0xEEu8),
        (Mnemonic::Inc, ModeKind::AbsoluteX) => Some(0xFEu8),
        (Mnemonic::Jmp, ModeKind::Absolute) => Some(0x4Cu8),
        (Mnemonic::Jmp, ModeKind::Indirect) => Some(0x6Cu8),
        (Mnemonic::Jsr, ModeKind::Absolute) => Some(0x20u8),
        (Mnemonic::Ldx, ModeKind::Immediate) => Some(0xA2u8),
        (Mnemonic::Ldx, ModeKind::ZeroPage) => Some(0xA6u8),
        (Mnemonic::Ldx, ModeKind::ZeroPageY) => Some(0xB6u8),
        (Mnemonic::Ldx, ModeKind::Absolute) => Some(0xAEu8),
        (Mnemonic::Ldx, ModeKind::AbsoluteY) => Some(0xBEu8),
        (Mnemonic::Ldy, ModeKind::Immediate) => Some(0xA0u8),
        (Mnemonic::Ldy, ModeKind::ZeroPage) => Some(0xA4u8),
        (Mnemonic::Ldy, ModeKind::ZeroPageX) => Some(0xB4u8),
        (Mnemonic::Ldy, ModeKind::Absolute) => Some(0xACu8),
        (Mnemonic::Ldy, ModeKind::AbsoluteX) => Some(0xBCu8),
        (Mnemonic::Stx, ModeKind::ZeroPage) => Some(0x86u8),
        (Mnemonic::Stx, ModeKind::ZeroPageY) => Some(0x96u8),
        (Mnemonic::Stx, ModeKind::Absolute) => Some(0x8Eu8),
        (Mnemonic::Sty, ModeKind::ZeroPage) => Some(0x84u8),
        (Mnemonic::Sty, ModeKind::ZeroPageX) => Some(0x94u8),
        (Mnemonic::Sty, ModeKind::Absolute) => Some(0x8Cu8),
        _ => None,
    }
}

/// The opcode byte of a mnemonic in an operand form; `None` where the pair
/// is illegal.
pub open spec fn opcode_of(m: Mnemonic, k: ModeKind) -> Option<u8> {
    if alu_row(m) is Some {
        if alu_col(k) is Some && !(m == Mnemonic::Sta && k == ModeKind::Immediate) {
            Some((alu_row(m).unwrap() * 32 + alu_col(k).unwrap() * 4 + 1) as u8)
        } else {
            None
        }
    } else if shift_row(m) is Some {
        if shift_col(k) is Some {
            Some((shift_row(m).unwrap() * 32 + shift_col(k).unwrap() * 4 + 2) as u8)
        } else {
            None
        }
    } else if single_op(m) is Some {
        if (is_branch(m) && k == ModeKind::Relative) || (!is_branch(m) && k == ModeKind::Implied) {
            single_op(m)
        } else {
            None
        }
    } else {
        other_op(m, k)
    }
}

pub fn branch(m: Mnemonic) -> (r: bool)
    ensures
        r == is_branch(m),
{
    match m {
        Mnemonic::Bcc | Mnemonic::Bcs | Mnemonic::Beq | Mnemonic::Bmi | Mnemonic::Bne
        | Mnemonic::Bpl | Mnemonic::Bvc | Mnemonic::Bvs => true,
        _ => false,
    }
}

pub fn mode_kind(m: Mnemonic, mode: AddressingMode, sym: bool) -> (r: ModeKind)
    ensures
        r == kind_of(m, mode, sym),
{
    let shift = match m {
        Mnemonic::Asl | Mnemonic::Lsr | Mnemonic::Rol | Mnemonic::Ror => true,
        _ => false,
    };
    match mode {
        AddressingMode::Implied => if shift { ModeKind::Accumulator } else { ModeKind::Implied },
        AddressingMode::Accumulator => ModeKind::Accumulator,
        AddressingMode::Immediate(_, _) => ModeKind::Immediate,
        AddressingMode::ZeroPageOrRelative(_, _) => if branch(m) {
            ModeKind::Relative
        } else if sym {
            ModeKind::Absolute
        } else {
            ModeKind::ZeroPage
        },
        AddressingMode::ZeroPageX(_) => if sym && opcode(m, ModeKind::AbsoluteX).is_some() {
            ModeKind::AbsoluteX
        } else {
            ModeKind::ZeroPageX
        },
        AddressingMode::ZeroPageY(_) => if sym && opcode(m, ModeKind::AbsoluteY).is_some() {
            ModeKind::AbsoluteY
        } else {
            ModeKind::ZeroPageY
        },
        AddressingMode::AbsoluteX(_) => ModeKind::AbsoluteX,
        AddressingMode::AbsoluteY(_) => ModeKind::AbsoluteY,
        AddressingMode::Absolute(_) => if branch(m) { ModeKind::Relative } else { ModeKind::Absolute },
        AddressingMode::Indirect(_) => ModeKind::Indirect,
        AddressingMode::IndexedIndirect(_) => ModeKind::IndexedIndirect,
        AddressingMode::IndirectIndexed(_) => ModeKind::IndirectIndexed,
    }
}

pub fn length_of(k: ModeKind) -> (r: u8)
    ensures
        r as nat == kind_len(k),
        1 <= r <= 3,
{
    match k {
        ModeKind::Implied | ModeKind::Accumulator => 1,
        ModeKind::Absolute | ModeKind::AbsoluteX | ModeKind::AbsoluteY | ModeKind::Indirect => 3,
        _ => 2,
    }
}

fn alu_row_of(m: Mnemonic) -> (r: Option<u8>)
    ensures
        r == alu_row(m),
{
    match m {
        Mnemonic::Ora => Some(0), Mnemonic::And => Some(1), Mnemonic::Eor => Some(2),
        Mnemonic::Adc => Some(3), Mnemonic::Sta => Some(4), Mnemonic::Lda => Some(5),
        Mnemonic::Cmp => Some(6), Mnemonic::Sbc => Some(7), _ => None,
    }
}

fn alu_col_of(k: ModeKind) -> (r: Option<u8>)
    ensures
        r == alu_col(k),
{
    match k {
        ModeKind::IndexedIndirect => Some(0), ModeKind::ZeroPage => Some(1),
        ModeKind::Immediate => Some(2), ModeKind::Absolute => Some(3),
        ModeKind::IndirectIndexed => Some(4), ModeKind::ZeroPageX => Some(5),
        ModeKind::AbsoluteY => Some(6), ModeKind::AbsoluteX => Some(7), _ => None,
    }
}

fn shift_row_of(m: Mnemonic) -> (r: Option<u8>)
    ensures
        r == shift_row(m),
{
    match m {
        Mnemonic::Asl => Some(0), Mnemonic::Rol => Some(1),
        Mnemonic::Lsr => Some(2), Mnemonic::Ror => Some(3), _ => None,
    }
}

fn shift_col_of(k: ModeKind) -> (r: Option<u8>)
    ensures
        r == shift_col(k),
{
    match k {
        ModeKind::ZeroPage => Some(1), ModeKind::Accumulator => Some(2),
        ModeKind::Absolute => Some(3), ModeKind::ZeroPageX => Some(5),
        ModeKind::AbsoluteX => Some(7), _ => None,
    }
}

fn single_op_of(m: Mnemonic) -> (r: Option<u8>)
    ensures
        r == single_op(m),
{
    match m {
        Mnemonic::Brk => Some(0x00), Mnemonic::Clc => Some(0x18), Mnemonic::Cld => Some(0xD8),
        Mnemonic::Cli => Some(0x58), Mnemonic::Clv => Some(0xB8), Mnemonic::Dex => Some(0xCA),
        Mnemonic::Dey => Some(0x88), Mnemonic::Inx => Some(0xE8), Mnemonic::Iny => Some(0xC8),
        Mnemonic::Nop => Some(0xEA), Mnemonic::Pha => Some(0x48), Mnemonic::Php => Some(0x08),
        Mnemonic::Pla => Some(0x68), Mnemonic::Plp => Some(0x28), Mnemonic::Rti => Some(0x40),
        Mnemonic::Rts => Some(0x60), Mnemonic::Sec => Some(0x38), Mnemonic::Sed => Some(0xF8),
        Mnemonic::Sei => Some(0x78), Mnemonic::Tax => Some(0xAA), Mnemonic::Tay => Some(0xA8),
        Mnemonic::Tsx => Some(0xBA), Mnemonic::Txa => Some(0x8A), Mnemonic::Txs => Some(0x9A),
        Mnemonic::Tya => Some(0x98),
        Mnemonic::Bcc => Some(0x90), Mnemonic::Bcs => Some(0xB0), Mnemonic::Beq => Some(0xF0),
        Mnemonic::Bmi => Some(0x30), Mnemonic::Bne => Some(0xD0), Mnemonic::Bpl => Some(0x10),
        Mnemonic::Bvc => Some(0x50), Mnemonic::Bvs => Some(0x70),
        _ => None,
    }
}

fn other_op_of(m: Mnemonic, k: ModeKind) -> (r: Option<u8>)
    ensures
        r == other_op(m, k),
{
    match (m, k) {
        (Mnemonic::Bit, ModeKind::ZeroPage) => Some(0x24),
        (Mnemonic::Bit, ModeKind::Absolute) => Some(0x2C),
        (Mnemonic::Cpx, ModeKind::Immediate) => Some(0xE0),
        (Mnemonic::Cpx, ModeKind::ZeroPage) => Some(0xE4),
        (Mnemonic::Cpx, ModeKind::Absolute) => Some(0xEC),
        (Mnemonic::Cpy, ModeKind::Immediate) => Some(0xC0),
        (Mnemonic::Cpy, ModeKind::ZeroPage) => Some(0xC4),
        (Mnemonic::Cpy, ModeKind::Absolute) => Some(0xCC),
        (Mnemonic::Dec, ModeKind::ZeroPage) => Some(0xC6),
        (Mnemonic::Dec, ModeKind::ZeroPageX) => Some(0xD6),
        (Mnemonic::Dec, ModeKind::Absolute) => Some(0xCE),
        (Mnemonic::Dec, ModeKind::AbsoluteX) => Some(0xDE),
        (Mnemonic::Inc, ModeKind::ZeroPage) => Some(0xE6),
        (Mnemonic::Inc, ModeKind::ZeroPageX) => Some(0xF6),
        (Mnemonic::Inc, ModeKind::Absolute) => Some(0xEE),
        (Mnemonic::Inc, ModeKind::AbsoluteX) => Some(0xFE),
        (Mnemonic::Jmp, ModeKind::Absolute) => Some(0x4C),
        (Mnemonic::Jmp, ModeKind::Indirect) => Some(0x6C),
        (Mnemonic::Jsr, ModeKind::Absolute) => Some(0x20),
        (Mnemonic::Ldx, ModeKind::Immediate) => Some(0xA2),
        (Mnemonic::Ldx, ModeKind::ZeroPage) => Some(0xA6),
        (Mnemonic::Ldx, ModeKind::ZeroPageY) => Some(0xB6),
        (Mnemonic::Ldx, ModeKind::Absolute) => Some(0xAE),
        (Mnemonic::Ldx, ModeKind::AbsoluteY) => Some(0xBE),
        (Mnemonic::Ldy, ModeKind::Immediate) => Some(0xA0),
        (Mnemonic::Ldy, ModeKind::ZeroPage) => Some(0xA4),
        (Mnemonic::Ldy, ModeKind::ZeroPageX) => Some(0xB4),
        (Mnemonic::Ldy, ModeKind::Absolute) => Some(0xAC),
        (Mnemonic::Ldy, ModeKind::AbsoluteX) => Some(0xBC),
        (Mnemonic::Stx, ModeKind::ZeroPage) => Some(0x86),
        (Mnemonic::Stx, ModeKind::ZeroPageY) => Some(0x96),
        (Mnemonic::Stx, ModeKind::Absolute) => Some(0x8E),
        (Mnemonic::Sty, ModeKind::ZeroPage) => Some(0x84),
        (Mnemonic::Sty, ModeKind::ZeroPageX) => Some(0x94),
        (Mnemonic::Sty, ModeKind::Absolute) => Some(0x8C),
        _ => None,
    }
}

/// Looks up the opcode byte of a mnemonic in an operand form.
pub fn opcode(m: Mnemonic, k: ModeKind) -> (r: Option<u8>)
    ensures
        r == opcode_of(m, k),
{
    match alu_row_of(m) {
        Some(row) => {
            match alu_col_of(k) {
                Some(col) => {
                    if m == Mnemonic::Sta && k == ModeKind::Immediate {
                        None
                    } else {
                        Some(row * 32 + col * 4 + 1)
                    }
                },
                None => None,
            }
        },
        None => match shift_row_of(m) {
            Some(row) => match shift_col_of(k) {
                Some(col) => Some(row * 32 + col * 4 + 2),
                None => None,
            },
            None => match single_op_of(m) {
                Some(op) => {
                    let br = branch(m);
                    if (br && k == ModeKind::Relative) || (!br && k == ModeKind::Implied) {
                        Some(op)
                    } else {
                        None
                    }
                },
                None => other_op_of(m, k),
            },
        },
    }
}

} // verus!
