use vstd::prelude::*;

verus! {

/// How the bytes that follow an opcode are read.
#[derive(Clone, Copy, Debug, PartialEq, Eq, Structural)]
pub enum AddressingMode {
    Absolute,
    AbsoluteX,
    AbsoluteY,
    Indirect,
    Accumulator,
    Implied,
    Immediate,
    IndexedIndirect,
    IndirectIndexed,
    ZeroPage,
    ZeroPageX,
    ZeroPageY,
    Relative,
}

impl AddressingMode {
    /// Number of operand bytes that follow the opcode.
    pub open spec fn spec_operand_width(self) -> nat {
        match self {
            AddressingMode::Accumulator | AddressingMode::Implied => 0,
            AddressingMode::Absolute
            | AddressingMode::AbsoluteX
            | AddressingMode::AbsoluteY
            | AddressingMode::Indirect => 2,
            _ => 1,
        }
    }

    pub fn operand_width(&self) -> (r: u8)
        ensures
            r == self.spec_operand_width(),
    {
        match self {
            AddressingMode::Accumulator | AddressingMode::Implied => 0,
            AddressingMode::Absolute
            | AddressingMode::AbsoluteX
            | AddressingMode::AbsoluteY
            | AddressingMode::Indirect => 2,
            _ => 1,
        }
    }

    /// The operand's place in the instruction text: `@` stands for the operand.
    pub open spec fn spec_template(self) -> Seq<char> {
        match self {
            AddressingMode::Absolute | AddressingMode::ZeroPage | AddressingMode::Relative => " @"@,
            AddressingMode::AbsoluteX | AddressingMode::ZeroPageX => " @,X"@,
            AddressingMode::AbsoluteY | AddressingMode::ZeroPageY => " @,Y"@,
            AddressingMode::Indirect => " (@)"@,
            AddressingMode::IndexedIndirect => " (@,X)"@,
            AddressingMode::IndirectIndexed => " (@),Y"@,
            AddressingMode::Immediate => " #@"@,
            AddressingMode::Accumulator => " A"@,
            AddressingMode::Implied => ""@,
        }
    }

    pub fn template(&self) -> (r: &'static str)
        ensures
            r@ == self.spec_template(),
    {
        match self {
            AddressingMode::Absolute | AddressingMode::ZeroPage | AddressingMode::Relative => " @",
            AddressingMode::AbsoluteX | AddressingMode::ZeroPageX => " @,X",
            AddressingMode::AbsoluteY | AddressingMode::ZeroPageY => " @,Y",
            AddressingMode::Indirect => " (@)",
            AddressingMode::IndexedIndirect => " (@,X)",
            AddressingMode::IndirectIndexed => " (@),Y",
            AddressingMode::Immediate => " #@",
            AddressingMode::Accumulator => " A",
            AddressingMode::Implied => "",
        }
    }
}

/// The documented 6502 instructions.
#[derive(Clone, Copy, Debug, PartialEq, Eq, Structural)]
pub enum Mnemonic {
    Adc,
    And,
    Asl,
    Bcc,
    Bcs,
    Beq,
    Bit,
    Bmi,
    Bne,
    Bpl,
    Brk,
    Bvc,
    Bvs,
    Clc,
    Cld,
    Cli,
    Clv,
    Cmp,
    Cpx,
    Cpy,
    Dec,
    Dex,
    Dey,
    Eor,
    Inc,
    Inx,
    Iny,
    Jmp,
    Jsr,
    Lda,
    Ldx,
    Ldy,
    Lsr,
    Nop,
    Ora,
    Pha,
    Php,
    Pla,
    Plp,
    Rol,
    Ror,
    Rti,
    Rts,
    Sbc,
    Sec,
    Sed,
    Sei,
    Sta,
    Stx,
    Sty,
    Tax,
    Tay,
    Tsx,
    Txa,
    Txs,
    Tya,
}

impl Mnemonic {
    pub open spec fn spec_name(self) -> Seq<char> {
        match self {
            Mnemonic::Adc => "ADC"@,
            Mnemonic::And => "AND"@,
            Mnemonic::Asl => "ASL"@,
            Mnemonic::Bcc => "BCC"@,
            Mnemonic::Bcs => "BCS"@,
            Mnemonic::Beq => "BEQ"@,
            Mnemonic::Bit => "BIT"@,
            Mnemonic::Bmi => "BMI"@,
            Mnemonic::Bne => "BNE"@,
            Mnemonic::Bpl => "BPL"@,
            Mnemonic::Brk => "BRK"@,
            Mnemonic::Bvc => "BVC"@,
            Mnemonic::Bvs => "BVS"@,
            Mnemonic::Clc => "CLC"@,
            Mnemonic::Cld => "CLD"@,
            Mnemonic::Cli => "CLI"@,
            Mnemonic::Clv => "CLV"@,
            Mnemonic::Cmp => "CMP"@,
            Mnemonic::Cpx => "CPX"@,
            Mnemonic::Cpy => "CPY"@,
            Mnemonic::Dec => "DEC"@,
            Mnemonic::Dex => "DEX"@,
            Mnemonic::Dey => "DEY"@,
            Mnemonic::Eor => "EOR"@,
            Mnemonic::Inc => "INC"@,
            Mnemonic::Inx => "INX"@,
            Mnemonic::Iny => "INY"@,
            Mnemonic::Jmp => "JMP"@,
            Mnemonic::Jsr => "JSR"@,
            Mnemonic::Lda => "LDA"@,
            Mnemonic::Ldx => "LDX"@,
            Mnemonic::Ldy => "LDY"@,
            Mnemonic::Lsr => "LSR"@,
            Mnemonic::Nop => "NOP"@,
            Mnemonic::Ora => "ORA"@,
            Mnemonic::Pha => "PHA"@,
            Mnemonic::Php => "PHP"@,
            Mnemonic::Pla => "PLA"@,
            Mnemonic::Plp => "PLP"@,
            Mnemonic::Rol => "ROL"@,
            Mnemonic::Ror => "ROR"@,
            Mnemonic::Rti => "RTI"@,
            Mnemonic::Rts => "RTS"@,
            Mnemonic::Sbc => "SBC"@,
            Mnemonic::Sec => "SEC"@,
            Mnemonic::Sed => "SED"@,
            Mnemonic::Sei => "SEI"@,
            Mnemonic::Sta => "STA"@,
            Mnemonic::Stx => "STX"@,
            Mnemonic::Sty => "STY"@,
            Mnemonic::Tax => "TAX"@,
            Mnemonic::Tay => "TAY"@,
            Mnemonic::Tsx => "TSX"@,
            Mnemonic::Txa => "TXA"@,
            Mnemonic::Txs => "TXS"@,
            Mnemonic::Tya => "TYA"@,
        }
    }

    pub fn name(&self) -> (r: &'static str)
        ensures
            r@ == self.spec_name(),
    {
        match self {
            Mnemonic::Adc => "ADC",
            Mnemonic::And => "AND",
            Mnemonic::Asl => "ASL",
            Mnemonic::Bcc => "BCC",
            Mnemonic::Bcs => "BCS",
            Mnemonic::Beq => "BEQ",
            Mnemonic::Bit => "BIT",
            Mnemonic::Bmi => "BMI",
            Mnemonic::Bne => "BNE",
            Mnemonic::Bpl => "BPL",
            Mnemonic::Brk => "BRK",
            Mnemonic::Bvc => "BVC",
            Mnemonic::Bvs => "BVS",
            Mnemonic::Clc => "CLC",
            Mnemonic::Cld => "CLD",
            Mnemonic::Cli => "CLI",
            Mnemonic::Clv => "CLV",
            Mnemonic::Cmp => "CMP",
            Mnemonic::Cpx => "CPX",
            Mnemonic::Cpy => "CPY",
            Mnemonic::Dec => "DEC",
            Mnemonic::Dex => "DEX",
            Mnemonic::Dey => "DEY",
            Mnemonic::Eor => "EOR",
            Mnemonic::Inc => "INC",
            Mnemonic::Inx => "INX",
            Mnemonic::Iny => "INY",
            Mnemonic::Jmp => "JMP",
            Mnemonic::Jsr => "JSR",
            Mnemonic::Lda => "LDA",
            Mnemonic::Ldx => "LDX",
            Mnemonic::Ldy => "LDY",
            Mnemonic::Lsr => "LSR",
            Mnemonic::Nop => "NOP",
            Mnemonic::Ora => "ORA",
            Mnemonic::Pha => "PHA",
            Mnemonic::Php => "PHP",
            Mnemonic::Pla => "PLA",
            Mnemonic::Plp => "PLP",
            Mnemonic::Rol => "ROL",
            Mnemonic::Ror => "ROR",
            Mnemonic::Rti => "RTI",
            Mnemonic::Rts => "RTS",
            Mnemonic::Sbc => "SBC",
            Mnemonic::Sec => "SEC",
            Mnemonic::Sed => "SED",
            Mnemonic::Sei => "SEI",
            Mnemonic::Sta => "STA",
            Mnemonic::Stx => "STX",
            Mnemonic::Sty => "STY",
            Mnemonic::Tax => "TAX",
            Mnemonic::Tay => "TAY",
            Mnemonic::Tsx => "TSX",
            Mnemonic::Txa => "TXA",
            Mnemonic::Txs => "TXS",
            Mnemonic::Tya => "TYA",
        }
    }

    /// The store instructions (STA, STX, STY).
    pub open spec fn spec_is_store(self) -> bool {
        self == Mnemonic::Sta || self == Mnemonic::Stx || self == Mnemonic::Sty
    }

    pub fn is_store(&self) -> (r: bool)
        ensures
            r == self.spec_is_store(),
    {
        match self {
            Mnemonic::Sta | Mnemonic::Stx | Mnemonic::Sty => true,
            _ => false,
        }
    }
}

/// The documented 6502 instruction set: mnemonic and addressing mode of
/// each defined opcode, `None` for the undocumented ones.
pub open spec fn opcode_entry(op: u8) -> Option<(Mnemonic, AddressingMode)> {
    match op {
        0x00 => Some((Mnemonic::Brk, AddressingMode::Implied)),
        0x01 => Some((Mnemonic::Ora, AddressingMode::IndexedIndirect)),
        0x05 => Some((Mnemonic::Ora, AddressingMode::ZeroPage)),
        0x06 => Some((Mnemonic::Asl, AddressingMode::ZeroPage)),
        0x08 => Some((Mnemonic::Php, AddressingMode::Implied)),
        0x09 => Some((Mnemonic::Ora, AddressingMode::Immediate)),
        0x0A => Some((Mnemonic::Asl, AddressingMode::Accumulator)),
        0x0D => Some((Mnemonic::Ora, AddressingMode::Absolute)),
        0x0E => Some((Mnemonic::Asl, AddressingMode::Absolute)),
        0x10 => Some((Mnemonic::Bpl, AddressingMode::Relative)),
        0x11 => Some((Mnemonic::Ora, AddressingMode::IndirectIndexed)),
        0x15 => Some((Mnemonic::Ora, AddressingMode::ZeroPageX)),
        0x16 => Some((Mnemonic::Asl, AddressingMode::ZeroPageX)),
        0x18 => Some((Mnemonic::Clc, AddressingMode::Implied)),
        0x19 => Some((Mnemonic::Ora, AddressingMode::AbsoluteY)),
        0x1D => Some((Mnemonic::Ora, AddressingMode::AbsoluteX)),
        0x1E => Some((Mnemonic::Asl, AddressingMode::AbsoluteX)),
        0x20 => Some((Mnemonic::Jsr, AddressingMode::Absolute)),
        0x21 => Some((Mnemonic::And, AddressingMode::IndexedIndirect)),
        0x24 => Some((Mnemonic::Bit, AddressingMode::ZeroPage)),
        0x25 => Some((Mnemonic::And, AddressingMode::ZeroPage)),
        0x26 => Some((Mnemonic::Rol, AddressingMode::ZeroPage)),
        0x28 => Some((Mnemonic::Plp, AddressingMode::Implied)),
        0x29 => Some((Mnemonic::And, AddressingMode::Immediate)),
        0x2A => Some((Mnemonic::Rol, AddressingMode::Accumulator)),
        0x2C => Some((Mnemonic::Bit, AddressingMode::Absolute)),
        0x2D => Some((Mnemonic::And, AddressingMode::Absolute)),
        0x2E => Some((Mnemonic::Rol, AddressingMode::Absolute)),
        0x30 => Some((Mnemonic::Bmi, AddressingMode::Relative)),
        0x31 => Some((Mnemonic::And, AddressingMode::IndirectIndexed)),
        0x35 => Some((Mnemonic::And, AddressingMode::ZeroPageX)),
        0x36 => Some((Mnemonic::Rol, AddressingMode::ZeroPageX)),
        0x38 => Some((Mnemonic::Sec, AddressingMode::Implied)),
        0x39 => Some((Mnemonic::And, AddressingMode::AbsoluteY)),
        0x3D => Some((Mnemonic::And, AddressingMode::AbsoluteX)),
        0x3E => Some((Mnemonic::Rol, AddressingMode::AbsoluteX)),
        0x40 => Some((Mnemonic::Rti, AddressingMode::Implied)),
        0x41 => Some((Mnemonic::Eor, AddressingMode::IndexedIndirect)),
        0x45 => Some((Mnemonic::Eor, AddressingMode::ZeroPage)),
        0x46 => Some((Mnemonic::Lsr, AddressingMode::ZeroPage)),
        0x48 => Some((Mnemonic::Pha, AddressingMode::Implied)),
        0x49 => Some((Mnemonic::Eor, AddressingMode::Immediate)),
        0x4A => Some((Mnemonic::Lsr, AddressingMode::Accumulator)),
        0x4C => Some((Mnemonic::Jmp, AddressingMode::Absolute)),
        0x4D => Some((Mnemonic::Eor, AddressingMode::Absolute)),
        0x4E => Some((Mnemonic::Lsr, AddressingMode::Absolute)),
        0x50 => Some((Mnemonic::Bvc, AddressingMode::Relative)),
        0x51 => Some((Mnemonic::Eor, AddressingMode::IndirectIndexed)),
        0x55 => Some((Mnemonic::Eor, AddressingMode::ZeroPageX)),
        0x56 => Some((Mnemonic::Lsr, AddressingMode::ZeroPageX)),
        0x58 => Some((Mnemonic::Cli, AddressingMode::Implied)),
        0x59 => Some((Mnemonic::Eor, AddressingMode::AbsoluteY)),
        0x5D => Some((Mnemonic::Eor, AddressingMode::AbsoluteX)),
        0x5E => Some((Mnemonic::Lsr, AddressingMode::AbsoluteX)),
        0x60 => Some((Mnemonic::Rts, AddressingMode::Implied)),
        0x61 => Some((Mnemonic::Adc, AddressingMode::IndexedIndirect)),
        0x65 => Some((Mnemonic::Adc, AddressingMode::ZeroPage)),
        0x66 => Some((Mnemonic::Ror, AddressingMode::ZeroPage)),
        0x68 => Some((Mnemonic::Pla, AddressingMode::Implied)),
        0x69 => Some((Mnemonic::Adc, AddressingMode::Immediate)),
        0x6A => Some((Mnemonic::Ror, AddressingMode::Accumulator)),
        0x6C => Some((Mnemonic::Jmp, AddressingMode::Indirect)),
        0x6D => Some((Mnemonic::Adc, AddressingMode::Absolute)),
        0x6E => Some((Mnemonic::Ror, AddressingMode::Absolute)),
        0x70 => Some((Mnemonic::Bvs, AddressingMode::Relative)),
        0x71 => Some((Mnemonic::Adc, AddressingMode::IndirectIndexed)),
        0x75 => Some((Mnemonic::Adc, AddressingMode::ZeroPageX)),
        0x76 => Some((Mnemonic::Ror, AddressingMode::ZeroPageX)),
        0x78 => Some((Mnemonic::Sei, AddressingMode::Implied)),
        0x79 => Some((Mnemonic::Adc, AddressingMode::AbsoluteY)),
        0x7D => Some((Mnemonic::Adc, AddressingMode::AbsoluteX)),
        0x7E => Some((Mnemonic::Ror, AddressingMode::AbsoluteX)),
        0x81 => Some((Mnemonic::Sta, AddressingMode::IndexedIndirect)),
        0x84 => Some((Mnemonic::Sty, AddressingMode::ZeroPage)),
        0x85 => Some((Mnemonic::Sta, AddressingMode::ZeroPage)),
        0x86 => Some((Mnemonic::Stx, AddressingMode::ZeroPage)),
        0x88 => Some((Mnemonic::Dey, AddressingMode::Implied)),
        0x8A => Some((Mnemonic::Txa, AddressingMode::Implied)),
        0x8C => Some((Mnemonic::Sty, AddressingMode::Absolute)),
        0x8D => Some((Mnemonic::Sta, AddressingMode::Absolute)),
        0x8E => Some((Mnemonic::Stx, AddressingMode::Absolute)),
        0x90 => Some((Mnemonic::Bcc, AddressingMode::Relative)),
        0x91 => Some((Mnemonic::Sta, AddressingMode::IndirectIndexed)),
        0x94 => Some((Mnemonic::Sty, AddressingMode::ZeroPageX)),
        0x95 => Some((Mnemonic::Sta, AddressingMode::ZeroPageX)),
        0x96 => Some((Mnemonic::Stx, AddressingMode::ZeroPageY)),
        0x98 => Some((Mnemonic::Tya, AddressingMode::Implied)),
        0x99 => Some((Mnemonic::Sta, AddressingMode::AbsoluteY)),
        0x9A => Some((Mnemonic::Txs, AddressingMode::Implied)),
        0x9D => Some((Mnemonic::Sta, AddressingMode::AbsoluteX)),
        0xA0 => Some((Mnemonic::Ldy, AddressingMode::Immediate)),
        0xA1 => Some((Mnemonic::Lda, AddressingMode::IndexedIndirect)),
        0xA2 => Some((Mnemonic::Ldx, AddressingMode::Immediate)),
        0xA4 => Some((Mnemonic::Ldy, AddressingMode::ZeroPage)),
        0xA5 => Some((Mnemonic::Lda, AddressingMode::ZeroPage)),
        0xA6 => Some((Mnemonic::Ldx, AddressingMode::ZeroPage)),
        0xA8 => Some((Mnemonic::Tay, AddressingMode::Implied)),
        0xA9 => Some((Mnemonic::Lda, AddressingMode::Immediate)),
        0xAA => Some((Mnemonic::Tax, AddressingMode::Implied)),
        0xAC => Some((Mnemonic::Ldy, AddressingMode::Absolute)),
        0xAD => Some((Mnemonic::Lda, AddressingMode::Absolute)),
        0xAE => Some((Mnemonic::Ldx, AddressingMode::Absolute)),
        0xB0 => Some((Mnemonic::Bcs, AddressingMode::Relative)),
        0xB1 => Some((Mnemonic::Lda, AddressingMode::IndirectIndexed)),
        0xB4 => Some((Mnemonic::Ldy, AddressingMode::ZeroPageX)),
        0xB5 => Some((Mnemonic::Lda, AddressingMode::ZeroPageX)),
        0xB6 => Some((Mnemonic::Ldx, AddressingMode::ZeroPageY)),
        0xB8 => Some((Mnemonic::Clv, AddressingMode::Implied)),
        0xB9 => Some((Mnemonic::Lda, AddressingMode::AbsoluteY)),
        0xBA => Some((Mnemonic::Tsx, AddressingMode::Implied)),
        0xBC => Some((Mnemonic::Ldy, AddressingMode::AbsoluteX)),
        0xBD => Some((Mnemonic::Lda, AddressingMode::AbsoluteX)),
        0xBE => Some((Mnemonic::Ldx, AddressingMode::AbsoluteY)),
        0xC0 => Some((Mnemonic::Cpy, AddressingMode::Immediate)),
        0xC1 => Some((Mnemonic::Cmp, AddressingMode::IndexedIndirect)),
        0xC4 => Some((Mnemonic::Cpy, AddressingMode::ZeroPage)),
        0xC5 => Some((Mnemonic::Cmp, AddressingMode::ZeroPage)),
        0xC6 => Some((Mnemonic::Dec, AddressingMode::ZeroPage)),
        0xC8 => Some((Mnemonic::Iny, AddressingMode::Implied)),
        0xC9 => Some((Mnemonic::Cmp, AddressingMode::Immediate)),
        0xCA => Some((Mnemonic::Dex, AddressingMode::Implied)),
        0xCC => Some((Mnemonic::Cpy, AddressingMode::Absolute)),
        0xCD => Some((Mnemonic::Cmp, AddressingMode::Absolute)),
        0xCE => Some((Mnemonic::Dec, AddressingMode::Absolute)),
        0xD0 => Some((Mnemonic::Bne, AddressingMode::Relative)),
        0xD1 => Some((Mnemonic::Cmp, AddressingMode::IndirectIndexed)),
        0xD5 => Some((Mnemonic::Cmp, AddressingMode::ZeroPageX)),
        0xD6 => Some((Mnemonic::Dec, AddressingMode::ZeroPageX)),
        0xD8 => Some((Mnemonic::Cld, AddressingMode::Implied)),
        0xD9 => Some((Mnemonic::Cmp, AddressingMode::AbsoluteY)),
        0xDD => Some((Mnemonic::Cmp, AddressingMode::AbsoluteX)),
        0xDE => Some((Mnemonic::Dec, AddressingMode::AbsoluteX)),
        0xE0 => Some((Mnemonic::Cpx, AddressingMode::Immediate)),
        0xE1 => Some((Mnemonic::Sbc, AddressingMode::IndexedIndirect)),
        0xE4 => Some((Mnemonic::Cpx, AddressingMode::ZeroPage)),
        0xE5 => Some((Mnemonic::Sbc, AddressingMode::ZeroPage)),
        0xE6 => Some((Mnemonic::Inc, AddressingMode::ZeroPage)),
        0xE8 => Some((Mnemonic::Inx, AddressingMode::Implied)),
        0xE9 => Some((Mnemonic::Sbc, AddressingMode::Immediate)),
        0xEA => Some((Mnemonic::Nop, AddressingMode::Implied)),
        0xEC => Some((Mnemonic::Cpx, AddressingMode::Absolute)),
        0xED => Some((Mnemonic::Sbc, AddressingMode::Absolute)),
        0xEE => Some((Mnemonic::Inc, AddressingMode::Absolute)),
        0xF0 => Some((Mnemonic::Beq, AddressingMode::Relative)),
        0xF1 => Some((Mnemonic::Sbc, AddressingMode::IndirectIndexed)),
        0xF5 => Some((Mnemonic::Sbc, AddressingMode::ZeroPageX)),
        0xF6 => Some((Mnemonic::Inc, AddressingMode::ZeroPageX)),
        0xF8 => Some((Mnemonic::Sed, AddressingMode::Implied)),
        0xF9 => Some((Mnemonic::Sbc, AddressingMode::AbsoluteY)),
        0xFD => Some((Mnemonic::Sbc, AddressingMode::AbsoluteX)),
        0xFE => Some((Mnemonic::Inc, AddressingMode::AbsoluteX)),
        _ => None,
    }
}

/// What the decoder needs to know of one opcode.
#[derive(Clone, Copy, Debug, PartialEq, Eq, Structural)]
pub struct OpInfo {
    /// `None` for an undocumented opcode.
    pub mnemonic: Option<Mnemonic>,
    pub mode: AddressingMode,
    /// Encoded length in bytes, opcode included; 0 for an undocumented opcode.
    pub size: u8,
}

pub open spec fn spec_decode_info(op: u8) -> OpInfo {
    match opcode_entry(op) {
        Some((m, mode)) => OpInfo {
            mnemonic: Some(m),
            mode,
            size: (1 + mode.spec_operand_width()) as u8,
        },
        None => OpInfo { mnemonic: None, mode: AddressingMode::Implied, size: 0 },
    }
}

fn lookup_opcode(op: u8) -> (r: Option<(Mnemonic, AddressingMode)>)
    ensures
        r == opcode_entry(op),
{
    match op {
        0x00 => Some((Mnemonic::Brk, AddressingMode::Implied)),
        0x01 => Some((Mnemonic::Ora, AddressingMode::IndexedIndirect)),
        0x05 => Some((Mnemonic::Ora, AddressingMode::ZeroPage)),
        0x06 => Some((Mnemonic::Asl, AddressingMode::ZeroPage)),
        0x08 => Some((Mnemonic::Php, AddressingMode::Implied)),
        0x09 => Some((Mnemonic::Ora, AddressingMode::Immediate)),
        0x0A => Some((Mnemonic::Asl, AddressingMode::Accumulator)),
        0x0D => Some((Mnemonic::Ora, AddressingMode::Absolute)),
        0x0E => Some((Mnemonic::Asl, AddressingMode::Absolute)),
        0x10 => Some((Mnemonic::Bpl, AddressingMode::Relative)),
        0x11 => Some((Mnemonic::Ora, AddressingMode::IndirectIndexed)),
        0x15 => Some((Mnemonic::Ora, AddressingMode::ZeroPageX)),
        0x16 => Some((Mnemonic::Asl, AddressingMode::ZeroPageX)),
        0x18 => Some((Mnemonic::Clc, AddressingMode::Implied)),
        0x19 => Some((Mnemonic::Ora, AddressingMode::AbsoluteY)),
        0x1D => Some((Mnemonic::Ora, AddressingMode::AbsoluteX)),
        0x1E => Some((Mnemonic::Asl, AddressingMode::AbsoluteX)),
        0x20 => Some((Mnemonic::Jsr, AddressingMode::Absolute)),
        0x21 => Some((Mnemonic::And, AddressingMode::IndexedIndirect)),
        0x24 => Some((Mnemonic::Bit, AddressingMode::ZeroPage)),
        0x25 => Some((Mnemonic::And, AddressingMode::ZeroPage)),
        0x26 => Some((Mnemonic::Rol, AddressingMode::ZeroPage)),
        0x28 => Some((Mnemonic::Plp, AddressingMode::Implied)),
        0x29 => Some((Mnemonic::And, AddressingMode::Immediate)),
        0x2A => Some((Mnemonic::Rol, AddressingMode::Accumulator)),
        0x2C => Some((Mnemonic::Bit, AddressingMode::Absolute)),
        0x2D => Some((Mnemonic::And, AddressingMode::Absolute)),
        0x2E => Some((Mnemonic::Rol, AddressingMode::Absolute)),
        0x30 => Some((Mnemonic::Bmi, AddressingMode::Relative)),
        0x31 => Some((Mnemonic::And, AddressingMode::IndirectIndexed)),
        0x35 => Some((Mnemonic::And, AddressingMode::ZeroPageX)),
        0x36 => Some((Mnemonic::Rol, AddressingMode::ZeroPageX)),
        0x38 => Some((Mnemonic::Sec, AddressingMode::Implied)),
        0x39 => Some((Mnemonic::And, AddressingMode::AbsoluteY)),
        0x3D => Some((Mnemonic::And, AddressingMode::AbsoluteX)),
        0x3E => Some((Mnemonic::Rol, AddressingMode::AbsoluteX)),
        0x40 => Some((Mnemonic::Rti, AddressingMode::Implied)),
        0x41 => Some((Mnemonic::Eor, AddressingMode::IndexedIndirect)),
        0x45 => Some((Mnemonic::Eor, AddressingMode::ZeroPage)),
        0x46 => Some((Mnemonic::Lsr, AddressingMode::ZeroPage)),
        0x48 => Some((Mnemonic::Pha, AddressingMode::Implied)),
        0x49 => Some((Mnemonic::Eor, AddressingMode::Immediate)),
        0x4A => Some((Mnemonic::Lsr, AddressingMode::Accumulator)),
        0x4C => Some((Mnemonic::Jmp, AddressingMode::Absolute)),
        0x4D => Some((Mnemonic::Eor, AddressingMode::Absolute)),
        0x4E => Some((Mnemonic::Lsr, AddressingMode::Absolute)),
        0x50 => Some((Mnemonic::Bvc, AddressingMode::Relative)),
        0x51 => Some((Mnemonic::Eor, AddressingMode::IndirectIndexed)),
        0x55 => Some((Mnemonic::Eor, AddressingMode::ZeroPageX)),
        0x56 => Some((Mnemonic::Lsr, AddressingMode::ZeroPageX)),
        0x58 => Some((Mnemonic::Cli, AddressingMode::Implied)),
        0x59 => Some((Mnemonic::Eor, AddressingMode::AbsoluteY)),
        0x5D => Some((Mnemonic::Eor, AddressingMode::AbsoluteX)),
        0x5E => Some((Mnemonic::Lsr, AddressingMode::AbsoluteX)),
        0x60 => Some((Mnemonic::Rts, AddressingMode::Implied)),
        0x61 => Some((Mnemonic::Adc, AddressingMode::IndexedIndirect)),
        0x65 => Some((Mnemonic::Adc, AddressingMode::ZeroPage)),
        0x66 => Some((Mnemonic::Ror, AddressingMode::ZeroPage)),
        0x68 => Some((Mnemonic::Pla, AddressingMode::Implied)),
        0x69 => Some((Mnemonic::Adc, AddressingMode::Immediate)),
        0x6A => Some((Mnemonic::Ror, AddressingMode::Accumulator)),
        0x6C => Some((Mnemonic::Jmp, AddressingMode::Indirect)),
        0x6D => Some((Mnemonic::Adc, AddressingMode::Absolute)),
        0x6E => Some((Mnemonic::Ror, AddressingMode::Absolute)),
        0x70 => Some((Mnemonic::Bvs, AddressingMode::Relative)),
        0x71 => Some((Mnemonic::Adc, AddressingMode::IndirectIndexed)),
        0x75 => Some((Mnemonic::Adc, AddressingMode::ZeroPageX)),
        0x76 => Some((Mnemonic::Ror, AddressingMode::ZeroPageX)),
        0x78 => Some((Mnemonic::Sei, AddressingMode::Implied)),
        0x79 => Some((Mnemonic::Adc, AddressingMode::AbsoluteY)),
        0x7D => Some((Mnemonic::Adc, AddressingMode::AbsoluteX)),
        0x7E => Some((Mnemonic::Ror, AddressingMode::AbsoluteX)),
        0x81 => Some((Mnemonic::Sta, AddressingMode::IndexedIndirect)),
        0x84 => Some((Mnemonic::Sty, AddressingMode::ZeroPage)),
        0x85 => Some((Mnemonic::Sta, AddressingMode::ZeroPage)),
        0x86 => Some((Mnemonic::Stx, AddressingMode::ZeroPage)),
        0x88 => Some((Mnemonic::Dey, AddressingMode::Implied)),
        0x8A => Some((Mnemonic::Txa, AddressingMode::Implied)),
        0x8C => Some((Mnemonic::Sty, AddressingMode::Absolute)),
        0x8D => Some((Mnemonic::Sta, AddressingMode::Absolute)),
        0x8E => Some((Mnemonic::Stx, AddressingMode::Absolute)),
        0x90 => Some((Mnemonic::Bcc, AddressingMode::Relative)),
        0x91 => Some((Mnemonic::Sta, AddressingMode::IndirectIndexed)),
        0x94 => Some((Mnemonic::Sty, AddressingMode::ZeroPageX)),
        0x95 => Some((Mnemonic::Sta, AddressingMode::ZeroPageX)),
        0x96 => Some((Mnemonic::Stx, AddressingMode::ZeroPageY)),
        0x98 => Some((Mnemonic::Tya, AddressingMode::Implied)),
        0x99 => Some((Mnemonic::Sta, AddressingMode::AbsoluteY)),
        0x9A => Some((Mnemonic::Txs, AddressingMode::Implied)),
        0x9D => Some((Mnemonic::Sta, AddressingMode::AbsoluteX)),
        0xA0 => Some((Mnemonic::Ldy, AddressingMode::Immediate)),
        0xA1 => Some((Mnemonic::Lda, AddressingMode::IndexedIndirect)),
        0xA2 => Some((Mnemonic::Ldx, AddressingMode::Immediate)),
        0xA4 => Some((Mnemonic::Ldy, AddressingMode::ZeroPage)),
        0xA5 => Some((Mnemonic::Lda, AddressingMode::ZeroPage)),
        0xA6 => Some((Mnemonic::Ldx, AddressingMode::ZeroPage)),
        0xA8 => Some((Mnemonic::Tay, AddressingMode::Implied)),
        0xA9 => Some((Mnemonic::Lda, AddressingMode::Immediate)),
        0xAA => Some((Mnemonic::Tax, AddressingMode::Implied)),
        0xAC => Some((Mnemonic::Ldy, AddressingMode::Absolute)),
        0xAD => Some((Mnemonic::Lda, AddressingMode::Absolute)),
        0xAE => Some((Mnemonic::Ldx, AddressingMode::Absolute)),
        0xB0 => Some((Mnemonic::Bcs, AddressingMode::Relative)),
        0xB1 => Some((Mnemonic::Lda, AddressingMode::IndirectIndexed)),
        0xB4 => Some((Mnemonic::Ldy, AddressingMode::ZeroPageX)),
        0xB5 => Some((Mnemonic::Lda, AddressingMode::ZeroPageX)),
        0xB6 => Some((Mnemonic::Ldx, AddressingMode::ZeroPageY)),
        0xB8 => Some((Mnemonic::Clv, AddressingMode::Implied)),
        0xB9 => Some((Mnemonic::Lda, AddressingMode::AbsoluteY)),
        0xBA => Some((Mnemonic::Tsx, AddressingMode::Implied)),
        0xBC => Some((Mnemonic::Ldy, AddressingMode::AbsoluteX)),
        0xBD => Some((Mnemonic::Lda, AddressingMode::AbsoluteX)),
        0xBE => Some((Mnemonic::Ldx, AddressingMode::AbsoluteY)),
        0xC0 => Some((Mnemonic::Cpy, AddressingMode::Immediate)),
        0xC1 => Some((Mnemonic::Cmp, AddressingMode::IndexedIndirect)),
        0xC4 => Some((Mnemonic::Cpy, AddressingMode::ZeroPage)),
        0xC5 => Some((Mnemonic::Cmp, AddressingMode::ZeroPage)),
        0xC6 => Some((Mnemonic::Dec, AddressingMode::ZeroPage)),
        0xC8 => Some((Mnemonic::Iny, AddressingMode::Implied)),
        0xC9 => Some((Mnemonic::Cmp, AddressingMode::Immediate)),
        0xCA => Some((Mnemonic::Dex, AddressingMode::Implied)),
        0xCC => Some((Mnemonic::Cpy, AddressingMode::Absolute)),
        0xCD => Some((Mnemonic::Cmp, AddressingMode::Absolute)),
        0xCE => Some((Mnemonic::Dec, AddressingMode::Absolute)),
        0xD0 => Some((Mnemonic::Bne, AddressingMode::Relative)),
        0xD1 => Some((Mnemonic::Cmp, AddressingMode::IndirectIndexed)),
        0xD5 => Some((Mnemonic::Cmp, AddressingMode::ZeroPageX)),
        0xD6 => Some((Mnemonic::Dec, AddressingMode::ZeroPageX)),
        0xD8 => Some((Mnemonic::Cld, AddressingMode::Implied)),
        0xD9 => Some((Mnemonic::Cmp, AddressingMode::AbsoluteY)),
        0xDD => Some((Mnemonic::Cmp, AddressingMode::AbsoluteX)),
        0xDE => Some((Mnemonic::Dec, AddressingMode::AbsoluteX)),
        0xE0 => Some((Mnemonic::Cpx, AddressingMode::Immediate)),
        0xE1 => Some((Mnemonic::Sbc, AddressingMode::IndexedIndirect)),
        0xE4 => Some((Mnemonic::Cpx, AddressingMode::ZeroPage)),
        0xE5 => Some((Mnemonic::Sbc, AddressingMode::ZeroPage)),
        0xE6 => Some((Mnemonic::Inc, AddressingMode::ZeroPage)),
        0xE8 => Some((Mnemonic::Inx, AddressingMode::Implied)),
        0xE9 => Some((Mnemonic::Sbc, AddressingMode::Immediate)),
        0xEA => Some((Mnemonic::Nop, AddressingMode::Implied)),
        0xEC => Some((Mnemonic::Cpx, AddressingMode::Absolute)),
        0xED => Some((Mnemonic::Sbc, AddressingMode::Absolute)),
        0xEE => Some((Mnemonic::Inc, AddressingMode::Absolute)),
        0xF0 => Some((Mnemonic::Beq, AddressingMode::Relative)),
        0xF1 => Some((Mnemonic::Sbc, AddressingMode::IndirectIndexed)),
        0xF5 => Some((Mnemonic::Sbc, AddressingMode::ZeroPageX)),
        0xF6 => Some((Mnemonic::Inc, AddressingMode::ZeroPageX)),
        0xF8 => Some((Mnemonic::Sed, AddressingMode::Implied)),
        0xF9 => Some((Mnemonic::Sbc, AddressingMode::AbsoluteY)),
        0xFD => Some((Mnemonic::Sbc, AddressingMode::AbsoluteX)),
        0xFE => Some((Mnemonic::Inc, AddressingMode::AbsoluteX)),
        _ => None,
    }
}

/// Mnemonic, addressing mode and encoded length of an opcode byte.
pub fn decode_info(op: u8) -> (r: OpInfo)
    ensures
        r == spec_decode_info(op),
{
    match lookup_opcode(op) {
        Some((m, mode)) => OpInfo { mnemonic: Some(m), mode, size: 1 + mode.operand_width() },
        None => OpInfo { mnemonic: None, mode: AddressingMode::Implied, size: 0 },
    }
}

/// Every opcode decodes to a length of at most three bytes; the length is
/// zero exactly for the undocumented opcodes, and otherwise one opcode byte
/// plus the operand width of its addressing mode.
pub proof fn lemma_decode_info_consistent(op: u8)
    ensures
        spec_decode_info(op).size <= 3,
        spec_decode_info(op).size == 0 <==> opcode_entry(op) is None,
        spec_decode_info(op).size == 0 <==> spec_decode_info(op).mnemonic is None,
        spec_decode_info(op).size != 0 ==> spec_decode_info(op).size == 1
            + spec_decode_info(op).mode.spec_operand_width(),
        spec_decode_info(op).mode == AddressingMode::Relative ==> spec_decode_info(op).size == 2,
{
}

} // verus!
