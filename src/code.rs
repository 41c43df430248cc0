use vstd::prelude::*;
use vstd::string::*;

use crate::cpu6502::{
    decode_info, lemma_decode_info_consistent, spec_decode_info, AddressingMode, Mnemonic,
};
use crate::error::Error;
use crate::line::{comment_lines, commentblock, extend_lines, lines_view, InstructionLine, Line, LineView};
use crate::nesfile::{Comment, Segment};
use crate::symtab::{opt_view, BankAddress, Symtab, SymtabModel};
use crate::text::{concat, hex2, hex4, hex_digits};

verus! {

/// What an instruction line shows in place of a mnemonic.
#[derive(Clone, Copy, Debug, PartialEq, Eq, Structural)]
pub enum Op {
    /// A documented instruction.
    Known(Mnemonic),
    /// An undocumented opcode, shown as a raw byte.
    Illegal,
    /// A BIT opcode whose operand bytes carry a label: shown as a raw byte so
    /// that the label starts an instruction of its own.
    BitSkip,
}

/// One decoded instruction.
#[derive(Clone, Copy, Debug, PartialEq, Eq, Structural)]
pub struct Instruction {
    pub addr: u16,
    pub opcode: u8,
    pub mnemonic: Op,
    /// The operand bytes, little-endian; 0 where there are none.
    pub operand: u16,
    pub mode: AddressingMode,
}

/// A range of addresses decoded as code; both bounds inclusive.
#[derive(Debug)]
pub struct CodeRange {
    pub start: u16,
    pub end: u16,
    pub instruction: Vec<Instruction>,
}

/// A displacement byte read as a signed 8-bit number.
pub open spec fn sign_extend(d: u8) -> int {
    if d >= 0x80 {
        d - 0x100
    } else {
        d as int
    }
}

/// Target of a relative branch at `addr`: the address after the two-byte
/// instruction plus the displacement, wrapping in the 16-bit space.
pub open spec fn spec_relative_target(addr: u16, disp: u8) -> u16 {
    ((addr + 2 + sign_extend(disp)) % 0x10000) as u16
}

pub fn relative_target(addr: u16, disp: u8) -> (r: u16)
    ensures
        r == spec_relative_target(addr, disp),
        r as int == (addr + 2 + sign_extend(disp)) % 0x10000,
{
    let t: u32 = if disp >= 0x80 {
        addr as u32 + 2 + disp as u32 + 0xFF00
    } else {
        addr as u32 + 2 + disp as u32
    };
    proof {
        if disp >= 0x80 {
            let x: int = addr + 2 + sign_extend(disp);
            assert(t == x + 0x10000);
            assert((x + 0x10000) % 0x10000 == x % 0x10000) by (nonlinear_arith);
        }
    }
    (t % 0x10000) as u16
}

/// Byte `k` of the instruction at `addr`, read from the image.
pub open spec fn byte_at(rom: Seq<u8>, seg: &Segment, addr: u16, k: int) -> u8 {
    rom[seg.spec_cpu_to_fofs(addr as int) + k]
}

/// The operand that an instruction of `size` bytes at `addr` carries.
pub open spec fn spec_operand(rom: Seq<u8>, seg: &Segment, addr: u16, size: u8) -> u16 {
    if size == 2 {
        byte_at(rom, seg, addr, 1) as u16
    } else if size == 3 {
        (byte_at(rom, seg, addr, 1) + 0x100 * byte_at(rom, seg, addr, 2)) as u16
    } else {
        0
    }
}

/// Number of bytes that an instruction takes in the listing.
pub open spec fn step(ins: Instruction) -> int {
    match ins.mnemonic {
        Op::Known(_) => spec_decode_info(ins.opcode).size as int,
        _ => 1,
    }
}

/// The instruction is what the image holds at its address.
pub open spec fn decoded_at(rom: Seq<u8>, seg: &Segment, ins: Instruction) -> bool {
    let info = spec_decode_info(ins.opcode);
    &&& 0 <= seg.spec_cpu_to_fofs(ins.addr as int) < rom.len()
    &&& ins.opcode == byte_at(rom, seg, ins.addr, 0)
    &&& ins.mode == info.mode
    &&& ins.operand == spec_operand(rom, seg, ins.addr, info.size)
    &&& match ins.mnemonic {
        Op::Known(m) => info.mnemonic == Some(m),
        Op::Illegal => info.mnemonic is None,
        Op::BitSkip => ins.opcode == 0x2C,
    }
}

/// The address that an instruction refers to, for the modes that name one.
pub open spec fn target_of(ins: Instruction) -> Option<u16> {
    match ins.mode {
        AddressingMode::Absolute
        | AddressingMode::AbsoluteX
        | AddressingMode::AbsoluteY
        | AddressingMode::Indirect => Some(ins.operand),
        AddressingMode::Relative => Some(spec_relative_target(ins.addr, ins.operand as u8)),
        _ => None,
    }
}

/// The table holds a symbol for `addr` referred to from `bank`, or the
/// reference is one that gets none.
pub open spec fn registered(m: SymtabModel, bank: Option<i16>, addr: u16) -> bool {
    addr < 0x8000 || m.resolve_bank(bank, addr) is AnyBank || m.table.contains_key(
        (m.resolve_bank(bank, addr).key_bank(), addr),
    )
}

/// `b` holds every symbol of `a` unchanged, and only synthetic ones besides.
pub open spec fn grows_synthetic(a: SymtabModel, b: SymtabModel) -> bool {
    &&& b.same_high_bank(a)
    &&& forall|k: BankAddress| #[trigger]
        a.table.contains_key(k) ==> b.table.contains_key(k) && b.table[k] == a.table[k]
    &&& forall|k: BankAddress| #[trigger]
        b.table.contains_key(k) && !a.table.contains_key(k) ==> b.table[k].synthetic
}

/// Generated name of an address: `L` and four hexadecimal digits.
pub open spec fn synthetic_name(addr: u16) -> Seq<char> {
    "L"@ + hex_digits(addr as nat, 4)
}

fn label_name(addr: u16) -> (r: String)
    ensures
        r@ == synthetic_name(addr),
{
    let mut s = String::from_str("L");
    let h = hex4(addr);
    s.append(h.as_str());
    s
}

/// Registers a synthetic label for a referenced address.
fn register(symtab: &mut Symtab, bank: Option<i16>, addr: u16)
    requires
        old(symtab).wf(),
    ensures
        final(symtab).wf(),
        grows_synthetic(old(symtab)@, final(symtab)@),
        registered(final(symtab)@, bank, addr),
        forall|b: Option<i16>, a: u16| registered(old(symtab)@, b, a) ==> registered(final(symtab)@, b, a),
        final(symtab)@ == register_target(old(symtab)@, bank, addr),
{
    let name = label_name(addr);
    symtab.synthetic_put(bank, addr, name.as_str());
}

/// File offset of byte `k` of the instruction at `addr`, if the image holds it.
pub(crate) fn offset_in_rom(rom: &Vec<u8>, seg: &Segment, addr: u16, k: usize) -> (r: Result<usize, Error>)
    requires
        k <= 2,
    ensures
        r matches Ok(f) ==> f == seg.spec_cpu_to_fofs(addr as int) + k && f < rom@.len(),
        r is Err <==> !(0 <= seg.spec_cpu_to_fofs(addr as int) && seg.spec_cpu_to_fofs(addr as int)
            + k < rom@.len()),
        r is Err ==> r == Err::<usize, Error>(Error::RomOutOfBounds(addr)),
{
    let n = rom.len();
    let f: usize = if seg.file_range.start >= seg.cpu_range.start {
        let d = seg.file_range.start - seg.cpu_range.start;
        if d > usize::MAX - addr as usize {
            return Err(Error::RomOutOfBounds(addr));
        }
        addr as usize + d
    } else {
        let d = seg.cpu_range.start - seg.file_range.start;
        if (addr as usize) < d {
            return Err(Error::RomOutOfBounds(addr));
        }
        addr as usize - d
    };
    if f >= n || n - f <= k {
        return Err(Error::RomOutOfBounds(addr));
    }
    Ok(f + k)
}

/// `a + k`, wrapping in the 16-bit address space.
pub open spec fn add_wrapping(a: u16, k: u16) -> u16 {
    if a + k > 0xFFFF {
        (a + k - 0x10000) as u16
    } else {
        (a + k) as u16
    }
}

fn add_wrapping_exec(a: u16, k: u16) -> (r: u16)
    ensures
        r == add_wrapping(a, k),
{
    if a as u32 + k as u32 > 0xFFFF {
        (a as u32 + k as u32 - 0x10000) as u16
    } else {
        a + k
    }
}

/// The table after registering a synthetic label for a referenced address.
pub open spec fn register_target(m: SymtabModel, bank: Option<i16>, t: u16) -> SymtabModel {
    m.with_table(m.put_table(bank, t, synthetic_name(t), true))
}

/// Decodes the instruction at `addr` against the table `m`: the table after
/// registering its target, and the instruction. A BIT whose operand bytes
/// carry a symbol becomes a one-byte skip.
pub open spec fn decode_one(m: SymtabModel, rom: Seq<u8>, seg: &Segment, addr: u16) -> (Instruction, SymtabModel) {
    let op = byte_at(rom, seg, addr, 0);
    let info = spec_decode_info(op);
    let operand = spec_operand(rom, seg, addr, info.size);
    let m1 = match info.mode {
        AddressingMode::Absolute
        | AddressingMode::AbsoluteX
        | AddressingMode::AbsoluteY
        | AddressingMode::Indirect => register_target(m, seg.prgbank, operand),
        AddressingMode::Relative => register_target(
            m,
            seg.prgbank,
            spec_relative_target(addr, operand as u8),
        ),
        _ => m,
    };
    let skip = op == 0x2C && (m1.lookup(seg.prgbank, add_wrapping(addr, 1), true) is Some || m1.lookup(
        seg.prgbank,
        add_wrapping(addr, 2),
        true,
    ) is Some);
    let mnemonic = if skip {
        Op::BitSkip
    } else {
        match info.mnemonic {
            Some(mn) => Op::Known(mn),
            None => Op::Illegal,
        }
    };
    (Instruction { addr, opcode: op, mnemonic, operand, mode: info.mode }, m1)
}

/// The instructions decoded from `addr` to `end`, each starting where the
/// one before ends, until `end` or the top of the address space is passed;
/// and the table after.
pub open spec fn decode_from(m: SymtabModel, rom: Seq<u8>, seg: &Segment, addr: int, end: int) -> (Seq<Instruction>, SymtabModel)
    decreases 0x10003 - addr,
    via decode_from_decreases
{
    if addr > end || addr < 0 || addr > 0xFFFF {
        (Seq::empty(), m)
    } else {
        let (ins, m1) = decode_one(m, rom, seg, addr as u16);
        let (rest, m2) = decode_from(m1, rom, seg, addr + step(ins), end);
        (seq![ins] + rest, m2)
    }
}

#[via_fn]
proof fn decode_from_decreases(m: SymtabModel, rom: Seq<u8>, seg: &Segment, addr: int, end: int) {
    if !(addr > end || addr < 0 || addr > 0xFFFF) {
        let (ins, m1) = decode_one(m, rom, seg, addr as u16);
        lemma_decode_info_consistent(ins.opcode);
        assert(1 <= step(ins) <= 3);
    }
}

/// Number of operand bytes that an instruction of `size` bytes reads.
pub open spec fn operand_len(size: u8) -> int {
    if size >= 2 {
        size - 1
    } else {
        0
    }
}

/// The instruction at `addr` lies in the image: its opcode byte and the
/// operand bytes that its opcode's length calls for.
pub open spec fn fits_at(rom: Seq<u8>, seg: &Segment, addr: u16) -> bool {
    let f = seg.spec_cpu_to_fofs(addr as int);
    0 <= f < rom.len() && f + operand_len(spec_decode_info(rom[f]).size) < rom.len()
}

/// The first address of the decode walk from `addr` to `end` whose
/// instruction does not lie in the image.
pub open spec fn first_unfit(m: SymtabModel, rom: Seq<u8>, seg: &Segment, addr: int, end: int) -> Option<u16>
    decreases 0x10003 - addr,
    via first_unfit_decreases
{
    if addr > end || addr < 0 || addr > 0xFFFF {
        None
    } else if !fits_at(rom, seg, addr as u16) {
        Some(addr as u16)
    } else {
        let (ins, m1) = decode_one(m, rom, seg, addr as u16);
        first_unfit(m1, rom, seg, addr + step(ins), end)
    }
}

#[via_fn]
proof fn first_unfit_decreases(m: SymtabModel, rom: Seq<u8>, seg: &Segment, addr: int, end: int) {
    if !(addr > end || addr < 0 || addr > 0xFFFF) {
        let (ins, m1) = decode_one(m, rom, seg, addr as u16);
        lemma_decode_info_consistent(ins.opcode);
    }
}

/// Outcome of decoding a range: an error at the first instruction that
/// does not lie in the image.
pub open spec fn decode_result(m: SymtabModel, rom: Seq<u8>, seg: &Segment, start: int, end: int) -> Result<(), Error> {
    match first_unfit(m, rom, seg, start, end) {
        None => Ok(()),
        Some(a) => Err(Error::RomOutOfBounds(a)),
    }
}

/// Decodes the instruction at `addr`, registering the address it refers to.
fn decode_at(rom: &Vec<u8>, segment: &Segment, symtab: &mut Symtab, addr: u16) -> (r: Result<Instruction, Error>)
    requires
        old(symtab).wf(),
    ensures
        final(symtab).wf(),
        grows_synthetic(old(symtab)@, final(symtab)@),
        forall|b: Option<i16>, a: u16| registered(old(symtab)@, b, a) ==> registered(final(symtab)@, b, a),
        r matches Err(e) ==> e == Error::RomOutOfBounds(addr),
        r is Ok <==> fits_at(rom@, segment, addr),
        r matches Ok(ins) ==> (ins, final(symtab)@) == decode_one(old(symtab)@, rom@, segment, addr)
            && decoded_at(rom@, segment, ins) && CodeRange::registered_target(final(symtab)@, segment.prgbank, ins)
            && 1 <= step(ins) <= 3,
{
    let f = match offset_in_rom(rom, segment, addr, 0) {
        Ok(f) => f,
        Err(e) => {
            return Err(e);
        },
    };
    let op = rom[f];
    let info = decode_info(op);
    let mut operand: u16 = 0;
    if info.size == 2 {
        let f1 = match offset_in_rom(rom, segment, addr, 1) {
            Ok(f) => f,
            Err(e) => {
                return Err(e);
            },
        };
        operand = rom[f1] as u16;
    } else if info.size == 3 {
        let f2 = match offset_in_rom(rom, segment, addr, 2) {
            Ok(f) => f,
            Err(e) => {
                return Err(e);
            },
        };
        operand = rom[f2 - 1] as u16 + rom[f2] as u16 * 0x100;
    }
    match info.mode {
        AddressingMode::Absolute
        | AddressingMode::AbsoluteX
        | AddressingMode::AbsoluteY
        | AddressingMode::Indirect => {
            register(symtab, segment.prgbank, operand);
        },
        AddressingMode::Relative => {
            let target = relative_target(addr, operand as u8);
            register(symtab, segment.prgbank, target);
        },
        _ => {},
    }
    let a1 = add_wrapping_exec(addr, 1);
    let a2 = add_wrapping_exec(addr, 2);
    let mnemonic = if op == 0x2C && (symtab.get(segment.prgbank, a1).is_some()
        || symtab.get(segment.prgbank, a2).is_some()) {
        Op::BitSkip
    } else {
        match info.mnemonic {
            Some(m) => Op::Known(m),
            None => Op::Illegal,
        }
    };
    let ins = Instruction { addr, opcode: op, mnemonic, operand, mode: info.mode };
    proof {
        lemma_decode_info_consistent(op);
    }
    Ok(ins)
}

impl CodeRange {
    pub fn new(start: u16, end: u16) -> (r: CodeRange)
        ensures
            r.start == start,
            r.end == end,
            r.instruction@.len() == 0,
    {
        CodeRange { start, end, instruction: Vec::new() }
    }

    /// Decodes the range from the image and appends the instructions,
    /// registering a synthetic label for every address that an instruction
    /// refers to. It fails at the first instruction of the walk that does
    /// not lie in the image.
    pub fn disassemble(&mut self, rom: &Vec<u8>, segment: &Segment, symtab: &mut Symtab) -> (r: Result<
        (),
        Error,
    >)
        requires
            old(symtab).wf(),
        ensures
            final(self).start == old(self).start,
            final(self).end == old(self).end,
            final(symtab).wf(),
            grows_synthetic(old(symtab)@, final(symtab)@),
            r == decode_result(old(symtab)@, rom@, segment, old(self).start as int, old(self).end as int),
            r is Ok ==> final(self).instruction@ == old(self).instruction@ + decode_from(
                old(symtab)@,
                rom@,
                segment,
                old(self).start as int,
                old(self).end as int,
            ).0,
            r is Ok ==> final(symtab)@ == decode_from(
                old(symtab)@,
                rom@,
                segment,
                old(self).start as int,
                old(self).end as int,
            ).1,
            r is Ok ==> complete_chain(
                decode_from(old(symtab)@, rom@, segment, old(self).start as int, old(self).end as int).0,
                old(self).start,
                old(self).end,
                rom@,
                segment,
            ),
            r is Ok ==> targets_registered(
                decode_from(old(symtab)@, rom@, segment, old(self).start as int, old(self).end as int).0,
                final(symtab)@,
                segment.prgbank,
            ),
    {
        let ghost total = decode_from(symtab@, rom@, segment, self.start as int, self.end as int);
        let ghost unfit = first_unfit(symtab@, rom@, segment, self.start as int, self.end as int);
        let mut list: Vec<Instruction> = Vec::new();
        let mut addr = self.start;
        while addr <= self.end
            invariant_except_break
                list@.len() > 0 ==> addr == list@.last().addr + step(list@.last()),
                list@ + decode_from(symtab@, rom@, segment, addr as int, self.end as int).0 == total.0,
                decode_from(symtab@, rom@, segment, addr as int, self.end as int).1 == total.1,
                first_unfit(symtab@, rom@, segment, addr as int, self.end as int) == unfit,
            invariant
                symtab.wf(),
                grows_synthetic(old(symtab)@, symtab@),
                self.start == old(self).start,
                self.end == old(self).end,
                self.instruction@ == old(self).instruction@,
                self.start <= addr,
                list@.len() == 0 ==> addr == self.start,
                chain_prefix(list@, self.start, self.end, rom@, segment),
                targets_registered(list@, symtab@, segment.prgbank),
                total == decode_from(old(symtab)@, rom@, segment, self.start as int, self.end as int),
                unfit == first_unfit(old(symtab)@, rom@, segment, self.start as int, self.end as int),
            ensures
                list@ == total.0,
                symtab@ == total.1,
                unfit is None,
                list@.len() == 0 ==> self.start > self.end,
                list@.len() > 0 ==> list@.last().addr + step(list@.last()) > self.end,
            decreases 0x10000 - addr,
        {
            let ghost before = symtab@;
            let ins = match decode_at(rom, segment, symtab, addr) {
                Ok(ins) => ins,
                Err(e) => {
                    return Err(e);
                },
            };
            let size: u8 = if let Op::Known(_) = ins.mnemonic {
                decode_info(ins.opcode).size
            } else {
                1
            };
            let ghost old_list = list@;
            list.push(ins);
            proof {
                assert(step(ins) == size);
                let rest = decode_from(symtab@, rom@, segment, addr + size, self.end as int);
                assert(decode_from(before, rom@, segment, addr as int, self.end as int) == (seq![ins] + rest.0, rest.1));
                assert(first_unfit(before, rom@, segment, addr as int, self.end as int) == first_unfit(symtab@, rom@, segment, addr + size, self.end as int));
                assert(list@ + rest.0 =~= old_list + (seq![ins] + rest.0));
                assert(decoded_at(rom@, segment, ins));
                lemma_registered_persists(before, symtab@);
                assert forall|j: int| 0 <= j < list@.len() implies #[trigger]
                    CodeRange::registered_target(symtab@, segment.prgbank, list@[j]) by {
                    if j < old_list.len() {
                        assert(list@[j] == old_list[j]);
                        assert(CodeRange::registered_target(before, segment.prgbank, old_list[j]));
                    }
                }
                assert forall|j: int| 0 <= j < list@.len() - 1 implies #[trigger]
                    list@[j + 1].addr == list@[j].addr + step(list@[j]) by {
                    if j + 1 < old_list.len() {
                        assert(list@[j] == old_list[j]);
                        assert(list@[j + 1] == old_list[j + 1]);
                    } else {
                        assert(list@[j] == old_list[j]);
                    }
                }
            }
            if addr as u32 + size as u32 > 0xFFFF {
                break;
            }
            addr = addr + size as u16;
        }
        self.instruction.append(&mut list);
        Ok(())
    }

    /// The instruction refers to no address, or its target has a symbol.
    pub open spec fn registered_target(m: SymtabModel, bank: Option<i16>, ins: Instruction) -> bool {
        target_of(ins) matches Some(t) ==> registered(m, bank, t)
    }

    /// The range's instructions are its complete decode chain.
    pub open spec fn decoded_chain(&self, rom: Seq<u8>, seg: &Segment) -> bool {
        complete_chain(self.instruction@, self.start, self.end, rom, seg)
    }
}

/// The instructions are a chain from `start`, each as the image holds it and
/// none past `end`.
pub open spec fn chain_prefix(list: Seq<Instruction>, start: u16, end: u16, rom: Seq<u8>, seg: &Segment) -> bool {
    &&& list.len() > 0 ==> list[0].addr == start
    &&& forall|j: int| 0 <= j < list.len() ==> #[trigger] decoded_at(rom, seg, list[j])
    &&& forall|j: int| 0 <= j < list.len() ==> #[trigger] list[j].addr <= end
    &&& forall|j: int|
        0 <= j < list.len() - 1 ==> #[trigger] list[j + 1].addr == list[j].addr + step(list[j])
    &&& forall|j: int| 0 <= j < list.len() ==> #[trigger] step(list[j]) >= 1
}

/// The chain from `start` reaches past `end`, or past the top of the
/// address space.
pub open spec fn complete_chain(list: Seq<Instruction>, start: u16, end: u16, rom: Seq<u8>, seg: &Segment) -> bool {
    &&& chain_prefix(list, start, end, rom, seg)
    &&& start <= end ==> list.len() > 0
    &&& list.len() > 0 ==> list.last().addr + step(list.last()) > end
}

/// Every address that an instruction refers to has a symbol in `m`, or is
/// one that gets none.
pub open spec fn targets_registered(list: Seq<Instruction>, m: SymtabModel, bank: Option<i16>) -> bool {
    forall|j: int| 0 <= j < list.len() ==> #[trigger] CodeRange::registered_target(m, bank, list[j])
}

/// The instructions that the decode walk yields.
pub open spec fn decode_from_of(m: SymtabModel, rom: Seq<u8>, seg: &Segment, start: u16, end: u16) -> Seq<Instruction> {
    decode_from(m, rom, seg, start as int, end as int).0
}

/// Decoding a relative branch registers a synthetic label at the branch's
/// target, the address after the instruction plus the signed displacement,
/// where that slot was free and the target gets a symbol at all.
pub proof fn lemma_branch_target_registered(m: SymtabModel, rom: Seq<u8>, seg: &Segment, addr: u16)
    requires
        spec_decode_info(byte_at(rom, seg, addr, 0)).mode == AddressingMode::Relative,
        spec_relative_target(addr, byte_at(rom, seg, addr, 1)) >= 0x8000,
        !(m.resolve_bank(seg.prgbank, spec_relative_target(addr, byte_at(rom, seg, addr, 1))) is AnyBank),
        !m.table.contains_key(
            (
                m.resolve_bank(seg.prgbank, spec_relative_target(addr, byte_at(rom, seg, addr, 1))).key_bank(),
                spec_relative_target(addr, byte_at(rom, seg, addr, 1)),
            ),
        ),
    ensures
        ({
            let t = spec_relative_target(addr, byte_at(rom, seg, addr, 1));
            let sel = m.resolve_bank(seg.prgbank, t);
            let (ins, m1) = decode_one(m, rom, seg, addr);
            &&& target_of(ins) == Some(t)
            &&& m1.table[(sel.key_bank(), t)] == crate::symtab::SymbolModel {
                name: crate::symtab::qualified_name(sel, synthetic_name(t)),
                synthetic: true,
            }
        }),
{
    let op = byte_at(rom, seg, addr, 0);
    lemma_decode_info_consistent(op);
    let d = byte_at(rom, seg, addr, 1);
    assert((d as u16) as u8 == d) by (bit_vector);
}

/// Rendering a relative branch shows its target address and names it by
/// the target's own label; a label without an offset, in a concrete bank,
/// is confirmed.
pub proof fn lemma_branch_label_promoted(m: SymtabModel, seg: &Segment, ins: Instruction)
    requires
        ins.mode == AddressingMode::Relative,
        !(m.resolve_bank(seg.prgbank, symbol_addr(ins)) is AnyBank),
        m.lookup_name(seg.prgbank, symbol_addr(ins), false) matches Some(n) && !crate::symtab::has_offset(n),
    ensures
        symbol_addr(ins) == spec_relative_target(ins.addr, ins.operand as u8),
        operand_text(ins) == "$"@ + hex_digits(symbol_addr(ins) as nat, 4),
        operand_symbol(m, seg.prgbank, ins) == m.lookup_name(seg.prgbank, symbol_addr(ins), false),
        ({
            let k = (m.resolve_bank(seg.prgbank, symbol_addr(ins)).key_bank(), symbol_addr(ins));
            after_instruction(m, seg, ins).table.contains_key(k) && !after_instruction(m, seg, ins).table[k].synthetic
        }),
{
}

/// A symbol that a table holds stays in a table that grew from it.
pub proof fn lemma_registered_persists(a: SymtabModel, b: SymtabModel)
    requires
        grows_synthetic(a, b),
    ensures
        forall|bank: Option<i16>, t: u16| #[trigger] registered(a, bank, t) ==> registered(b, bank, t),
{
}

/// `a:` before an absolute address below 0x100, which forces the
/// absolute encoding.
pub open spec fn abs_prefix(addr: u16) -> Seq<char> {
    if addr < 0x100 {
        "a:"@
    } else {
        Seq::empty()
    }
}

/// Whether the instruction is a documented store.
pub open spec fn is_store(ins: Instruction) -> bool {
    ins.mnemonic matches Op::Known(m) && m.spec_is_store()
}

/// The address whose symbol names the operand.
pub open spec fn symbol_addr(ins: Instruction) -> u16 {
    if ins.mode == AddressingMode::Relative {
        spec_relative_target(ins.addr, ins.operand as u8)
    } else {
        ins.operand
    }
}

/// The symbol that names the operand. Stores to 0x8000 and above are
/// taken as writes to mapper hardware and look for a symbol outside any
/// bank; branch targets are named only by a label of their own.
pub open spec fn operand_symbol(m: SymtabModel, bank: Option<i16>, ins: Instruction) -> Option<Seq<char>> {
    match ins.mode {
        AddressingMode::Absolute | AddressingMode::AbsoluteX | AddressingMode::AbsoluteY => {
            if is_store(ins) && ins.operand >= 0x8000 {
                m.lookup_name(None, ins.operand, true)
            } else {
                m.offset_lookup(bank, ins.operand)
            }
        },
        AddressingMode::Indirect
        | AddressingMode::IndexedIndirect
        | AddressingMode::IndirectIndexed
        | AddressingMode::ZeroPage
        | AddressingMode::ZeroPageX
        | AddressingMode::ZeroPageY => m.offset_lookup(bank, ins.operand),
        AddressingMode::Relative => m.lookup_name(bank, symbol_addr(ins), false),
        _ => None,
    }
}

/// The symbol as the line shows it.
pub open spec fn shown_symbol(sym: Option<Seq<char>>, ins: Instruction) -> Option<Seq<char>> {
    match sym {
        Some(s) => match ins.mode {
            AddressingMode::Absolute | AddressingMode::AbsoluteX | AddressingMode::AbsoluteY => Some(
                abs_prefix(ins.operand) + s,
            ),
            _ => Some(s),
        },
        None => None,
    }
}

/// The operand as a number.
pub open spec fn operand_text(ins: Instruction) -> Seq<char> {
    match ins.mode {
        AddressingMode::Absolute | AddressingMode::AbsoluteX | AddressingMode::AbsoluteY => abs_prefix(
            ins.operand,
        ) + "$"@ + hex_digits(ins.operand as nat, 4),
        AddressingMode::Indirect | AddressingMode::Relative => "$"@ + hex_digits(
            symbol_addr(ins) as nat,
            4,
        ),
        AddressingMode::Accumulator | AddressingMode::Implied => Seq::empty(),
        _ => "$"@ + hex_digits((ins.operand % 0x100) as nat, 2),
    }
}

/// The instruction's bytes in hexadecimal.
pub open spec fn hex_text(ins: Instruction) -> Seq<char> {
    let op = hex_digits(ins.opcode as nat, 2);
    let lo = hex_digits((ins.operand % 0x100) as nat, 2);
    match ins.mode {
        AddressingMode::Absolute
        | AddressingMode::AbsoluteX
        | AddressingMode::AbsoluteY
        | AddressingMode::Indirect => op + lo + hex_digits((ins.operand / 0x100) as nat, 2),
        AddressingMode::Accumulator | AddressingMode::Implied => op,
        _ => op + lo,
    }
}

/// The mnemonic with its operand template.
pub open spec fn mnemonic_text(ins: Instruction) -> Seq<char> {
    match ins.mnemonic {
        Op::Known(m) => m.spec_name() + ins.mode.spec_template(),
        Op::Illegal => ".byte $"@ + hex_digits(ins.opcode as nat, 2),
        Op::BitSkip => ".byte $2C ; BIT used as a skip"@,
    }
}

/// A label token where a name is given.
pub open spec fn label_lines(name: Option<Seq<char>>) -> Seq<LineView> {
    match name {
        Some(n) => seq![LineView::Label(n)],
        None => Seq::empty(),
    }
}

/// An instruction token, with the comment lines around it that the address's
/// annotation holds.
pub open spec fn annotated(
    c: Option<Comment>,
    mnemonic: Seq<char>,
    operand: Seq<char>,
    symbol: Option<Seq<char>>,
    addr: u16,
    hex: Seq<char>,
) -> Seq<LineView> {
    match c {
        Some(c) => comment_lines(c.header@) + seq![
            LineView::Instruction {
                mnemonic,
                operand,
                symbol,
                addr,
                hex,
                comment: c.comment@,
            },
        ] + comment_lines(c.footer@),
        None => seq![
            LineView::Instruction { mnemonic, operand, symbol, addr, hex, comment: Seq::empty() },
        ],
    }
}

/// The table after rendering an instruction: the symbol that names its
/// operand is promoted.
pub open spec fn after_instruction(m: SymtabModel, seg: &Segment, ins: Instruction) -> SymtabModel {
    m.with_table(m.promote_table(seg.prgbank, symbol_addr(ins), operand_symbol(m, seg.prgbank, ins)))
}

/// The tokens of one instruction rendered against the table `m`: its
/// label, looked up after the promotion, then its annotated line.
pub open spec fn instruction_lines(m: SymtabModel, seg: &Segment, ins: Instruction) -> Seq<LineView> {
    label_lines(after_instruction(m, seg, ins).lookup_name(seg.prgbank, ins.addr, false)) + annotated(
        seg.spec_comment_at(ins.addr),
        mnemonic_text(ins),
        operand_text(ins),
        shown_symbol(operand_symbol(m, seg.prgbank, ins), ins),
        ins.addr,
        hex_text(ins),
    )
}

/// Tokens of a list of instructions rendered in order, and the table after.
pub open spec fn range_lines(m: SymtabModel, seg: &Segment, list: Seq<Instruction>) -> (Seq<LineView>, SymtabModel)
    decreases list.len(),
{
    if list.len() == 0 {
        (Seq::empty(), m)
    } else {
        let (lines, m1) = range_lines(m, seg, list.drop_last());
        (lines + instruction_lines(m1, seg, list.last()), after_instruction(m1, seg, list.last()))
    }
}

fn mnemonic_string(ins: &Instruction) -> (r: String)
    ensures
        r@ == mnemonic_text(*ins),
{
    match ins.mnemonic {
        Op::Known(m) => concat(m.name(), ins.mode.template()),
        Op::Illegal => {
            let h = hex2(ins.opcode);
            concat(".byte $", h.as_str())
        },
        Op::BitSkip => String::from_str(".byte $2C ; BIT used as a skip"),
    }
}

fn operand_string(ins: &Instruction) -> (r: String)
    ensures
        r@ == operand_text(*ins),
{
    match ins.mode {
        AddressingMode::Absolute | AddressingMode::AbsoluteX | AddressingMode::AbsoluteY => {
            let h = hex4(ins.operand);
            let d = concat("$", h.as_str());
            if ins.operand < 0x100 {
                concat("a:", d.as_str())
            } else {
                proof {
                    assert(abs_prefix(ins.operand) + d@ =~= d@);
                }
                d
            }
        },
        AddressingMode::Indirect => {
            let h = hex4(ins.operand);
            concat("$", h.as_str())
        },
        AddressingMode::Relative => {
            let h = hex4(relative_target(ins.addr, ins.operand as u8));
            concat("$", h.as_str())
        },
        AddressingMode::Accumulator | AddressingMode::Implied => String::new(),
        _ => {
            let h = hex2((ins.operand % 0x100) as u8);
            concat("$", h.as_str())
        },
    }
}

fn hex_string(ins: &Instruction) -> (r: String)
    ensures
        r@ == hex_text(*ins),
{
    let op = hex2(ins.opcode);
    match ins.mode {
        AddressingMode::Accumulator | AddressingMode::Implied => op,
        _ => {
            let lo = hex2((ins.operand % 0x100) as u8);
            let s = concat(op.as_str(), lo.as_str());
            match ins.mode {
                AddressingMode::Absolute
                | AddressingMode::AbsoluteX
                | AddressingMode::AbsoluteY
                | AddressingMode::Indirect => {
                    let hi = hex2((ins.operand / 0x100) as u8);
                    concat(s.as_str(), hi.as_str())
                },
                _ => s,
            }
        },
    }
}

/// Tokens of an instruction line with the annotation of its address.
pub fn annotated_lines(
    c: Option<&Comment>,
    mnemonic: String,
    operand: String,
    symbol: Option<String>,
    addr: u16,
    hex: String,
) -> (r: Vec<Line>)
    ensures
        lines_view(r@) == annotated(
            match c {
                Some(c) => Some(*c),
                None => None,
            },
            mnemonic@,
            operand@,
            opt_view(symbol),
            addr,
            hex@,
        ),
{
    let ghost sv = opt_view(symbol);
    let mut r: Vec<Line> = Vec::new();
    match c {
        Some(c) => {
            extend_lines(&mut r, commentblock(c.header.as_str()));
            let ghost before = r@;
            r.push(
                Line::Instruction(
                    InstructionLine { mnemonic, operand, symbol, addr, hex, comment: c.comment.clone() },
                ),
            );
            assert(lines_view(r@) =~= lines_view(before).push(r@.last()@));
            extend_lines(&mut r, commentblock(c.footer.as_str()));
        },
        None => {
            r.push(
                Line::Instruction(
                    InstructionLine { mnemonic, operand, symbol, addr, hex, comment: String::new() },
                ),
            );
        },
    }
    proof {
        let c2 = match c {
            Some(c) => Some(*c),
            None => None,
        };
        assert(lines_view(r@) =~= annotated(c2, mnemonic@, operand@, sv, addr, hex@));
    }
    r
}

impl CodeRange {
    /// Tokens of one instruction: its label, its annotation, and the line
    /// itself. The symbol that names the operand is promoted.
    pub fn to_text_one(&self, i: &Instruction, segment: &Segment, symtab: &mut Symtab) -> (r: Vec<Line>)
        requires
            old(symtab).wf(),
        ensures
            final(symtab).wf(),
            final(symtab)@ == after_instruction(old(symtab)@, segment, *i),
            lines_view(r@) == instruction_lines(old(symtab)@, segment, *i),
    {
        let bank = segment.prgbank;
        let symbol: Option<String> = match i.mode {
            AddressingMode::Absolute | AddressingMode::AbsoluteX | AddressingMode::AbsoluteY => {
                let is_st = match i.mnemonic {
                    Op::Known(m) => m.is_store(),
                    _ => false,
                };
                if is_st && i.operand >= 0x8000 {
                    symtab.get(None, i.operand)
                } else {
                    symtab.get_offset(bank, i.operand)
                }
            },
            AddressingMode::Indirect
            | AddressingMode::IndexedIndirect
            | AddressingMode::IndirectIndexed
            | AddressingMode::ZeroPage
            | AddressingMode::ZeroPageX
            | AddressingMode::ZeroPageY => symtab.get_offset(bank, i.operand),
            AddressingMode::Relative => {
                let target = relative_target(i.addr, i.operand as u8);
                symtab.get_label(bank, target)
            },
            _ => None,
        };
        let target = if let AddressingMode::Relative = i.mode {
            relative_target(i.addr, i.operand as u8)
        } else {
            i.operand
        };
        match &symbol {
            Some(s) => symtab.promote(bank, target, Some(s.as_str())),
            None => symtab.promote(bank, target, None),
        }
        let shown: Option<String> = match symbol {
            Some(s) => match i.mode {
                AddressingMode::Absolute | AddressingMode::AbsoluteX | AddressingMode::AbsoluteY => {
                    if i.operand < 0x100 {
                        Some(concat("a:", s.as_str()))
                    } else {
                        proof {
                            assert(abs_prefix(i.operand) + s@ =~= s@);
                        }
                        Some(s)
                    }
                },
                _ => Some(s),
            },
            None => None,
        };
        let mut r: Vec<Line> = Vec::new();
        if let Some(l) = symtab.get_label(bank, i.addr) {
            r.push(Line::Label(l));
        }
        let ghost head = r@;
        assert(lines_view(head) =~= label_lines(symtab@.lookup_name(bank, i.addr, false)));
        let body = annotated_lines(
            segment.comment_at(i.addr),
            mnemonic_string(i),
            operand_string(i),
            shown,
            i.addr,
            hex_string(i),
        );
        extend_lines(&mut r, body);
        r
    }

    /// Tokens of every instruction of the range, in order.
    pub fn to_text(&self, segment: &Segment, symtab: &mut Symtab) -> (r: Vec<Line>)
        requires
            old(symtab).wf(),
        ensures
            final(symtab).wf(),
            (lines_view(r@), final(symtab)@) == range_lines(old(symtab)@, segment, self.instruction@),
    {
        let mut r: Vec<Line> = Vec::new();
        let mut k: usize = 0;
        while k < self.instruction.len()
            invariant
                symtab.wf(),
                k <= self.instruction@.len(),
                (lines_view(r@), symtab@) == range_lines(
                    old(symtab)@,
                    segment,
                    self.instruction@.take(k as int),
                ),
            decreases self.instruction@.len() - k,
        {
            let lines = self.to_text_one(&self.instruction[k], segment, symtab);
            extend_lines(&mut r, lines);
            assert(self.instruction@.take(k as int + 1).drop_last() == self.instruction@.take(k as int));
            k += 1;
        }
        assert(self.instruction@.take(k as int) == self.instruction@);
        r
    }
}

} // verus!
