use nesdis::code::{relative_target, CodeRange, Instruction, Op};
use nesdis::cpu6502::{decode_info, AddressingMode, Mnemonic};
use nesdis::data::{DataBytesRange, DataWordsRange};
use nesdis::error::Error;
use nesdis::line::{commentblock, Line};
use nesdis::nesfile::{AddrRange, Comment, DataRange, NesFile, Segment};
use nesdis::output::{
    comment, directive, document, equate, instruction, label, render, symbolref, Format,
};
use nesdis::rom::{Range, Rom};
use nesdis::symtab::{BankSel, Symtab};

fn segment(
    prgbank: Option<i16>,
    file: (usize, usize),
    cpu: (usize, usize),
    range: Vec<DataRange>,
) -> Segment {
    Segment {
        name: String::from("CODE"),
        prgbank,
        chrbank: None,
        header: String::new(),
        footer: String::new(),
        file_range: AddrRange { start: file.0, end: file.1 },
        cpu_range: AddrRange { start: cpu.0, end: cpu.1 },
        range,
        address: Vec::new(),
    }
}

fn high_symtab() -> Symtab {
    let mut s = Symtab::new();
    s.set_highbank(AddrRange { start: 0xC000, end: 0xFFFF }, Some(1));
    s
}

fn instruction_line(l: &Line) -> (String, String, Option<String>, u16, String, String) {
    match l {
        Line::Instruction(i) => (
            i.mnemonic.clone(),
            i.operand.clone(),
            i.symbol.clone(),
            i.addr,
            i.hex.clone(),
            i.comment.clone(),
        ),
        other => panic!("not an instruction: {:?}", other),
    }
}

#[test]
fn decode_info_documented_opcodes() {
    let lda = decode_info(0xA9);
    assert_eq!(lda.mnemonic, Some(Mnemonic::Lda));
    assert_eq!(lda.mode, AddressingMode::Immediate);
    assert_eq!(lda.size, 2);
    let jmp = decode_info(0x4C);
    assert_eq!(jmp.mnemonic, Some(Mnemonic::Jmp));
    assert_eq!(jmp.mode, AddressingMode::Absolute);
    assert_eq!(jmp.size, 3);
    let ind = decode_info(0x6C);
    assert_eq!(ind.mode, AddressingMode::Indirect);
    assert_eq!(ind.size, 3);
    let bne = decode_info(0xD0);
    assert_eq!(bne.mnemonic, Some(Mnemonic::Bne));
    assert_eq!(bne.mode, AddressingMode::Relative);
    assert_eq!(bne.size, 2);
    let asl = decode_info(0x0A);
    assert_eq!(asl.mode, AddressingMode::Accumulator);
    assert_eq!(asl.size, 1);
    let ldx = decode_info(0xB6);
    assert_eq!(ldx.mode, AddressingMode::ZeroPageY);
    let sta = decode_info(0x91);
    assert_eq!(sta.mnemonic, Some(Mnemonic::Sta));
    assert_eq!(sta.mode, AddressingMode::IndirectIndexed);
    assert_eq!(decode_info(0x00).mnemonic, Some(Mnemonic::Brk));
    assert_eq!(decode_info(0x00).size, 1);
}

#[test]
fn decode_info_undocumented_opcodes() {
    for op in [0x02u8, 0x03, 0x04, 0x0B, 0x1A, 0x80, 0x89, 0x9C, 0x9E, 0xFF] {
        let info = decode_info(op);
        assert_eq!(info.size, 0, "opcode {:02X}", op);
        assert_eq!(info.mnemonic, None);
    }
}

#[test]
fn decode_info_consistent_over_all_opcodes() {
    let mut documented = 0;
    for op in 0..=255u8 {
        let info = decode_info(op);
        assert!(info.size <= 3);
        if info.size == 0 {
            assert!(info.mnemonic.is_none());
        } else {
            documented += 1;
            assert_eq!(info.size, 1 + info.mode.operand_width());
        }
    }
    assert_eq!(documented, 151);
}

#[test]
fn mnemonic_names() {
    assert_eq!(Mnemonic::Lda.name(), "LDA");
    assert_eq!(Mnemonic::Txs.name(), "TXS");
    assert!(Mnemonic::Sty.is_store());
    assert!(!Mnemonic::Lda.is_store());
}

#[test]
fn relative_target_backward_branch() {
    assert_eq!(relative_target(0x8010, 0xFE), 0x8010);
}

#[test]
fn relative_target_forward_and_wrapping() {
    assert_eq!(relative_target(0x8000, 0x10), 0x8012);
    assert_eq!(relative_target(0x8000, 0x80), 0x7F82);
    assert_eq!(relative_target(0xFFFF, 0x05), 0x0006);
    assert_eq!(relative_target(0x0000, 0xF0), 0xFFF2);
}

#[test]
fn address_mapper_round_trip() {
    let s = segment(None, (0x10, 0x400F), (0x8000, 0xBFFF), Vec::new());
    for fofs in [0x10usize, 0x11, 0x2000, 0x400F] {
        let a = s.fofs_to_cpu(fofs);
        assert_eq!(s.cpu_to_fofs(a), fofs);
    }
    assert_eq!(s.fofs_to_cpu(0x10), 0x8000);
    assert_eq!(s.cpu_to_fofs(0xBFFF), 0x400F);
}

#[test]
fn resolve_bank_with_high_bank() {
    let s = high_symtab();
    assert_eq!(s.resolve_bank(Some(1), 0xC100), BankSel::Bank(1));
    assert_eq!(s.resolve_bank(Some(1), 0x9000), BankSel::AnyBank);
    assert_eq!(s.resolve_bank(Some(2), 0xC100), BankSel::Bank(1));
    assert_eq!(s.resolve_bank(Some(2), 0x9000), BankSel::Bank(2));
    assert_eq!(s.resolve_bank(Some(1), 0x0010), BankSel::Global);
    assert_eq!(s.resolve_bank(None, 0x9000), BankSel::Global);
}

#[test]
fn promote_synthetic_twice() {
    let mut s = high_symtab();
    s.synthetic_put(Some(2), 0x9000, "Foo");
    // A synthetic symbol is no base for an offset.
    assert_eq!(s.get_offset(Some(2), 0x9001), None);
    assert_eq!(s.get_offset(Some(2), 0x9000), Some(String::from("bank2_Foo")));
    s.promote(Some(2), 0x9000, Some("bank2_Foo"));
    assert_eq!(s.get_offset(Some(2), 0x9001), Some(String::from("bank2_Foo+1")));
    s.promote(Some(2), 0x9000, Some("bank2_Foo"));
    assert_eq!(s.get_offset(Some(2), 0x9001), Some(String::from("bank2_Foo+1")));
    assert_eq!(s.get_label(Some(2), 0x9000), Some(String::from("bank2_Foo")));
}

#[test]
fn promote_ignores_offset_names_and_missing_symbols() {
    let mut s = Symtab::new();
    s.synthetic_put(None, 0x9000, "L9000");
    s.promote(None, 0x9000, Some("L9000+1"));
    assert_eq!(s.get_offset(None, 0x9001), None);
    s.promote(None, 0x9000, None);
    assert_eq!(s.get_offset(None, 0x9001), None);
    s.promote(None, 0x9100, Some("Nothing"));
    assert_eq!(s.get(None, 0x9100), None);
}

#[test]
fn offset_fallback_one_past() {
    let mut s = high_symtab();
    s.put(Some(2), 0x9000, "Foo");
    assert_eq!(s.get_offset(Some(2), 0x9001), Some(String::from("bank2_Foo+1")));
    assert_eq!(s.get_offset(Some(2), 0x8FFF), Some(String::from("bank2_Foo-1")));
    assert_eq!(s.get_offset(Some(2), 0x9002), None);
}

#[test]
fn offset_fallback_unbanked() {
    let mut s = Symtab::new();
    s.put(None, 0x9000, "Foo");
    assert_eq!(s.get_offset(None, 0x9001), Some(String::from("Foo+1")));
}

#[test]
fn put_first_declaration_wins() {
    let mut s = Symtab::new();
    s.put(None, 0x2000, "PPUCTRL");
    s.put(None, 0x2000, "Other");
    assert_eq!(s.get(None, 0x2000), Some(String::from("PPUCTRL")));
}

#[test]
fn put_in_ambiguous_bank_is_dropped() {
    let mut s = high_symtab();
    s.put(Some(1), 0x9000, "Lost");
    assert_eq!(s.get_label(Some(3), 0x9000), None);
    assert_eq!(s.get_globals(), Vec::new());
}

#[test]
fn synthetic_put_below_0x8000_is_dropped() {
    let mut s = Symtab::new();
    s.synthetic_put(None, 0x0300, "L0300");
    assert_eq!(s.get(None, 0x0300), None);
}

#[test]
fn declared_wins_over_synthetic() {
    let mut s = Symtab::new();
    s.put(None, 0x9000, "Reset");
    s.synthetic_put(None, 0x9000, "L9000");
    assert_eq!(s.get(None, 0x9000), Some(String::from("Reset")));
}

#[test]
fn global_symbol_shadows_synthetic_local() {
    let mut s = high_symtab();
    s.synthetic_put(Some(2), 0x9000, "L9000");
    s.put(None, 0x9000, "Global");
    assert_eq!(s.get(Some(2), 0x9000), Some(String::from("Global")));
    assert_eq!(s.get_label(Some(2), 0x9000), Some(String::from("bank2_L9000")));
}

#[test]
fn any_bank_lookup_takes_lowest_bank() {
    let mut s = high_symtab();
    s.put(Some(5), 0x9000, "Five");
    s.put(Some(3), 0x9000, "Three");
    assert_eq!(s.get(Some(1), 0x9000), Some(String::from("bank3_Three")));
    s.put(None, 0x9000, "NoBank");
    assert_eq!(s.get(Some(1), 0x9000), Some(String::from("NoBank")));
}

#[test]
fn negative_bank_name() {
    let mut s = Symtab::new();
    s.put(Some(-3), 0x9000, "Neg");
    assert_eq!(s.get_label(Some(-3), 0x9000), Some(String::from("bank-3_Neg")));
}

#[test]
fn globals_sorted_by_address() {
    let mut s = Symtab::new();
    s.put(None, 0x4016, "JOY1");
    s.put(None, 0x2000, "PPUCTRL");
    s.put(Some(0), 0x9000, "Banked");
    s.put(None, 0x2001, "PPUMASK");
    assert_eq!(
        s.get_globals(),
        vec![
            (0x2000, String::from("PPUCTRL")),
            (0x2001, String::from("PPUMASK")),
            (0x4016, String::from("JOY1")),
        ]
    );
}

#[test]
fn overlapping_ranges_are_an_error() {
    let s = segment(
        None,
        (0, 0x3FFF),
        (0x8000, 0xBFFF),
        vec![DataRange::Bytes(0x8000, 0x8010), DataRange::Code(0x8005, 0x8020)],
    );
    assert_eq!(s.get_range(0x8008), Err(Error::OverlappingRanges(0x8008)));
    assert_eq!(s.get_range(0x8002), Ok(Some(&DataRange::Bytes(0x8000, 0x8010))));
    assert_eq!(s.get_range(0x8015), Ok(Some(&DataRange::Code(0x8005, 0x8020))));
    assert_eq!(s.get_range(0x9000), Ok(None));
}

#[test]
fn overlapping_ranges_stop_processing() {
    let s = segment(
        None,
        (0, 0x3F),
        (0x8000, 0x803F),
        vec![DataRange::Code(0x8000, 0x8003), DataRange::Bytes(0x8012, 0x8017), DataRange::Words(0x8012, 0x8013)],
    );
    let info = NesFile {
        name: String::from("t"),
        nesfile: None,
        global_symbols: Vec::new(),
        segment: vec![s],
    };
    let mut rom = Rom::new(vec![0xEA; 0x40]);
    assert_eq!(rom.process(&info), Err(Error::OverlappingRanges(0x8012)));
}

#[test]
fn data_range_kinds() {
    let r = DataRange::Words(0x8000, 0x8003);
    assert!(r.contains(0x8000));
    assert!(r.contains(0x8003));
    assert!(!r.contains(0x8004));
    assert!(r.is_words(0x8001));
    assert!(!r.is_bytes(0x8001));
    assert!(!r.is_code(0x8001));
    let s = segment(None, (0, 0xF), (0x8000, 0x800F), vec![r, DataRange::Code(0x8004, 0x8007)]);
    assert!(s.is_words(0x8002));
    assert!(s.is_code(0x8005));
    assert!(!s.is_bytes(0x8005));
    assert_eq!(DataRange::default(), DataRange::Bytes(0, 0));
}

#[test]
fn end_to_end_lda_jmp() {
    let info = NesFile {
        name: String::from("demo"),
        nesfile: None,
        global_symbols: Vec::new(),
        segment: vec![segment(None, (0, 3), (0x8000, 0x8003), vec![DataRange::Code(0x8000, 0x8003)])],
    };
    let mut rom = Rom::new(vec![0xA9, 0x05, 0x4C, 0x00, 0x80]);
    assert_eq!(rom.process(&info), Ok(()));
    match &rom.segment[0].range[0] {
        Range::Code(c) => {
            assert_eq!(c.instruction.len(), 2);
            assert_eq!(c.instruction[0].addr, 0x8000);
            assert_eq!(c.instruction[0].mnemonic, Op::Known(Mnemonic::Lda));
            assert_eq!(c.instruction[0].operand, 0x05);
            assert_eq!(c.instruction[1].addr, 0x8002);
            assert_eq!(c.instruction[1].mnemonic, Op::Known(Mnemonic::Jmp));
            assert_eq!(c.instruction[1].operand, 0x8000);
        }
        other => panic!("expected code, got {:?}", other),
    }
    let lines = rom.to_text(&info).unwrap();
    let first_label = lines.iter().position(|l| matches!(l, Line::Label(_))).unwrap();
    let first_ins = lines.iter().position(|l| matches!(l, Line::Instruction(_))).unwrap();
    assert!(first_label < first_ins);
    assert!(matches!(&lines[first_label], Line::Label(n) if n == "L8000"));
    let lda = instruction_line(&lines[first_ins]);
    assert_eq!(lda.0, "LDA #@");
    assert_eq!(lda.1, "$05");
    assert_eq!(lda.3, 0x8000);
    assert_eq!(lda.4, "A905");
    let jmp = instruction_line(&lines[first_ins + 1]);
    assert_eq!(jmp.0, "JMP @");
    assert_eq!(jmp.1, "$8000");
    assert_eq!(jmp.2, Some(String::from("L8000")));
    assert_eq!(jmp.3, 0x8002);
    assert_eq!(jmp.4, "4C0080");
    let text: Vec<String> = lines.iter().map(|l| render(Format::Text, l)).collect();
    assert!(text.contains(&String::from("L8000:")));
    assert!(text.iter().any(|t| t.starts_with("    LDA #$05 ")));
    assert!(text.iter().any(|t| t.starts_with("    JMP L8000 ")));
}

#[test]
fn process_without_segments_fails() {
    let info = NesFile {
        name: String::from("empty"),
        nesfile: None,
        global_symbols: Vec::new(),
        segment: Vec::new(),
    };
    let mut rom = Rom::new(vec![0; 16]);
    assert_eq!(rom.process(&info), Err(Error::NoLastSegment));
}

#[test]
fn code_past_rom_end_fails() {
    let info = NesFile {
        name: String::from("short"),
        nesfile: None,
        global_symbols: Vec::new(),
        segment: vec![segment(None, (0, 3), (0x8000, 0x8003), vec![DataRange::Code(0x8000, 0x8003)])],
    };
    let mut rom = Rom::new(vec![0xEA, 0xEA, 0x4C]);
    assert_eq!(rom.process(&info), Err(Error::RomOutOfBounds(0x8002)));
}

#[test]
fn unclassified_addresses_become_bytes() {
    let info = NesFile {
        name: String::from("gap"),
        nesfile: None,
        global_symbols: Vec::new(),
        segment: vec![segment(
            None,
            (0, 7),
            (0x8000, 0x8007),
            vec![DataRange::Code(0x8002, 0x8003), DataRange::Words(0x8006, 0x8007)],
        )],
    };
    let mut rom = Rom::new(vec![1, 2, 0xEA, 0xEA, 3, 4, 0x00, 0x80]);
    assert_eq!(rom.process(&info), Ok(()));
    let kinds: Vec<(char, u16, u16)> = rom.segment[0]
        .range
        .iter()
        .map(|r| match r {
            Range::Code(c) => ('c', c.start, c.end),
            Range::Bytes(b) => ('b', b.start, b.end),
            Range::Words(w) => ('w', w.start, w.end),
        })
        .collect();
    assert_eq!(kinds, vec![('b', 0x8000, 0x8001), ('c', 0x8002, 0x8003), ('b', 0x8004, 0x8005), ('w', 0x8006, 0x8007)]);
}

#[test]
fn seeding_declares_globals_and_annotations() {
    let mut seg = segment(Some(0), (0, 3), (0xC000, 0xC003), vec![DataRange::Code(0xC000, 0xC003)]);
    let mut c = Comment::new("entry");
    c.symbol = String::from("Reset");
    seg.address.push((0xC000, c));
    let info = NesFile {
        name: String::from("seed"),
        nesfile: None,
        global_symbols: vec![(0x2000, String::from("PPUCTRL"))],
        segment: vec![seg],
    };
    let mut rom = Rom::new(vec![0x8D, 0x00, 0x20, 0xEA]);
    assert_eq!(rom.process(&info), Ok(()));
    assert_eq!(rom.symtab.get_label(Some(0), 0xC000), Some(String::from("bank0_Reset")));
    let lines = rom.to_text(&info).unwrap();
    assert!(matches!(&lines[0], Line::Equate(0x2000, n) if n == "PPUCTRL"));
    let sta = lines.iter().find_map(|l| match l {
        Line::Instruction(i) if i.addr == 0xC000 => Some(i),
        _ => None,
    });
    let sta = sta.unwrap();
    assert_eq!(sta.mnemonic, "STA @");
    assert_eq!(sta.symbol, Some(String::from("PPUCTRL")));
    assert_eq!(sta.comment, "entry");
}

#[test]
fn bit_skip_over_labelled_bytes() {
    let s = segment(None, (0, 3), (0x8000, 0x8003), Vec::new());
    let mut symtab = Symtab::new();
    symtab.put(None, 0x8001, "Skip");
    let mut code = CodeRange::new(0x8000, 0x8003);
    assert_eq!(code.disassemble(&vec![0x2C, 0xA9, 0x01, 0xEA], &s, &mut symtab), Ok(()));
    assert_eq!(code.instruction.len(), 3);
    assert_eq!(code.instruction[0].mnemonic, Op::BitSkip);
    assert_eq!(code.instruction[1].addr, 0x8001);
    assert_eq!(code.instruction[1].mnemonic, Op::Known(Mnemonic::Lda));
    assert_eq!(code.instruction[2].addr, 0x8003);
    let lines = code.to_text(&s, &mut symtab);
    let first = instruction_line(&lines[0]);
    assert_eq!(first.0, ".byte $2C ; BIT used as a skip");
}

#[test]
fn illegal_opcode_takes_one_byte() {
    let s = segment(None, (0, 1), (0x8000, 0x8001), Vec::new());
    let mut symtab = Symtab::new();
    let mut code = CodeRange::new(0x8000, 0x8001);
    assert_eq!(code.disassemble(&vec![0x02, 0xEA], &s, &mut symtab), Ok(()));
    assert_eq!(code.instruction.len(), 2);
    assert_eq!(code.instruction[0].mnemonic, Op::Illegal);
    let lines = code.to_text(&s, &mut symtab);
    let first = instruction_line(&lines[0]);
    assert_eq!(first.0, ".byte $02");
    assert_eq!(first.4, "02");
}

#[test]
fn branch_target_gets_label() {
    let s = segment(None, (0, 3), (0x8000, 0x8003), Vec::new());
    let mut symtab = Symtab::new();
    let mut code = CodeRange::new(0x8000, 0x8003);
    // BNE -2 at 0x8002 branches to itself.
    assert_eq!(code.disassemble(&vec![0xEA, 0xEA, 0xD0, 0xFE], &s, &mut symtab), Ok(()));
    assert_eq!(symtab.get_label(None, 0x8002), Some(String::from("L8002")));
    let lines = code.to_text(&s, &mut symtab);
    let bne = lines
        .iter()
        .filter_map(|l| match l {
            Line::Instruction(i) if i.addr == 0x8002 => Some(i),
            _ => None,
        })
        .next()
        .unwrap();
    assert_eq!(bne.mnemonic, "BNE @");
    assert_eq!(bne.operand, "$8002");
    assert_eq!(bne.symbol, Some(String::from("L8002")));
    assert_eq!(bne.hex, "D0FE");
}

#[test]
fn absolute_operand_below_0x100_is_forced() {
    let s = segment(None, (0, 2), (0x8000, 0x8002), Vec::new());
    let mut symtab = Symtab::new();
    symtab.put(None, 0x0010, "ptr");
    let ins = Instruction { addr: 0x8000, opcode: 0xAD, mnemonic: Op::Known(Mnemonic::Lda), operand: 0x0010, mode: AddressingMode::Absolute };
    let code = CodeRange::new(0x8000, 0x8002);
    let lines = code.to_text_one(&ins, &s, &mut symtab);
    let l = instruction_line(&lines[0]);
    assert_eq!(l.1, "a:$0010");
    assert_eq!(l.2, Some(String::from("a:ptr")));
    assert_eq!(l.4, "AD1000");
}

#[test]
fn bytes_break_at_labels_and_after_eight() {
    let s = segment(None, (0, 11), (0x8000, 0x800B), Vec::new());
    let mut symtab = Symtab::new();
    symtab.put(None, 0x800A, "Tail");
    let rom: Vec<u8> = vec![0x41, 0x42, 0, 1, 2, 3, 4, 5, 6, 7, 8, 9];
    let r = DataBytesRange::new(0x8000, 0x800B);
    let lines = r.to_text(&rom, &s, &mut symtab).unwrap();
    let ins: Vec<_> = lines.iter().filter(|l| matches!(l, Line::Instruction(_))).map(instruction_line).collect();
    assert_eq!(ins.len(), 3);
    assert_eq!(ins[0].0, ".byte @");
    assert_eq!(ins[0].1, "$41,$42,$00,$01,$02,$03,$04,$05");
    assert_eq!(ins[0].4, "AB......");
    assert_eq!(ins[1].1, "$06,$07");
    assert_eq!(ins[1].3, 0x8008);
    assert_eq!(ins[2].1, "$08,$09");
    assert_eq!(ins[2].3, 0x800A);
    assert!(lines.iter().any(|l| matches!(l, Line::Label(n) if n == "Tail")));
}

#[test]
fn bytes_single_address_range() {
    let s = segment(None, (0, 0), (0x8000, 0x8000), Vec::new());
    let mut symtab = Symtab::new();
    let lines = DataBytesRange::new(0x8000, 0x8000).to_text(&vec![0x7E], &s, &mut symtab).unwrap();
    assert_eq!(lines.len(), 1);
    assert_eq!(instruction_line(&lines[0]).1, "$7E");
    assert_eq!(instruction_line(&lines[0]).4, "~");
}

#[test]
fn bytes_past_rom_end_fail() {
    let s = segment(None, (0, 3), (0x8000, 0x8003), Vec::new());
    let mut symtab = Symtab::new();
    assert_eq!(
        DataBytesRange::new(0x8000, 0x8003).to_text(&vec![1, 2], &s, &mut symtab).unwrap_err(),
        Error::RomOutOfBounds(0x8003)
    );
}

#[test]
fn words_resolve_pointer_symbols() {
    let mut s = segment(None, (0, 3), (0x8000, 0x8003), Vec::new());
    let mut c = Comment::new("table");
    c.header = String::from("one\ntwo");
    s.address.push((0x8002, c));
    let mut symtab = Symtab::new();
    symtab.put(None, 0x9000, "Handler");
    let lines = DataWordsRange::new(0x8000, 0x8003).to_text(&vec![0x00, 0x90, 0x34, 0x12], &s, &mut symtab).unwrap();
    let first = instruction_line(&lines[0]);
    assert_eq!(first.0, ".word @");
    assert_eq!(first.1, "$9000");
    assert_eq!(first.2, Some(String::from("Handler")));
    assert_eq!(first.4, "0090");
    assert!(matches!(&lines[1], Line::Comment(t) if t == "one"));
    assert!(matches!(&lines[2], Line::Comment(t) if t == "two"));
    let second = instruction_line(&lines[3]);
    assert_eq!(second.1, "$1234");
    assert_eq!(second.2, None);
    assert_eq!(second.5, "table");
}

#[test]
fn comment_block_lines() {
    assert_eq!(commentblock("").len(), 0);
    let b = commentblock("a\nb\n");
    assert_eq!(b.len(), 3);
    assert!(matches!(&b[0], Line::Comment(t) if t == "a"));
    assert!(matches!(&b[2], Line::Comment(t) if t.is_empty()));
}

#[test]
fn text_rendering() {
    assert_eq!(comment(Format::Text, "hi"), "; hi");
    assert_eq!(comment(Format::Html, "hi"), "<span class=\"asm-comment\">; hi</span>");
    assert_eq!(directive(Format::Text, ".segment \"A\""), ".segment \"A\"");
    assert_eq!(directive(Format::Html, "x"), "<span class=\"asm-directive\">x</span>");
    assert_eq!(label(Format::Text, "Reset"), "Reset:");
    assert_eq!(label(Format::Html, "Reset"), "<span id=\"Reset\" class=\"asm-label\">Reset</span>:");
    assert_eq!(symbolref(Format::Text, "Foo+1"), "Foo+1");
    assert_eq!(symbolref(Format::Html, "Foo+1"), "<a href=\"#Foo\" class=\"asm-symbol\">Foo</a>+1");
    assert_eq!(symbolref(Format::Html, "Foo-1"), "<a href=\"#Foo\" class=\"asm-symbol\">Foo</a>-1");
    assert_eq!(symbolref(Format::Html, "Foo"), "<a href=\"#Foo\" class=\"asm-symbol\">Foo</a>");
}

#[test]
fn equate_and_instruction_padding() {
    let e = equate(Format::Text, "PPUCTRL", "$2000", "");
    assert_eq!(e.len(), 52);
    assert!(e.starts_with("PPUCTRL = $2000 "));
    assert!(e.ends_with("; "));
    let i = instruction(Format::Text, "LDA #@", "$05", None, 0x8000, "A905", "x");
    assert_eq!(
        i,
        format!("{:<50}; 8000 A905     ; x", "    LDA #$05")
    );
    let j = instruction(Format::Text, "JMP @", "$8000", Some("Loop+1"), 0x8002, "4C0180", "");
    assert!(j.starts_with("    JMP Loop+1 "));
}

#[test]
fn render_equate_token() {
    let l = Line::Equate(0x2000, String::from("PPUCTRL"));
    assert!(render(Format::Text, &l).starts_with("PPUCTRL = $2000"));
    let l = Line::Equate(0xABCD, String::from("X"));
    assert!(render(Format::Text, &l).starts_with("X = $abcd"));
}

#[test]
fn html_document() {
    let doc = document(Format::Html, "T", "css", vec![String::from("a")]);
    assert_eq!(
        doc,
        vec![
            "<html>", "<head>", "<title>T</title>", "<style>", "css", "</style>", "</head>", "<body>",
            "<table>", "<tr>", "<td>a</td>", "</tr>", "</table>", "</body>", "</html>"
        ]
    );
    let plain = document(Format::Text, "T", "css", vec![String::from("a")]);
    assert_eq!(plain, vec!["a"]);
}

#[test]
fn comment_constructor() {
    let c = Comment::new("note");
    assert_eq!(c.comment, "note");
    assert!(c.symbol.is_empty());
}

#[test]
fn backward_branch_image_ends_at_range() {
    let s = segment(None, (0, 1), (0x8010, 0x8011), Vec::new());
    let mut symtab = Symtab::new();
    let mut code = CodeRange::new(0x8010, 0x8011);
    assert_eq!(code.disassemble(&vec![0x10, 0xFE], &s, &mut symtab), Ok(()));
    assert_eq!(code.instruction.len(), 1);
    assert_eq!(code.instruction[0].mode, AddressingMode::Relative);
    assert_eq!(code.instruction[0].operand, 0xFE);
    assert_eq!(symtab.get_label(None, 0x8010), Some(String::from("L8010")));
}

#[test]
fn decoding_stops_at_top_of_address_space() {
    let s = segment(None, (0, 1), (0xFFFE, 0xFFFF), Vec::new());
    let mut symtab = Symtab::new();
    let mut code = CodeRange::new(0xFFFE, 0xFFFF);
    assert_eq!(code.disassemble(&vec![0xEA, 0xEA], &s, &mut symtab), Ok(()));
    let addrs: Vec<u16> = code.instruction.iter().map(|i| i.addr).collect();
    assert_eq!(addrs, vec![0xFFFE, 0xFFFF]);
}

#[test]
fn operand_past_image_end_fails() {
    let s = segment(None, (0, 1), (0x8000, 0x8001), Vec::new());
    let mut symtab = Symtab::new();
    let mut code = CodeRange::new(0x8000, 0x8001);
    assert_eq!(code.disassemble(&vec![0xEA, 0xAD, 0x00], &s, &mut symtab), Err(Error::RomOutOfBounds(0x8001)));
    let mut code = CodeRange::new(0x8000, 0x8001);
    assert_eq!(code.disassemble(&vec![0xEA, 0xAD, 0x00, 0x90], &s, &mut symtab), Ok(()));
}

#[test]
fn disassemble_appends() {
    let s = segment(None, (0, 1), (0x8000, 0x8001), Vec::new());
    let mut symtab = Symtab::new();
    let mut code = CodeRange::new(0x8000, 0x8001);
    assert_eq!(code.disassemble(&vec![0xEA, 0xEA], &s, &mut symtab), Ok(()));
    assert_eq!(code.disassemble(&vec![0xEA, 0xEA], &s, &mut symtab), Ok(()));
    assert_eq!(code.instruction.len(), 4);
    assert_eq!(code.instruction[2].addr, 0x8000);
}

#[test]
fn words_range_ending_at_image_end() {
    let s = segment(None, (0, 3), (0x8000, 0x8003), Vec::new());
    let mut symtab = Symtab::new();
    let lines = DataWordsRange::new(0x8000, 0x8003).to_text(&vec![0x01, 0x02, 0x03, 0x04], &s, &mut symtab).unwrap();
    assert_eq!(lines.len(), 2);
    assert_eq!(instruction_line(&lines[1]).1, "$0403");
}

#[test]
fn listing_of_gaps_and_data_succeeds() {
    let info = NesFile {
        name: String::from("data"),
        nesfile: None,
        global_symbols: Vec::new(),
        segment: vec![segment(None, (0, 5), (0x8000, 0x8005), vec![DataRange::Words(0x8002, 0x8005)])],
    };
    let mut rom = Rom::new(vec![1, 2, 3, 4, 5, 6]);
    assert_eq!(rom.process(&info), Ok(()));
    let lines = rom.to_text(&info).unwrap();
    assert!(matches!(&lines[0], Line::Directive(d) if d == ".segment \"CODE\""));
    assert_eq!(instruction_line(&lines[1]).1, "$01,$02");
    assert_eq!(instruction_line(&lines[2]).1, "$0403");
    assert_eq!(instruction_line(&lines[3]).1, "$0605");
}

#[test]
fn segment_decodes_when_only_walked_bytes_are_present() {
    let info = NesFile {
        name: String::from("jmp"),
        nesfile: None,
        global_symbols: Vec::new(),
        segment: vec![segment(None, (0, 2), (0x8000, 0x8002), vec![DataRange::Code(0x8000, 0x8002)])],
    };
    let mut rom = Rom::new(vec![0x4C, 0x20, 0x80]);
    assert_eq!(rom.process(&info), Ok(()));
    match &rom.segment[0].range[0] {
        Range::Code(c) => assert_eq!(c.instruction.len(), 1),
        other => panic!("expected code, got {:?}", other),
    }
}
