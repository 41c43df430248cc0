use vstd::prelude::*;
use vstd::string::*;

use crate::code::{byte_at, label_lines, offset_in_rom};
use crate::error::Error;
use crate::line::{comment_lines, commentblock, extend_lines, lines_view, InstructionLine, Line, LineView};
use crate::nesfile::{Comment, Segment};
use crate::symtab::{opt_view, Symtab, SymtabModel};
use crate::text::{concat, hex2, hex4, hex_digits, join_with, joined, string_from_chars, string_views};

verus! {

/// Tokens of a data line: the annotation's header, the label of the
/// address, the line, and the annotation's footer.
pub open spec fn data_lines(c: Option<Comment>, label: Option<Seq<char>>, line: LineView) -> Seq<LineView> {
    match c {
        Some(c) => comment_lines(c.header@) + label_lines(label) + seq![line] + comment_lines(c.footer@),
        None => label_lines(label) + seq![line],
    }
}

/// The table after the label of `addr`, if any, was promoted.
pub open spec fn after_label(m: SymtabModel, bank: Option<i16>, addr: u16) -> SymtabModel {
    m.with_table(m.promote_table(bank, addr, m.lookup_name(bank, addr, false)))
}

/// The data line as an instruction token with the annotation's comment.
pub open spec fn data_line(
    c: Option<Comment>,
    mnemonic: Seq<char>,
    operand: Seq<char>,
    symbol: Option<Seq<char>>,
    addr: u16,
    hex: Seq<char>,
) -> LineView {
    LineView::Instruction {
        mnemonic,
        operand,
        symbol,
        addr,
        hex,
        comment: match c {
            Some(c) => c.comment@,
            None => Seq::empty(),
        },
    }
}

/// Emits the tokens of one data line, promoting the label of its address.
fn emit_data_line(
    r: &mut Vec<Line>,
    segment: &Segment,
    symtab: &mut Symtab,
    mnemonic: &str,
    operand: String,
    symbol: Option<String>,
    addr: u16,
    hex: String,
)
    requires
        old(symtab).wf(),
    ensures
        final(symtab).wf(),
        final(symtab)@ == after_label(old(symtab)@, segment.prgbank, addr),
        lines_view(final(r)@) == lines_view(old(r)@) + data_lines(
            segment.spec_comment_at(addr),
            old(symtab)@.lookup_name(segment.prgbank, addr, false),
            data_line(segment.spec_comment_at(addr), mnemonic@, operand@, opt_view(symbol), addr, hex@),
        ),
{
    let ghost r0 = r@;
    let ghost m0 = symtab@;
    let ghost c = segment.spec_comment_at(addr);
    let ghost line = data_line(c, mnemonic@, operand@, opt_view(symbol), addr, hex@);
    let label = symtab.get_label(segment.prgbank, addr);
    let cm = segment.comment_at(addr);
    match cm {
        Some(cc) => {
            extend_lines(r, commentblock(cc.header.as_str()));
        },
        None => {},
    }
    let ghost r1 = r@;
    match &label {
        Some(l) => {
            symtab.promote(segment.prgbank, addr, Some(l.as_str()));
            r.push(Line::Label(l.clone()));
        },
        None => {
            symtab.promote(segment.prgbank, addr, None);
        },
    }
    assert(lines_view(r@) =~= lines_view(r1) + label_lines(m0.lookup_name(segment.prgbank, addr, false)));
    let ghost r2 = r@;
    let comment = match cm {
        Some(cc) => cc.comment.clone(),
        None => String::new(),
    };
    r.push(Line::Instruction(InstructionLine { mnemonic: String::from_str(mnemonic), operand, symbol, addr, hex, comment }));
    assert(lines_view(r@) =~= lines_view(r2).push(line));
    match cm {
        Some(cc) => {
            extend_lines(r, commentblock(cc.footer.as_str()));
        },
        None => {},
    }
    assert(lines_view(r@) =~= lines_view(r0) + data_lines(c, m0.lookup_name(segment.prgbank, addr, false), line));
}

/// A range of addresses listed as bytes; both bounds inclusive.
#[derive(Debug, Default)]
pub struct DataBytesRange {
    pub start: u16,
    pub end: u16,
}

/// The character that the text column shows for a byte: printable ASCII
/// as itself, anything else as `.`.
pub open spec fn spec_as_ascii(v: u8) -> char {
    if 32 <= v < 127 {
        v as char
    } else {
        '.'
    }
}

/// Last address of the byte line that starts at `addr`: the line stops
/// before the next label, after eight bytes, or at `limit`.
pub open spec fn chunk_end(m: SymtabModel, bank: Option<i16>, i: int, limit: int) -> int
    decreases limit + 1 - i,
{
    if i > limit || i > 0xFFFF || m.lookup_name(bank, i as u16, false) is Some {
        i - 1
    } else {
        chunk_end(m, bank, i + 1, limit)
    }
}

/// The bytes of the image for the addresses `[a, b]` of the segment.
pub open spec fn rom_bytes(rom: Seq<u8>, seg: &Segment, a: u16, b: u16) -> Seq<u8> {
    rom.subrange(seg.spec_cpu_to_fofs(a as int), seg.spec_cpu_to_fofs(b as int) + 1)
}

/// `$` and two hexadecimal digits for each byte.
pub open spec fn byte_texts(bytes: Seq<u8>) -> Seq<Seq<char>> {
    bytes.map_values(|b: u8| "$"@ + hex_digits(b as nat, 2))
}

/// The text column of a byte line.
pub open spec fn ascii_text(bytes: Seq<u8>) -> Seq<char> {
    bytes.map_values(|b: u8| spec_as_ascii(b))
}

/// `$` and two hexadecimal digits for each byte, separated by commas.
pub open spec fn byte_operands(bytes: Seq<u8>) -> Seq<char> {
    joined(byte_texts(bytes), ","@)
}

pub proof fn lemma_chunk_end_bounds(m: SymtabModel, bank: Option<i16>, i: int, limit: int)
    ensures
        chunk_end(m, bank, i, limit) >= i - 1,
        chunk_end(m, bank, i, limit) <= if limit >= i - 1 { limit } else { i - 1 },
    decreases limit + 1 - i,
{
    if !(i > limit || i > 0xFFFF || m.lookup_name(bank, i as u16, false) is Some) {
        lemma_chunk_end_bounds(m, bank, i + 1, limit);
    }
}

/// Tokens of the byte lines from `addr` to `end`, and the table after.
pub open spec fn bytes_lines(m: SymtabModel, rom: Seq<u8>, seg: &Segment, addr: int, end: int) -> (Seq<LineView>, SymtabModel)
    decreases end + 1 - addr,
    via bytes_lines_decreases
{
    if addr > end || addr < 0 || end > 0xFFFF {
        (Seq::empty(), m)
    } else {
        let a = addr as u16;
        let e = chunk_end(m, seg.prgbank, addr + 1, if addr + 7 < end { addr + 7 } else { end });
        let bytes = rom_bytes(rom, seg, a, e as u16);
        let c = seg.spec_comment_at(a);
        let lines = data_lines(
            c,
            m.lookup_name(seg.prgbank, a, false),
            data_line(c, ".byte @"@, byte_operands(bytes), None, a, ascii_text(bytes)),
        );
        let m1 = after_label(m, seg.prgbank, a);
        if e >= end {
            (lines, m1)
        } else {
            let (rest, m2) = bytes_lines(m1, rom, seg, e + 1, end);
            (lines + rest, m2)
        }
    }
}

#[via_fn]
proof fn bytes_lines_decreases(m: SymtabModel, rom: Seq<u8>, seg: &Segment, addr: int, end: int) {
    lemma_chunk_end_bounds(m, seg.prgbank, addr + 1, if addr + 7 < end { addr + 7 } else { end });
}

/// Address of the last word of a words range.
pub open spec fn last_word(start: int, end: int) -> int {
    start + 2 * ((end - start) / 2)
}

/// The image holds both bytes of every word of the range `[start, end]`.
pub open spec fn words_in_rom(rom: Seq<u8>, seg: &Segment, start: int, end: int) -> bool {
    start > end || in_rom(rom, seg, start, last_word(start, end) + 1)
}

proof fn lemma_word_before_last(start: int, end: int, q: int)
    requires
        0 <= q,
        start + 2 * q <= end,
    ensures
        start + 2 * q <= last_word(start, end),
{
    assert(q <= (end - start) / 2) by (nonlinear_arith)
        requires
            2 * q <= end - start,
            0 <= q,
    ;
    assert(2 * q <= 2 * ((end - start) / 2)) by (nonlinear_arith)
        requires
            q <= (end - start) / 2,
    ;
}

proof fn lemma_last_word(start: int, end: int, q: int)
    requires
        0 <= q,
        start + 2 * q <= end < start + 2 * q + 2,
    ensures
        start + 2 * q == last_word(start, end),
{
    assert((end - start) / 2 == q) by (nonlinear_arith)
        requires
            2 * q <= end - start < 2 * q + 2,
    ;
}

/// The image holds every byte of the addresses `[a, b]` of the segment.
pub open spec fn in_rom(rom: Seq<u8>, seg: &Segment, a: int, b: int) -> bool {
    0 <= seg.spec_cpu_to_fofs(a) && seg.spec_cpu_to_fofs(b) < rom.len()
}

impl DataBytesRange {
    pub fn new(start: u16, end: u16) -> (r: DataBytesRange)
        ensures
            r.start == start,
            r.end == end,
    {
        DataBytesRange { start, end }
    }

    pub fn as_ascii(v: u8) -> (r: char)
        ensures
            r == spec_as_ascii(v),
    {
        if v >= 32 && v < 127 {
            v as char
        } else {
            '.'
        }
    }

    /// Tokens of the range as byte lines of up to eight bytes each; a line
    /// stops before an address that carries a label. The label of each
    /// line's first address is promoted.
    pub fn to_text(&self, rom: &Vec<u8>, segment: &Segment, symtab: &mut Symtab) -> (r: Result<Vec<Line>, Error>)
        requires
            old(symtab).wf(),
        ensures
            final(symtab).wf(),
            r matches Ok(v) ==> (lines_view(v@), final(symtab)@) == bytes_lines(
                old(symtab)@,
                rom@,
                segment,
                self.start as int,
                self.end as int,
            ),
            r is Ok <==> self.start > self.end || in_rom(rom@, segment, self.start as int, self.end as int),
            r matches Err(e) ==> e is RomOutOfBounds,
    {
        let ghost total = bytes_lines(symtab@, rom@, segment, self.start as int, self.end as int);
        let mut r: Vec<Line> = Vec::new();
        if self.start > self.end {
            assert(lines_view(r@) =~= total.0);
            return Ok(r);
        }
        let bank = segment.prgbank;
        let mut addr: u16 = self.start;
        loop
            invariant
                symtab.wf(),
                bank == segment.prgbank,
                self.start <= addr <= self.end,
                lines_view(r@) + bytes_lines(symtab@, rom@, segment, addr as int, self.end as int).0
                    == total.0,
                bytes_lines(symtab@, rom@, segment, addr as int, self.end as int).1 == total.1,
                total == bytes_lines(old(symtab)@, rom@, segment, self.start as int, self.end as int),
                addr > self.start ==> 0 <= segment.spec_cpu_to_fofs(self.start as int),
            decreases self.end - addr,
        {
            let ghost m = symtab@;
            let limit: u32 = if addr as u32 + 7 < self.end as u32 {
                addr as u32 + 7
            } else {
                self.end as u32
            };
            let mut e: u16 = addr;
            let mut i: u32 = addr as u32 + 1;
            let mut stop = false;
            while !stop && i <= limit
                invariant
                    symtab@ == m,
                    symtab.wf(),
                    bank == segment.prgbank,
                    limit <= 0xFFFF,
                    addr + 1 <= i <= limit + 1,
                    e == i - 1,
                    stop ==> chunk_end(m, bank, addr + 1, limit as int) == e,
                    !stop ==> chunk_end(m, bank, i as int, limit as int) == chunk_end(
                        m,
                        bank,
                        addr + 1,
                        limit as int,
                    ),
                decreases limit + 1 - i + if stop {
                    0int
                } else {
                    1int
                },
            {
                if symtab.get_label(bank, i as u16).is_some() {
                    stop = true;
                } else {
                    e = i as u16;
                    i += 1;
                }
            }
            proof {
                if !stop {
                    assert(chunk_end(m, bank, i as int, limit as int) == i - 1);
                }
                lemma_chunk_end_bounds(m, bank, addr + 1, limit as int);
            }
            let fa = match offset_in_rom(rom, segment, addr, 0) {
                Ok(f) => f,
                Err(err) => {
                    return Err(err);
                },
            };
            let fe = match offset_in_rom(rom, segment, e, 0) {
                Ok(f) => f,
                Err(err) => {
                    return Err(err);
                },
            };
            let ghost bytes = rom_bytes(rom@, segment, addr, e);
            let mut pieces: Vec<String> = Vec::new();
            let mut chars: Vec<char> = Vec::new();
            let n = rom.len();
            let mut j: usize = fa;
            while j <= fe
                invariant
                    fa <= j <= fe + 1,
                    fe < n,
                    n == rom@.len(),
                    bytes == rom@.subrange(fa as int, fe as int + 1),
                    string_views(pieces@) == byte_texts(bytes.take(j - fa)),
                    chars@ == ascii_text(bytes.take(j - fa)),
                decreases fe + 1 - j,
            {
                let ghost pieces_before = pieces@;
                let ghost chars_before = chars@;
                let h = hex2(rom[j]);
                let piece = concat("$", h.as_str());
                pieces.push(piece);
                chars.push(Self::as_ascii(rom[j]));
                assert(bytes.take(j + 1 - fa) =~= bytes.take(j - fa).push(rom@[j as int]));
                assert(string_views(pieces@) =~= string_views(pieces_before).push(piece@));
                assert(byte_texts(bytes.take(j + 1 - fa)) =~= byte_texts(bytes.take(j - fa)).push(
                    "$"@ + hex_digits(rom@[j as int] as nat, 2),
                ));
                assert(ascii_text(bytes.take(j + 1 - fa)) =~= ascii_text(bytes.take(j - fa)).push(
                    spec_as_ascii(rom@[j as int]),
                ));
                j += 1;
            }
            assert(bytes.take(j - fa) == bytes);
            let operand = join_with(&pieces, ",");
            let hexdump = string_from_chars(&chars);
            let ghost r0 = r@;
            proof {
                assert(operand@ == byte_operands(bytes));
                assert(hexdump@ == ascii_text(bytes));
                assert(e as int == chunk_end(m, bank, addr + 1, limit as int));
                let c = segment.spec_comment_at(addr);
                let unfolded = bytes_lines(m, rom@, segment, addr as int, self.end as int);
                let lines = data_lines(
                    c,
                    m.lookup_name(bank, addr, false),
                    data_line(c, ".byte @"@, operand@, None, addr, hexdump@),
                );
                if e == self.end {
                    assert(unfolded == (lines, after_label(m, bank, addr)));
                } else {
                    let rest = bytes_lines(after_label(m, bank, addr), rom@, segment, e + 1, self.end as int);
                    assert(unfolded == (lines + rest.0, rest.1));
                }
            }
            emit_data_line(&mut r, segment, symtab, ".byte @", operand, None, addr, hexdump);
            if e == self.end {
                assert(lines_view(r@) =~= total.0);
                assert(in_rom(rom@, segment, self.start as int, self.end as int));
                return Ok(r);
            }
            assert(lines_view(r@) + bytes_lines(symtab@, rom@, segment, e + 1, self.end as int).0 =~= total.0);
            addr = e + 1;
        }
    }
}

/// A range of addresses listed as 16-bit words; both bounds inclusive.
#[derive(Debug, Default)]
pub struct DataWordsRange {
    pub start: u16,
    pub end: u16,
}

/// The little-endian word at `addr`.
pub open spec fn word_at(rom: Seq<u8>, seg: &Segment, addr: u16) -> u16 {
    (byte_at(rom, seg, addr, 0) + 0x100 * byte_at(rom, seg, addr, 1)) as u16
}

/// Tokens of the word lines at `addr`, `addr + 2`, ... up to `end`, and
/// the table after.
pub open spec fn words_lines(m: SymtabModel, rom: Seq<u8>, seg: &Segment, addr: int, end: int) -> (Seq<LineView>, SymtabModel)
    decreases end + 2 - addr,
{
    if addr > end || addr < 0 || end > 0xFFFF {
        (Seq::empty(), m)
    } else {
        let a = addr as u16;
        let value = word_at(rom, seg, a);
        let c = seg.spec_comment_at(a);
        let lines = data_lines(
            c,
            m.lookup_name(seg.prgbank, a, false),
            data_line(
                c,
                ".word @"@,
                "$"@ + hex_digits(value as nat, 4),
                m.lookup_name(seg.prgbank, value, true),
                a,
                hex_digits(byte_at(rom, seg, a, 0) as nat, 2) + hex_digits(byte_at(rom, seg, a, 1) as nat, 2),
            ),
        );
        let (rest, m2) = words_lines(after_label(m, seg.prgbank, a), rom, seg, addr + 2, end);
        (lines + rest, m2)
    }
}

impl DataWordsRange {
    pub fn new(start: u16, end: u16) -> (r: DataWordsRange)
        ensures
            r.start == start,
            r.end == end,
    {
        DataWordsRange { start, end }
    }

    /// Tokens of the range as one line per 16-bit word, each named by a
    /// symbol where one stands for its value. The label of each word's
    /// address is promoted.
    pub fn to_text(&self, rom: &Vec<u8>, segment: &Segment, symtab: &mut Symtab) -> (r: Result<Vec<Line>, Error>)
        requires
            old(symtab).wf(),
        ensures
            final(symtab).wf(),
            r matches Ok(v) ==> (lines_view(v@), final(symtab)@) == words_lines(
                old(symtab)@,
                rom@,
                segment,
                self.start as int,
                self.end as int,
            ),
            r is Ok <==> words_in_rom(rom@, segment, self.start as int, self.end as int),
            r matches Err(e) ==> e is RomOutOfBounds,
    {
        let ghost total = words_lines(symtab@, rom@, segment, self.start as int, self.end as int);
        let bank = segment.prgbank;
        let mut r: Vec<Line> = Vec::new();
        if self.start > self.end {
            assert(lines_view(r@) =~= total.0);
            return Ok(r);
        }
        let mut addr: u32 = self.start as u32;
        let ghost mut words: int = 0;
        while addr <= self.end as u32
            invariant
                symtab.wf(),
                bank == segment.prgbank,
                self.start as int <= addr as int,
                addr as int <= self.end as int + 2,
                addr == self.start + 2 * words,
                0 <= words,
                words > 0 ==> 0 <= segment.spec_cpu_to_fofs(self.start as int) && segment.spec_cpu_to_fofs(
                    self.start + 2 * (words - 1),
                ) + 1 < rom@.len(),
                self.start <= self.end,
                lines_view(r@) + words_lines(symtab@, rom@, segment, addr as int, self.end as int).0
                    == total.0,
                words_lines(symtab@, rom@, segment, addr as int, self.end as int).1 == total.1,
                total == words_lines(old(symtab)@, rom@, segment, self.start as int, self.end as int),
            decreases self.end + 2 - addr,
        {
            let a = addr as u16;
            proof {
                lemma_word_before_last(self.start as int, self.end as int, words);
            }
            let f = match offset_in_rom(rom, segment, a, 1) {
                Ok(f) => f,
                Err(err) => {
                    return Err(err);
                },
            };
            let lo = rom[f - 1];
            let hi = rom[f];
            let value: u16 = lo as u16 + hi as u16 * 0x100;
            let h = hex4(value);
            let operand = concat("$", h.as_str());
            let hl = hex2(lo);
            let hh = hex2(hi);
            let hex = concat(hl.as_str(), hh.as_str());
            let symbol = symtab.get(bank, value);
            let ghost m = symtab@;
            proof {
                assert(value == word_at(rom@, segment, a));
                let c = segment.spec_comment_at(a);
                let lines = data_lines(
                    c,
                    m.lookup_name(bank, a, false),
                    data_line(c, ".word @"@, operand@, opt_view(symbol), a, hex@),
                );
                let rest = words_lines(after_label(m, bank, a), rom@, segment, addr + 2, self.end as int);
                assert(words_lines(m, rom@, segment, addr as int, self.end as int) == (lines + rest.0, rest.1));
            }
            emit_data_line(&mut r, segment, symtab, ".word @", operand, symbol, a, hex);
            assert(lines_view(r@) + words_lines(symtab@, rom@, segment, addr + 2, self.end as int).0 =~= total.0);
            addr += 2;
            proof {
                words = words + 1;
            }
        }
        assert(lines_view(r@) =~= total.0);
        proof {
            lemma_last_word(self.start as int, self.end as int, words - 1);
        }
        Ok(r)
    }
}

} // verus!
