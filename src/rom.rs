use vstd::prelude::*;
use vstd::string::*;

use crate::code::{
    decode_from, decode_from_of, decode_result, lemma_registered_persists, range_lines, targets_registered,
    CodeRange,
};
use crate::data::{bytes_lines, in_rom, words_in_rom, words_lines, DataBytesRange, DataWordsRange};
use crate::error::Error;
use crate::line::{comment_lines, commentblock, extend_lines, lines_view, Line, LineView};
use crate::nesfile::{
    self, containing_range, lemma_contains_counted, lemma_containing_range, lemma_counted_contains,
    num_containing, Comment,
    DataRange, NesFile,
};
use crate::symtab::{Symtab, SymtabModel};
use crate::text::concat;

verus! {

/// A decoded range of a segment.
#[derive(Debug)]
pub enum Range {
    Code(CodeRange),
    Bytes(DataBytesRange),
    Words(DataWordsRange),
}

impl Range {
    pub open spec fn start(&self) -> u16 {
        match self {
            Range::Code(x) => x.start,
            Range::Bytes(x) => x.start,
            Range::Words(x) => x.start,
        }
    }

    pub open spec fn end(&self) -> u16 {
        match self {
            Range::Code(x) => x.end,
            Range::Bytes(x) => x.end,
            Range::Words(x) => x.end,
        }
    }

    /// Tokens of the range rendered against the table `m`, and the table
    /// after.
    pub open spec fn spec_lines(&self, m: SymtabModel, rom: Seq<u8>, seg: &nesfile::Segment) -> (Seq<LineView>, SymtabModel) {
        match self {
            Range::Code(x) => range_lines(m, seg, x.instruction@),
            Range::Bytes(x) => bytes_lines(m, rom, seg, x.start as int, x.end as int),
            Range::Words(x) => words_lines(m, rom, seg, x.start as int, x.end as int),
        }
    }

    pub fn bytes(start: u16, end: u16) -> (r: Range)
        ensures
            r matches Range::Bytes(x) && x.start == start && x.end == end,
    {
        Range::Bytes(DataBytesRange::new(start, end))
    }

    pub fn words(start: u16, end: u16) -> (r: Range)
        ensures
            r matches Range::Words(x) && x.start == start && x.end == end,
    {
        Range::Words(DataWordsRange::new(start, end))
    }

    /// Tokens of the range; the labels and symbols it shows are promoted.
    pub fn to_text(&self, rom: &Vec<u8>, segment: &nesfile::Segment, symtab: &mut Symtab) -> (r: Result<Vec<Line>, Error>)
        requires
            old(symtab).wf(),
        ensures
            final(symtab).wf(),
            r matches Ok(v) ==> (lines_view(v@), final(symtab)@) == self.spec_lines(old(symtab)@, rom@, segment),
            r matches Err(e) ==> e is RomOutOfBounds,
            r is Ok <==> range_fits(*self, rom@, segment),
    {
        match self {
            Range::Code(x) => Ok(x.to_text(segment, symtab)),
            Range::Bytes(x) => x.to_text(rom, segment, symtab),
            Range::Words(x) => x.to_text(rom, segment, symtab),
        }
    }
}

/// The image holds every byte that the range's listing reads; a code range
/// reads none.
pub open spec fn range_fits(r: Range, rom: Seq<u8>, seg: &nesfile::Segment) -> bool {
    match r {
        Range::Code(_) => true,
        Range::Bytes(x) => x.start > x.end || in_rom(rom, seg, x.start as int, x.end as int),
        Range::Words(x) => words_in_rom(rom, seg, x.start as int, x.end as int),
    }
}

/// Every range of every listed segment fits in the image.
pub open spec fn listing_fits(rom: Seq<u8>, decoded: Seq<Segment>, descs: Seq<nesfile::Segment>) -> bool {
    forall|k: int, j: int|
        0 <= k < Rom::listed(decoded.len(), descs.len()) && 0 <= j < decoded[k].range@.len()
            ==> range_fits(#[trigger] decoded[k].range@[j], rom, &descs[k])
}

/// The range that a declared range is decoded as: the same kind over the
/// same addresses; a code range holds its complete decode chain, and every
/// address that its instructions refer to has a symbol in `m`.
pub open spec fn decodes_declared(r: Range, d: DataRange, rom: Seq<u8>, seg: &nesfile::Segment, m: SymtabModel) -> bool {
    match (d, r) {
        (DataRange::Code(a, b), Range::Code(x)) => x.start == a && x.end == b && x.decoded_chain(rom, seg)
            && targets_registered(x.instruction@, m, seg.prgbank),
        (DataRange::Bytes(a, b), Range::Bytes(x)) => x.start == a && x.end == b,
        (DataRange::Words(a, b), Range::Words(x)) => x.start == a && x.end == b,
        _ => false,
    }
}

/// A run of addresses that no declared range holds, listed as bytes.
pub open spec fn is_gap(r: Range, seg: &nesfile::Segment) -> bool {
    &&& r is Bytes
    &&& r.start() <= r.end()
    &&& forall|a: u16| r.start() <= a <= r.end() ==> num_containing(seg.range@, a) == 0
}

/// The gap ends at the segment's end, or just before an address that a
/// declared range holds.
pub open spec fn gap_is_maximal(r: Range, seg: &nesfile::Segment) -> bool {
    r.end() == seg.cpu_range.end || (r.end() < 0xFFFF && num_containing(
        seg.range@,
        (r.end() + 1) as u16,
    ) >= 1)
}

/// The range is a declared range of the segment, decoded, or a gap that
/// no declared range holds.
pub open spec fn planned(r: Range, rom: Seq<u8>, seg: &nesfile::Segment, m: SymtabModel) -> bool {
    is_gap(r, seg) || exists|i: int|
        0 <= i < seg.range@.len() && #[trigger] decodes_declared(r, seg.range@[i], rom, seg, m)
}

/// One of the ranges holds the address.
pub open spec fn covered(d: Seq<Range>, a: int) -> bool {
    exists|k: int| 0 <= k < d.len() && #[trigger] d[k].start() <= a <= d[k].end()
}

/// The address at which the walk reached range `k`: the segment's start for
/// the first range, else one past the end of the range before.
pub open spec fn range_position(d: Seq<Range>, k: int, lo: int) -> int {
    if k == 0 {
        lo
    } else {
        d[k - 1].end() + 1
    }
}

/// The ranges of a segment walked up to `addr`: in order, each holding the
/// address at which the walk reached it, each planned, gaps maximal.
pub open spec fn walked(d: Seq<Range>, rom: Seq<u8>, seg: &nesfile::Segment, m: SymtabModel, addr: int) -> bool {
    let lo = seg.cpu_range.start as int;
    &&& d.len() == 0 ==> addr == lo
    &&& d.len() > 0 ==> addr == d.last().end() + 1
    &&& forall|k: int| 0 <= k < d.len() ==> #[trigger] planned(d[k], rom, seg, m)
    &&& forall|k: int|
        0 <= k < d.len() ==> (#[trigger] d[k]).start() <= range_position(d, k, lo) <= d[k].end()
    &&& forall|k: int|
        0 <= k < d.len() && is_gap(#[trigger] d[k], seg) ==> d[k].start() == range_position(d, k, lo)
            && gap_is_maximal(d[k], seg)
    &&& forall|k: int| 0 <= k < d.len() - 1 ==> (#[trigger] d[k]).end() < seg.cpu_range.end
    &&& forall|a: int| lo <= a < addr ==> #[trigger] covered(d, a)
}

/// The segment is decoded: the walk from its first address passed its last.
pub open spec fn decodes_segment(d: Seq<Range>, rom: Seq<u8>, seg: &nesfile::Segment, m: SymtabModel) -> bool {
    &&& d.len() > 0
    &&& walked(d, rom, seg, m, d.last().end() + 1)
    &&& d.last().end() >= seg.cpu_range.end
}

proof fn lemma_planned_persists(r: Range, rom: Seq<u8>, seg: &nesfile::Segment, a: SymtabModel, b: SymtabModel)
    requires
        crate::code::grows_synthetic(a, b),
        planned(r, rom, seg, a),
    ensures
        planned(r, rom, seg, b),
{
    if !is_gap(r, seg) {
        let i = choose|i: int| 0 <= i < seg.range@.len() && #[trigger] decodes_declared(r, seg.range@[i], rom, seg, a);
        lemma_registered_persists(a, b);
        if let Range::Code(x) = r {
            assert forall|j: int| 0 <= j < x.instruction@.len() implies #[trigger] CodeRange::registered_target(
                b,
                seg.prgbank,
                x.instruction@[j],
            ) by {
                assert(CodeRange::registered_target(a, seg.prgbank, x.instruction@[j]));
            }
        }
        assert(decodes_declared(r, seg.range@[i], rom, seg, b));
    }
}

proof fn lemma_walked_persists(d: Seq<Range>, rom: Seq<u8>, seg: &nesfile::Segment, a: SymtabModel, b: SymtabModel, addr: int)
    requires
        crate::code::grows_synthetic(a, b),
        walked(d, rom, seg, a, addr),
    ensures
        walked(d, rom, seg, b, addr),
{
    assert forall|k: int| 0 <= k < d.len() implies #[trigger] planned(d[k], rom, seg, b) by {
        lemma_planned_persists(d[k], rom, seg, a, b);
    }
}

proof fn lemma_walk_step(d: Seq<Range>, r: Range, rom: Seq<u8>, seg: &nesfile::Segment, m: SymtabModel, addr: int)
    requires
        walked(d, rom, seg, m, addr),
        seg.cpu_range.start <= addr <= seg.cpu_range.end,
        planned(r, rom, seg, m),
        r.start() <= addr <= r.end(),
        is_gap(r, seg) ==> r.start() == addr && gap_is_maximal(r, seg),
    ensures
        walked(d.push(r), rom, seg, m, r.end() + 1),
{
    let lo = seg.cpu_range.start as int;
    let e = d.push(r);
    assert forall|k: int| 0 <= k < e.len() implies #[trigger] planned(e[k], rom, seg, m) by {
        if k < d.len() {
            assert(e[k] == d[k]);
        }
    }
    assert forall|k: int| 0 <= k < e.len() implies (#[trigger] e[k]).start() <= range_position(e, k, lo) <= e[k].end() by {
        if k < d.len() {
            assert(e[k] == d[k]);
            assert(range_position(e, k, lo) == range_position(d, k, lo));
        }
    }
    assert forall|k: int| 0 <= k < e.len() && is_gap(#[trigger] e[k], seg) implies e[k].start() == range_position(e, k, lo)
        && gap_is_maximal(e[k], seg) by {
        if k < d.len() {
            assert(e[k] == d[k]);
            assert(range_position(e, k, lo) == range_position(d, k, lo));
        }
    }
    assert forall|k: int| 0 <= k < e.len() - 1 implies (#[trigger] e[k]).end() < seg.cpu_range.end by {
        assert(e[k] == d[k]);
        if k == d.len() - 1 {
            assert(d.last().end() + 1 == addr);
        }
    }
    assert forall|a: int| lo <= a < r.end() + 1 implies #[trigger] covered(e, a) by {
        if a < addr {
            assert(covered(d, a));
            let k = choose|k: int| 0 <= k < d.len() && #[trigger] d[k].start() <= a <= d[k].end();
            assert(e[k] == d[k]);
        } else {
            assert(e[e.len() - 1].start() <= a <= e[e.len() - 1].end());
        }
    }
}

/// Segments decoded against one table stay decoded against a table that
/// grew from it.
proof fn lemma_segments_persist(
    decoded: Seq<Segment>,
    rom: Seq<u8>,
    descs: Seq<nesfile::Segment>,
    n0: int,
    k: int,
    a: SymtabModel,
    b: SymtabModel,
)
    requires
        crate::code::grows_synthetic(a, b),
        0 <= n0,
        n0 + k <= decoded.len(),
        k <= descs.len(),
        forall|j: int| 0 <= j < k ==> decodes_segment(#[trigger] decoded[n0 + j].range@, rom, &descs[j], a),
    ensures
        forall|j: int| 0 <= j < k ==> decodes_segment(#[trigger] decoded[n0 + j].range@, rom, &descs[j], b),
{
    assert forall|j: int| 0 <= j < k implies decodes_segment(#[trigger] decoded[n0 + j].range@, rom, &descs[j], b) by {
        lemma_segment_persists(decoded[n0 + j].range@, rom, &descs[j], a, b);
    }
}

proof fn lemma_segment_persists(d: Seq<Range>, rom: Seq<u8>, seg: &nesfile::Segment, a: SymtabModel, b: SymtabModel)
    requires
        crate::code::grows_synthetic(a, b),
        decodes_segment(d, rom, seg, a),
    ensures
        decodes_segment(d, rom, seg, b),
{
    lemma_walked_persists(d, rom, seg, a, b, d.last().end() + 1);
}

/// Outcome of walking a segment from `addr` up to `end` (exclusive), and
/// the table after: an address held by two declared ranges is an error;
/// each declared code range the walk reaches is decoded against the table
/// at that point and fails as its decoding does; unclassified addresses and
/// data ranges are stepped over.
pub open spec fn walk(m: SymtabModel, rom: Seq<u8>, s: &nesfile::Segment, addr: int, end: int) -> (Result<(), Error>, SymtabModel)
    decreases 0x10000 - addr,
    via walk_decreases
{
    if addr >= end || addr < 0 || addr > 0xFFFF {
        (Ok(()), m)
    } else if num_containing(s.range@, addr as u16) >= 2 {
        (Err(Error::OverlappingRanges(addr as u16)), m)
    } else if num_containing(s.range@, addr as u16) == 0 {
        walk(m, rom, s, addr + 1, end)
    } else {
        let d = containing_range(s.range@, addr as u16);
        match d {
            DataRange::Code(a, b) => match decode_result(m, rom, s, a as int, b as int) {
                Err(e) => (Err(e), m),
                Ok(_) => walk(decode_from(m, rom, s, a as int, b as int).1, rom, s, b + 1, end),
            },
            _ => walk(m, rom, s, d.end() + 1, end),
        }
    }
}

#[via_fn]
proof fn walk_decreases(m: SymtabModel, rom: Seq<u8>, s: &nesfile::Segment, addr: int, end: int) {
    if !(addr >= end || addr < 0 || addr > 0xFFFF) && num_containing(s.range@, addr as u16) == 1 {
        lemma_counted_contains(s.range@, addr as u16);
        let i = choose|i: int| 0 <= i < s.range@.len() && s.range@[i].spec_contains(addr as u16);
        assert(containing_range(s.range@, addr as u16).spec_contains(addr as u16));
        assert((addr as u16) as int == addr);
        assert(containing_range(s.range@, addr as u16).end() + 1 > addr);
    }
}

/// Outcome of walking the segments in order, stopping at the first error,
/// and the table after.
#[verifier::opaque]
pub open spec fn segments_walk(m: SymtabModel, rom: Seq<u8>, segs: Seq<nesfile::Segment>) -> (Result<(), Error>, SymtabModel)
    decreases segs.len(),
{
    if segs.len() == 0 {
        (Ok(()), m)
    } else {
        let (r, m1) = segments_walk(m, rom, segs.drop_last());
        if r is Err {
            (r, m1)
        } else {
            let s = segs.last();
            walk(m1, rom, &s, s.cpu_range.start as int, s.cpu_range.end + 1)
        }
    }
}

/// One more segment after a prefix that succeeded is walked against the
/// table that the prefix left.
proof fn lemma_segments_walk_step(m: SymtabModel, rom: Seq<u8>, segs: Seq<nesfile::Segment>, k: int, m1: SymtabModel)
    requires
        0 <= k < segs.len(),
        segments_walk(m, rom, segs.take(k)).0 is Ok,
        segments_walk(m, rom, segs.take(k)).1 == m1,
    ensures
        segments_walk(m, rom, segs.take(k + 1)) == walk(
            m1,
            rom,
            &segs[k],
            segs[k].cpu_range.start as int,
            segs[k].cpu_range.end + 1,
        ),
{
    reveal(segments_walk);
    assert(segs.take(k + 1).drop_last() =~= segs.take(k));
    assert(segs.take(k + 1).last() == segs[k]);
}

proof fn lemma_segments_walk_none(m: SymtabModel, rom: Seq<u8>, segs: Seq<nesfile::Segment>)
    ensures
        segments_walk(m, rom, segs.take(0)) == (Ok::<(), Error>(()), m),
{
    reveal(segments_walk);
    assert(segs.take(0).len() == 0);
}

/// Once a prefix of the segments fails, every longer prefix fails the same way.
proof fn lemma_segments_walk_stops(m: SymtabModel, rom: Seq<u8>, segs: Seq<nesfile::Segment>, k: int)
    requires
        0 <= k <= segs.len(),
        segments_walk(m, rom, segs.take(k)).0 is Err,
    ensures
        segments_walk(m, rom, segs.take(segs.len() as int)).0 == segments_walk(m, rom, segs.take(k)).0,
    decreases segs.len() - k,
{
    reveal(segments_walk);
    if k < segs.len() {
        assert(segs.take(k + 1).drop_last() =~= segs.take(k));
        lemma_segments_walk_stops(m, rom, segs, k + 1);
    }
}

/// The decoded ranges of a segment.
#[derive(Debug)]
pub struct Segment {
    pub range: Vec<Range>,
}

/// Symbols declared by annotations, each under `bank`, in order.
pub open spec fn put_annotations(m: SymtabModel, bank: Option<i16>, a: Seq<(u16, Comment)>) -> SymtabModel
    decreases a.len(),
{
    if a.len() == 0 {
        m
    } else {
        let m1 = put_annotations(m, bank, a.drop_last());
        let (addr, c) = a.last();
        if c.symbol@.len() == 0 {
            m1
        } else {
            m1.with_table(m1.put_table(bank, addr, c.symbol@, false))
        }
    }
}

/// Symbols declared outside any bank, in order.
pub open spec fn put_globals(m: SymtabModel, g: Seq<(u16, String)>) -> SymtabModel
    decreases g.len(),
{
    if g.len() == 0 {
        m
    } else {
        let m1 = put_globals(m, g.drop_last());
        m1.with_table(m1.put_table(None, g.last().0, g.last().1@, false))
    }
}

/// Symbols declared by the annotations of each segment, in order.
pub open spec fn put_segments(m: SymtabModel, segs: Seq<nesfile::Segment>) -> SymtabModel
    decreases segs.len(),
{
    if segs.len() == 0 {
        m
    } else {
        let m1 = put_segments(m, segs.drop_last());
        put_annotations(m1, segs.last().prgbank, segs.last().address@)
    }
}

/// The table seeded from a description: the last segment is the high
/// bank; then the global symbols, then each segment's annotated symbols.
pub open spec fn seeded(m: SymtabModel, info: &NesFile) -> SymtabModel {
    let last = info.segment@.last();
    let m0 = SymtabModel {
        high_start: last.cpu_range.start as int,
        high_end: last.cpu_range.end as int,
        highbank: last.prgbank,
        table: m.table,
    };
    put_segments(put_globals(m0, info.global_symbols@), info.segment@)
}

/// Tokens of a segment's ranges rendered in order against `m`, and the
/// table after.
pub open spec fn ranges_lines(m: SymtabModel, rom: Seq<u8>, ranges: Seq<Range>, seg: &nesfile::Segment) -> (Seq<LineView>, SymtabModel)
    decreases ranges.len(),
{
    if ranges.len() == 0 {
        (Seq::empty(), m)
    } else {
        let (a, m1) = ranges_lines(m, rom, ranges.drop_last(), seg);
        let (b, m2) = ranges.last().spec_lines(m1, rom, seg);
        (a + b, m2)
    }
}

/// The segment directive.
pub open spec fn segment_directive(name: Seq<char>) -> LineView {
    LineView::Directive(".segment \""@ + name + "\""@)
}

/// Tokens of the first `n` segments, each with its header, directive, ranges
/// and footer, and the table after.
pub open spec fn segments_lines(
    m: SymtabModel,
    rom: Seq<u8>,
    decoded: Seq<Segment>,
    descs: Seq<nesfile::Segment>,
    n: int,
) -> (Seq<LineView>, SymtabModel)
    decreases n,
{
    if n <= 0 {
        (Seq::empty(), m)
    } else {
        let (a, m1) = segments_lines(m, rom, decoded, descs, n - 1);
        let s = descs[n - 1];
        let (body, m2) = ranges_lines(m1, rom, decoded[n - 1].range@, &s);
        (a + comment_lines(s.header@) + seq![segment_directive(s.name@)] + body + comment_lines(
            s.footer@,
        ), m2)
    }
}

/// `v` is the listing rendered against `m`: the equates of `m`, then the
/// tokens of each segment; `after` is the table after rendering.
pub open spec fn is_listing(
    m: SymtabModel,
    rom: Seq<u8>,
    decoded: Seq<Segment>,
    descs: Seq<nesfile::Segment>,
    v: Seq<LineView>,
    after: SymtabModel,
) -> bool {
    let n = Rom::listed(decoded.len(), descs.len());
    exists|k: int|
        0 <= k <= v.len() && #[trigger] equates_of(m, v.take(k)) && v.skip(k) == segments_lines(
            m,
            rom,
            decoded,
            descs,
            n,
        ).0 && after == segments_lines(m, rom, decoded, descs, n).1
}

/// `s` lists, as equate tokens, every symbol outside any bank of `m`, by
/// increasing address.
pub open spec fn equates_of(m: SymtabModel, s: Seq<LineView>) -> bool {
    &&& forall|i: int|
        0 <= i < s.len() ==> (#[trigger] s[i] matches LineView::Equate(a, n) && m.table.contains_key(
            (None, a),
        ) && m.table[(None, a)].name == n)
    &&& forall|i: int, j: int|
        0 <= i < j < s.len() ==> (#[trigger] s[i] matches LineView::Equate(a, _) && #[trigger] s[j] matches LineView::Equate(b, _) && a < b)
    &&& forall|a: u16| #[trigger]
        m.table.contains_key((None, a)) ==> exists|i: int| 0 <= i < s.len() && s[i] == LineView::Equate(a, m.table[(None, a)].name)
}

proof fn lemma_grows_trans(a: SymtabModel, b: SymtabModel, c: SymtabModel)
    requires
        crate::code::grows_synthetic(a, b),
        crate::code::grows_synthetic(b, c),
    ensures
        crate::code::grows_synthetic(a, c),
{
    assert forall|k: (Option<i16>, u16)| #[trigger]
        c.table.contains_key(k) && !a.table.contains_key(k) implies c.table[k].synthetic by {
        if b.table.contains_key(k) {
            assert(b.table[k].synthetic);
        }
    }
}

/// A loaded image with its symbol table and the decoded segments.
pub struct Rom {
    pub rom: Vec<u8>,
    pub segment: Vec<Segment>,
    pub symtab: Symtab,
}

impl Rom {
    /// An image with no segment decoded and an empty symbol table.
    pub fn new(rom: Vec<u8>) -> (r: Rom)
        ensures
            r.rom@ == rom@,
            r.segment@.len() == 0,
            r.symtab.wf(),
            r.symtab@.table == Map::<(Option<i16>, u16), crate::symtab::SymbolModel>::empty(),
    {
        Rom { rom, segment: Vec::new(), symtab: Symtab::new() }
    }

    /// Seeds the symbol table from a description: the last segment is the
    /// high bank; then the global symbols, then every segment's annotated
    /// symbols are declared, before any segment is decoded.
    fn process_symtab(&mut self, info: &NesFile) -> (r: Result<(), Error>)
        requires
            old(self).symtab.wf(),
        ensures
            final(self).symtab.wf(),
            final(self).rom@ == old(self).rom@,
            final(self).segment@ == old(self).segment@,
            r is Err <==> info.segment@.len() == 0,
            r is Err ==> r == Err::<(), Error>(Error::NoLastSegment) && final(self).symtab@ == old(
                self,
            ).symtab@,
            r is Ok ==> final(self).symtab@ == seeded(old(self).symtab@, info),
    {
        let n = info.segment.len();
        if n == 0 {
            return Err(Error::NoLastSegment);
        }
        let last = &info.segment[n - 1];
        self.symtab.set_highbank(last.cpu_range, last.prgbank);
        let ghost m0 = self.symtab@;
        let mut i: usize = 0;
        while i < info.global_symbols.len()
            invariant
                self.symtab.wf(),
                self.rom@ == old(self).rom@,
                self.segment@ == old(self).segment@,
                i <= info.global_symbols@.len(),
                self.symtab@ == put_globals(m0, info.global_symbols@.take(i as int)),
            decreases info.global_symbols@.len() - i,
        {
            let (addr, sym) = &info.global_symbols[i];
            self.symtab.put(None, *addr, sym.as_str());
            assert(info.global_symbols@.take(i as int + 1).drop_last() == info.global_symbols@.take(i as int));
            i += 1;
        }
        assert(info.global_symbols@.take(i as int) == info.global_symbols@);
        let ghost mg = self.symtab@;
        let mut k: usize = 0;
        while k < n
            invariant
                self.symtab.wf(),
                self.rom@ == old(self).rom@,
                self.segment@ == old(self).segment@,
                n == info.segment@.len(),
                k <= n,
                self.symtab@ == put_segments(mg, info.segment@.take(k as int)),
            decreases n - k,
        {
            let seg = &info.segment[k];
            let ghost mk = self.symtab@;
            let mut j: usize = 0;
            while j < seg.address.len()
                invariant
                    self.symtab.wf(),
                    self.rom@ == old(self).rom@,
                    self.segment@ == old(self).segment@,
                    j <= seg.address@.len(),
                    self.symtab@ == put_annotations(mk, seg.prgbank, seg.address@.take(j as int)),
                decreases seg.address@.len() - j,
            {
                let (addr, c) = &seg.address[j];
                if !c.symbol.as_str().is_empty() {
                    self.symtab.put(seg.prgbank, *addr, c.symbol.as_str());
                }
                assert(seg.address@.take(j as int + 1).drop_last() == seg.address@.take(j as int));
                j += 1;
            }
            assert(seg.address@.take(j as int) == seg.address@);
            assert(info.segment@.take(k as int + 1).drop_last() == info.segment@.take(k as int));
            k += 1;
        }
        assert(info.segment@.take(k as int) == info.segment@);
        Ok(())
    }

    /// Decodes one segment: walks its addresses in order, decodes each
    /// declared range, and lists the addresses that no declared range holds
    /// as bytes. An address that two declared ranges hold is an error.
    fn process_segment(&mut self, s: &nesfile::Segment) -> (r: Result<(), Error>)
        requires
            old(self).symtab.wf(),
            s.wf(),
        ensures
            final(self).symtab.wf(),
            crate::code::grows_synthetic(old(self).symtab@, final(self).symtab@),
            final(self).rom@ == old(self).rom@,
            r matches Err(e) ==> e is OverlappingRanges || e is RomOutOfBounds,
            r matches Err(Error::OverlappingRanges(a)) ==> s.cpu_range.start <= a <= s.cpu_range.end
                && num_containing(s.range@, a) >= 2,
            r is Ok <==> walk(old(self).symtab@, old(self).rom@, s, s.cpu_range.start as int, s.cpu_range.end + 1).0 is Ok,
            r matches Err(e) ==> walk(
                old(self).symtab@,
                old(self).rom@,
                s,
                s.cpu_range.start as int,
                s.cpu_range.end + 1,
            ).0 == Err::<(), Error>(e),
            r is Ok ==> final(self).symtab@ == walk(
                old(self).symtab@,
                old(self).rom@,
                s,
                s.cpu_range.start as int,
                s.cpu_range.end + 1,
            ).1,
            r is Ok ==> final(self).segment@.len() == old(self).segment@.len() + 1
                && final(self).segment@.drop_last() == old(self).segment@
                && decodes_segment(final(self).segment@.last().range@, final(self).rom@, s, final(self).symtab@),
    {
        let mut seg: Vec<Range> = Vec::new();
        let mut addr: u32 = s.fofs_to_cpu(s.file_range.start) as u32;
        let end: u32 = s.fofs_to_cpu(s.file_range.end) as u32 + 1;
        assert(addr == s.cpu_range.start && end == s.cpu_range.end + 1);
        while addr < end
            invariant
                self.symtab.wf(),
                crate::code::grows_synthetic(old(self).symtab@, self.symtab@),
                self.rom@ == old(self).rom@,
                self.segment@ == old(self).segment@,
                s.wf(),
                end == s.cpu_range.end + 1,
                s.cpu_range.start <= addr <= 0x10000,
                walked(seg@, self.rom@, s, self.symtab@, addr as int),
                walk(self.symtab@, self.rom@, s, addr as int, end as int) == walk(
                    old(self).symtab@,
                    old(self).rom@,
                    s,
                    s.cpu_range.start as int,
                    s.cpu_range.end + 1,
                ),
            decreases 0x10000 - addr,
        {
            let found = match s.get_range(addr as u16) {
                Ok(x) => x,
                Err(e) => {
                    return Err(e);
                },
            };
            let ghost seg0 = seg@;
            let ghost addr0 = addr;
            let ghost m0 = self.symtab@;
            let ghost total = walk(m0, self.rom@, s, addr as int, end as int);
            match found {
                Some(d) => {
                    let ghost i = choose|i: int| 0 <= i < s.range@.len() && s.range@[i] == *d;
                    proof {
                        lemma_contains_counted(s.range@, addr as u16, i);
                        lemma_containing_range(s.range@, addr as u16, i);
                        assert((addr as u16) as int == addr as int);
                    }
                    let next: u32 = match d {
                        DataRange::Code(a, b) => {
                            let mut code = CodeRange::new(*a, *b);
                            match code.disassemble(&self.rom, s, &mut self.symtab) {
                                Ok(_) => {},
                                Err(e) => {
                                    assert(total == (Err::<(), Error>(e), m0));
                                    return Err(e);
                                },
                            }
                            assert(code.instruction@ =~= decode_from_of(m0, self.rom@, s, *a, *b));
                            assert(total == walk(self.symtab@, self.rom@, s, *b as int + 1, end as int));
                            seg.push(Range::Code(code));
                            *b as u32 + 1
                        },
                        DataRange::Bytes(a, b) => {
                            assert(total == walk(self.symtab@, self.rom@, s, *b as int + 1, end as int));
                            seg.push(Range::bytes(*a, *b));
                            *b as u32 + 1
                        },
                        DataRange::Words(a, b) => {
                            assert(total == walk(self.symtab@, self.rom@, s, *b as int + 1, end as int));
                            seg.push(Range::words(*a, *b));
                            *b as u32 + 1
                        },
                    };
                    proof {
                        assert(d.spec_contains(addr as u16));
                        assert(next > addr);
                        lemma_walked_persists(seg0, self.rom@, s, m0, self.symtab@, addr0 as int);
                        assert(decodes_declared(seg@.last(), s.range@[i], self.rom@, s, self.symtab@));
                        assert(seg@ == seg0.push(seg@.last()));
                        if is_gap(seg@.last(), s) {
                            assert(num_containing(s.range@, addr as u16) >= 1);
                        }
                        lemma_walk_step(seg0, seg@.last(), self.rom@, s, self.symtab@, addr0 as int);
                    }
                    addr = next;
                },
                None => {
                    let start = addr;
                    let mut stop = false;
                    while !stop && addr < end
                        invariant
                            self.symtab.wf(),
                            crate::code::grows_synthetic(old(self).symtab@, self.symtab@),
                            self.rom@ == old(self).rom@,
                            self.segment@ == old(self).segment@,
                            self.symtab@ == m0,
                            s.wf(),
                            end == s.cpu_range.end + 1,
                            s.cpu_range.start <= start <= addr <= end,
                            start == addr0,
                            start < end,
                            addr == start ==> num_containing(s.range@, start as u16) == 0,
                            stop ==> start < addr,
                            stop ==> addr < end && num_containing(s.range@, addr as u16) >= 1,
                            forall|a: u16| start <= a < addr ==> num_containing(s.range@, a) == 0,
                            walk(m0, self.rom@, s, addr as int, end as int) == total,
                            total == walk(
                                old(self).symtab@,
                                old(self).rom@,
                                s,
                                s.cpu_range.start as int,
                                s.cpu_range.end + 1,
                            ),
                        decreases end - addr + if stop {
                            0int
                        } else {
                            1int
                        },
                    {
                        proof {
                            assert((addr as u16) as int == addr as int);
                        }
                        match s.get_range(addr as u16) {
                            Ok(None) => {
                                assert(walk(m0, self.rom@, s, addr as int, end as int) == walk(m0, self.rom@, s, addr as int + 1, end as int));
                                addr += 1;
                            },
                            Ok(Some(_)) => {
                                stop = true;
                            },
                            Err(e) => {
                                assert(walk(m0, self.rom@, s, addr as int, end as int).0 == Err::<(), Error>(
                                    Error::OverlappingRanges(addr as u16),
                                ));
                                return Err(e);
                            },
                        }
                    }
                    seg.push(Range::bytes(start as u16, (addr - 1) as u16));
                    proof {
                        assert(addr > addr0);
                        assert(is_gap(seg@.last(), s));
                        assert(gap_is_maximal(seg@.last(), s));
                        assert(seg@ == seg0.push(seg@.last()));
                        lemma_walk_step(seg0, seg@.last(), self.rom@, s, self.symtab@, addr0 as int);
                    }
                },
            }
        }
        self.segment.push(Segment { range: seg });
        assert(self.segment@.drop_last() == old(self).segment@);
        Ok(())
    }

    /// Seeds the symbol table from the description, then decodes every
    /// segment in order.
    #[verifier::spinoff_prover]
    pub fn process(&mut self, info: &NesFile) -> (r: Result<(), Error>)
        requires
            old(self).symtab.wf(),
            forall|k: int| 0 <= k < info.segment@.len() ==> #[trigger] info.segment@[k].wf(),
            nesfile::keys_unique(info.global_symbols@),
        ensures
            final(self).symtab.wf(),
            final(self).rom@ == old(self).rom@,
            r == Err::<(), Error>(Error::NoLastSegment) <==> info.segment@.len() == 0,
            info.segment@.len() > 0 ==> (r is Ok <==> segments_walk(
                seeded(old(self).symtab@, info),
                old(self).rom@,
                info.segment@,
            ).0 is Ok),
            info.segment@.len() > 0 ==> (r matches Err(e) ==> segments_walk(
                seeded(old(self).symtab@, info),
                old(self).rom@,
                info.segment@,
            ).0 == Err::<(), Error>(e)),
            r is Ok ==> final(self).symtab@ == segments_walk(
                seeded(old(self).symtab@, info),
                old(self).rom@,
                info.segment@,
            ).1,
            r matches Err(Error::OverlappingRanges(a)) ==> exists|k: int|
                0 <= k < info.segment@.len() && #[trigger] info.segment@[k].cpu_range.start <= a
                    <= info.segment@[k].cpu_range.end && num_containing(info.segment@[k].range@, a) >= 2,
            r is Ok ==> {
                &&& final(self).segment@.len() == old(self).segment@.len() + info.segment@.len()
                &&& final(self).segment@.take(old(self).segment@.len() as int) == old(self).segment@
                &&& forall|k: int|
                    0 <= k < info.segment@.len() ==> decodes_segment(
                        #[trigger] final(self).segment@[old(self).segment@.len() + k].range@,
                        final(self).rom@,
                        &info.segment@[k],
                        final(self).symtab@,
                    )
                &&& crate::code::grows_synthetic(seeded(old(self).symtab@, info), final(self).symtab@)
            },
    {
        match self.process_symtab(info) {
            Ok(_) => {},
            Err(e) => {
                return Err(e);
            },
        }
        let ghost m = self.symtab@;
        let ghost n0 = self.segment@.len();
        proof {
            lemma_segments_walk_none(m, self.rom@, info.segment@);
        }
        let mut k: usize = 0;
        while k < info.segment.len()
            invariant
                self.symtab.wf(),
                self.rom@ == old(self).rom@,
                m == seeded(old(self).symtab@, info),
                n0 == old(self).segment@.len(),
                crate::code::grows_synthetic(m, self.symtab@),
                k <= info.segment@.len(),
                segments_walk(m, self.rom@, info.segment@.take(k as int)).0 is Ok,
                segments_walk(m, self.rom@, info.segment@.take(k as int)).1 == self.symtab@,
                forall|j: int| 0 <= j < info.segment@.len() ==> #[trigger] info.segment@[j].wf(),
                self.segment@.len() == n0 + k,
                self.segment@.take(n0 as int) == old(self).segment@,
                forall|j: int|
                    0 <= j < k ==> decodes_segment(
                        #[trigger] self.segment@[n0 + j].range@,
                        self.rom@,
                        &info.segment@[j],
                        self.symtab@,
                    ),
            decreases info.segment@.len() - k,
        {
            let ghost before = self.segment@;
            let ghost m1 = self.symtab@;
            proof {
                lemma_segments_walk_step(m, self.rom@, info.segment@, k as int, m1);
            }
            let res = self.process_segment(&info.segment[k]);
            match res {
                Ok(_) => {},
                Err(e) => {
                    proof {
                        lemma_segments_walk_stops(m, self.rom@, info.segment@, k as int + 1);
                        assert(info.segment@.take(info.segment@.len() as int) =~= info.segment@);
                    }
                    return Err(e);
                },
            }
            proof {
                lemma_segments_walk_step(m, self.rom@, info.segment@, k as int, m1);
                lemma_grows_trans(m, m1, self.symtab@);
                assert(self.segment@.take(n0 as int) == before.take(n0 as int));
                lemma_segments_persist(before, self.rom@, info.segment@, n0 as int, k as int, m1, self.symtab@);
                assert forall|j: int| 0 <= j < k + 1 implies decodes_segment(
                    #[trigger] self.segment@[n0 + j].range@,
                    self.rom@,
                    &info.segment@[j],
                    self.symtab@,
                ) by {
                    if j < k {
                        assert(self.segment@[n0 + j] == before[n0 + j]);
                    }
                }
            }
            k += 1;
        }
        assert(info.segment@.take(k as int) =~= info.segment@);
        Ok(())
    }

    /// Number of segments that the listing shows: those both decoded and
    /// described.
    pub open spec fn listed(decoded: nat, described: nat) -> int {
        if decoded < described {
            decoded as int
        } else {
            described as int
        }
    }

    /// Tokens of the whole listing: an equate for every symbol outside any
    /// bank, then for each segment its header, a segment directive, the
    /// tokens of its ranges and its footer.
    pub fn to_text(&mut self, info: &NesFile) -> (r: Result<Vec<Line>, Error>)
        requires
            old(self).symtab.wf(),
        ensures
            final(self).symtab.wf(),
            r matches Err(e) ==> e is RomOutOfBounds,
            final(self).rom@ == old(self).rom@,
            final(self).segment@ == old(self).segment@,
            r is Ok <==> listing_fits(old(self).rom@, old(self).segment@, info.segment@),
            r matches Ok(v) ==> is_listing(
                old(self).symtab@,
                old(self).rom@,
                old(self).segment@,
                info.segment@,
                lines_view(v@),
                final(self).symtab@,
            ),
    {
        let mut ret: Vec<Line> = Vec::new();
        let globals = self.symtab.get_globals();
        let ghost m = self.symtab@;
        let mut i: usize = 0;
        while i < globals.len()
            invariant
                i <= globals@.len(),
                ret@.len() == i,
                m == self.symtab@,
                forall|a: int, b: int| 0 <= a < b < globals@.len() ==> #[trigger] globals@[a].0 < #[trigger] globals@[b].0,
                forall|a: int|
                    0 <= a < globals@.len() ==> #[trigger] m.table.contains_key((None, globals@[a].0))
                        && m.table[(None, globals@[a].0)].name == globals@[a].1@,
                forall|j: int| 0 <= j < i ==> #[trigger] ret@[j]@ == LineView::Equate(globals@[j].0, globals@[j].1@),
            decreases globals@.len() - i,
        {
            ret.push(Line::Equate(globals[i].0, globals[i].1.clone()));
            i += 1;
        }
        proof {
            let s = lines_view(ret@);
            assert(s.take(ret@.len() as int) == s);
            assert forall|a: u16| #[trigger] m.table.contains_key((None, a)) implies exists|j: int|
                0 <= j < s.len() && s[j] == LineView::Equate(a, m.table[(None, a)].name) by {
                let j = choose|j: int| 0 <= j < globals@.len() && globals@[j].0 == a;
                assert(s[j] == LineView::Equate(a, m.table[(None, a)].name));
            }
            assert forall|x: int, y: int|
                0 <= x < y < s.len() implies (#[trigger] s[x] matches LineView::Equate(a, _) && #[trigger] s[y] matches LineView::Equate(b, _) && a < b) by {
                assert(globals@[x].0 < globals@[y].0);
            }
            assert(equates_of(m, s));
        }
        let ghost k = ret@.len() as int;
        let ghost head = lines_view(ret@);
        let ghost n = Self::listed(self.segment@.len(), info.segment@.len());
        let mut si: usize = 0;
        while si < self.segment.len() && si < info.segment.len()
            invariant
                self.symtab.wf(),
                self.segment@ == old(self).segment@,
                self.rom@ == old(self).rom@,
                n == Self::listed(self.segment@.len(), info.segment@.len()),
                si <= n,
                k == head.len(),
                equates_of(m, head),
                m == old(self).symtab@,
                lines_view(ret@) == head + segments_lines(m, self.rom@, self.segment@, info.segment@, si as int).0,
                self.symtab@ == segments_lines(m, self.rom@, self.segment@, info.segment@, si as int).1,
                forall|k2: int, j2: int|
                    0 <= k2 < si && 0 <= j2 < self.segment@[k2].range@.len() ==> range_fits(
                        #[trigger] self.segment@[k2].range@[j2],
                        self.rom@,
                        &info.segment@[k2],
                    ),
            decreases self.segment@.len() - si,
        {
            let nes = &info.segment[si];
            let ghost prev = segments_lines(m, self.rom@, self.segment@, info.segment@, si as int);
            let ghost seg_start = lines_view(ret@);
            extend_lines(&mut ret, commentblock(nes.header.as_str()));
            let d0 = concat(".segment \"", nes.name.as_str());
            let d = concat(d0.as_str(), "\"");
            let ghost before_directive = lines_view(ret@);
            ret.push(Line::Directive(d));
            assert(lines_view(ret@) =~= before_directive.push(segment_directive(nes.name@)));
            let ghost body_start = lines_view(ret@);
            let mut j: usize = 0;
            while j < self.segment[si].range.len()
                invariant
                    self.symtab.wf(),
                    self.segment@ == old(self).segment@,
                    self.rom@ == old(self).rom@,
                    si < self.segment@.len(),
                    si < info.segment@.len(),
                    n == Self::listed(self.segment@.len(), info.segment@.len()),
                    nes == info.segment@[si as int],
                    j <= self.segment@[si as int].range@.len(),
                    lines_view(ret@) == body_start + ranges_lines(prev.1, self.rom@, self.segment@[si as int].range@.take(j as int), nes).0,
                    self.symtab@ == ranges_lines(prev.1, self.rom@, self.segment@[si as int].range@.take(j as int), nes).1,
                    forall|k2: int, j2: int|
                        0 <= k2 < si && 0 <= j2 < self.segment@[k2].range@.len() ==> range_fits(
                            #[trigger] self.segment@[k2].range@[j2],
                            self.rom@,
                            &info.segment@[k2],
                        ),
                    forall|j2: int|
                        0 <= j2 < j ==> range_fits(
                            #[trigger] self.segment@[si as int].range@[j2],
                            self.rom@,
                            nes,
                        ),
                decreases self.segment@[si as int].range@.len() - j,
            {
                let ghost r2 = lines_view(ret@);
                match self.segment[si].range[j].to_text(&self.rom, nes, &mut self.symtab) {
                    Ok(v) => {
                        extend_lines(&mut ret, v);
                    },
                    Err(e) => {
                        proof {
                            assert(!range_fits(self.segment@[si as int].range@[j as int], self.rom@, nes));
                            assert(si < n);
                        }
                        return Err(e);
                    },
                }
                proof {
                    let ranges = self.segment@[si as int].range@;
                    assert(ranges.take(j as int + 1).drop_last() =~= ranges.take(j as int));
                    assert(ranges.take(j as int + 1).last() == ranges[j as int]);
                    assert(lines_view(ret@) =~= body_start + ranges_lines(prev.1, self.rom@, ranges.take(j as int + 1), nes).0);
                }
                j += 1;
            }
            let ghost body_end = lines_view(ret@);
            extend_lines(&mut ret, commentblock(nes.footer.as_str()));
            proof {
                let ranges = self.segment@[si as int].range@;
                assert(ranges.take(j as int) =~= ranges);
                assert(lines_view(ret@) =~= head + segments_lines(m, self.rom@, self.segment@, info.segment@, si as int + 1).0);
            }
            proof {
                assert forall|k2: int, j2: int|
                    0 <= k2 < si + 1 && 0 <= j2 < self.segment@[k2].range@.len() implies range_fits(
                        #[trigger] self.segment@[k2].range@[j2],
                        self.rom@,
                        &info.segment@[k2],
                    ) by {
                    if k2 == si {
                        assert(range_fits(self.segment@[si as int].range@[j2], self.rom@, nes));
                    }
                }
            }
            si += 1;
        }
        proof {
            assert(lines_view(ret@).take(k) =~= head);
            assert(lines_view(ret@).skip(k) =~= segments_lines(m, self.rom@, self.segment@, info.segment@, si as int).0);
            assert(equates_of(old(self).symtab@, lines_view(ret@).take(k)));
            assert(si as int == n);
            assert(is_listing(m, self.rom@, self.segment@, info.segment@, lines_view(ret@), self.symtab@));
        }
        Ok(ret)
    }
}

} // verus!
