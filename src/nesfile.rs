use vstd::prelude::*;
use vstd::string::*;

use crate::error::Error;

verus! {

/// An inclusive range `[start, end]`.
#[derive(Clone, Copy, Debug, PartialEq, Eq, Structural)]
pub struct AddrRange {
    pub start: usize,
    pub end: usize,
}

impl AddrRange {
    pub open spec fn spec_contains(self, x: int) -> bool {
        self.start <= x <= self.end
    }
}

/// Annotations attached to one address.
#[derive(Debug, Default)]
pub struct Comment {
    /// Trailing comment of the line.
    pub comment: String,
    /// Name declared for the address; empty when none is.
    pub symbol: String,
    /// Comment lines before the line.
    pub header: String,
    /// Comment lines after the line.
    pub footer: String,
}

impl Comment {
    /// An annotation that holds only a trailing comment.
    pub fn new(comment: &str) -> (r: Comment)
        ensures
            r.comment@ == comment@,
            r.symbol@.len() == 0,
            r.header@.len() == 0,
            r.footer@.len() == 0,
    {
        Comment {
            comment: String::from_str(comment),
            symbol: String::new(),
            header: String::new(),
            footer: String::new(),
        }
    }
}

/// How a declared range of addresses is to be decoded; both bounds inclusive.
#[derive(Clone, Copy, Debug, PartialEq, Eq, Structural)]
pub enum DataRange {
    Bytes(u16, u16),
    Words(u16, u16),
    Code(u16, u16),
}

impl Default for DataRange {
    fn default() -> (r: DataRange)
        ensures
            r == DataRange::Bytes(0, 0),
    {
        DataRange::Bytes(0, 0)
    }
}

impl DataRange {
    pub open spec fn start(self) -> u16 {
        match self {
            DataRange::Bytes(s, _) | DataRange::Words(s, _) | DataRange::Code(s, _) => s,
        }
    }

    pub open spec fn end(self) -> u16 {
        match self {
            DataRange::Bytes(_, e) | DataRange::Words(_, e) | DataRange::Code(_, e) => e,
        }
    }

    pub open spec fn spec_contains(self, address: u16) -> bool {
        self.start() <= address <= self.end()
    }

    pub fn contains(&self, address: u16) -> (r: bool)
        ensures
            r == self.spec_contains(address),
    {
        match self {
            DataRange::Code(start, end)
            | DataRange::Bytes(start, end)
            | DataRange::Words(start, end) => address >= *start && address <= *end,
        }
    }

    pub fn is_code(&self, address: u16) -> (r: bool)
        ensures
            r == (self is Code && self.spec_contains(address)),
    {
        if let DataRange::Code(start, end) = self {
            address >= *start && address <= *end
        } else {
            false
        }
    }

    pub fn is_bytes(&self, address: u16) -> (r: bool)
        ensures
            r == (self is Bytes && self.spec_contains(address)),
    {
        if let DataRange::Bytes(start, end) = self {
            address >= *start && address <= *end
        } else {
            false
        }
    }

    pub fn is_words(&self, address: u16) -> (r: bool)
        ensures
            r == (self is Words && self.spec_contains(address)),
    {
        if let DataRange::Words(start, end) = self {
            address >= *start && address <= *end
        } else {
            false
        }
    }
}

/// Number of ranges in `s` that hold `address`.
pub open spec fn num_containing(s: Seq<DataRange>, address: u16) -> nat
    decreases s.len(),
{
    if s.len() == 0 {
        0
    } else {
        num_containing(s.drop_last(), address) + if s.last().spec_contains(address) {
            1nat
        } else {
            0nat
        }
    }
}

/// No two entries of the list are for the same address: the list is a map
/// from address to value.
pub open spec fn keys_unique<T>(s: Seq<(u16, T)>) -> bool {
    forall|i: int, j: int| 0 <= i < j < s.len() ==> (#[trigger] s[i]).0 != (#[trigger] s[j]).0
}

/// `i` is the first annotation for `addr`.
pub open spec fn is_first_comment(s: Seq<(u16, Comment)>, addr: u16, i: int) -> bool {
    &&& 0 <= i < s.len()
    &&& s[i].0 == addr
    &&& forall|j: int| 0 <= j < i ==> #[trigger] s[j].0 != addr
}

/// A contiguous region of the image with its own address mapping.
#[derive(Debug)]
pub struct Segment {
    pub name: String,
    pub prgbank: Option<i16>,
    pub chrbank: Option<i16>,
    pub header: String,
    pub footer: String,
    /// Offsets of the segment in the image file.
    pub file_range: AddrRange,
    /// Logical addresses of the segment, as many as `file_range` holds.
    pub cpu_range: AddrRange,
    pub range: Vec<DataRange>,
    /// Annotations by logical address, one per address at most.
    pub address: Vec<(u16, Comment)>,
}

impl Segment {
    /// The two ranges have the same length, the logical one lies in the
    /// 16-bit address space, and each address has one annotation at most.
    pub open spec fn wf(&self) -> bool {
        &&& keys_unique(self.address@)
        &&& self.file_range.start <= self.file_range.end
        &&& self.cpu_range.start <= self.cpu_range.end <= 0xFFFF
        &&& self.file_range.end - self.file_range.start == self.cpu_range.end
            - self.cpu_range.start
    }

    /// Logical address of a file offset, before truncation to 16 bits.
    pub open spec fn spec_fofs_to_cpu(&self, fofs: int) -> int {
        fofs + self.cpu_range.start - self.file_range.start
    }

    /// File offset of a logical address.
    pub open spec fn spec_cpu_to_fofs(&self, address: int) -> int {
        address + self.file_range.start - self.cpu_range.start
    }

    /// The annotation of an address: the first entry for it.
    pub open spec fn spec_comment_at(&self, addr: u16) -> Option<Comment> {
        if exists|i: int| is_first_comment(self.address@, addr, i) {
            Some(self.address@[choose|i: int| is_first_comment(self.address@, addr, i)].1)
        } else {
            None
        }
    }

    pub fn comment_at(&self, addr: u16) -> (r: Option<&Comment>)
        ensures
            match r {
                Some(c) => self.spec_comment_at(addr) == Some(*c),
                None => self.spec_comment_at(addr) is None,
            },
    {
        let mut i: usize = 0;
        while i < self.address.len()
            invariant
                i <= self.address@.len(),
                forall|j: int| 0 <= j < i ==> #[trigger] self.address@[j].0 != addr,
            decreases self.address@.len() - i,
        {
            if self.address[i].0 == addr {
                proof {
                    assert(is_first_comment(self.address@, addr, i as int));
                    let c = choose|c: int| is_first_comment(self.address@, addr, c);
                    if c < i {
                        assert(self.address@[c].0 != addr);
                    } else if c > i {
                        assert(self.address@[i as int].0 != addr);
                    }
                }
                return Some(&self.address[i].1);
            }
            i += 1;
        }
        None
    }

    pub fn is_bytes(&self, address: u16) -> (r: bool)
        ensures
            r == exists|i: int|
                0 <= i < self.range@.len() && #[trigger] self.range@[i] is Bytes
                    && self.range@[i].spec_contains(address),
    {
        let mut i: usize = 0;
        while i < self.range.len()
            invariant
                i <= self.range@.len(),
                forall|j: int|
                    0 <= j < i ==> !(#[trigger] self.range@[j] is Bytes
                        && self.range@[j].spec_contains(address)),
            decreases self.range@.len() - i,
        {
            if self.range[i].is_bytes(address) {
                return true;
            }
            i += 1;
        }
        false
    }

    pub fn is_words(&self, address: u16) -> (r: bool)
        ensures
            r == exists|i: int|
                0 <= i < self.range@.len() && #[trigger] self.range@[i] is Words
                    && self.range@[i].spec_contains(address),
    {
        let mut i: usize = 0;
        while i < self.range.len()
            invariant
                i <= self.range@.len(),
                forall|j: int|
                    0 <= j < i ==> !(#[trigger] self.range@[j] is Words
                        && self.range@[j].spec_contains(address)),
            decreases self.range@.len() - i,
        {
            if self.range[i].is_words(address) {
                return true;
            }
            i += 1;
        }
        false
    }

    pub fn is_code(&self, address: u16) -> (r: bool)
        ensures
            r == exists|i: int|
                0 <= i < self.range@.len() && #[trigger] self.range@[i] is Code
                    && self.range@[i].spec_contains(address),
    {
        let mut i: usize = 0;
        while i < self.range.len()
            invariant
                i <= self.range@.len(),
                forall|j: int|
                    0 <= j < i ==> !(#[trigger] self.range@[j] is Code
                        && self.range@[j].spec_contains(address)),
            decreases self.range@.len() - i,
        {
            if self.range[i].is_code(address) {
                return true;
            }
            i += 1;
        }
        false
    }

    /// The declared range that holds `address`, if any; two or more such
    /// ranges are an error.
    pub fn get_range(&self, address: u16) -> (r: Result<Option<&DataRange>, Error>)
        ensures
            r is Err <==> num_containing(self.range@, address) >= 2,
            r is Err ==> r == Err::<Option<&DataRange>, Error>(Error::OverlappingRanges(address)),
            r == Ok::<Option<&DataRange>, Error>(None) <==> num_containing(self.range@, address)
                == 0,
            r matches Ok(Some(x)) ==> x.spec_contains(address) && exists|i: int|
                0 <= i < self.range@.len() && self.range@[i] == *x,
    {
        let mut found: Option<&DataRange> = None;
        let mut i: usize = 0;
        while i < self.range.len()
            invariant
                i <= self.range@.len(),
                num_containing(self.range@.take(i as int), address) <= 1,
                found is None <==> num_containing(self.range@.take(i as int), address) == 0,
                found matches Some(x) ==> x.spec_contains(address) && exists|j: int|
                    0 <= j < i && self.range@[j] == *x,
            decreases self.range@.len() - i,
        {
            assert(self.range@.take(i as int + 1).drop_last() == self.range@.take(i as int));
            if self.range[i].contains(address) {
                if found.is_some() {
                    proof {
                        lemma_num_containing_prefix(self.range@, address, i as int + 1);
                    }
                    return Err(Error::OverlappingRanges(address));
                }
                found = Some(&self.range[i]);
            }
            i += 1;
        }
        assert(self.range@.take(i as int) == self.range@);
        Ok(found)
    }

    /// Logical address of a file offset, truncated to 16 bits.
    pub fn fofs_to_cpu(&self, fofs: usize) -> (r: u16)
        requires
            0 <= self.spec_fofs_to_cpu(fofs as int) <= usize::MAX,
        ensures
            r as int == self.spec_fofs_to_cpu(fofs as int) % 0x10000,
    {
        let v: usize = if self.cpu_range.start >= self.file_range.start {
            fofs + (self.cpu_range.start - self.file_range.start)
        } else {
            fofs - (self.file_range.start - self.cpu_range.start)
        };
        (v % 0x10000) as u16
    }

    /// File offset of a logical address.
    pub fn cpu_to_fofs(&self, address: u16) -> (r: usize)
        requires
            0 <= self.spec_cpu_to_fofs(address as int) <= usize::MAX,
        ensures
            r as int == self.spec_cpu_to_fofs(address as int),
    {
        if self.file_range.start >= self.cpu_range.start {
            address as usize + (self.file_range.start - self.cpu_range.start)
        } else {
            address as usize - (self.cpu_range.start - self.file_range.start)
        }
    }

    /// Mapping a file offset of the segment to its logical address and back
    /// gives the offset again.
    pub proof fn lemma_address_round_trip(&self, fofs: int)
        requires
            self.wf(),
            self.file_range.spec_contains(fofs),
        ensures
            0 <= self.spec_fofs_to_cpu(fofs) <= 0xFFFF,
            self.spec_cpu_to_fofs(self.spec_fofs_to_cpu(fofs) % 0x10000) == fofs,
    {
    }
}

/// The declared range that holds `address`, where one does.
pub open spec fn containing_range(s: Seq<DataRange>, address: u16) -> DataRange {
    s[choose|i: int| 0 <= i < s.len() && s[i].spec_contains(address)]
}

/// A range that holds the address is counted.
pub proof fn lemma_contains_counted(s: Seq<DataRange>, address: u16, i: int)
    requires
        0 <= i < s.len(),
        s[i].spec_contains(address),
    ensures
        num_containing(s, address) >= 1,
    decreases s.len(),
{
    if i < s.len() - 1 {
        assert(s.drop_last()[i] == s[i]);
        lemma_contains_counted(s.drop_last(), address, i);
    }
}

/// Two ranges that hold the address are both counted.
pub proof fn lemma_two_counted(s: Seq<DataRange>, address: u16, i: int, j: int)
    requires
        0 <= i < j < s.len(),
        s[i].spec_contains(address),
        s[j].spec_contains(address),
    ensures
        num_containing(s, address) >= 2,
    decreases s.len(),
{
    assert(s.drop_last()[i] == s[i]);
    if j < s.len() - 1 {
        assert(s.drop_last()[j] == s[j]);
        lemma_two_counted(s.drop_last(), address, i, j);
    } else {
        lemma_contains_counted(s.drop_last(), address, i);
    }
}

/// Where exactly one range holds the address, `containing_range` is it.
pub proof fn lemma_containing_range(s: Seq<DataRange>, address: u16, i: int)
    requires
        num_containing(s, address) == 1,
        0 <= i < s.len(),
        s[i].spec_contains(address),
    ensures
        containing_range(s, address) == s[i],
{
    let k = choose|k: int| 0 <= k < s.len() && s[k].spec_contains(address);
    if k < i {
        lemma_two_counted(s, address, k, i);
    } else if k > i {
        lemma_two_counted(s, address, i, k);
    }
}

/// A positive count has a range that holds the address.
pub proof fn lemma_counted_contains(s: Seq<DataRange>, address: u16)
    requires
        num_containing(s, address) >= 1,
    ensures
        exists|i: int| 0 <= i < s.len() && s[i].spec_contains(address),
    decreases s.len(),
{
    if !s.last().spec_contains(address) {
        lemma_counted_contains(s.drop_last(), address);
        let i = choose|i: int| 0 <= i < s.drop_last().len() && s.drop_last()[i].spec_contains(address);
        assert(s[i] == s.drop_last()[i]);
    } else {
        assert(s[s.len() - 1].spec_contains(address));
    }
}

/// A count over a longer prefix is at least that over a shorter one.
proof fn lemma_num_containing_prefix(s: Seq<DataRange>, address: u16, n: int)
    requires
        0 <= n <= s.len(),
    ensures
        num_containing(s, address) >= num_containing(s.take(n), address),
    decreases s.len(),
{
    if n < s.len() {
        assert(s.drop_last().take(n) == s.take(n));
        lemma_num_containing_prefix(s.drop_last(), address, n);
    } else {
        assert(s.take(n) == s);
    }
}

/// The whole description of an image.
#[derive(Debug)]
pub struct NesFile {
    /// Title of the listing.
    pub name: String,
    /// Path of the image file, when the description names one.
    pub nesfile: Option<String>,
    /// Names of addresses outside any bank, one per address at most.
    pub global_symbols: Vec<(u16, String)>,
    pub segment: Vec<Segment>,
}

} // verus!
