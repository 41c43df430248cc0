use vstd::prelude::*;
use vstd::string::*;

use crate::nesfile::AddrRange;
use crate::text::{concat, decimal, decimal_string};

verus! {

/// Where a (bank, address) pair is looked up after bank resolution.
#[derive(Clone, Copy, Debug, PartialEq, Eq, Structural)]
pub enum BankSel {
    /// Outside any bank: RAM, hardware, or no bank was asked for.
    Global,
    /// One bank.
    Bank(i16),
    /// Banked memory that is not mapped in: every bank is searched.
    AnyBank,
}

impl BankSel {
    /// Bank component of the table key for a concrete selection.
    pub open spec fn key_bank(self) -> Option<i16> {
        match self {
            BankSel::Bank(b) => Some(b),
            _ => None,
        }
    }
}

/// Key of the symbol table: bank (`None` outside any bank) and address.
pub type BankAddress = (Option<i16>, u16);

/// A symbol as the table holds it.
#[derive(Debug)]
pub struct Symbol {
    /// Generated from an address and not yet confirmed by a reference.
    pub synthetic: bool,
    pub symbol: String,
}

/// Mathematical model of a symbol.
pub struct SymbolModel {
    pub name: Seq<char>,
    pub synthetic: bool,
}

impl Symbol {
    pub open spec fn model(&self) -> SymbolModel {
        SymbolModel { name: self.symbol@, synthetic: self.synthetic }
    }
}

/// Order of banks in the key order: no bank first, then by bank number.
pub open spec fn bank_rank(b: Option<i16>) -> int {
    match b {
        None => 0,
        Some(x) => x + 32769,
    }
}

/// Position of a key in the order (bank, then address).
pub open spec fn key_rank(k: BankAddress) -> int {
    bank_rank(k.0) * 0x10000 + k.1
}

/// Name stored for a symbol declared under a bank selection: qualified by
/// the bank for a concrete bank.
pub open spec fn qualified_name(sel: BankSel, sym: Seq<char>) -> Seq<char> {
    match sel {
        BankSel::Bank(b) => "bank"@ + decimal(b as int) + "_"@ + sym,
        _ => sym,
    }
}

/// Whether a rendered name carries an offset suffix.
pub open spec fn has_offset(s: Seq<char>) -> bool {
    s.contains('+') || s.contains('-')
}

/// The address one below, wrapping at zero.
pub open spec fn prev_addr(a: u16) -> u16 {
    if a == 0 {
        0xFFFF
    } else {
        (a - 1) as u16
    }
}

/// The address one above, wrapping at the top.
pub open spec fn next_addr(a: u16) -> u16 {
    if a == 0xFFFF {
        0
    } else {
        (a + 1) as u16
    }
}

/// View of an optional string.
pub open spec fn opt_view(o: Option<String>) -> Option<Seq<char>> {
    match o {
        Some(s) => Some(s@),
        None => None,
    }
}

/// Mathematical model of the symbol table.
pub struct SymtabModel {
    /// The high bank's address range, both bounds inclusive.
    pub high_start: int,
    pub high_end: int,
    pub highbank: Option<i16>,
    pub table: Map<BankAddress, SymbolModel>,
}

impl SymtabModel {
    pub open spec fn resolve_bank(self, bank: Option<i16>, addr: u16) -> BankSel {
        if addr < 0x8000 || bank is None {
            BankSel::Global
        } else if self.high_start <= addr <= self.high_end {
            match self.highbank {
                Some(h) => BankSel::Bank(h),
                None => BankSel::Global,
            }
        } else if bank == self.highbank {
            BankSel::AnyBank
        } else {
            BankSel::Bank(bank.unwrap())
        }
    }

    /// `b` is the lowest bank (no bank lowest of all) with a symbol at `addr`.
    pub open spec fn is_first_bank(self, b: Option<i16>, addr: u16) -> bool {
        &&& self.table.contains_key((b, addr))
        &&& forall|b2: Option<i16>| #[trigger]
            self.table.contains_key((b2, addr)) ==> bank_rank(b) <= bank_rank(b2)
    }

    /// The symbol at `addr` in the lowest bank that has one there.
    pub open spec fn any_bank_lookup(self, addr: u16) -> Option<SymbolModel> {
        if exists|b: Option<i16>| self.is_first_bank(b, addr) {
            let b = choose|b: Option<i16>| self.is_first_bank(b, addr);
            Some(self.table[(b, addr)])
        } else {
            None
        }
    }

    pub open spec fn entry(self, k: BankAddress) -> Option<SymbolModel> {
        if self.table.contains_key(k) {
            Some(self.table[k])
        } else {
            None
        }
    }

    /// The symbol found for a reference; with `check_global`, a symbol
    /// outside any bank wins over a missing or synthetic one of the bank.
    pub open spec fn lookup(self, bank: Option<i16>, addr: u16, check_global: bool) -> Option<
        SymbolModel,
    > {
        let sel = self.resolve_bank(bank, addr);
        if sel is AnyBank {
            self.any_bank_lookup(addr)
        } else {
            let sym = self.entry((sel.key_bank(), addr));
            if check_global && (sym is None || sym.unwrap().synthetic) && self.table.contains_key(
                (None, addr),
            ) {
                Some(self.table[(None, addr)])
            } else {
                sym
            }
        }
    }

    pub open spec fn lookup_name(self, bank: Option<i16>, addr: u16, check_global: bool) -> Option<
        Seq<char>,
    > {
        match self.lookup(bank, addr, check_global) {
            Some(s) => Some(s.name),
            None => None,
        }
    }

    /// A confirmed symbol at `addr`, else one byte into a confirmed symbol
    /// (`+1`), else one byte before one (`-1`), else a synthetic one at `addr`.
    pub open spec fn offset_lookup(self, bank: Option<i16>, addr: u16) -> Option<Seq<char>> {
        let exact = self.lookup(bank, addr, true);
        let below = self.lookup(bank, prev_addr(addr), true);
        let above = self.lookup(bank, next_addr(addr), true);
        if exact is Some && !exact.unwrap().synthetic {
            Some(exact.unwrap().name)
        } else if below is Some && !below.unwrap().synthetic {
            Some(below.unwrap().name + "+1"@)
        } else if above is Some && !above.unwrap().synthetic {
            Some(above.unwrap().name + "-1"@)
        } else {
            match exact {
                Some(s) => Some(s.name),
                None => None,
            }
        }
    }

    /// The table after declaring `sym` at (bank, addr): nothing changes when
    /// the bank is ambiguous or the slot is taken.
    pub open spec fn put_table(self, bank: Option<i16>, addr: u16, sym: Seq<char>, synthetic: bool) -> Map<
        BankAddress,
        SymbolModel,
    > {
        let sel = self.resolve_bank(bank, addr);
        let k = (sel.key_bank(), addr);
        if sel is AnyBank || (synthetic && addr < 0x8000) || self.table.contains_key(k) {
            self.table
        } else {
            self.table.insert(k, SymbolModel { name: qualified_name(sel, sym), synthetic })
        }
    }

    /// The table after a promotion: the symbol at the slot, if any, is
    /// confirmed, unless no name or a name with an offset was rendered.
    pub open spec fn promote_table(self, bank: Option<i16>, addr: u16, sym: Option<Seq<char>>) -> Map<
        BankAddress,
        SymbolModel,
    > {
        let k = (self.resolve_bank(bank, addr).key_bank(), addr);
        if sym is None || has_offset(sym.unwrap()) || self.resolve_bank(bank, addr) is AnyBank
            || !self.table.contains_key(k) {
            self.table
        } else {
            self.table.insert(k, SymbolModel { name: self.table[k].name, synthetic: false })
        }
    }

    /// The same high bank with another table.
    pub open spec fn with_table(self, table: Map<BankAddress, SymbolModel>) -> SymtabModel {
        SymtabModel { table, ..self }
    }

    pub open spec fn same_high_bank(self, other: SymtabModel) -> bool {
        self.high_start == other.high_start && self.high_end == other.high_end && self.highbank
            == other.highbank
    }
}

/// Declaring a synthetic symbol in an empty slot and then promoting it
/// confirms it; a second promotion changes nothing.
pub proof fn lemma_promote_idempotent(
    m: SymtabModel,
    bank: Option<i16>,
    addr: u16,
    sym: Seq<char>,
    rendered: Seq<char>,
)
    requires
        addr >= 0x8000,
        !(m.resolve_bank(bank, addr) is AnyBank),
        !m.table.contains_key((m.resolve_bank(bank, addr).key_bank(), addr)),
        !has_offset(rendered),
    ensures
        ({
            let k = (m.resolve_bank(bank, addr).key_bank(), addr);
            let m1 = m.with_table(m.put_table(bank, addr, sym, true));
            let m2 = m1.with_table(m1.promote_table(bank, addr, Some(rendered)));
            let m3 = m2.with_table(m2.promote_table(bank, addr, Some(rendered)));
            &&& m1.table[k].synthetic
            &&& m2.table.contains_key(k) && !m2.table[k].synthetic
            &&& m2.table[k].name == m1.table[k].name
            &&& m3.table == m2.table
        }),
{
    let k = (m.resolve_bank(bank, addr).key_bank(), addr);
    let m1 = m.with_table(m.put_table(bank, addr, sym, true));
    let m2 = m1.with_table(m1.promote_table(bank, addr, Some(rendered)));
    assert(m2.table.insert(k, SymbolModel { name: m2.table[k].name, synthetic: false }) =~= m2.table);
}

/// Promoting a confirmed symbol, or promoting twice in a row, leaves the
/// table as one promotion left it.
pub proof fn lemma_promote_twice(m: SymtabModel, bank: Option<i16>, addr: u16, rendered: Option<Seq<char>>)
    ensures
        ({
            let m1 = m.with_table(m.promote_table(bank, addr, rendered));
            m1.promote_table(bank, addr, rendered) == m1.table
        }),
{
    let m1 = m.with_table(m.promote_table(bank, addr, rendered));
    let k = (m.resolve_bank(bank, addr).key_bank(), addr);
    if !(rendered is None || has_offset(rendered.unwrap()) || m.resolve_bank(bank, addr) is AnyBank
        || !m.table.contains_key(k)) {
        assert(m1.table.insert(k, SymbolModel { name: m1.table[k].name, synthetic: false }) =~= m1.table);
    }
}

/// A reference to the byte after a confirmed symbol, where no symbol of its
/// own stands, is named by that symbol with `+1`.
pub proof fn lemma_offset_one_past(m: SymtabModel, bank: Option<i16>, addr: u16)
    requires
        m.lookup(bank, addr, true) is None,
        m.lookup(bank, prev_addr(addr), true) matches Some(s) && !s.synthetic,
    ensures
        m.offset_lookup(bank, addr) == Some(m.lookup(bank, prev_addr(addr), true).unwrap().name + "+1"@),
{
}

struct Entry {
    bank: Option<i16>,
    addr: u16,
    sym: Symbol,
}

impl Entry {
    spec fn key(&self) -> BankAddress {
        (self.bank, self.addr)
    }
}

/// Symbols by (bank, address), with the high bank that is always mapped.
pub struct Symtab {
    highbank_range: AddrRange,
    highbank: Option<i16>,
    /// Entries in strictly increasing key order.
    table: Vec<Entry>,
    model: Ghost<Map<BankAddress, SymbolModel>>,
}

impl View for Symtab {
    type V = SymtabModel;

    closed spec fn view(&self) -> SymtabModel {
        SymtabModel {
            high_start: self.highbank_range.start as int,
            high_end: self.highbank_range.end as int,
            highbank: self.highbank,
            table: self.model@,
        }
    }
}

fn copy_symbol(s: &Symbol) -> (r: Symbol)
    ensures
        r.model() == s.model(),
{
    Symbol { synthetic: s.synthetic, symbol: s.symbol.clone() }
}

/// Whether the text holds a `+` or a `-`.
fn has_offset_suffix(s: &str) -> (r: bool)
    ensures
        r == has_offset(s@),
{
    let n = s.unicode_len();
    let mut i: usize = 0;
    while i < n
        invariant
            n == s@.len(),
            i <= n,
            forall|j: int| 0 <= j < i ==> s@[j] != '+' && s@[j] != '-',
        decreases n - i,
    {
        let c = s.get_char(i);
        if c == '+' || c == '-' {
            assert(s@[i as int] == c);
            return true;
        }
        i += 1;
    }
    false
}

proof fn lemma_key_rank_injective(a: BankAddress, b: BankAddress)
    requires
        key_rank(a) == key_rank(b),
    ensures
        a == b,
{
    assert(bank_rank(a.0) == bank_rank(b.0)) by (nonlinear_arith)
        requires
            bank_rank(a.0) * 0x10000 + a.1 == bank_rank(b.0) * 0x10000 + b.1,
            0 <= a.1 < 0x10000,
            0 <= b.1 < 0x10000,
    ;
}

fn rank_of(bank: Option<i16>, addr: u16) -> (r: u64)
    ensures
        r as int == key_rank((bank, addr)),
{
    let b: u64 = match bank {
        None => 0,
        Some(x) => (x as i32 + 32769) as u64,
    };
    b * 0x10000 + addr as u64
}

impl Symtab {
    pub closed spec fn wf(&self) -> bool {
        &&& forall|i: int, j: int|
            0 <= i < j < self.table@.len() ==> key_rank(#[trigger] self.table@[i].key()) < key_rank(
                #[trigger] self.table@[j].key(),
            )
        &&& forall|i: int|
            0 <= i < self.table@.len() ==> #[trigger] self.model@.contains_key(
                self.table@[i].key(),
            ) && self.model@[self.table@[i].key()] == self.table@[i].sym.model()
        &&& forall|k: BankAddress| #[trigger]
            self.model@.contains_key(k) ==> exists|i: int|
                0 <= i < self.table@.len() && self.table@[i].key() == k
    }

    /// An empty table with no high bank.
    pub fn new() -> (r: Symtab)
        ensures
            r.wf(),
            r@.table == Map::<BankAddress, SymbolModel>::empty(),
            r@.highbank is None,
            r@.high_start > r@.high_end,
    {
        Symtab {
            highbank_range: AddrRange { start: 0xFFFF, end: 0 },
            highbank: None,
            table: Vec::new(),
            model: Ghost(Map::empty()),
        }
    }

    /// Sets the address range and id of the bank that is always mapped.
    pub fn set_highbank(&mut self, range: AddrRange, bank: Option<i16>)
        requires
            old(self).wf(),
        ensures
            final(self).wf(),
            final(self)@.table == old(self)@.table,
            final(self)@.high_start == range.start,
            final(self)@.high_end == range.end,
            final(self)@.highbank == bank,
    {
        self.highbank_range = range;
        self.highbank = bank;
    }

    /// Which bank a reference to `addr` from `bank` resolves to.
    pub fn resolve_bank(&self, bank: Option<i16>, addr: u16) -> (r: BankSel)
        ensures
            r == self@.resolve_bank(bank, addr),
    {
        let a = addr as usize;
        if a < 0x8000 || bank.is_none() {
            BankSel::Global
        } else if self.highbank_range.start <= a && a <= self.highbank_range.end {
            match self.highbank {
                Some(h) => BankSel::Bank(h),
                None => BankSel::Global,
            }
        } else if bank == self.highbank {
            BankSel::AnyBank
        } else {
            match bank {
                Some(b) => BankSel::Bank(b),
                None => BankSel::Global,
            }
        }
    }

    /// Position of the key in the table, or where it would be inserted.
    fn find(&self, bank: Option<i16>, addr: u16) -> (r: Result<usize, usize>)
        requires
            self.wf(),
        ensures
            r matches Ok(i) ==> i < self.table@.len() && self.table@[i as int].key() == (
                bank,
                addr,
            ),
            r matches Ok(i) ==> self@.table.contains_key((bank, addr)),
            r matches Err(i) ==> {
                &&& i <= self.table@.len()
                &&& !self@.table.contains_key((bank, addr))
                &&& forall|j: int|
                    0 <= j < i ==> key_rank(#[trigger] self.table@[j].key()) < key_rank(
                        (bank, addr),
                    )
                &&& forall|j: int|
                    i <= j < self.table@.len() ==> key_rank(#[trigger] self.table@[j].key())
                        > key_rank((bank, addr))
            },
    {
        let target = rank_of(bank, addr);
        let mut i: usize = 0;
        while i < self.table.len() && rank_of(self.table[i].bank, self.table[i].addr) < target
            invariant
                self.wf(),
                i <= self.table@.len(),
                target == key_rank((bank, addr)),
                forall|j: int|
                    0 <= j < i ==> key_rank(#[trigger] self.table@[j].key()) < key_rank(
                        (bank, addr),
                    ),
            decreases self.table@.len() - i,
        {
            i += 1;
        }
        if i < self.table.len() && rank_of(self.table[i].bank, self.table[i].addr) == target {
            proof {
                lemma_key_rank_injective(self.table@[i as int].key(), (bank, addr));
            }
            Ok(i)
        } else {
            proof {
                assert forall|j: int| i <= j < self.table@.len() implies key_rank(
                    #[trigger] self.table@[j].key(),
                ) > key_rank((bank, addr)) by {
                    if j > i {
                        assert(key_rank(self.table@[i as int].key()) < key_rank(
                            self.table@[j].key(),
                        ));
                    }
                }
                if self@.table.contains_key((bank, addr)) {
                    let j = choose|j: int|
                        0 <= j < self.table@.len() && self.table@[j].key() == (bank, addr);
                    assert(key_rank(self.table@[j].key()) == key_rank((bank, addr)));
                }
            }
            Err(i)
        }
    }

    /// Inserts an entry at the place that keeps the key order.
    fn insert_at(&mut self, i: usize, e: Entry)
        requires
            old(self).wf(),
            i <= old(self).table@.len(),
            forall|j: int|
                0 <= j < i ==> key_rank(#[trigger] old(self).table@[j].key()) < key_rank(e.key()),
            forall|j: int|
                i <= j < old(self).table@.len() ==> key_rank(#[trigger] old(self).table@[j].key())
                    > key_rank(e.key()),
        ensures
            final(self).wf(),
            final(self)@.table == old(self)@.table.insert(e.key(), e.sym.model()),
            final(self)@.same_high_bank(old(self)@),
    {
        let ghost k = e.key();
        let ghost m = e.sym.model();
        let ghost old_table = self.table@;
        self.table.insert(i, e);
        self.model = Ghost(self.model@.insert(k, m));
        proof {
            assert forall|a: int, b: int|
                0 <= a < b < self.table@.len() implies key_rank(#[trigger] self.table@[a].key())
                < key_rank(#[trigger] self.table@[b].key()) by {
                if a < i && b > i {
                    assert(self.table@[b] == old_table[b - 1]);
                    assert(key_rank(old_table[a].key()) < key_rank(k));
                } else if a < i && b < i {
                    assert(self.table@[b] == old_table[b]);
                } else if a > i {
                    assert(self.table@[a] == old_table[a - 1]);
                    assert(self.table@[b] == old_table[b - 1]);
                } else if b > i {
                    assert(self.table@[b] == old_table[b - 1]);
                }
            }
            assert forall|a: int| 0 <= a < self.table@.len() implies #[trigger] self.model@.contains_key(
                self.table@[a].key(),
            ) && self.model@[self.table@[a].key()] == self.table@[a].sym.model() by {
                if a < i {
                    assert(self.table@[a] == old_table[a]);
                    assert(key_rank(old_table[a].key()) < key_rank(k));
                } else if a > i {
                    assert(self.table@[a] == old_table[a - 1]);
                    assert(key_rank(old_table[a - 1].key()) > key_rank(k));
                }
            }
            assert forall|kk: BankAddress| #[trigger]
                self.model@.contains_key(kk) implies exists|a: int|
                0 <= a < self.table@.len() && self.table@[a].key() == kk by {
                if kk == k {
                    assert(self.table@[i as int].key() == kk);
                } else {
                    let a = choose|a: int| 0 <= a < old_table.len() && old_table[a].key() == kk;
                    if a < i {
                        assert(self.table@[a] == old_table[a]);
                    } else {
                        assert(self.table@[a + 1] == old_table[a]);
                    }
                }
            }
        }
    }

    /// Declares `sym` at (bank, addr), unless the bank is ambiguous or the
    /// slot is taken: the first declaration wins.
    fn insert_symbol(&mut self, bank: Option<i16>, addr: u16, sym: &str, synthetic: bool)
        requires
            old(self).wf(),
        ensures
            final(self).wf(),
            final(self)@.same_high_bank(old(self)@),
            final(self)@.table == old(self)@.put_table(bank, addr, sym@, synthetic),
    {
        let sel = self.resolve_bank(bank, addr);
        if let BankSel::AnyBank = sel {
            return ;
        }
        if synthetic && addr < 0x8000 {
            return ;
        }
        let kb = match sel {
            BankSel::Bank(b) => Some(b),
            _ => None,
        };
        match self.find(kb, addr) {
            Ok(_) => {},
            Err(i) => {
                let name = match sel {
                    BankSel::Bank(b) => {
                        let d = decimal_string(b);
                        let prefix = concat("bank", d.as_str());
                        let qualified = concat(prefix.as_str(), "_");
                        concat(qualified.as_str(), sym)
                    },
                    _ => String::from_str(sym),
                };
                let e = Entry { bank: kb, addr, sym: Symbol { synthetic, symbol: name } };
                self.insert_at(i, e);
            },
        }
    }

    /// Declares a confirmed symbol.
    pub fn put(&mut self, bank: Option<i16>, addr: u16, sym: &str)
        requires
            old(self).wf(),
        ensures
            final(self).wf(),
            final(self)@.same_high_bank(old(self)@),
            final(self)@.table == old(self)@.put_table(bank, addr, sym@, false),
    {
        self.insert_symbol(bank, addr, sym, false);
    }

    /// Declares a symbol generated from an address; nothing happens below
    /// 0x8000, for an ambiguous bank, or where a symbol already stands.
    pub fn synthetic_put(&mut self, bank: Option<i16>, addr: u16, sym: &str)
        requires
            old(self).wf(),
        ensures
            final(self).wf(),
            final(self)@.same_high_bank(old(self)@),
            final(self)@.table == old(self)@.put_table(bank, addr, sym@, true),
    {
        self.insert_symbol(bank, addr, sym, true);
    }

    /// Confirms the symbol at (bank, addr) once a reference rendered as `sym`
    /// without an offset.
    pub fn promote(&mut self, bank: Option<i16>, addr: u16, sym: Option<&str>)
        requires
            old(self).wf(),
        ensures
            final(self).wf(),
            final(self)@.same_high_bank(old(self)@),
            final(self)@.table == old(self)@.promote_table(
                bank,
                addr,
                match sym {
                    Some(s) => Some(s@),
                    None => None,
                },
            ),
    {
        match sym {
            None => {
                return ;
            },
            Some(s) => {
                if has_offset_suffix(s) {
                    return ;
                }
            },
        }
        let sel = self.resolve_bank(bank, addr);
        if let BankSel::AnyBank = sel {
            return ;
        }
        let kb = match sel {
            BankSel::Bank(b) => Some(b),
            _ => None,
        };
        match self.find(kb, addr) {
            Ok(i) => {
                let ghost old_table = self.table@;
                let ghost old_model = self.model@;
                let ghost k = (kb, addr);
                assert(old_table[i as int].key() == k);
                assert(old_model[k] == old_table[i as int].sym.model());
                self.table[i].sym.synthetic = false;
                self.model = Ghost(
                    self.model@.insert(k, SymbolModel { name: self.model@[k].name, synthetic: false }),
                );
                proof {
                    assert forall|a: int| 0 <= a < self.table@.len() implies #[trigger] self.model@.contains_key(
                        self.table@[a].key(),
                    ) && self.model@[self.table@[a].key()] == self.table@[a].sym.model() by {
                        if a == i {
                            assert(self.table@[a].sym.symbol == old_table[a].sym.symbol);
                            assert(old_table[a].key() == k);
                            assert(self.table@[a].sym.model() == SymbolModel { name: old_model[k].name, synthetic: false });
                        } else {
                            assert(self.table@[a] == old_table[a]);
                            if self.table@[a].key() == k {
                                lemma_key_rank_injective(self.table@[a].key(), k);
                                if a < i {
                                    assert(key_rank(old_table[a].key()) < key_rank(old_table[i as int].key()));
                                } else {
                                    assert(key_rank(old_table[a].key()) > key_rank(old_table[i as int].key()));
                                }
                            }
                        }
                    }
                    assert forall|kk: BankAddress| #[trigger]
                        self.model@.contains_key(kk) implies exists|a: int|
                        0 <= a < self.table@.len() && self.table@[a].key() == kk by {
                        if kk == k {
                            assert(self.table@[i as int].key() == kk);
                        } else {
                            let a = choose|a: int| 0 <= a < old_table.len() && old_table[a].key() == kk;
                            assert(self.table@[a].key() == kk);
                        }
                    }
                    assert forall|a: int, b: int|
                        0 <= a < b < self.table@.len() implies key_rank(#[trigger] self.table@[a].key())
                        < key_rank(#[trigger] self.table@[b].key()) by {
                        assert(self.table@[a].key() == old_table[a].key());
                        assert(self.table@[b].key() == old_table[b].key());
                    }
                }
            },
            Err(_) => {},
        }
    }

    /// The symbol for a reference to (bank, addr); see `SymtabModel::lookup`.
    fn find_symbol(&self, bank: Option<i16>, addr: u16, check_global: bool) -> (r: Option<Symbol>)
        requires
            self.wf(),
        ensures
            match r {
                Some(s) => self@.lookup(bank, addr, check_global) == Some(s.model()),
                None => self@.lookup(bank, addr, check_global) is None,
            },
    {
        let sel = self.resolve_bank(bank, addr);
        if let BankSel::AnyBank = sel {
            let mut i: usize = 0;
            while i < self.table.len()
                invariant
                    self.wf(),
                    sel == self@.resolve_bank(bank, addr),
                    sel is AnyBank,
                    i <= self.table@.len(),
                    forall|j: int| 0 <= j < i ==> #[trigger] self.table@[j].addr != addr,
                decreases self.table@.len() - i,
            {
                if self.table[i].addr == addr {
                    let ghost b = self.table@[i as int].bank;
                    proof {
                        assert(self@.table.contains_key(self.table@[i as int].key()));
                        assert forall|b2: Option<i16>| #[trigger]
                            self@.table.contains_key((b2, addr)) implies bank_rank(b) <= bank_rank(b2) by {
                            let j = choose|j: int|
                                0 <= j < self.table@.len() && self.table@[j].key() == (b2, addr);
                            if j > i {
                                assert(key_rank(self.table@[i as int].key()) < key_rank(self.table@[j].key()));
                            } else if j < i {
                                assert(self.table@[j].addr != addr);
                            }
                        }
                        assert(self@.is_first_bank(b, addr));
                        let c = choose|c: Option<i16>| self@.is_first_bank(c, addr);
                        assert(bank_rank(c) == bank_rank(b));
                        assert(c == b);
                        assert(self@.any_bank_lookup(addr) == Some(self@.table[(b, addr)]));
                        assert(self.table@[i as int].key() == (b, addr));
                        assert(self@.table[(b, addr)] == self.table@[i as int].sym.model());
                    }
                    return Some(copy_symbol(&self.table[i].sym));
                }
                i += 1;
            }
            proof {
                if exists|b: Option<i16>| self@.is_first_bank(b, addr) {
                    let b = choose|b: Option<i16>| self@.is_first_bank(b, addr);
                    let j = choose|j: int|
                        0 <= j < self.table@.len() && self.table@[j].key() == (b, addr);
                    assert(self.table@[j].addr == addr);
                }
            }
            return None;
        }
        let kb = match sel {
            BankSel::Bank(b) => Some(b),
            _ => None,
        };
        let found = self.find(kb, addr);
        let weak = match found {
            Ok(i) => self.table[i].sym.synthetic,
            Err(_) => true,
        };
        if check_global && weak {
            if let Ok(g) = self.find(None, addr) {
                return Some(copy_symbol(&self.table[g].sym));
            }
        }
        match found {
            Ok(i) => Some(copy_symbol(&self.table[i].sym)),
            Err(_) => None,
        }
    }

    /// Name for a reference to (bank, addr); a symbol outside any bank wins
    /// over a missing or synthetic one of the bank.
    pub fn get(&self, bank: Option<i16>, addr: u16) -> (r: Option<String>)
        requires
            self.wf(),
        ensures
            opt_view(r) == self@.lookup_name(bank, addr, true),
    {
        match self.find_symbol(bank, addr, true) {
            Some(s) => Some(s.symbol),
            None => None,
        }
    }

    /// Name of the label at (bank, addr): the table's own symbol there.
    pub fn get_label(&self, bank: Option<i16>, addr: u16) -> (r: Option<String>)
        requires
            self.wf(),
        ensures
            opt_view(r) == self@.lookup_name(bank, addr, false),
    {
        match self.find_symbol(bank, addr, false) {
            Some(s) => Some(s.symbol),
            None => None,
        }
    }

    /// Name for a reference to (bank, addr), possibly as an offset of one
    /// byte from a confirmed symbol; see `SymtabModel::offset_lookup`.
    pub fn get_offset(&self, bank: Option<i16>, addr: u16) -> (r: Option<String>)
        requires
            self.wf(),
        ensures
            opt_view(r) == self@.offset_lookup(bank, addr),
    {
        let exact = self.find_symbol(bank, addr, true);
        if let Some(s) = &exact {
            if !s.synthetic {
                return Some(s.symbol.clone());
            }
        }
        let below_addr: u16 = if addr == 0 {
            0xFFFF
        } else {
            addr - 1
        };
        if let Some(s) = self.find_symbol(bank, below_addr, true) {
            if !s.synthetic {
                let mut name = s.symbol;
                name.append("+1");
                return Some(name);
            }
        }
        let above_addr: u16 = if addr == 0xFFFF {
            0
        } else {
            addr + 1
        };
        if let Some(s) = self.find_symbol(bank, above_addr, true) {
            if !s.synthetic {
                let mut name = s.symbol;
                name.append("-1");
                return Some(name);
            }
        }
        match exact {
            Some(s) => Some(s.symbol),
            None => None,
        }
    }

    /// Every symbol outside any bank, by increasing address.
    pub fn get_globals(&self) -> (r: Vec<(u16, String)>)
        requires
            self.wf(),
        ensures
            forall|i: int, j: int| 0 <= i < j < r@.len() ==> #[trigger] r@[i].0 < #[trigger] r@[j].0,
            forall|i: int|
                0 <= i < r@.len() ==> #[trigger] self@.table.contains_key((None, r@[i].0))
                    && self@.table[(None, r@[i].0)].name == r@[i].1@,
            forall|a: u16| #[trigger]
                self@.table.contains_key((None, a)) ==> exists|i: int|
                    0 <= i < r@.len() && r@[i].0 == a,
    {
        let mut r: Vec<(u16, String)> = Vec::new();
        let mut i: usize = 0;
        while i < self.table.len()
            invariant
                self.wf(),
                i <= self.table@.len(),
                forall|a: int, b: int| 0 <= a < b < r@.len() ==> #[trigger] r@[a].0 < #[trigger] r@[b].0,
                forall|a: int|
                    0 <= a < r@.len() ==> #[trigger] self@.table.contains_key((None, r@[a].0))
                        && self@.table[(None, r@[a].0)].name == r@[a].1@,
                forall|j: int| 0 <= j < i && #[trigger] self.table@[j].bank is None ==> exists|a: int|
                    0 <= a < r@.len() && r@[a].0 == self.table@[j].addr,
                r@.len() > 0 ==> exists|j: int| 0 <= j < i && self.table@[j].key() == (None::<i16>, r@.last().0),
            decreases self.table@.len() - i,
        {
            if self.table[i].bank.is_none() {
                let ghost old_r = r@;
                proof {
                    if old_r.len() > 0 {
                        let j = choose|j: int| 0 <= j < i && self.table@[j].key() == (None::<i16>, old_r.last().0);
                        assert(key_rank(self.table@[j].key()) < key_rank(self.table@[i as int].key()));
                    }
                }
                r.push((self.table[i].addr, self.table[i].sym.symbol.clone()));
                proof {
                    assert(self@.table.contains_key(self.table@[i as int].key()));
                    assert forall|a: int, b: int| 0 <= a < b < r@.len() implies #[trigger] r@[a].0 < #[trigger] r@[b].0 by {
                        if b < old_r.len() {
                            assert(r@[a] == old_r[a]);
                            assert(r@[b] == old_r[b]);
                        } else if a < old_r.len() - 1 {
                            assert(r@[a] == old_r[a]);
                            assert(old_r[a].0 < old_r[old_r.len() - 1].0);
                        }
                    }
                    assert forall|j: int| 0 <= j < i + 1 && #[trigger] self.table@[j].bank is None implies exists|a: int|
                        0 <= a < r@.len() && r@[a].0 == self.table@[j].addr by {
                        if j < i {
                            let a = choose|a: int| 0 <= a < old_r.len() && old_r[a].0 == self.table@[j].addr;
                            assert(r@[a] == old_r[a]);
                        } else {
                            assert(r@[r@.len() - 1].0 == self.table@[j].addr);
                        }
                    }
                    assert(r@.last().0 == self.table@[i as int].addr);
                    assert forall|a: int|
                        0 <= a < r@.len() implies #[trigger] self@.table.contains_key((None, r@[a].0))
                            && self@.table[(None, r@[a].0)].name == r@[a].1@ by {
                        if a < old_r.len() {
                            assert(r@[a] == old_r[a]);
                        } else {
                            assert(self.table@[i as int].key() == (None::<i16>, r@[a].0));
                            assert(self@.table[(None::<i16>, r@[a].0)] == self.table@[i as int].sym.model());
                            assert(r@[a].1 == self.table@[i as int].sym.symbol);
                        }
                    }
                }
            }
            i += 1;
        }
        proof {
            assert forall|a: u16| #[trigger] self@.table.contains_key((None, a)) implies exists|k: int|
                0 <= k < r@.len() && r@[k].0 == a by {
                let j = choose|j: int| 0 <= j < self.table@.len() && self.table@[j].key() == (None::<i16>, a);
                assert(self.table@[j].bank is None);
            }
        }
        r
    }
}

impl Default for Symtab {
    fn default() -> (r: Symtab)
        ensures
            r.wf(),
            r@.table == Map::<BankAddress, SymbolModel>::empty(),
            r@.highbank is None,
            r@.high_start > r@.high_end,
    {
        Symtab::new()
    }
}

} // verus!
