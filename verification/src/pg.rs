//! Page-table layout: entry bit encoding, per-level index extraction, and the
//! recursive-mapping address arithmetic for both the two-level and the
//! four-level hierarchy.

use vstd::prelude::*;

verus! {

/// Bytes in one page or frame.
pub const BYTES_PER_PAGE: usize = 4096;

/// Entries in one table of the two-level hierarchy.
pub const PAGES_PER_TABLE: usize = 1024;

/// Upper bound of the two-level page-number space.
pub const PAGES_TOTAL: usize = 0xFFFFF;

/// Reserved top-level slot that maps the top-level table to itself.
pub const RECURSIVE_INDEX: usize = 0x3FF;

/// First page whose top-level slot is the reserved one; pages from here on
/// address the tables themselves and are never handed out.
pub const PAGES_LIMIT: usize = 0xFFC00;

/// Virtual address of the top-level table under the recursive mapping.
pub const PAGE_TABLE_ADDR: u32 = 0xFFFF_F000;

/// A page number: an index into the virtual address space, one page each.
#[derive(Clone, Copy, Debug, PartialEq, Eq, Structural)]
pub struct Page(pub usize);

impl Page {
    /// Byte address of the page on the two-level architecture.
    pub fn ptr(&self) -> (r: usize)
        requires
            self.0 <= PAGES_TOTAL,
        ensures
            r == self.0 * BYTES_PER_PAGE,
    {
        self.0 * BYTES_PER_PAGE
    }
}

/// Index of `page` within the table at `level` of the two-level hierarchy:
/// ten bits, shifted by ten for each level above the leaf.
pub open spec fn spec_level_index(level: int, page: int) -> int {
    (page / if level == 2 {
        1024
    } else {
        1
    }) % 1024
}

/// A level of the page-table hierarchy; its `index` picks the level's part
/// out of a page number.
pub trait Level {
    /// Which level this is, counted from the leaf upward.
    spec fn spec_level() -> int;

    /// Extracts this level's index bits from a page number.
    fn index(page: Page) -> (r: usize)
        requires
            Self::spec_level() == 1 || Self::spec_level() == 2,
        ensures
            r == spec_level_index(Self::spec_level(), page.0 as int),
            r < PAGES_PER_TABLE,
    ;
}

/// Leaf level: its tables hold mappings to frames.
pub enum Level1 { Leaf }

/// Top level of the two-level hierarchy.
pub enum Level2 { Top }

impl Level for Level1 {
    open spec fn spec_level() -> int {
        1
    }

    fn index(page: Page) -> (r: usize)
    {
        let r = page.0 & 0x3FF;
        proof {
            lemma_low_bits_mask(page.0);
        }
        r
    }
}

impl Level for Level2 {
    open spec fn spec_level() -> int {
        2
    }

    fn index(page: Page) -> (r: usize)
    {
        let r = (page.0 >> 10) & 0x3FF;
        proof {
            lemma_mid_bits_mask(page.0);
        }
        r
    }
}

/// A level that has tables below it.
pub trait HierarchicalLevel: Level {
    type NextLevel: Level;
}

impl HierarchicalLevel for Level2 {
    type NextLevel = Level1;
}

/// Marks an entry as present.
pub const ENTRY_PRESENT: u64 = 1;

/// Marks an entry as writable.
pub const ENTRY_WRITEABLE: u64 = 2;

/// Frame numbers fit the entry's frame field, bits 12 to 51 of the word.
pub const FRAME_BOUND: u64 = 0x100_0000_0000;

/// One word of a page table: bit 0 present, bit 1 writable, bits 12 to 51
/// the backing frame number.  A zero word is a free entry.
#[derive(Clone, Copy, Debug, PartialEq, Eq, Structural)]
pub struct PageTableEntry(u64);

impl PageTableEntry {
    /// The raw word.
    pub closed spec fn spec_word(&self) -> u64 {
        self.0
    }

    /// An entry is in use unless its word is zero.
    pub open spec fn spec_used(&self) -> bool {
        self.spec_word() != 0
    }

    /// The frame number held in bits 12 and up.
    pub open spec fn spec_frame(&self) -> u64 {
        self.spec_word() >> 12
    }

    /// A freshly constructed, free entry.
    pub fn empty() -> (r: PageTableEntry)
        ensures
            !r.spec_used(),
            r.spec_word() == 0,
    {
        PageTableEntry(0)
    }

    /// Whether the entry is free.
    pub fn free(&self) -> (r: bool)
        ensures
            r == !self.spec_used(),
    {
        self.0 == 0
    }

    /// Whether the entry is in use.
    pub fn used(&self) -> (r: bool)
        ensures
            r == self.spec_used(),
    {
        self.0 != 0
    }

    /// The frame number the entry holds.
    pub fn frame(&self) -> (r: u64)
        ensures
            r == self.spec_frame(),
    {
        self.0 >> 12
    }

    /// Points the entry at `frame`, present and writable.
    pub fn map(&mut self, frame: u64)
        requires
            frame < FRAME_BOUND,
        ensures
            final(self).spec_word() == ENTRY_PRESENT | ENTRY_WRITEABLE | (frame << 12),
            final(self).spec_used(),
            final(self).spec_frame() == frame,
    {
        self.0 = ENTRY_PRESENT | ENTRY_WRITEABLE | (frame << 12);
        proof {
            assert(frame < 0x100_0000_0000 ==> ((1u64 | 2u64 | (frame << 12)) != 0
                && (1u64 | 2u64 | (frame << 12)) >> 12 == frame)) by (bit_vector);
        }
    }

    /// Clears the entry and returns the frame it held.
    pub fn unmap(&mut self) -> (r: u64)
        ensures
            r == old(self).spec_frame(),
            final(self).spec_word() == 0,
            !final(self).spec_used(),
    {
        let frame = self.0 >> 12;
        self.0 = 0;
        frame
    }
}

/// One page table: a frame-sized array of entries.
pub struct PageTable {
    entries: Vec<PageTableEntry>,
}

impl View for PageTable {
    type V = Seq<PageTableEntry>;

    closed spec fn view(&self) -> Seq<PageTableEntry> {
        self.entries@
    }
}

impl PageTable {
    /// A table always holds exactly one table's worth of entries.
    pub open spec fn wf(&self) -> bool {
        self@.len() == PAGES_PER_TABLE
    }

    /// A freshly materialized table: every entry free.
    pub fn new() -> (r: PageTable)
        ensures
            r.wf(),
            forall|i: int| 0 <= i < PAGES_PER_TABLE ==> !r@[i].spec_used(),
    {
        let mut entries: Vec<PageTableEntry> = Vec::new();
        let mut i: usize = 0;
        while i < PAGES_PER_TABLE
            invariant
                i == entries@.len() <= PAGES_PER_TABLE,
                forall|k: int| 0 <= k < i ==> !entries@[k].spec_used(),
            decreases PAGES_PER_TABLE - i,
        {
            entries.push(PageTableEntry::empty());
            i = i + 1;
        }
        PageTable { entries }
    }

    /// Reads the entry in `slot`.
    pub fn entry(&self, slot: usize) -> (r: PageTableEntry)
        requires
            self.wf(),
            slot < PAGES_PER_TABLE,
        ensures
            r == self@[slot as int],
    {
        self.entries[slot]
    }

    /// Writes the entry in `slot`.
    pub fn set_entry(&mut self, slot: usize, e: PageTableEntry)
        requires
            old(self).wf(),
            slot < PAGES_PER_TABLE,
        ensures
            final(self).wf(),
            final(self)@ == old(self)@.update(slot as int, e),
    {
        self.entries.set(slot, e);
    }

    /// Clears every entry, as when a table frame is first mapped in.
    pub fn init(&mut self)
        requires
            old(self).wf(),
        ensures
            final(self).wf(),
            forall|i: int| 0 <= i < PAGES_PER_TABLE ==> !final(self)@[i].spec_used(),
    {
        let mut i: usize = 0;
        while i < PAGES_PER_TABLE
            invariant
                self.wf(),
                i <= PAGES_PER_TABLE,
                forall|k: int| 0 <= k < i ==> !self@[k].spec_used(),
            decreases PAGES_PER_TABLE - i,
        {
            self.entries.set(i, PageTableEntry::empty());
            i = i + 1;
        }
    }
}

/// Where the recursive mapping places the child table reached through
/// `index` of the table at `addr`, on the two-level architecture: the
/// table's own address shifted up by one level with the slot spliced in.
pub open spec fn spec_table_addr(addr: u32, index: u32) -> u32 {
    (addr << 10) | (index << 12)
}

/// Computes the child-table address of the two-level recursive mapping.
pub fn table_addr(addr: u32, index: u32) -> (r: u32)
    requires
        index < 1024,
    ensures
        r == spec_table_addr(addr, index),
{
    (addr << 10) | (index << 12)
}

/// Reference formula for the two-level recursive mapping: descending from
/// the self-mapped top-level table through slot `i` lands on
/// `(R << 22) | (i << 12)`, and descending through the reserved slot lands
/// back on the top-level table itself.
pub proof fn lemma_table_addr_two_level(i: u32)
    requires
        i < 1024,
    ensures
        spec_table_addr(PAGE_TABLE_ADDR, i) == (0x3FFu32 << 22) | (i << 12),
        spec_table_addr(PAGE_TABLE_ADDR, 0x3FF) == PAGE_TABLE_ADDR,
{
    assert(i < 1024 ==> (0xFFFF_F000u32 << 10) | (i << 12) == (0x3FFu32 << 22) | (i << 12))
        by (bit_vector);
    assert((0xFFFF_F000u32 << 10) | (0x3FFu32 << 12) == 0xFFFF_F000u32) by (bit_vector);
}

/// Sign-extends bit 47 through the upper bits, giving the canonical form of
/// a four-level virtual address.
pub open spec fn spec_sign_extend48(x: u64) -> u64 {
    if x & 0x8000_0000_0000 != 0 {
        (x & 0xFFFF_FFFF_FFFF) | 0xFFFF_0000_0000_0000
    } else {
        x & 0xFFFF_FFFF_FFFF
    }
}

/// Where the recursive mapping places the child table on the four-level
/// architecture: shift up by nine bits, splice the slot in, and make the
/// result canonical again.
pub open spec fn spec_table_addr_long(addr: u64, index: u64) -> u64 {
    spec_sign_extend48((addr << 9) | (index << 12))
}

/// Entries in one table of the four-level hierarchy.
pub const PAGES_PER_TABLE_LONG: u64 = 512;

/// Reserved top-level slot of the four-level hierarchy.
pub const RECURSIVE_INDEX_LONG: u64 = 0x1FE;

/// Canonical virtual address of the four-level top table: the reserved slot
/// taken at every level.
pub const PAGE_TABLE_ADDR_LONG: u64 = 0xFFFF_FF7F_BFDF_E000;

/// Computes the child-table address of the four-level recursive mapping.
pub fn table_addr_long(addr: u64, index: u64) -> (r: u64)
    requires
        index < PAGES_PER_TABLE_LONG,
    ensures
        r == spec_table_addr_long(addr, index),
{
    let shifted = (addr << 9) | (index << 12);
    if shifted & 0x8000_0000_0000 != 0 {
        (shifted & 0xFFFF_FFFF_FFFF) | 0xFFFF_0000_0000_0000
    } else {
        shifted & 0xFFFF_FFFF_FFFF
    }
}

/// The upper, sign-extended bits of a table's address do not reach the
/// child's low 48 bits: descent only depends on the canonical part.
pub proof fn lemma_table_addr_long_step(x: u64, i: u64)
    ensures
        spec_table_addr_long(spec_sign_extend48(x), i)
            == spec_sign_extend48((x << 9) | (i << 12)),
{
    assert(spec_sign_extend48((spec_sign_extend48(x) << 9) | (i << 12))
        == spec_sign_extend48((x << 9) | (i << 12))) by (bit_vector);
}

/// Reference formula for the four-level recursive mapping: with `R` the
/// reserved slot, descending from the self-mapped top table through slots
/// `i`, then `j`, then `k` reaches the canonical addresses whose high
/// fields are `R` and whose low fields are the slots walked so far.
pub proof fn lemma_table_addr_four_level(i: u64, j: u64, k: u64)
    requires
        i < PAGES_PER_TABLE_LONG,
        j < PAGES_PER_TABLE_LONG,
        k < PAGES_PER_TABLE_LONG,
    ensures
        spec_table_addr_long(PAGE_TABLE_ADDR_LONG, i) == spec_sign_extend48(
            (0x1FEu64 << 39) | (0x1FEu64 << 30) | (0x1FEu64 << 21) | (i << 12)),
        spec_table_addr_long(spec_sign_extend48(
            (0x1FEu64 << 39) | (0x1FEu64 << 30) | (0x1FEu64 << 21) | (i << 12)), j)
            == spec_sign_extend48(
                (0x1FEu64 << 39) | (0x1FEu64 << 30) | (i << 21) | (j << 12)),
        spec_table_addr_long(spec_sign_extend48(
            (0x1FEu64 << 39) | (0x1FEu64 << 30) | (i << 21) | (j << 12)), k)
            == spec_sign_extend48((0x1FEu64 << 39) | (i << 30) | (j << 21) | (k << 12)),
        spec_table_addr_long(PAGE_TABLE_ADDR_LONG, RECURSIVE_INDEX_LONG)
            == PAGE_TABLE_ADDR_LONG,
{
    assert(i < 512 ==> spec_sign_extend48((0xFFFF_FF7F_BFDF_E000u64 << 9) | (i << 12))
        == spec_sign_extend48(
            (0x1FEu64 << 39) | (0x1FEu64 << 30) | (0x1FEu64 << 21) | (i << 12)))
        by (bit_vector);
    lemma_table_addr_long_step((0x1FEu64 << 39) | (0x1FEu64 << 30) | (0x1FEu64 << 21) | (i << 12), j);
    assert(i < 512 && j < 512 ==> spec_sign_extend48(
        ((((0x1FEu64 << 39) | (0x1FEu64 << 30) | (0x1FEu64 << 21) | (i << 12)) << 9) | (j << 12)))
        == spec_sign_extend48((0x1FEu64 << 39) | (0x1FEu64 << 30) | (i << 21) | (j << 12)))
        by (bit_vector);
    lemma_table_addr_long_step((0x1FEu64 << 39) | (0x1FEu64 << 30) | (i << 21) | (j << 12), k);
    assert(i < 512 && j < 512 && k < 512 ==> spec_sign_extend48(
        ((((0x1FEu64 << 39) | (0x1FEu64 << 30) | (i << 21) | (j << 12)) << 9) | (k << 12)))
        == spec_sign_extend48((0x1FEu64 << 39) | (i << 30) | (j << 21) | (k << 12)))
        by (bit_vector);
    assert(spec_sign_extend48((0xFFFF_FF7F_BFDF_E000u64 << 9) | (0x1FEu64 << 12))
        == 0xFFFF_FF7F_BFDF_E000u64) by (bit_vector);
}

/// Canonical byte address of a page on the four-level architecture: the
/// page number shifted to a byte address with bit 47 sign-extended.
pub fn canonical_addr(page: u64) -> (r: u64)
    requires
        page < 0x10_0000_0000,
    ensures
        r == spec_sign_extend48((page * 4096) as u64),
{
    proof {
        assert(page < 0x10_0000_0000 ==> page << 12 == page * 4096) by (bit_vector);
    }
    let x = page << 12;
    if x & 0x8000_0000_0000 != 0 {
        (x & 0xFFFF_FFFF_FFFF) | 0xFFFF_0000_0000_0000
    } else {
        x & 0xFFFF_FFFF_FFFF
    }
}

/// Index of `page` within the table at `level` of the four-level hierarchy:
/// nine bits, shifted by nine for each level above the leaf.
pub fn level_index_long(level: u32, page: u64) -> (r: u64)
    requires
        1 <= level <= 4,
    ensures
        r == (page >> (9 * (level - 1) as u64)) & 0x1FF,
        r < 512,
{
    let shift: u64 = 9 * ((level - 1) as u64);
    let r = (page >> shift) & 0x1FF;
    proof {
        assert((page >> shift) & 0x1FF < 512) by (bit_vector);
    }
    r
}

/// `p & 0x3FF` is `p % 1024`.
proof fn lemma_low_bits_mask(p: usize)
    ensures
        p & 0x3FF == p as int % 1024,
{
    assert(p & 0x3FF == p as u64 % 1024) by (bit_vector);
}

/// `(p >> 10) & 0x3FF` is `(p / 1024) % 1024`.
proof fn lemma_mid_bits_mask(p: usize)
    ensures
        (p >> 10) & 0x3FF == (p as int / 1024) % 1024,
{
    assert((p >> 10) & 0x3FF == (p as u64 / 1024) % 1024) by (bit_vector);
}

} // verus!
