//! Virtual-memory allocator: finds free runs of pages by walking the
//! two-level tables, creates intermediate tables on demand out of the frame
//! allocator, maps frames to pages, and gives both back.
//!
//! The hierarchy is held as data: the top-level table of slots, and the leaf
//! entries laid out by page number — exactly the layout the recursive
//! mapping exposes to a running kernel, one leaf table per top-level slot.

use crate::bitmap::all_zero;
use crate::bitmap::seq_set_range;
use crate::pg::spec_table_addr;
use crate::pg::Page;
use crate::pg::PageTable;
use crate::pg::PageTableEntry;
use crate::pg::ENTRY_PRESENT;
use crate::pg::ENTRY_WRITEABLE;
use crate::pg::FRAME_BOUND;
use crate::pg::PAGES_LIMIT;
use crate::pg::PAGES_PER_TABLE;
use crate::pg::PAGE_TABLE_ADDR;
use crate::pg::RECURSIVE_INDEX;
use crate::pm::PhysicalMemory;
use vstd::arithmetic::div_mod::lemma_fundamental_div_mod;
use vstd::prelude::*;

verus! {

pub struct VirtualMemory {
    root: PageTable,
    leaves: Vec<PageTableEntry>,
}

impl VirtualMemory {
    /// The top-level entry of slot `hi`.
    pub closed spec fn spec_root_entry(&self, hi: int) -> PageTableEntry {
        self.root@[hi]
    }

    /// The leaf entry of page `p`.
    pub closed spec fn spec_leaf(&self, p: int) -> PageTableEntry {
        self.leaves@[p]
    }

    /// Whether the table below slot `hi` has been materialized.
    pub open spec fn table_present(&self, hi: int) -> bool {
        self.spec_root_entry(hi).spec_used()
    }

    /// Whether page `p` is mapped.
    pub open spec fn present(&self, p: int) -> bool {
        self.spec_leaf(p).spec_used()
    }

    /// The frame backing page `p`.
    pub open spec fn frame_at(&self, p: int) -> u64 {
        self.spec_leaf(p).spec_frame()
    }

    /// No page of `[q, q + count)` is mapped.
    pub open spec fn window_free(&self, q: int, count: int) -> bool {
        forall|p: int| q <= p < q + count ==> !self.present(p)
    }

    /// How many slots of `[h0, h1)` have no table yet.
    pub open spec fn missing_tables(&self, h0: int, h1: int) -> int
        decreases h1 - h0,
    {
        if h1 <= h0 {
            0
        } else {
            self.missing_tables(h0, h1 - 1) + if self.table_present(h1 - 1) {
                0int
            } else {
                1int
            }
        }
    }

    /// `p` is the first free window of `count` pages at or after `hint`.
    pub open spec fn first_window(&self, hint: int, count: int, p: int) -> bool {
        &&& hint <= p
        &&& p + count <= PAGES_LIMIT
        &&& self.window_free(p, count)
        &&& forall|q: int| hint <= q < p ==> !self.window_free(q, count)
    }

    /// The top-level table exists, the reserved slot maps the table itself,
    /// and no page is mapped below a slot that has no table.
    pub closed spec fn wf(&self) -> bool {
        &&& self.root.wf()
        &&& self.leaves@.len() == PAGES_LIMIT
        &&& self.spec_root_entry(RECURSIVE_INDEX as int).spec_used()
        &&& forall|p: int| 0 <= p < PAGES_LIMIT && !self.table_present(p / 1024)
            ==> !(#[trigger] self.leaves@[p]).spec_used()
    }

    /// A fresh address space: the top-level table holds only its
    /// self-reference, installed at the reserved slot with the table's own
    /// frame; nothing is mapped.
    pub fn new(root_frame: u64) -> (r: VirtualMemory)
        requires
            root_frame < FRAME_BOUND,
        ensures
            r.wf(),
            forall|hi: int| 0 <= hi < RECURSIVE_INDEX ==> !r.table_present(hi),
            r.spec_root_entry(RECURSIVE_INDEX as int).spec_frame() == root_frame,
            forall|p: int| 0 <= p < PAGES_LIMIT ==> !r.present(p),
    {
        let mut root = PageTable::new();
        let mut self_entry = PageTableEntry::empty();
        self_entry.map(root_frame);
        root.set_entry(RECURSIVE_INDEX, self_entry);
        let mut leaves: Vec<PageTableEntry> = Vec::new();
        let mut p: usize = 0;
        while p < PAGES_LIMIT
            invariant
                p == leaves@.len() <= PAGES_LIMIT,
                forall|k: int| 0 <= k < p ==> !(#[trigger] leaves@[k]).spec_used(),
            decreases PAGES_LIMIT - p,
        {
            leaves.push(PageTableEntry::empty());
            p = p + 1;
        }
        VirtualMemory { root, leaves }
    }

    /// Looks the table below slot `index` up: its virtual address under the
    /// recursive mapping if it exists, `None` if the slot is empty.
    pub fn table(&self, index: usize) -> (r: Option<u32>)
        requires
            self.wf(),
            index < PAGES_PER_TABLE,
        ensures
            match r {
                Some(a) => self.table_present(index as int)
                    && a == spec_table_addr(PAGE_TABLE_ADDR, index as u32),
                None => !self.table_present(index as int),
            },
    {
        let e = self.root.entry(index);
        if e.used() {
            Some(crate::pg::table_addr(PAGE_TABLE_ADDR, index as u32))
        } else {
            None
        }
    }

    /// Makes sure the table below slot `index` exists, taking one frame from
    /// the frame allocator when the slot is empty.  A table materialized
    /// here starts out with every entry free.  The reserved self-map slot
    /// always holds the top table itself, so no child is ever created
    /// there, and a frame taken here must fit the entry's frame field.
    pub fn table_create(&mut self, pm: &mut PhysicalMemory, index: usize)
        requires
            old(self).wf(),
            old(pm).wf(),
            index < RECURSIVE_INDEX,
            !old(self).table_present(index as int) ==> {
                &&& old(pm).free_count() >= 1
                &&& old(pm)@.len() <= FRAME_BOUND
            },
        ensures
            final(self).wf(),
            final(pm).wf(),
            final(self).table_present(index as int),
            forall|hi: int| 0 <= hi < PAGES_PER_TABLE && hi != index
                ==> final(self).spec_root_entry(hi) == old(self).spec_root_entry(hi),
            forall|p: int| 0 <= p < PAGES_LIMIT
                ==> final(self).spec_leaf(p) == old(self).spec_leaf(p),
            old(self).table_present(index as int)
                ==> *final(self) == *old(self) && *final(pm) == *old(pm),
            !old(self).table_present(index as int) ==> {
                &&& final(pm).free_count() == old(pm).free_count() - 1
                &&& final(pm)@.len() == old(pm)@.len()
                &&& exists|f: int| {
                    &&& 0 <= f < old(pm)@.len()
                    &&& !old(pm)@[f]
                    &&& (forall|t: int| 0 <= t < f ==> old(pm)@[t])
                    &&& final(pm)@ == seq_set_range(old(pm)@, f, f + 1, true)
                    &&& final(self).spec_root_entry(index as int).spec_frame() == f
                    &&& final(self).spec_root_entry(index as int).spec_word()
                        == ENTRY_PRESENT | ENTRY_WRITEABLE | ((f as u64) << 12)
                }
                &&& forall|lo: int| 0 <= lo < PAGES_PER_TABLE
                    ==> !(#[trigger] final(self).spec_leaf(index * 1024 + lo)).spec_used()
            },
    {
        let e = self.root.entry(index);
        if e.used() {
            return ;
        }
        let frame = match pm.find_free(1) {
            Some(f) => f,
            None => {
                // a positive free count means some frame bit is zero, and a
                // single zero bit is already a run of one
                proof {
                    pm.lemma_free_count();
                    crate::bitmap::lemma_all_one_count(pm@);
                    crate::bitmap::lemma_zeros_in_const(pm@, 0, pm@.len() as int);
                }
                unreached()
            },
        };
        proof {
            let f = frame as int;
            assert(!old(pm)@[f]);
            assert forall|t: int| 0 <= t < f implies old(pm)@[t] by {
                assert(!all_zero(old(pm)@, t, t + 1));
                if !old(pm)@[t] {
                    assert(all_zero(old(pm)@, t, t + 1));
                }
            }
        }
        pm.mark_used(frame, 1);
        let mut child = PageTableEntry::empty();
        child.map(frame as u64);
        self.root.set_entry(index, child);
        proof {
            let f = frame as int;
            assert(pm@ == seq_set_range(old(pm)@, f, f + 1, true));
            assert(self.spec_root_entry(index as int).spec_frame() == f);
        }
        proof {
            assert forall|lo: int| 0 <= lo < PAGES_PER_TABLE implies
                !(#[trigger] self.spec_leaf(index * 1024 + lo)).spec_used() by {
                let p = index * 1024 + lo;
                lemma_slot_of_page(p, index as int);
                assert(!old(self).table_present(p / 1024));
            }
        }
    }
}

impl VirtualMemory {
    /// Maps `count` frames from `frame_start` onto the pages from
    /// `page_start`, which must be free, creating the intermediate tables
    /// the range needs out of the frame allocator.
    pub fn map(&mut self, pm: &mut PhysicalMemory, page_start: Page, frame_start: usize, count: usize)
        requires
            old(self).wf(),
            old(pm).wf(),
            count >= 1,
            page_start.0 + count <= PAGES_LIMIT,
            old(self).window_free(page_start.0 as int, count as int),
            frame_start + count <= FRAME_BOUND,
            frame_start + count <= usize::MAX,
            old(pm)@.len() <= FRAME_BOUND,
            old(pm).free_count() >= old(self).missing_tables(
                page_start.0 as int / 1024, (page_start.0 + count - 1) as int / 1024 + 1),
        ensures
            final(self).wf(),
            final(pm).wf(),
            forall|p: int| #![trigger final(self).present(p)] #![trigger final(self).spec_leaf(p)]
                page_start.0 <= p < page_start.0 + count ==> {
                    &&& final(self).present(p)
                    &&& final(self).frame_at(p) == frame_start + (p - page_start.0)
                    &&& final(self).spec_leaf(p).spec_word() == ENTRY_PRESENT | ENTRY_WRITEABLE
                        | (((frame_start + (p - page_start.0)) as u64) << 12)
                },
            forall|p: int| 0 <= p < PAGES_LIMIT && !(page_start.0 <= p < page_start.0 + count)
                ==> final(self).spec_leaf(p) == old(self).spec_leaf(p),
            forall|hi: int| #![trigger final(self).table_present(hi)] #![trigger final(self).spec_root_entry(hi)]
                page_start.0 as int / 1024 <= hi <= (page_start.0 + count - 1) as int / 1024
                ==> final(self).table_present(hi),
            forall|hi: int| 0 <= hi < PAGES_PER_TABLE
                && !(page_start.0 as int / 1024 <= hi <= (page_start.0 + count - 1) as int / 1024)
                ==> final(self).spec_root_entry(hi) == old(self).spec_root_entry(hi),
            final(pm).free_count() == old(pm).free_count() - old(self).missing_tables(
                page_start.0 as int / 1024, (page_start.0 + count - 1) as int / 1024 + 1),
            final(pm)@.len() == old(pm)@.len(),
            forall|f: int| 0 <= f < old(pm)@.len() && old(pm)@[f] ==> final(pm)@[f],
    {
        let start = page_start.0;
        let hi0 = start / 1024;
        let hi1 = (start + count - 1) / 1024;
        proof {
            lemma_fundamental_div_mod(start as int, 1024);
            lemma_fundamental_div_mod((start + count - 1) as int, 1024);
            vstd::arithmetic::div_mod::lemma_div_is_ordered(
                start as int, (start + count - 1) as int, 1024);
        }

        // first make every table of the range exist
        let mut h = hi0;
        while h <= hi1
            invariant
                self.wf(),
                pm.wf(),
                hi0 == start as int / 1024,
                hi1 == (start + count - 1) as int / 1024,
                hi0 <= h <= hi1 + 1,
                hi1 < RECURSIVE_INDEX,
                start + count <= PAGES_LIMIT,
                count >= 1,
                start == page_start.0,
                forall|k: int| #![trigger self.table_present(k)] #![trigger self.spec_root_entry(k)]
                    hi0 <= k < h ==> self.table_present(k),
                forall|k: int| 0 <= k < PAGES_PER_TABLE && !(hi0 <= k < h)
                    ==> self.spec_root_entry(k) == old(self).spec_root_entry(k),
                forall|p: int| 0 <= p < PAGES_LIMIT
                    ==> self.spec_leaf(p) == old(self).spec_leaf(p),
                pm.free_count() == old(pm).free_count()
                    - old(self).missing_tables(hi0 as int, h as int),
                pm@.len() == old(pm)@.len() <= FRAME_BOUND,
                forall|f: int| 0 <= f < old(pm)@.len() && old(pm)@[f] ==> pm@[f],
                old(pm).free_count() >= old(self).missing_tables(hi0 as int, hi1 + 1),
            decreases hi1 + 1 - h,
        {
            proof {
                lemma_missing_tables_mono(*old(self), hi0 as int, h + 1, hi1 + 1);
                assert(old(self).missing_tables(hi0 as int, h + 1)
                    == old(self).missing_tables(hi0 as int, h as int)
                        + if old(self).table_present(h as int) { 0int } else { 1int });
            }
            self.table_create(pm, h);
            h = h + 1;
        }

        // then point every leaf of the range at its frame
        let ghost mid = *self;
        let ghost pm_mid = *pm;
        let mut i: usize = 0;
        while i < count
            invariant
                self.wf(),
                *pm == pm_mid,
                hi0 == start as int / 1024,
                hi1 == (start + count - 1) as int / 1024,
                start + count <= PAGES_LIMIT,
                count >= 1,
                i <= count,
                frame_start + count <= FRAME_BOUND,
                frame_start + count <= usize::MAX,
                forall|k: int| #![trigger self.table_present(k)] #![trigger self.spec_root_entry(k)]
                    hi0 <= k <= hi1 ==> self.table_present(k),
                forall|k: int| 0 <= k < PAGES_PER_TABLE
                    ==> self.spec_root_entry(k) == mid.spec_root_entry(k),
                forall|p: int| #![trigger self.present(p)] #![trigger self.spec_leaf(p)]
                    start <= p < start + i ==> {
                        &&& self.present(p)
                        &&& self.frame_at(p) == frame_start + (p - start)
                        &&& self.spec_leaf(p).spec_word() == ENTRY_PRESENT | ENTRY_WRITEABLE
                            | (((frame_start + (p - start)) as u64) << 12)
                    },
                forall|p: int| 0 <= p < PAGES_LIMIT && !(start <= p < start + i)
                    ==> self.spec_leaf(p) == mid.spec_leaf(p),
                forall|p: int| 0 <= p < PAGES_LIMIT
                    ==> mid.spec_leaf(p) == old(self).spec_leaf(p),
            decreases count - i,
        {
            let page = start + i;
            proof {
                vstd::arithmetic::div_mod::lemma_div_is_ordered(start as int, page as int, 1024);
                vstd::arithmetic::div_mod::lemma_div_is_ordered(
                    page as int, (start + count - 1) as int, 1024);
            }
            let mut e = PageTableEntry::empty();
            e.map((frame_start + i) as u64);
            self.set_leaf(page, e);
            i = i + 1;
        }
    }

    /// Writes one leaf entry; the slot above it must have its table.
    fn set_leaf(&mut self, page: usize, e: PageTableEntry)
        requires
            old(self).wf(),
            page < PAGES_LIMIT,
            e.spec_used() ==> old(self).table_present(page as int / 1024),
        ensures
            final(self).wf(),
            final(self).spec_leaf(page as int) == e,
            forall|p: int| 0 <= p < PAGES_LIMIT && p != page
                ==> final(self).spec_leaf(p) == old(self).spec_leaf(p),
            forall|k: int| 0 <= k < PAGES_PER_TABLE
                ==> final(self).spec_root_entry(k) == old(self).spec_root_entry(k),
    {
        self.leaves.set(page, e);
    }

    /// Counts the slots of `[h0, h1)` that have no table yet.
    pub fn count_missing(&self, h0: usize, h1: usize) -> (r: usize)
        requires
            self.wf(),
            h0 <= h1 <= PAGES_PER_TABLE,
        ensures
            r == self.missing_tables(h0 as int, h1 as int),
            r <= h1 - h0,
    {
        let mut c: usize = 0;
        let mut h = h0;
        while h < h1
            invariant
                self.wf(),
                h0 <= h <= h1 <= PAGES_PER_TABLE,
                c == self.missing_tables(h0 as int, h as int),
                c <= h - h0,
            decreases h1 - h,
        {
            if self.root.entry(h).free() {
                c = c + 1;
            }
            h = h + 1;
        }
        c
    }
}

impl VirtualMemory {
    /// Finds the first free run of `count` pages at or after `page_start`,
    /// sweeping with a base and a run counter and skipping a whole slot
    /// region at once where its table is absent.  Reserves nothing.
    pub fn find_free(&self, page_start: Page, count: usize) -> (r: Option<Page>)
        requires
            self.wf(),
            count >= 1,
        ensures
            match r {
                Some(p) => self.first_window(page_start.0 as int, count as int, p.0 as int),
                None => forall|q: int| page_start.0 <= q && q + count <= PAGES_LIMIT
                    ==> !(#[trigger] self.window_free(q, count as int)),
            },
    {
        let mut base = page_start.0;
        let mut run: usize = 0;
        while run < count
            invariant
                self.wf(),
                count >= 1,
                base >= page_start.0,
                run <= count,
                run >= 1 ==> base + count <= PAGES_LIMIT,
                forall|p: int| base <= p < base + run ==> !(#[trigger] self.present(p)),
                forall|q: int| page_start.0 <= q < base
                    ==> !(#[trigger] self.window_free(q, count as int)),
            decreases PAGES_LIMIT - base, count - run,
        {
            if count > PAGES_LIMIT || base > PAGES_LIMIT - count {
                proof {
                    assert forall|q: int| page_start.0 <= q && q + count <= PAGES_LIMIT implies
                        !(#[trigger] self.window_free(q, count as int)) by {
                        assert(q < base);
                    }
                }
                return None;
            }
            let page = base + run;
            let hi = page / 1024;
            proof {
                lemma_fundamental_div_mod(page as int, 1024);
            }
            let e = self.root.entry(hi);
            if e.free() {
                // no table below this slot: its whole region is unmapped
                let region_end = (hi + 1) * 1024;
                proof {
                    assert forall|p2: int| page <= p2 < region_end implies
                        !(#[trigger] self.present(p2)) by {
                        lemma_slot_of_page(p2, hi as int);
                    }
                }
                let skip = region_end - page;
                if count - run <= skip {
                    run = count;
                } else {
                    run = run + skip;
                }
            } else {
                let leaf = self.leaves[page];
                if leaf.free() {
                    run = run + 1;
                } else {
                    proof {
                        assert forall|q: int| base <= q <= page implies
                            !(#[trigger] self.window_free(q, count as int)) by {
                            assert(self.present(page as int));
                            assert(q <= page < q + count);
                        }
                    }
                    base = page + 1;
                    run = 0;
                }
            }
        }
        Some(Page(base))
    }

    /// Returns `count` mapped pages from `page_start`: clears each leaf and
    /// gives its frame back to the frame allocator.  The intermediate
    /// tables are not reclaimed.
    pub fn free(&mut self, pm: &mut PhysicalMemory, page_start: Page, count: usize)
        requires
            old(self).wf(),
            old(pm).wf(),
            count >= 1,
            page_start.0 + count <= PAGES_LIMIT,
            forall|p: int| page_start.0 <= p < page_start.0 + count
                ==> #[trigger] old(self).present(p),
            forall|p: int| page_start.0 <= p < page_start.0 + count
                ==> #[trigger] old(self).frame_at(p) < old(pm)@.len(),
            forall|p: int| page_start.0 <= p < page_start.0 + count
                ==> old(pm)@[#[trigger] old(self).frame_at(p) as int],
            forall|p: int, q: int| page_start.0 <= p < page_start.0 + count
                && page_start.0 <= q < page_start.0 + count && p != q
                ==> #[trigger] old(self).frame_at(p) != #[trigger] old(self).frame_at(q),
        ensures
            final(self).wf(),
            final(pm).wf(),
            forall|p: int| page_start.0 <= p < page_start.0 + count
                ==> !(#[trigger] final(self).present(p)),
            forall|p: int| #![trigger final(self).spec_leaf(p)]
                0 <= p < PAGES_LIMIT && !(page_start.0 <= p < page_start.0 + count)
                ==> final(self).spec_leaf(p) == old(self).spec_leaf(p),
            forall|hi: int| 0 <= hi < PAGES_PER_TABLE
                ==> final(self).spec_root_entry(hi) == old(self).spec_root_entry(hi),
            final(pm).free_count() == old(pm).free_count() + count,
            final(pm)@.len() == old(pm)@.len(),
            forall|f: int| 0 <= f < old(pm)@.len()
                ==> final(pm)@[f] == if exists|p: int| page_start.0 <= p < page_start.0 + count
                        && #[trigger] old(self).frame_at(p) == f {
                    false
                } else {
                    old(pm)@[f]
                },
    {
        let start = page_start.0;
        let mut i: usize = 0;
        while i < count
            invariant
                self.wf(),
                pm.wf(),
                count >= 1,
                i <= count,
                start == page_start.0,
                start + count <= PAGES_LIMIT,
                forall|p: int| start <= p < start + count
                    ==> #[trigger] old(self).present(p),
                forall|p: int| start <= p < start + count
                    ==> #[trigger] old(self).frame_at(p) < old(pm)@.len(),
                forall|p: int| start <= p < start + count
                    ==> old(pm)@[#[trigger] old(self).frame_at(p) as int],
                forall|p: int, q: int| start <= p < start + count
                    && start <= q < start + count && p != q
                    ==> #[trigger] old(self).frame_at(p) != #[trigger] old(self).frame_at(q),
                forall|p: int| #![trigger self.present(p)] #![trigger self.spec_leaf(p)]
                    start <= p < start + i ==> !self.present(p),
                forall|p: int| #![trigger self.spec_leaf(p)]
                    0 <= p < PAGES_LIMIT && !(start <= p < start + i)
                    ==> self.spec_leaf(p) == old(self).spec_leaf(p),
                forall|hi: int| 0 <= hi < PAGES_PER_TABLE
                    ==> self.spec_root_entry(hi) == old(self).spec_root_entry(hi),
                pm.free_count() == old(pm).free_count() + i,
                pm@.len() == old(pm)@.len(),
                forall|f: int| 0 <= f < old(pm)@.len()
                    ==> pm@[f] == if exists|p: int| start <= p < start + i
                            && #[trigger] old(self).frame_at(p) == f {
                        false
                    } else {
                        old(pm)@[f]
                    },
            decreases count - i,
        {
            let page = start + i;
            let mut e = self.leaves[page];
            let frame = e.unmap();
            let ghost prev_pm = *pm;
            proof {
                pm.lemma_free_count();
                assert(self.spec_leaf(page as int) == old(self).spec_leaf(page as int));
                assert(old(self).frame_at(page as int) == frame);
                assert(pm@[frame as int] == old(pm)@[frame as int]);
            }
            self.set_leaf(page, e);
            pm.mark_free(frame as usize, 1);
            proof {
                assert forall|f: int| 0 <= f < old(pm)@.len() implies
                    pm@[f] == if exists|p: int| start <= p < start + i + 1
                            && #[trigger] old(self).frame_at(p) == f {
                        false
                    } else {
                        old(pm)@[f]
                    } by {
                    if f == frame as int {
                        assert(old(self).frame_at(page as int) == f);
                    } else {
                        assert(pm@[f] == prev_pm@[f]);
                    }
                }
            }
            i = i + 1;
        }
    }

    /// Finds a free run of frames and a free run of pages, reserves the
    /// frames, and maps them.  `None` when no frame run exists, no page
    /// window exists, or the free frames cannot also cover the missing
    /// intermediate tables; nothing changes in that case.
    pub fn allocate_contiguous(&mut self, pm: &mut PhysicalMemory, page_start: Page, count: usize)
        -> (r: Option<(Page, usize)>)
        requires
            old(self).wf(),
            old(pm).wf(),
            count >= 1,
            old(pm)@.len() <= FRAME_BOUND,
        ensures
            final(self).wf(),
            final(pm).wf(),
            match r {
                Some(pf) => {
                    &&& old(self).first_window(page_start.0 as int, count as int, pf.0.0 as int)
                    &&& pf.1 + count <= old(pm)@.len()
                    &&& all_zero(old(pm)@, pf.1 as int, pf.1 + count)
                    &&& forall|t: int| 0 <= t < pf.1
                        ==> !(#[trigger] all_zero(old(pm)@, t, t + count))
                    &&& forall|q: int| #![trigger final(self).present(q)] #![trigger final(self).spec_leaf(q)]
                        pf.0.0 <= q < pf.0.0 + count ==> {
                            &&& final(self).present(q)
                            &&& final(self).frame_at(q) == pf.1 + (q - pf.0.0)
                            &&& final(self).spec_leaf(q).spec_word() == ENTRY_PRESENT
                                | ENTRY_WRITEABLE | (((pf.1 + (q - pf.0.0)) as u64) << 12)
                        }
                    &&& forall|q: int| #![trigger final(self).spec_leaf(q)]
                        0 <= q < PAGES_LIMIT && !(pf.0.0 <= q < pf.0.0 + count)
                        ==> final(self).spec_leaf(q) == old(self).spec_leaf(q)
                    &&& final(pm).free_count() == old(pm).free_count() - count
                        - old(self).missing_tables(
                            pf.0.0 as int / 1024, (pf.0.0 + count - 1) as int / 1024 + 1)
                    &&& final(pm)@.len() == old(pm)@.len()
                    &&& forall|f: int| 0 <= f < old(pm)@.len() && old(pm)@[f]
                        ==> final(pm)@[f]
                    &&& forall|f: int| pf.1 <= f < pf.1 + count ==> final(pm)@[f]
                },
                None => {
                    &&& *final(self) == *old(self)
                    &&& *final(pm) == *old(pm)
                    &&& {
                        ||| forall|t: int| 0 <= t && t + count <= old(pm)@.len()
                            ==> !(#[trigger] all_zero(old(pm)@, t, t + count))
                        ||| forall|q: int| page_start.0 <= q && q + count <= PAGES_LIMIT
                            ==> !(#[trigger] old(self).window_free(q, count as int))
                        ||| exists|p2: int| old(self).first_window(
                                page_start.0 as int, count as int, p2)
                            && old(pm).free_count() < count + old(self).missing_tables(
                                p2 / 1024, (p2 + count - 1) / 1024 + 1)
                    }
                },
            },
    {
        let frame_start = match pm.find_free(count) {
            Some(f) => f,
            None => {
                return None;
            },
        };
        let p = match self.find_free(page_start, count) {
            Some(p) => p,
            None => {
                return None;
            },
        };
        let hi0 = p.0 / 1024;
        let hi1 = (p.0 + count - 1) / 1024;
        proof {
            lemma_fundamental_div_mod(p.0 as int, 1024);
            lemma_fundamental_div_mod((p.0 + count - 1) as int, 1024);
            vstd::arithmetic::div_mod::lemma_div_is_ordered(
                p.0 as int, (p.0 + count - 1) as int, 1024);
            pm.lemma_free_count();
            crate::bitmap::lemma_run_counts_zeros(pm@, frame_start as int, frame_start + count);
        }
        let missing = self.count_missing(hi0, hi1 + 1);
        if pm.free_frames() - count < missing {
            return None;
        }
        pm.mark_used(frame_start, count);
        self.map(pm, p, frame_start, count);
        Some((p, frame_start))
    }

    /// Pages needed to back an allocation of `size` bytes, as the heap
    /// hook computes before it asks for them: bytes rounded up to whole
    /// pages.
    pub fn pages_for(size: usize) -> (r: usize)
        requires
            1 <= size <= usize::MAX - 4095,
        ensures
            r == (size + crate::pg::BYTES_PER_PAGE - 1) as int / crate::pg::BYTES_PER_PAGE as int,
            r * crate::pg::BYTES_PER_PAGE >= size,
            (r - 1) * crate::pg::BYTES_PER_PAGE < size,
            r >= 1,
    {
        let r = size / crate::pg::BYTES_PER_PAGE + if size % crate::pg::BYTES_PER_PAGE == 0 {
            0
        } else {
            1
        };
        proof {
            lemma_fundamental_div_mod(size as int, 4096);
            lemma_fundamental_div_mod(size + 4095, 4096);
        }
        r
    }

    /// Whether a page is mapped.
    pub fn page_present(&self, page: usize) -> (r: bool)
        requires
            self.wf(),
            page < PAGES_LIMIT,
        ensures
            r == self.present(page as int),
    {
        self.leaves[page].used()
    }

    /// The frame behind a mapped page.
    pub fn page_frame(&self, page: usize) -> (r: u64)
        requires
            self.wf(),
            page < PAGES_LIMIT,
        ensures
            r == self.frame_at(page as int),
    {
        self.leaves[page].frame()
    }

    /// As `allocate_contiguous`, returning only the page run.
    pub fn allocate(&mut self, pm: &mut PhysicalMemory, page_start: Page, count: usize)
        -> (r: Option<Page>)
        requires
            old(self).wf(),
            old(pm).wf(),
            count >= 1,
            old(pm)@.len() <= FRAME_BOUND,
        ensures
            final(self).wf(),
            final(pm).wf(),
            match r {
                Some(p) => {
                    &&& old(self).first_window(page_start.0 as int, count as int, p.0 as int)
                    &&& forall|q: int| #![trigger final(self).present(q)] #![trigger final(self).spec_leaf(q)]
                        p.0 <= q < p.0 + count ==> {
                            &&& final(self).present(q)
                            &&& final(self).frame_at(q)
                                == final(self).frame_at(p.0 as int) + (q - p.0)
                            &&& final(self).spec_leaf(q).spec_word() == ENTRY_PRESENT
                                | ENTRY_WRITEABLE | (final(self).frame_at(q) << 12)
                        }
                    &&& forall|q: int| #![trigger final(self).spec_leaf(q)]
                        0 <= q < PAGES_LIMIT && !(p.0 <= q < p.0 + count)
                        ==> final(self).spec_leaf(q) == old(self).spec_leaf(q)
                    &&& final(pm).free_count() == old(pm).free_count() - count
                        - old(self).missing_tables(
                            p.0 as int / 1024, (p.0 + count - 1) as int / 1024 + 1)
                    &&& final(pm)@.len() == old(pm)@.len()
                },
                None => {
                    &&& *final(self) == *old(self)
                    &&& *final(pm) == *old(pm)
                    &&& {
                        ||| forall|t: int| 0 <= t && t + count <= old(pm)@.len()
                            ==> !(#[trigger] all_zero(old(pm)@, t, t + count))
                        ||| forall|q: int| page_start.0 <= q && q + count <= PAGES_LIMIT
                            ==> !(#[trigger] old(self).window_free(q, count as int))
                        ||| exists|p2: int| old(self).first_window(
                                page_start.0 as int, count as int, p2)
                            && old(pm).free_count() < count + old(self).missing_tables(
                                p2 / 1024, (p2 + count - 1) / 1024 + 1)
                    }
                },
            },
    {
        match self.allocate_contiguous(pm, page_start, count) {
            Some(pf) => Some(pf.0),
            None => None,
        }
    }
}

/// The count of missing tables grows by at most one per slot and never
/// shrinks as the range widens.
proof fn lemma_missing_tables_mono(vm: VirtualMemory, h0: int, a: int, b: int)
    requires
        h0 <= a <= b,
    ensures
        vm.missing_tables(h0, a) <= vm.missing_tables(h0, b),
        vm.missing_tables(h0, b) - vm.missing_tables(h0, a) <= b - a,
    decreases b - a,
{
    if a < b {
        lemma_missing_tables_mono(vm, h0, a, b - 1);
    }
}

/// Law: an allocation followed by a free of the same run returns the free
/// count to its starting value, provided the range's intermediate tables
/// already existed when the allocation was made.  A table frame taken
/// during the allocation is never given back, so the count stays short by
/// one for each table created.
pub proof fn lemma_allocate_free_round_trip(
    pm0: PhysicalMemory,
    pm1: PhysicalMemory,
    pm2: PhysicalMemory,
    vm0: VirtualMemory,
    p: int,
    count: int,
)
    requires
        // a successful allocation of `count` pages at `p`, as its contract states
        pm1.free_count() == pm0.free_count() - count - vm0.missing_tables(
            p / 1024, (p + count - 1) / 1024 + 1),
        // the range's tables were already present
        vm0.missing_tables(p / 1024, (p + count - 1) / 1024 + 1) == 0,
        // the matching free, as its contract states
        pm2.free_count() == pm1.free_count() + count,
    ensures
        pm2.free_count() == pm0.free_count(),
{
}

/// Law: a page run the first allocation mapped and a page window the
/// second allocation found free in the resulting state cannot overlap, so
/// two consecutive allocations return disjoint page ranges.
pub proof fn lemma_allocations_disjoint(
    vm1: VirtualMemory,
    p1: int,
    count1: int,
    p2: int,
    count2: int,
)
    requires
        count1 >= 1,
        count2 >= 1,
        // the first allocation left its pages mapped
        forall|q: int| p1 <= q < p1 + count1 ==> #[trigger] vm1.present(q),
        // the second allocation's window was free in that state
        vm1.window_free(p2, count2),
    ensures
        p1 + count1 <= p2 || p2 + count2 <= p1,
{
    if p1 < p2 + count2 && p2 < p1 + count1 {
        let q = if p1 >= p2 {
            p1
        } else {
            p2
        };
        assert(vm1.present(q));
        assert(!vm1.present(q));
    }
}

/// Pages `index * 1024 + lo` with `lo` below 1024 sit in slot `index`.
proof fn lemma_slot_of_page(p: int, index: int)
    requires
        index * 1024 <= p < index * 1024 + 1024,
    ensures
        p / 1024 == index,
{
    vstd::arithmetic::div_mod::lemma_fundamental_div_mod_converse_div(
        p, 1024, index, p - index * 1024);
}

} // verus!
