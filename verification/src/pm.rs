//! Physical-frame allocator: a bitmap of 4 KiB frames in which one means
//! used and zero means free, with a shadow count of free frames.  It is
//! seeded twice during boot: first from a fixed-size bootstrap span, then
//! from the loader's memory map.

use crate::bitmap::all_one;
use crate::bitmap::all_zero;
use crate::bitmap::count_zeros;
use crate::bitmap::lemma_count_zeros_set_range;
use crate::bitmap::lemma_zeros_in_const;
use crate::bitmap::lemma_zeros_in_le;
use crate::bitmap::lemma_zeros_in_split;
use crate::bitmap::nth_bit;
use crate::bitmap::seq_set_range;
use crate::bitmap::Bitmap;
use vstd::arithmetic::div_mod::lemma_fundamental_div_mod;
use vstd::prelude::*;

verus! {

/// Frames holding the system and the kernel image; used forever.
pub const KERNEL_FRAMES: usize = 1024;

/// Frames covered by the bootstrap bitmap of the first phase.
pub const BOOTSTRAP_FRAMES: usize = 2048;

/// Memory-map entry type for memory that is available to the kernel.
pub const MULTIBOOT_MEMORY_AVAILABLE: u32 = 1;

/// One entry of the loader's memory map, reduced to the fields the
/// allocator reads: physical byte range and type.
#[derive(Clone, Copy)]
pub struct MmapEntry {
    pub addr: u64,
    pub len: u64,
    pub type_: u32,
}

impl MmapEntry {
    /// The entry describes memory the kernel may use.
    pub open spec fn available(&self) -> bool {
        self.type_ == MULTIBOOT_MEMORY_AVAILABLE
    }

    /// First frame of the entry.
    pub open spec fn frame_start(&self) -> int {
        self.addr as int / 4096
    }

    /// One past the last whole frame of the entry.
    pub open spec fn frame_end(&self) -> int {
        self.addr as int / 4096 + self.len as int / 4096
    }
}

/// Largest frame number one past any available region of the map's first
/// `n` entries, measured as the loader hands it over.
pub open spec fn spec_top_frame(map: Seq<MmapEntry>, n: int) -> int
    decreases n,
{
    if n <= 0 {
        0
    } else {
        let prev = spec_top_frame(map, n - 1);
        let e = map[n - 1];
        if e.available() && (e.addr + e.len) as int / 4096 > prev {
            (e.addr + e.len) as int / 4096
        } else {
            prev
        }
    }
}

/// Frame `f` lies in an available region of the map.
pub open spec fn spec_frame_available(map: Seq<MmapEntry>, f: int) -> bool {
    exists|k: int| 0 <= k < map.len() && map[k].available()
        && map[k].frame_start() <= f < map[k].frame_end()
}

pub struct PhysicalMemory {
    used: Bitmap,
    free: usize,
}

impl View for PhysicalMemory {
    type V = Seq<bool>;

    /// The used-frame bits: one means used, zero means free.
    closed spec fn view(&self) -> Seq<bool> {
        self.used@
    }
}

impl PhysicalMemory {
    /// The shadow count of free frames.
    pub closed spec fn free_count(&self) -> int {
        self.free as int
    }

    /// The shadow count always equals the number of zero bits.
    pub closed spec fn wf(&self) -> bool {
        &&& self.used.wf()
        &&& self.free == count_zeros(self.used@)
    }

    /// Builds an allocator over a used-frame bitmap whose free count is
    /// already known.
    pub fn new(used: Bitmap, free: usize) -> (r: PhysicalMemory)
        requires
            used.wf(),
            free == count_zeros(used@),
        ensures
            r.wf(),
            r@ == used@,
            r.free_count() == free,
    {
        PhysicalMemory { used, free }
    }

    /// Number of frames tracked.
    pub fn frames(&self) -> (r: usize)
        requires
            self.wf(),
        ensures
            r == self@.len(),
    {
        self.used.capacity()
    }

    /// The current free-frame count.
    pub fn free_frames(&self) -> (r: usize)
        requires
            self.wf(),
        ensures
            r == self.free_count(),
    {
        self.free
    }

    /// Reads the used bit of one frame.
    pub fn frame_used(&self, frame: usize) -> (r: bool)
        requires
            self.wf(),
            frame < self@.len(),
        ensures
            r == self@[frame as int],
    {
        self.used.get(frame)
    }

    /// The shadow free count equals the number of zero bits and never
    /// exceeds the number of frames tracked.
    pub proof fn lemma_free_count(&self)
        requires
            self.wf(),
        ensures
            self.free_count() == count_zeros(self@),
            0 <= self.free_count() <= self@.len(),
            self@.len() <= usize::MAX,
    {
        lemma_zeros_in_le(self@, 0, self@.len() as int);
        self.used.lemma_capacity_bound();
    }

    /// Marks `count` free frames from `frame_start` as used and lowers the
    /// free count by the same amount.
    pub fn mark_used(&mut self, frame_start: usize, count: usize)
        requires
            old(self).wf(),
            count >= 1,
            frame_start + count <= old(self)@.len(),
            all_zero(old(self)@, frame_start as int, frame_start + count),
        ensures
            final(self).wf(),
            final(self)@ == seq_set_range(old(self)@, frame_start as int, frame_start + count, true),
            final(self).free_count() == old(self).free_count() - count,
    {
        proof {
            self.used.lemma_capacity_bound();
            lemma_count_zeros_set_range(self.used@, frame_start as int, frame_start + count, true);
        }
        self.used.set_ones(frame_start, frame_start + count);
        self.free = self.free - count;
    }

    /// Marks `count` used frames from `frame_start` as free and raises the
    /// free count by the same amount.
    pub fn mark_free(&mut self, frame_start: usize, count: usize)
        requires
            old(self).wf(),
            count >= 1,
            frame_start + count <= old(self)@.len(),
            all_one(old(self)@, frame_start as int, frame_start + count),
        ensures
            final(self).wf(),
            final(self)@ == seq_set_range(old(self)@, frame_start as int, frame_start + count, false),
            final(self).free_count() == old(self).free_count() + count,
    {
        proof {
            self.used.lemma_capacity_bound();
            lemma_count_zeros_set_range(self.used@, frame_start as int, frame_start + count, false);
            lemma_zeros_in_le(
                seq_set_range(self.used@, frame_start as int, frame_start + count, false),
                0,
                self.used@.len() as int,
            );
        }
        self.used.set_zeros(frame_start, frame_start + count);
        self.free = self.free + count;
    }

    /// Finds the first start of a run of at least `count` free frames, and
    /// reserves nothing.  `None` comes exactly when the free count is short
    /// or no such run exists — and a run can only exist when the free count
    /// is not short, so `None` comes exactly when no run exists.
    pub fn find_free(&self, count: usize) -> (r: Option<usize>)
        requires
            self.wf(),
            count >= 1,
        ensures
            match r {
                Some(s) => {
                    &&& s + count <= self@.len()
                    &&& all_zero(self@, s as int, s + count)
                    &&& forall|t: int| 0 <= t < s ==> !(#[trigger] all_zero(self@, t, t + count))
                },
                None => forall|t: int| 0 <= t && t + count <= self@.len()
                    ==> !(#[trigger] all_zero(self@, t, t + count)),
            },
    {
        if self.free < count {
            proof {
                assert forall|t: int| 0 <= t && t + count <= self@.len() implies
                    !(#[trigger] all_zero(self@, t, t + count)) by {
                    if all_zero(self@, t, t + count) {
                        lemma_zeros_in_split(self@, 0, t, self@.len() as int);
                        lemma_zeros_in_split(self@, t, t + count, self@.len() as int);
                        lemma_zeros_in_const(self@, t, t + count);
                    }
                }
            }
            return None;
        }
        proof {
            // free >= count >= 1 zero bits exist, so the bitmap is not empty
            lemma_zeros_in_le(self@, 0, self@.len() as int);
        }
        let mut scan = self.used.consecutive_zeros(count);
        match scan.next(&self.used) {
            Some(run) => Some(run.0),
            None => None,
        }
    }
}

/// Law: marking a free range used and then free again is an identity, on
/// the free count and on every bit.
pub proof fn lemma_mark_round_trip(
    pm0: PhysicalMemory,
    pm1: PhysicalMemory,
    pm2: PhysicalMemory,
    start: int,
    count: int,
)
    requires
        count >= 1,
        0 <= start,
        start + count <= pm0@.len(),
        all_zero(pm0@, start, start + count),
        // pm1 is pm0 after the range was marked used, as its contract states
        pm1@ == seq_set_range(pm0@, start, start + count, true),
        pm1.free_count() == pm0.free_count() - count,
        // pm2 is pm1 after the range was marked free again
        pm2@ == seq_set_range(pm1@, start, start + count, false),
        pm2.free_count() == pm1.free_count() + count,
    ensures
        pm2@ == pm0@,
        pm2.free_count() == pm0.free_count(),
{
    crate::bitmap::lemma_set_range_round_trip(pm0@, start, start + count);
}

/// Phase-one bitmap: the bootstrap span of frames, all free, then the
/// kernel frames marked used.  Runs without any heap beyond the bitmap.
pub fn init_phys_mem_bare() -> (r: PhysicalMemory)
    ensures
        r.wf(),
        r@.len() == BOOTSTRAP_FRAMES,
        all_one(r@, 0, KERNEL_FRAMES as int),
        all_zero(r@, KERNEL_FRAMES as int, BOOTSTRAP_FRAMES as int),
        r.free_count() == BOOTSTRAP_FRAMES - KERNEL_FRAMES,
{
    let mut blocks: Vec<u64> = Vec::new();
    let mut i: usize = 0;
    while i < BOOTSTRAP_FRAMES / 64
        invariant
            i == blocks@.len() <= BOOTSTRAP_FRAMES / 64,
            forall|k: int| 0 <= k < i ==> blocks@[k] == 0u64,
        decreases BOOTSTRAP_FRAMES / 64 - i,
    {
        blocks.push(0u64);
        i = i + 1;
    }
    let bm = Bitmap::new(blocks);
    proof {
        assert(forall|j: u64| j < 64 ==> !(#[trigger] nth_bit(0u64, j))) by (bit_vector);
        assert forall|k: int| 0 <= k < bm@.len() implies !bm@[k] by {
            lemma_fundamental_div_mod(k, 64);
        }
        lemma_zeros_in_const(bm@, 0, bm@.len() as int);
    }
    let mut pm = PhysicalMemory::new(bm, BOOTSTRAP_FRAMES);
    pm.mark_used(0, KERNEL_FRAMES);
    pm
}

/// Phase-two reseeding from the loader's memory map: a fresh all-used
/// bitmap sized to the top available frame, every available frame beyond
/// the bootstrap span freed, a bootstrap-span frame freed only where it
/// both was free at entry (so frames taken during phase one stay used) and
/// lies in an available region (so memory the loader does not report stays
/// used), and the kernel frames forced used.  A map whose top available
/// frame falls short of the bootstrap span cannot reseed the allocator;
/// such a machine keeps the phase-one state.
pub fn init_phys_mem_e820(pm: &mut PhysicalMemory, map: &Vec<MmapEntry>)
    requires
        old(pm).wf(),
        old(pm)@.len() == BOOTSTRAP_FRAMES,
        forall|k: int| 0 <= k < map@.len()
            ==> (#[trigger] map@[k].addr) + map@[k].len <= u64::MAX,
        spec_top_frame(map@, map@.len() as int) >= BOOTSTRAP_FRAMES,
        spec_top_frame(map@, map@.len() as int) + 63 <= usize::MAX,
    ensures
        final(pm).wf(),
        final(pm)@.len() >= spec_top_frame(map@, map@.len() as int),
        final(pm)@.len() <= spec_top_frame(map@, map@.len() as int) + 63,
        all_one(final(pm)@, 0, KERNEL_FRAMES as int),
        forall|f: int| KERNEL_FRAMES <= f < BOOTSTRAP_FRAMES
            ==> (final(pm)@[f] == false
                <==> old(pm)@[f] == false && spec_frame_available(map@, f)),
        forall|f: int| BOOTSTRAP_FRAMES <= f < final(pm)@.len()
            ==> (final(pm)@[f] == false <==> spec_frame_available(map@, f)),
        final(pm).free_count() == count_zeros(final(pm)@),
{
    // top available frame over the whole map
    let mut top: u64 = 0;
    let mut i: usize = 0;
    while i < map.len()
        invariant
            i <= map@.len(),
            top == spec_top_frame(map@, i as int),
            forall|k: int| 0 <= k < map@.len()
                ==> (#[trigger] map@[k].addr) + map@[k].len <= u64::MAX,
        decreases map@.len() - i,
    {
        let e = map[i];
        if e.type_ == MULTIBOOT_MEMORY_AVAILABLE {
            let end = (e.addr + e.len) / 4096;
            if end > top {
                top = end;
            }
        }
        i = i + 1;
    }
    let top_frames = top as usize;

    // fresh bitmap sized to the top frame, all used
    let words = top_frames / 64 + if top_frames % 64 == 0 { 0 } else { 1 };
    proof {
        lemma_fundamental_div_mod(top_frames as int, 64);
        assert(top_frames <= words * 64 <= top_frames + 63);
    }
    let mut blocks: Vec<u64> = Vec::new();
    let mut w: usize = 0;
    while w < words
        invariant
            w == blocks@.len() <= words,
            forall|k: int| 0 <= k < w ==> blocks@[k] == !0u64,
        decreases words - w,
    {
        blocks.push(!0u64);
        w = w + 1;
    }
    let mut nb = Bitmap::new(blocks);
    proof {
        assert(forall|j: u64| j < 64 ==> #[trigger] nth_bit(!0u64, j)) by (bit_vector);
        assert forall|k: int| 0 <= k < nb@.len() implies nb@[k] by {
            lemma_fundamental_div_mod(k, 64);
        }
    }

    // free every available frame beyond the bootstrap span
    let mut i: usize = 0;
    while i < map.len()
        invariant
            i <= map@.len(),
            nb.wf(),
            top_frames <= nb@.len() <= top_frames + 63,
            top_frames >= BOOTSTRAP_FRAMES,
            forall|k: int| 0 <= k < map@.len()
                ==> (#[trigger] map@[k].addr) + map@[k].len <= u64::MAX,
            spec_top_frame(map@, map@.len() as int) == top_frames,
            forall|k: int| 0 <= k < BOOTSTRAP_FRAMES ==> nb@[k] == true,
            forall|k: int| BOOTSTRAP_FRAMES <= k < nb@.len()
                ==> (nb@[k] == false
                    <==> exists|e: int| 0 <= e < i && map@[e].available()
                        && map@[e].frame_start() <= k < map@[e].frame_end()),
        decreases map@.len() - i,
    {
        let e = map[i];
        if e.type_ == MULTIBOOT_MEMORY_AVAILABLE {
            proof {
                lemma_frame_end_within_top(map@, i as int);
            }
            let fs = (e.addr / 4096) as usize;
            let fe = fs + (e.len / 4096) as usize;
            let lo = if fs < BOOTSTRAP_FRAMES { BOOTSTRAP_FRAMES } else { fs };
            let hi = if fe < BOOTSTRAP_FRAMES { BOOTSTRAP_FRAMES } else { fe };
            if lo < hi {
                nb.set_zeros(lo, hi);
            }
        }
        i = i + 1;
    }

    // free a bootstrap-span frame only where phase one left it free and the
    // loader reports it: unreported memory stays used, phase-one
    // allocations stay used
    let mut f: usize = KERNEL_FRAMES;
    while f < BOOTSTRAP_FRAMES
        invariant
            KERNEL_FRAMES <= f <= BOOTSTRAP_FRAMES,
            pm@.len() == BOOTSTRAP_FRAMES,
            nb.wf(),
            top_frames <= nb@.len() <= top_frames + 63,
            top_frames >= BOOTSTRAP_FRAMES,
            pm.wf(),
            *pm == *old(pm),
            forall|k: int| 0 <= k < map@.len()
                ==> (#[trigger] map@[k].addr) + map@[k].len <= u64::MAX,
            forall|k: int| 0 <= k < KERNEL_FRAMES ==> nb@[k] == true,
            forall|k: int| KERNEL_FRAMES <= k < f
                ==> (nb@[k] == false <==> pm@[k] == false && spec_frame_available(map@, k)),
            forall|k: int| f <= k < BOOTSTRAP_FRAMES ==> nb@[k] == true,
            forall|k: int| BOOTSTRAP_FRAMES <= k < nb@.len()
                ==> (nb@[k] == false <==> spec_frame_available(map@, k)),
        decreases BOOTSTRAP_FRAMES - f,
    {
        if !pm.frame_used(f) && frame_available(map, f) {
            nb.set_zeros(f, f + 1);
        }
        f = f + 1;
    }

    // the kernel frames stay used whatever the map says
    nb.set_ones(0, KERNEL_FRAMES);

    let free = nb.count_zeros();
    let nb_used = nb;
    *pm = PhysicalMemory::new(nb_used, free);
}

/// Whether frame `f` lies in an available region of the map.
fn frame_available(map: &Vec<MmapEntry>, f: usize) -> (r: bool)
    requires
        forall|k: int| 0 <= k < map@.len()
            ==> (#[trigger] map@[k].addr) + map@[k].len <= u64::MAX,
    ensures
        r == spec_frame_available(map@, f as int),
{
    let mut i: usize = 0;
    let mut found = false;
    while i < map.len()
        invariant
            i <= map@.len(),
            forall|k: int| 0 <= k < map@.len()
                ==> (#[trigger] map@[k].addr) + map@[k].len <= u64::MAX,
            found == exists|k: int| 0 <= k < i && map@[k].available()
                && map@[k].frame_start() <= f < map@[k].frame_end(),
        decreases map@.len() - i,
    {
        let e = map[i];
        if e.type_ == MULTIBOOT_MEMORY_AVAILABLE {
            proof {
                lemma_fundamental_div_mod(e.addr as int, 4096);
                lemma_fundamental_div_mod(e.len as int, 4096);
            }
            let fs = e.addr / 4096;
            let fe = fs + e.len / 4096;
            if fs <= f as u64 && (f as u64) < fe {
                found = true;
                proof {
                    assert(map@[i as int].available()
                        && map@[i as int].frame_start() <= f < map@[i as int].frame_end());
                }
            }
        }
        i = i + 1;
    }
    found
}

/// An available entry's frame range ends at or below the map's top frame.
proof fn lemma_frame_end_within_top(map: Seq<MmapEntry>, i: int)
    requires
        0 <= i < map.len(),
        map[i].available(),
        map[i].addr + map[i].len <= u64::MAX,
    ensures
        map[i].frame_end() <= spec_top_frame(map, map.len() as int),
        0 <= map[i].frame_start() <= map[i].frame_end(),
    decreases map.len(),
{
    let e = map[i];
    // floor division distributes no further than the sum's quotient
    assert(e.frame_end() <= (e.addr + e.len) as int / 4096) by {
        lemma_fundamental_div_mod(e.addr as int, 4096);
        lemma_fundamental_div_mod(e.len as int, 4096);
        lemma_fundamental_div_mod((e.addr + e.len) as int, 4096);
        let qa = e.addr as int / 4096;
        let ra = e.addr as int % 4096;
        let ql = e.len as int / 4096;
        let rl = e.len as int % 4096;
        let qs = (e.addr + e.len) as int / 4096;
        let rs = (e.addr + e.len) as int % 4096;
        assert(4096 * qa + ra + 4096 * ql + rl == 4096 * qs + rs);
        assert(qa + ql <= qs) by (nonlinear_arith)
            requires
                4096 * qa + ra + 4096 * ql + rl == 4096 * qs + rs,
                0 <= ra < 4096,
                0 <= rl < 4096,
                0 <= rs < 4096,
        ;
    }
    lemma_top_frame_bounds(map, i);
}

/// The running maximum covers every available entry seen so far.
proof fn lemma_top_frame_bounds(map: Seq<MmapEntry>, i: int)
    requires
        0 <= i < map.len(),
        map[i].available(),
    ensures
        (map[i].addr + map[i].len) as int / 4096 <= spec_top_frame(map, map.len() as int),
    decreases map.len() - i,
{
    lemma_top_frame_grows(map, i + 1, map.len() as int);
}

/// The running maximum never shrinks as more entries are folded in.
proof fn lemma_top_frame_grows(map: Seq<MmapEntry>, a: int, b: int)
    requires
        0 < a <= b <= map.len(),
    ensures
        spec_top_frame(map, a) <= spec_top_frame(map, b),
        map[a - 1].available()
            ==> (map[a - 1].addr + map[a - 1].len) as int / 4096 <= spec_top_frame(map, b),
    decreases b - a,
{
    if a < b {
        lemma_top_frame_grows(map, a + 1, b);
    }
}

} // verus!
