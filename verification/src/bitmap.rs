//! Dense bitset over 64-bit blocks with range set/clear and a word-at-a-time
//! scan for runs of consecutive zero bits.

use vstd::arithmetic::div_mod::lemma_fundamental_div_mod;
use vstd::arithmetic::div_mod::lemma_fundamental_div_mod_converse;
use vstd::prelude::*;

verus! {

/// Bit `i` of block `b`.
pub open spec fn nth_bit(b: u64, i: u64) -> bool {
    (b >> i) & 1 == 1
}

/// `s` with every index in `[start, end)` replaced by `v`.
pub open spec fn seq_set_range(s: Seq<bool>, start: int, end: int, v: bool) -> Seq<bool> {
    Seq::new(s.len(), |i: int| if start <= i < end { v } else { s[i] })
}

/// No one-bit anywhere in `[start, end)`.
pub open spec fn all_zero(s: Seq<bool>, start: int, end: int) -> bool {
    forall|i: int| start <= i < end ==> !s[i]
}

/// Every bit in `[start, end)` is one.
pub open spec fn all_one(s: Seq<bool>, start: int, end: int) -> bool {
    forall|i: int| start <= i < end ==> s[i]
}

/// How many bits of `[a, b)` are zero.
pub open spec fn zeros_in(s: Seq<bool>, a: int, b: int) -> nat
    decreases b - a,
{
    if b <= a {
        0
    } else {
        zeros_in(s, a, b - 1) + if s[b - 1] {
            0nat
        } else {
            1nat
        }
    }
}

/// How many bits of the whole sequence are zero.
pub open spec fn count_zeros(s: Seq<bool>) -> nat {
    zeros_in(s, 0, s.len() as int)
}

/// A zero count never exceeds the width of its range.
pub proof fn lemma_zeros_in_le(s: Seq<bool>, a: int, b: int)
    requires
        a <= b,
    ensures
        zeros_in(s, a, b) <= b - a,
    decreases b - a,
{
    if a < b {
        lemma_zeros_in_le(s, a, b - 1);
    }
}

/// Zero counts add up over adjacent ranges.
pub proof fn lemma_zeros_in_split(s: Seq<bool>, a: int, m: int, b: int)
    requires
        a <= m <= b,
    ensures
        zeros_in(s, a, b) == zeros_in(s, a, m) + zeros_in(s, m, b),
    decreases b - m,
{
    if m < b {
        lemma_zeros_in_split(s, a, m, b - 1);
    }
}

/// Sequences that agree on a range have the same zero count there.
pub proof fn lemma_zeros_in_agree(s: Seq<bool>, t: Seq<bool>, a: int, b: int)
    requires
        forall|i: int| a <= i < b ==> s[i] == t[i],
    ensures
        zeros_in(s, a, b) == zeros_in(t, a, b),
    decreases b - a,
{
    if a < b {
        lemma_zeros_in_agree(s, t, a, b - 1);
    }
}

/// A range of all ones counts no zeros; a range of all zeros counts its width.
pub proof fn lemma_zeros_in_const(s: Seq<bool>, a: int, b: int)
    requires
        a <= b,
    ensures
        all_one(s, a, b) ==> zeros_in(s, a, b) == 0,
        all_zero(s, a, b) ==> zeros_in(s, a, b) == b - a,
    decreases b - a,
{
    if a < b {
        lemma_zeros_in_const(s, a, b - 1);
    }
}

/// Setting `[start, end)` to ones removes exactly its width from the zero
/// count when the range held only zeros; setting a range of ones back to
/// zeros adds exactly its width.
pub proof fn lemma_count_zeros_set_range(s: Seq<bool>, start: int, end: int, v: bool)
    requires
        0 <= start <= end <= s.len(),
        v ==> all_zero(s, start, end),
        !v ==> all_one(s, start, end),
    ensures
        v ==> count_zeros(seq_set_range(s, start, end, true)) + (end - start) == count_zeros(s),
        !v ==> count_zeros(seq_set_range(s, start, end, false)) == count_zeros(s) + (end - start),
{
    let t = seq_set_range(s, start, end, v);
    let n = s.len() as int;
    lemma_zeros_in_split(s, 0, start, n);
    lemma_zeros_in_split(s, start, end, n);
    lemma_zeros_in_split(t, 0, start, n);
    lemma_zeros_in_split(t, start, end, n);
    lemma_zeros_in_agree(s, t, 0, start);
    lemma_zeros_in_agree(s, t, end, n);
    lemma_zeros_in_const(s, start, end);
    lemma_zeros_in_const(t, start, end);
}

/// A sequence in which no single position is a zero run is all ones and
/// counts no zeros.
pub proof fn lemma_all_one_count(s: Seq<bool>)
    requires
        forall|t: int| 0 <= t && t + 1 <= s.len() ==> !(#[trigger] all_zero(s, t, t + 1)),
    ensures
        all_one(s, 0, s.len() as int),
        count_zeros(s) == 0,
{
    assert forall|t: int| 0 <= t < s.len() implies s[t] by {
        assert(!all_zero(s, t, t + 1));
    }
    lemma_zeros_in_const(s, 0, s.len() as int);
}

/// A zero run accounts for its full width in the zero count.
pub proof fn lemma_run_counts_zeros(s: Seq<bool>, a: int, b: int)
    requires
        0 <= a <= b <= s.len(),
        all_zero(s, a, b),
    ensures
        count_zeros(s) >= b - a,
{
    lemma_zeros_in_split(s, 0, a, s.len() as int);
    lemma_zeros_in_split(s, a, b, s.len() as int);
    lemma_zeros_in_const(s, a, b);
}

/// Round trip: setting a range to ones and then back to zeros restores a
/// bitmap in which that range held only zeros, bit for bit.
pub proof fn lemma_set_range_round_trip(s: Seq<bool>, start: int, end: int)
    requires
        0 <= start <= end <= s.len(),
        all_zero(s, start, end),
    ensures
        seq_set_range(seq_set_range(s, start, end, true), start, end, false) == s,
{
    assert(seq_set_range(seq_set_range(s, start, end, true), start, end, false) =~= s);
}

#[derive(Debug)]
pub struct Bitmap {
    blocks: Vec<u64>,
}

impl View for Bitmap {
    type V = Seq<bool>;

    /// The bitmap as a sequence of bits; bit `i` lives in block `i / 64`.
    closed spec fn view(&self) -> Seq<bool> {
        Seq::new(
            (self.blocks@.len() * 64) as nat,
            |i: int| nth_bit(self.blocks@[i / 64], (i % 64) as u64),
        )
    }
}

impl Bitmap {
    /// Capacity stays addressable: `blocks.len() * 64` fits in `usize`.
    pub closed spec fn wf(&self) -> bool {
        self.blocks@.len() * 64 <= usize::MAX
    }

    /// A well-formed bitmap's capacity fits the machine word.
    pub proof fn lemma_capacity_bound(&self)
        requires
            self.wf(),
        ensures
            self@.len() <= usize::MAX,
    {
    }

    /// Creates a new bitmap over the given blocks.
    pub fn new(value: Vec<u64>) -> (r: Bitmap)
        requires
            value@.len() * 64 <= usize::MAX,
        ensures
            r.wf(),
            r@.len() == value@.len() * 64,
            forall|i: int| 0 <= i < r@.len() ==> r@[i] == nth_bit(value@[i / 64], (i % 64) as u64),
    {
        Bitmap { blocks: value }
    }

    /// Replaces the backing blocks.
    pub fn replace(&mut self, value: Vec<u64>)
        requires
            value@.len() * 64 <= usize::MAX,
        ensures
            final(self).wf(),
            final(self)@.len() == value@.len() * 64,
            forall|i: int| 0 <= i < final(self)@.len()
                ==> final(self)@[i] == nth_bit(value@[i / 64], (i % 64) as u64),
    {
        self.blocks = value;
    }

    /// Number of bits held.
    pub fn capacity(&self) -> (r: usize)
        requires
            self.wf(),
        ensures
            r == self@.len(),
    {
        self.blocks.len() * 64
    }

    /// Reads one bit.
    pub fn get(&self, i: usize) -> (r: bool)
        requires
            self.wf(),
            i < self@.len(),
        ensures
            r == self@[i as int],
    {
        proof {
            lemma_fundamental_div_mod(i as int, 64);
        }
        let b = self.blocks[i / 64];
        let j = (i % 64) as u64;
        let r = (b >> j) & 1 == 1;
        proof {
            assert(((b >> j) & 1 == 1) == nth_bit(b, j));
        }
        r
    }

    /// Counts the zero bits of the whole bitmap.
    pub fn count_zeros(&self) -> (r: usize)
        requires
            self.wf(),
        ensures
            r == count_zeros(self@),
    {
        let n = self.capacity();
        let mut c: usize = 0;
        let mut f: usize = 0;
        while f < n
            invariant
                n == self@.len(),
                self.wf(),
                f <= n,
                c == zeros_in(self@, 0, f as int),
                c <= f,
            decreases n - f,
        {
            if !self.get(f) {
                c = c + 1;
            }
            f = f + 1;
        }
        c
    }

    /// Sets every bit in `[start, end)` to one; all other bits keep their value.
    pub fn set_ones(&mut self, start: usize, end: usize)
        requires
            old(self).wf(),
            start < end,
            end <= old(self)@.len(),
        ensures
            final(self).wf(),
            final(self)@ == seq_set_range(old(self)@, start as int, end as int, true),
    {
        self.apply_range(start, end, true);
    }

    /// Sets every bit in `[start, end)` to zero; all other bits keep their value.
    pub fn set_zeros(&mut self, start: usize, end: usize)
        requires
            old(self).wf(),
            start < end,
            end <= old(self)@.len(),
        ensures
            final(self).wf(),
            final(self)@ == seq_set_range(old(self)@, start as int, end as int, false),
    {
        self.apply_range(start, end, false);
    }

    /// Walks the blocks that `[start, end)` touches, applying the block mask.
    fn apply_range(&mut self, start: usize, end: usize, value: bool)
        requires
            old(self).wf(),
            start < end,
            end <= old(self)@.len(),
        ensures
            final(self).wf(),
            final(self)@ == seq_set_range(old(self)@, start as int, end as int, value),
    {
        proof {
            lemma_fundamental_div_mod(start as int, 64);
            lemma_fundamental_div_mod(end - 1, 64);
        }
        let first = start / 64;
        let last = (end - 1) / 64;
        let mut w = first;
        while w <= last
            invariant
                self.wf(),
                start < end <= self@.len(),
                self.blocks@.len() == old(self).blocks@.len(),
                first == start as int / 64,
                last == (end - 1) as int / 64,
                first <= w <= last + 1,
                forall|i: int| 0 <= i < self@.len() && !(start <= i < end && i < 64 * w)
                    ==> self@[i] == old(self)@[i],
                forall|i: int| start <= i < end && i < 64 * w ==> self@[i] == value,
            decreases last + 1 - w,
        {
            let lo: u64 = if w == first { (start % 64) as u64 } else { 0 };
            let hi: u64 = if w == last { ((end - 1) % 64 + 1) as u64 } else { 64 };
            proof {
                lemma_fundamental_div_mod(start as int, 64);
                lemma_fundamental_div_mod(end - 1, 64);
            }
            let m = mask_range(lo, hi);
            let ghost prev = *self;
            let b = self.blocks[w];
            let nb = if value { b | m } else { b & !m };
            self.blocks.set(w, nb);
            proof {
                assert(forall|j: u64| j < 64 ==> (#[trigger] nth_bit(b | m, j)
                    <==> nth_bit(b, j) || nth_bit(m, j))) by (bit_vector);
                assert(forall|j: u64| j < 64 ==> (#[trigger] nth_bit(b & !m, j)
                    <==> nth_bit(b, j) && !nth_bit(m, j))) by (bit_vector);
                assert forall|i: int| 0 <= i < self@.len() implies {
                    &&& (!(start <= i < end && i < 64 * (w + 1)) ==> self@[i] == old(self)@[i])
                    &&& (start <= i < end && i < 64 * (w + 1) ==> self@[i] == value)
                } by {
                    lemma_fundamental_div_mod(i, 64);
                    let j = i % 64;
                    if i / 64 == w {
                        assert(self@[i] == nth_bit(nb, j as u64));
                        assert(prev@[i] == nth_bit(b, j as u64));
                        // a bit of block `w` lies in `[start, end)` exactly when
                        // its offset lies in `[lo, hi)`
                        assert(start <= i < end <==> lo <= j < hi);
                    } else {
                        assert(self@[i] == prev@[i]);
                    }
                }
            }
            w += 1;
        }
        proof {
            assert(final(self)@ =~= seq_set_range(old(self)@, start as int, end as int, value));
        }
    }
}

impl Bitmap {
    /// Starts a scan for runs of at least `fits` consecutive zero bits.
    pub fn consecutive_zeros(&self, fits: usize) -> (it: ConsecutiveZeros)
        requires
            self.wf(),
            fits >= 1,
            self@.len() > 0,
        ensures
            it.wf(self),
            it.pos() == 0,
            it.fits() == fits,
    {
        ConsecutiveZeros { bitmap_len: self.blocks.len(), block: self.blocks[0], block_index: 0, index: 0, fits }
    }
}

/// Bit `64 * bi + j` of the bitmap is bit `j` of block `bi`.
proof fn lemma_view_bit(bm: &Bitmap, bi: int, j: int)
    requires
        0 <= bi < bm.blocks@.len(),
        0 <= j < 64,
    ensures
        0 <= 64 * bi + j < bm@.len(),
        bm@[64 * bi + j] == nth_bit(bm.blocks@[bi], j as u64),
{
    lemma_fundamental_div_mod_converse(64 * bi + j, 64, bi, j);
}

/// Cursor over a bitmap that emits half-open ranges `[a, b)` of zero bits,
/// each at least `fits` long, in increasing order of start, skipping ones a
/// word at a time with `trailing_zeros`.
pub struct ConsecutiveZeros {
    bitmap_len: usize,
    block_index: usize,
    block: u64,
    index: usize,
    fits: usize,
}

impl ConsecutiveZeros {
    /// Next bit the scan will consider; emitted runs never start below it.
    pub closed spec fn pos(&self) -> int {
        self.index as int
    }

    /// The minimum run length requested.
    pub closed spec fn fits(&self) -> int {
        self.fits as int
    }

    /// How much of the current block has been processed.
    closed spec fn off(&self) -> int {
        if self.index > 64 * self.block_index {
            self.index - 64 * self.block_index
        } else {
            0
        }
    }

    /// The cursor is consistent with the bitmap it was started on.
    pub closed spec fn wf(&self, bm: &Bitmap) -> bool {
        &&& bm.wf()
        &&& self.bitmap_len == bm.blocks@.len()
        &&& self.fits >= 1
        &&& self.block_index <= bm.blocks@.len()
        &&& self.index <= 64 * self.block_index + 64
        &&& (self.block_index == bm.blocks@.len()
            ==> self.index <= bm@.len() && bm@.len() - self.index < self.fits)
        &&& (self.index < 64 * self.block_index
            ==> 64 * self.block_index - self.index < self.fits)
        &&& (forall|j: int| self.index <= j < 64 * self.block_index ==> !bm@[j])
        &&& (self.block_index < bm.blocks@.len()
            ==> forall|j: u64| j < 64
                ==> (#[trigger] nth_bit(self.block, j)
                    <==> self.off() <= j && nth_bit(bm.blocks@[self.block_index as int], j)))
    }

    /// Emits the next run of at least `fits` zero bits, or `None` when no such
    /// run starts at or after the cursor.  A run is emitted as soon as it is
    /// known to be long enough, so the start of an emitted run is the least
    /// position at or after the cursor where `fits` zero bits begin, and its
    /// end is the first point past the minimum length where the scan looks:
    /// a one bit or a block boundary.
    pub fn next(&mut self, bm: &Bitmap) -> (r: Option<(usize, usize)>)
        requires
            old(self).wf(bm),
        ensures
            final(self).wf(bm),
            final(self).fits() == old(self).fits(),
            final(self).pos() >= old(self).pos(),
            match r {
                Some(run) => {
                    &&& old(self).pos() <= run.0
                    &&& run.0 + old(self).fits() <= run.1 <= bm@.len()
                    &&& all_zero(bm@, run.0 as int, run.1 as int)
                    &&& (forall|s: int| old(self).pos() <= s < run.0
                        ==> !(#[trigger] all_zero(bm@, s, s + old(self).fits())))
                    &&& (run.1 % 64 == 0 || (run.1 < bm@.len() && bm@[run.1 as int]))
                    &&& (forall|c: int| run.0 + old(self).fits() <= c < run.1
                        ==> #[trigger] (c % 64) != 0)
                    &&& run.1 <= final(self).pos()
                },
                None => forall|s: int| old(self).pos() <= s && s + old(self).fits() <= bm@.len()
                    ==> !(#[trigger] all_zero(bm@, s, s + old(self).fits())),
            },
    {
        while self.block_index < self.bitmap_len
            invariant
                self.wf(bm),
                self.fits == old(self).fits,
                self.index >= old(self).index,
                forall|s: int| old(self).index <= s < self.index
                    ==> !(#[trigger] all_zero(bm@, s, s + self.fits)),
            decreases bm.blocks@.len() - self.block_index, 64 - self.off(),
        {
            let ghost bi = self.block_index as int;
            let ghost off = self.off();
            if self.block == 0 {
                // the rest of this block is zeros: the run reaches its end
                proof {
                    assert(forall|j: u64| j < 64 ==> !(#[trigger] nth_bit(0u64, j)))
                        by (bit_vector);
                    assert forall|j: int| self.index <= j < 64 * (bi + 1) implies !bm@[j] by {
                        if j >= 64 * bi {
                            let jo = (j - 64 * bi) as u64;
                            assert(!nth_bit(self.block, jo));
                            assert(!nth_bit(bm.blocks@[bi], jo));
                            lemma_view_bit(bm, bi, j - 64 * bi);
                        }
                    }
                }
                let boundary = (self.block_index + 1) * 64;
                let start = self.index;
                self.block_index += 1;
                self.block = if self.block_index < self.bitmap_len {
                    bm.blocks[self.block_index]
                } else {
                    0
                };
                if boundary - start >= self.fits {
                    self.index = boundary;
                    proof {
                        vstd::arithmetic::div_mod::lemma_mod_multiples_basic(bi + 1, 64);
                        lemma_no_boundary_between(bi, start as int, self.fits as int,
                            boundary as int);
                    }
                    return Some((start, boundary));
                }
            } else {
                let tz = self.block.trailing_zeros();
                proof {
                    vstd::std_specs::bits::axiom_u64_trailing_zeros(self.block);
                }
                let one_pos = self.block_index * 64 + tz as usize;
                let start = self.index;
                let ghost b = self.block;
                let ghost tzg = tz as u64;
                proof {
                    // bits of the block below `tz` are zero, bit `tz` is one
                    assert(tzg < 64 && b << vstd::prelude::sub(64u64, tzg) == 0
                        ==> forall|j: u64| j < tzg ==> !(#[trigger] nth_bit(b, j)))
                        by (bit_vector);
                    assert forall|j: int| self.index <= j < 64 * bi + tzg implies !bm@[j] by {
                        if j >= 64 * bi {
                            let jo = (j - 64 * bi) as u64;
                            assert(!nth_bit(b, jo));
                            assert(!nth_bit(bm.blocks@[bi], jo));
                            lemma_view_bit(bm, bi, j - 64 * bi);
                        }
                    }
                    assert(nth_bit(b, tzg));
                    assert(off <= tzg);
                    assert(start <= one_pos);
                    assert(nth_bit(bm.blocks@[bi], tzg));
                    lemma_view_bit(bm, bi, tzg as int);
                    assert((tzg as int) as u64 == tzg);
                    assert(bm@[64 * bi + tzg] == true);
                }
                self.index = one_pos + 1;
                self.block = self.block & (self.block - 1);
                proof {
                    // clearing the lowest set bit clears exactly bit `tz`
                    assert((b >> tzg) & 1 == 1 && b << vstd::prelude::sub(64u64, tzg) == 0 && tzg < 64
                        ==> forall|j: u64| j < 64
                            ==> (#[trigger] nth_bit(b & vstd::prelude::sub(b, 1), j)
                                <==> nth_bit(b, j) && j != tzg)) by (bit_vector);
                    // starts in [start, one_pos] all reach the one at one_pos
                    assert forall|s: int| start <= s < self.index
                            && one_pos - start < self.fits implies
                        !(#[trigger] all_zero(bm@, s, s + self.fits)) by {
                        assert(bm@[64 * bi + tzg] == true);
                        assert(s <= 64 * bi + tzg < s + self.fits);
                    }
                }
                if one_pos - start >= self.fits {
                    proof {
                        lemma_no_boundary_between(bi, start as int, self.fits as int,
                            one_pos as int);
                    }
                    return Some((start, one_pos));
                }
            }
        }
        proof {
            assert forall|s: int| old(self).index <= s && s + self.fits <= bm@.len() implies
                !(#[trigger] all_zero(bm@, s, s + self.fits)) by {
                assert(bm@.len() - self.index < self.fits);
            }
        }
        None
    }

    /// Marks a range of the scanned bitmap as ones, as when a run the scan
    /// found is claimed.  The cursor itself is left behind: a claim may
    /// invalidate what it has already skipped, so the scan is not resumed.
    pub fn set_ones(&self, bm: &mut Bitmap, start: usize, end: usize)
        requires
            old(bm).wf(),
            start < end,
            end <= old(bm)@.len(),
        ensures
            final(bm).wf(),
            final(bm)@ == seq_set_range(old(bm)@, start as int, end as int, true),
    {
        bm.set_ones(start, end);
    }
}

/// A run that starts in block `bi` (or whose head boundary was already
/// checked) and ends before the block's end crosses no block boundary past
/// its minimum length: the stretch from minimum length to end lies strictly
/// inside block `bi`.
proof fn lemma_no_boundary_between(bi: int, start: int, fits: int, end: int)
    requires
        0 <= bi,
        fits >= 1,
        0 <= start,
        start < 64 * bi ==> 64 * bi - start < fits,
        end <= 64 * (bi + 1),
    ensures
        forall|c: int| start + fits <= c < end ==> #[trigger] (c % 64) != 0,
{
    assert forall|c: int| start + fits <= c < end implies #[trigger] (c % 64) != 0 by {
        if c % 64 == 0 {
            lemma_fundamental_div_mod(c, 64);
            let q = c / 64;
            assert(64 * bi < c < 64 * (bi + 1));
            assert(bi < q < bi + 1);
        }
    }
}

/// A block whose bits `[lo, hi)` are one and all others zero.
fn mask_range(lo: u64, hi: u64) -> (r: u64)
    requires
        lo < hi <= 64,
    ensures
        forall|j: u64| j < 64 ==> (#[trigger] nth_bit(r, j) <==> lo <= j < hi),
{
    let r = (!0u64 >> (64 - (hi - lo))) << lo;
    proof {
        assert(forall|j: u64| j < 64
            ==> (#[trigger] nth_bit((!0u64 >> (64 - (hi - lo)) as u64) << lo, j)
                <==> lo <= j < hi)) by (bit_vector)
            requires
                lo < hi <= 64,
        ;
    }
    r
}

} // verus!
