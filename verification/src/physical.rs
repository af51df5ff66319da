//! Physical frame allocator.
//!
//! One bit per 4 KiB frame over everything up to the highest usable
//! address, a set bit meaning used. Allocation is a linear scan with a
//! rolling hint; contiguous runs are found by a forward scan.

use vstd::prelude::*;
use vstd::arithmetic::div_mod::{lemma_small_mod, lemma_mod_multiples_vanish};

verus! {

/// Frame size, the only page size the kernel knows.
pub const FRAME_SIZE: usize = 4096;

/// Size of the kernel heap, carved out of contiguous frames at boot.
pub const HEAP_SIZE: usize = 64 * 1024 * 1024;

/// Whether bit `k` of `byte` is set.
pub open spec fn bit_set(byte: u8, k: u8) -> bool {
    byte & (1u8 << k) != 0
}

proof fn lemma_bit_or(b: u8, k: u8, j: u8)
    requires
        k < 8,
        j < 8,
    ensures
        bit_set(b | (1u8 << k), j) == (j == k || bit_set(b, j)),
{
    assert((b | (1u8 << k)) & (1u8 << j) != 0 <==> (j == k || b & (1u8 << j) != 0))
        by (bit_vector)
        requires k < 8, j < 8;
}

proof fn lemma_bit_and_not(b: u8, k: u8, j: u8)
    requires
        k < 8,
        j < 8,
    ensures
        bit_set(b & !(1u8 << k), j) == (j != k && bit_set(b, j)),
{
    assert((b & !(1u8 << k)) & (1u8 << j) != 0 <==> (j != k && b & (1u8 << j) != 0))
        by (bit_vector)
        requires k < 8, j < 8;
}

/// `a / b` rounded up.
pub open spec fn div_ceil(a: int, b: int) -> int {
    if a % b == 0 {
        a / b
    } else {
        a / b + 1
    }
}

/// Number of free (unset) entries in a used-map.
pub open spec fn count_free(s: Seq<bool>) -> nat
    decreases s.len(),
{
    if s.len() == 0 {
        0
    } else {
        count_free(s.drop_last()) + free_bit(s.last())
    }
}

/// One for a free entry, zero for a used one.
pub open spec fn free_bit(used: bool) -> nat {
    if used {
        0
    } else {
        1
    }
}

/// Marking a free entry used takes one off the free count; freeing a
/// used entry adds one.
pub proof fn lemma_count_free_update(s: Seq<bool>, i: int, v: bool)
    requires
        0 <= i < s.len(),
    ensures
        count_free(s.update(i, v)) + free_bit(s[i]) == count_free(s) + free_bit(v),
    decreases s.len(),
{
    let t = s.update(i, v);
    assert(count_free(s) == count_free(s.drop_last()) + free_bit(s.last()));
    assert(count_free(t) == count_free(t.drop_last()) + free_bit(t.last()));
    if i == s.len() - 1 {
        assert(t.drop_last() =~= s.drop_last());
        assert(t.last() == v);
    } else {
        assert(t.drop_last() =~= s.drop_last().update(i, v));
        assert(t.last() == s.last());
        assert(s.drop_last()[i] == s[i]);
        lemma_count_free_update(s.drop_last(), i, v);
    }
}

/// The free count never exceeds the number of entries.
pub proof fn lemma_count_free_bound(s: Seq<bool>)
    ensures
        count_free(s) <= s.len(),
    decreases s.len(),
{
    if s.len() > 0 {
        lemma_count_free_bound(s.drop_last());
    }
}

/// A map with no free entry has a free count of zero, and one with a
/// free entry has a positive count.
pub proof fn lemma_count_free_zero(s: Seq<bool>)
    ensures
        (count_free(s) == 0) <==> (forall|j: int| 0 <= j < s.len() ==> s[j]),
    decreases s.len(),
{
    if s.len() > 0 {
        lemma_count_free_zero(s.drop_last());
        if count_free(s) == 0 {
            assert forall|j: int| 0 <= j < s.len() implies s[j] by {
                if j < s.len() - 1 {
                    assert(s.drop_last()[j] == s[j]);
                }
            }
        } else {
            if forall|j: int| 0 <= j < s.len() ==> s[j] {
                assert forall|j: int| 0 <= j < s.drop_last().len() implies s.drop_last()[j] by {
                    assert(s[j]);
                }
            }
        }
    }
}

/// In the cyclic scan of `s` that starts at `start`, offset `off` is the
/// first one that reaches a free entry.
pub open spec fn first_free_at(s: Seq<bool>, start: int, off: int) -> bool {
    &&& 0 <= off < s.len()
    &&& !s[(start + off) % (s.len() as int)]
    &&& forall|k: int| 0 <= k < off ==> #[trigger] s[(start + k) % (s.len() as int)]
}

/// Every entry of a map of `n` entries is reached by a cyclic scan that
/// starts at any `start <= n`.
proof fn lemma_cyclic_cover(start: int, n: int, j: int) -> (k: int)
    requires
        0 <= start <= n,
        0 <= j < n,
    ensures
        0 <= k < n,
        (start + k) % n == j,
{
    lemma_small_mod(j as nat, n as nat);
    if j >= start {
        j - start
    } else {
        lemma_mod_multiples_vanish(1, j, n);
        j + n - start
    }
}

/// The `count` entries of `s` from `start` on all exist and are free.
pub open spec fn run_free(s: Seq<bool>, start: int, count: int) -> bool {
    &&& 0 <= start
    &&& start + count <= s.len()
    &&& forall|k: int| start <= k < start + count ==> !#[trigger] s[k]
}

/// `s` with the `count` entries from `start` on marked used.
pub open spec fn mark_used(s: Seq<bool>, start: int, count: int) -> Seq<bool> {
    Seq::new(s.len(), |k: int| if start <= k < start + count { true } else { s[k] })
}

/// Index of the frame that holds physical address `addr`.
pub open spec fn frame_of(addr: u64) -> int {
    addr as int / FRAME_SIZE as int
}

/// Whether bit `i` of a byte bitmap is set.
pub open spec fn bitmap_used(bitmap: Seq<u8>, i: int) -> bool {
    bit_set(bitmap[i / 8], (i % 8) as u8)
}

/// The first `frames` bits of a byte bitmap as a used-map.
pub open spec fn bitmap_view(bitmap: Seq<u8>, frames: nat) -> Seq<bool> {
    Seq::new(frames, |i: int| bitmap_used(bitmap, i))
}

/// A usable region of physical memory, in plain numbers.
#[derive(Clone, Copy)]
pub struct Region {
    pub base: u64,
    pub length: u64,
}

/// Why a frame allocator could not be built from a memory map.
#[derive(Clone, Copy, PartialEq, Eq, Debug, Structural)]
pub enum InitError {
    /// The memory map holds no usable region.
    NoUsableRegions,
    /// No usable region is large enough to hold the frame bitmap.
    NoBitmapHome,
}

/// One past the last byte of a region.
pub open spec fn region_end(r: Region) -> int {
    r.base + r.length
}

/// The highest region end of a memory map, zero for an empty one.
pub open spec fn regions_top(s: Seq<Region>) -> int
    decreases s.len(),
{
    if s.len() == 0 {
        0
    } else {
        let rest = regions_top(s.drop_last());
        if region_end(s.last()) > rest {
            region_end(s.last())
        } else {
            rest
        }
    }
}

/// Frame `j` lies wholly inside region `r`.
pub open spec fn region_covers(r: Region, j: int) -> bool {
    div_ceil(r.base as int, FRAME_SIZE as int) <= j < region_end(r) / FRAME_SIZE as int
}

/// Frame `j` lies wholly inside one of the first `n` regions of `s`.
pub open spec fn covered_by_first(s: Seq<Region>, n: int, j: int) -> bool {
    exists|k: int| 0 <= k < n && #[trigger] region_covers(s[k], j)
}

/// Region `h` is the first one of `s` long enough to hold `bytes`.
pub open spec fn is_bitmap_home(s: Seq<Region>, h: int, bytes: int) -> bool {
    &&& 0 <= h < s.len()
    &&& s[h].length >= bytes
    &&& forall|k: int| 0 <= k < h ==> #[trigger] s[k].length < bytes
}

/// The frames that a bitmap of `bytes` bytes occupies at the start of `home`.
pub open spec fn in_bitmap_frames(home: Region, bytes: int, j: int) -> bool {
    home.base as int / FRAME_SIZE as int <= j < div_ceil(home.base + bytes, FRAME_SIZE as int)
}

/// The used-map a fresh allocator starts from: a frame is free when a
/// usable region covers it wholly and the bitmap does not sit on it.
pub open spec fn boot_view(s: Seq<Region>, frames: nat, home: Region, bytes: int) -> Seq<bool> {
    Seq::new(
        frames,
        |j: int| !covered_by_first(s, s.len() as int, j) || in_bitmap_frames(home, bytes, j),
    )
}

/// The regions of a memory map do not overlap and end within the
/// address space.
pub open spec fn regions_valid(s: Seq<Region>) -> bool {
    &&& forall|k: int| 0 <= k < s.len() ==> region_end(#[trigger] s[k]) <= usize::MAX
    &&& forall|a: int, b: int|
        0 <= a < s.len() && 0 <= b < s.len() && a != b ==> region_end(#[trigger] s[a]) <= (
        #[trigger] s[b]).base || region_end(s[b]) <= s[a].base
}

/// Frames a memory map asks to track: up to the highest usable end.
pub open spec fn boot_frames(s: Seq<Region>) -> int {
    div_ceil(regions_top(s), FRAME_SIZE as int)
}

/// Bytes of bitmap that hold one bit per tracked frame.
pub open spec fn boot_bitmap_bytes(s: Seq<Region>) -> int {
    div_ceil(boot_frames(s), 8)
}

/// Every region ends at or below the top, and the top is the end of one
/// of them when there is any.
pub proof fn lemma_regions_top(s: Seq<Region>)
    ensures
        forall|k: int| 0 <= k < s.len() ==> region_end(#[trigger] s[k]) <= regions_top(s),
        s.len() > 0 ==> exists|k: int| 0 <= k < s.len() && regions_top(s) == region_end(
            #[trigger] s[k],
        ),
        s.len() == 0 ==> regions_top(s) == 0,
    decreases s.len(),
{
    if s.len() > 0 {
        let t = s.drop_last();
        lemma_regions_top(t);
        assert forall|k: int| 0 <= k < s.len() implies region_end(#[trigger] s[k]) <= regions_top(
            s,
        ) by {
            if k < s.len() - 1 {
                assert(s[k] == t[k]);
            }
        }
        if region_end(s.last()) > regions_top(t) {
            assert(regions_top(s) == region_end(s[s.len() - 1]));
        } else if t.len() > 0 {
            let k = choose|k: int| 0 <= k < t.len() && regions_top(t) == region_end(#[trigger] t[k]);
            assert(s[k] == t[k]);
        } else {
            assert(regions_top(s) == region_end(s[s.len() - 1]));
        }
    }
}

fn div_ceil_usize(a: usize, b: usize) -> (r: usize)
    requires
        b > 1,
    ensures
        r == div_ceil(a as int, b as int),
{
    assert(a / b < usize::MAX) by (nonlinear_arith)
        requires
            b > 1,
            a <= usize::MAX,
    ;
    a / b + if a % b != 0 {
        1
    } else {
        0
    }
}

/// Where the frame bitmap of a memory map goes and how much it tracks.
#[derive(Clone, Copy, PartialEq, Eq, Debug, Structural)]
pub struct BootLayout {
    /// Frames tracked: up to the end of the highest usable region.
    pub frames: usize,
    /// Bytes of bitmap, one bit per frame.
    pub bitmap_bytes: usize,
    /// Index of the region whose start holds the bitmap: the first one
    /// long enough.
    pub home: usize,
}

/// Work out the bitmap layout for a memory map: how many frames to
/// track, how large the bitmap is, and which region hosts it.
pub fn boot_layout(usable: &[Region]) -> (r: Result<BootLayout, InitError>)
    requires
        regions_valid(usable@),
    ensures
        r is Ok <==> exists|k: int|
            0 <= k < usable@.len() && #[trigger] usable@[k].length >= boot_bitmap_bytes(usable@),
        r == Err::<BootLayout, InitError>(InitError::NoUsableRegions) <==> usable@.len() == 0,
        r == Err::<BootLayout, InitError>(InitError::NoBitmapHome) <==> usable@.len() > 0 && forall|k: int|
            0 <= k < usable@.len() ==> #[trigger] usable@[k].length < boot_bitmap_bytes(usable@),
        r matches Ok(l) ==> {
            &&& l.frames == boot_frames(usable@)
            &&& l.bitmap_bytes == boot_bitmap_bytes(usable@)
            &&& l.frames * FRAME_SIZE <= usize::MAX + 1
            &&& is_bitmap_home(usable@, l.home as int, l.bitmap_bytes as int)
        },
{
    let ghost s = usable@;
    proof {
        lemma_regions_top(s);
    }
    if usable.len() == 0 {
        return Err(InitError::NoUsableRegions);
    }
    // the highest region end
    let mut top: u64 = 0;
    let mut k: usize = 0;
    while k < usable.len()
        invariant
            s == usable@,
            regions_valid(s),
            k <= s.len(),
            top == regions_top(s.subrange(0, k as int)),
            top <= usize::MAX,
        decreases s.len() - k,
    {
        let end = usable[k].base + usable[k].length;
        proof {
            let p = s.subrange(0, k as int + 1);
            assert(p.drop_last() =~= s.subrange(0, k as int));
            assert(p.last() == s[k as int]);
        }
        if end > top {
            top = end;
        }
        k = k + 1;
    }
    assert(s.subrange(0, s.len() as int) =~= s);
    let frames = div_ceil_usize(top as usize, FRAME_SIZE);
    let bitmap_bytes = div_ceil_usize(frames, 8);
    proof {
        assert(frames * FRAME_SIZE <= usize::MAX + 1) by {
            assert(usize::MAX == 0xffff_ffff || usize::MAX == 0xffff_ffff_ffff_ffff);
        }
    }
    // the bitmap lives in the first region that can hold it
    let mut h: usize = 0;
    while h < usable.len() && (usable[h].length as usize) < bitmap_bytes
        invariant
            s == usable@,
            regions_valid(s),
            h <= s.len(),
            forall|k: int| 0 <= k < h ==> #[trigger] s[k].length < bitmap_bytes,
        decreases s.len() - h,
    {
        h = h + 1;
    }
    if h == usable.len() {
        return Err(InitError::NoBitmapHome);
    }
    Ok(BootLayout { frames, bitmap_bytes, home: h })
}

/// Bitmap allocator state.
pub struct FrameAllocator {
    /// One bit per frame, set = used.
    bitmap: Vec<u8>,
    /// Total frames tracked, bitmap length in bits.
    frames: usize,
    /// Scan hint, one past the index of the last allocation.
    next: usize,
    /// Free frames remaining.
    free: usize,
}

impl FrameAllocator {
    /// Whether frame `i` is marked used in the bitmap.
    pub closed spec fn used(&self, i: int) -> bool {
        bitmap_used(self.bitmap@, i)
    }

    #[verifier::inline]
    spec fn bitmap_fits(&self) -> bool {
        &&& self.frames * FRAME_SIZE <= usize::MAX + 1
        &&& self.bitmap@.len() * 8 >= self.frames
    }

    /// The used-map: entry `i` is true when frame `i` is taken.
    pub closed spec fn view(&self) -> Seq<bool> {
        bitmap_view(self.bitmap@, self.frames as nat)
    }

    /// Number of frames tracked.
    pub closed spec fn frame_count(&self) -> nat {
        self.frames as nat
    }

    /// Where the next single-frame scan starts.
    pub closed spec fn hint(&self) -> nat {
        self.next as nat
    }

    /// Number of frames not in use: the clear entries of the used-map.
    pub open spec fn free_count(&self) -> nat {
        count_free(self@)
    }

    /// The used-map has one entry per tracked frame.
    pub proof fn lemma_view_len(&self)
        ensures
            self@.len() == self.frame_count(),
    {
    }

    /// Bytes of bitmap storage.
    pub closed spec fn bitmap_len(&self) -> nat {
        self.bitmap@.len()
    }

    /// The allocator's invariant: the bitmap covers every frame, every
    /// frame address fits a `usize`, the hint stays in range and the
    /// free counter equals the number of clear bits.
    pub closed spec fn wf(&self) -> bool {
        &&& self.bitmap_fits()
        &&& self.bitmap@.len() == div_ceil(self.frames as int, 8)
        &&& self.next <= self.frames
        &&& self.free == count_free(self.view())
    }

    fn get(&self, i: usize) -> (r: bool)
        requires
            self.bitmap_fits(),
            i < self.frames,
        ensures
            r == self.used(i as int),
    {
        self.bitmap[i / 8] & (1u8 << ((i % 8) as u8)) != 0
    }

    /// Grab a free frame and return its physical address. The scan starts
    /// at the hint and wraps once; the first free frame it meets is taken
    /// and the hint moves just past it. `None` when every frame is used.
    pub fn allocate_frame(&mut self) -> (r: Option<u64>)
        requires
            old(self).wf(),
        ensures
            final(self).wf(),
            final(self).frame_count() == old(self).frame_count(),
            final(self)@.len() == final(self).frame_count(),
            r is None <==> (forall|j: int| 0 <= j < old(self)@.len() ==> old(self)@[j]),
            r is None ==> final(self)@ == old(self)@ && final(self).hint() == old(self).hint()
                && final(self).free_count() == old(self).free_count(),
            r matches Some(addr) ==> allocated(*old(self), *final(self), addr),
    {
        let frames = self.frames;
        let ghost s0 = self@;
        let mut off: usize = 0;
        while off < frames
            invariant
                self.wf(),
                self@ == s0,
                s0 == old(self)@,
                frames == self.frames,
                self.frames == old(self).frames,
                self.next == old(self).next,
                off <= frames,
                forall|k: int| 0 <= k < off ==> #[trigger] s0[(self.next + k) % (frames as int)],
            decreases frames - off,
        {
            let i = (self.next + off) % frames;
            if !self.get(i) {
                assert(!s0[i as int]);
                proof {
                    lemma_count_free_update(self@, i as int, true);
                }
                let ghost old_next = self.next;
                self.set(i);
                self.next = i + 1;
                self.free = self.free - 1;
                proof {
                    assert(first_free_at(old(self)@, old(self).hint() as int, off as int));
                    assert(i == (old(self).hint() + off) % (old(self).frame_count() as int));
                }
                return Some((i * FRAME_SIZE) as u64);
            }
            off = off + 1;
        }
        proof {
            assert forall|j: int| 0 <= j < s0.len() implies s0[j] by {
                let k = lemma_cyclic_cover(self.next as int, frames as int, j);
                assert(s0[(self.next + k) % (frames as int)]);
            }
        }
        None
    }

    /// Return a frame. The address must be frame aligned, in range and
    /// currently allocated: anything else is a bug in the caller.
    pub fn free_frame(&mut self, addr: u64)
        requires
            old(self).wf(),
            addr as int % FRAME_SIZE as int == 0,
            frame_of(addr) < old(self).frame_count(),
            old(self)@[frame_of(addr)],
        ensures
            final(self).wf(),
            final(self)@.len() == final(self).frame_count(),
            freed(*old(self), *final(self), addr),
    {
        assert(addr < self.frames * FRAME_SIZE);
        let i = addr as usize / FRAME_SIZE;
        assert(i == frame_of(addr));
        proof {
            let v0 = self.view();
            assert(v0[i as int]);
            lemma_count_free_update(v0, i as int, false);
            assert(count_free(v0.update(i as int, false)) == count_free(v0) + 1);
        }
        assert(self.free == count_free(self.view()));
        let ghost v1 = self.view();
        self.clear(i);
        assert(self.view() == v1.update(i as int, false));
        assert(count_free(self.view()) == count_free(v1) + 1);
        proof {
            lemma_count_free_bound(self.view());
        }
        self.free = self.free + 1;
        assert(self.bitmap@.len() == div_ceil(self.frames as int, 8));
    }

    /// Grab `count` physically contiguous frames and return the base
    /// address. A forward scan from frame zero takes the lowest run of
    /// `count` free frames; `None` when `count` is zero or no such run
    /// exists.
    pub fn allocate_contiguous(&mut self, count: usize) -> (r: Option<u64>)
        requires
            old(self).wf(),
        ensures
            final(self).wf(),
            final(self).frame_count() == old(self).frame_count(),
            final(self)@.len() == final(self).frame_count(),
            final(self).hint() == old(self).hint(),
            r is Some <==> count > 0 && exists|st: int| run_free(old(self)@, st, count as int),
            r is None ==> final(self)@ == old(self)@ && final(self).free_count() == old(
                self,
            ).free_count(),
            r matches Some(addr) ==> took_run(*old(self), *final(self), addr, count as int),
    {
        let ghost s0 = self@;
        let frames = self.frames;
        let mut run: usize = 0;
        let mut i: usize = 0;
        while i < frames
            invariant
                self.wf(),
                self@ == s0,
                s0 == old(self)@,
                frames == self.frames,
                self.frames == old(self).frames,
                self.next == old(self).next,
                self.free == old(self).free,
                i <= frames,
                run <= i,
                run_free(s0, i - run, run as int),
                i - run == 0 || s0[i - run - 1],
                count == 0 || run < count,
                count > 0 ==> forall|st: int| 0 <= st && st + count <= i ==> !run_free(s0, st, count as int),
            decreases frames - i,
        {
            if self.get(i) {
                assert(s0[i as int]);
                assert forall|st: int| 0 <= st && st + count <= i + 1 && count > 0 implies !run_free(
                    s0,
                    st,
                    count as int,
                ) by {
                    if st + count == i + 1 {
                        assert(s0[i as int]);
                    }
                }
                run = 0;
                i = i + 1;
                continue;
            }
            run = run + 1;
            if run == count {
                let first = i + 1 - count;
                proof {
                    assert(run_free(s0, first as int, count as int));
                }
                let mut j = first;
                while j <= i
                    invariant
                        self.bitmap_fits(),
                        self.bitmap@.len() == div_ceil(self.frames as int, 8),
                        frames == self.frames,
                        self.frames == old(self).frames,
                        self.next == old(self).next,
                        self.free == old(self).free,
                        s0 == old(self)@,
                        first <= j <= i + 1,
                        i < frames,
                        first + count == i + 1,
                        run_free(s0, first as int, count as int),
                        self@ == mark_used(s0, first as int, j - first),
                        count_free(self@) + (j - first) == count_free(s0),
                    decreases i + 1 - j,
                {
                    proof {
                        lemma_count_free_update(self@, j as int, true);
                    }
                    let ghost before = self@;
                    self.set(j);
                    proof {
                        assert(self@ =~= mark_used(s0, first as int, j + 1 - first));
                    }
                    j = j + 1;
                }
                proof {
                    assert(self@ =~= mark_used(s0, first as int, count as int));
                }
                self.free = self.free - count;
                proof {
                    assert forall|st: int| 0 <= st < first implies !run_free(s0, st, count as int) by {
                    }
                }
                return Some((first * FRAME_SIZE) as u64);
            }
            assert forall|st: int| 0 <= st && st + count <= i + 1 && count > 0 implies !run_free(
                s0,
                st,
                count as int,
            ) by {
                if st + count == i + 1 {
                    assert(s0[i - (run - 1) - 1]);
                }
            }
            i = i + 1;
        }
        None
    }

    /// Build the allocator from the usable regions of a memory map.
    ///
    /// Frames are tracked up to the end of the highest region; every
    /// frame starts used, then the frames that a region covers wholly are
    /// freed, and finally the frames under the bitmap, which lives at the
    /// start of the first region long enough to hold it, are taken again.
    pub fn from_regions(usable: &[Region]) -> (r: Result<FrameAllocator, InitError>)
        requires
            regions_valid(usable@),
        ensures
            r is Ok <==> exists|k: int|
                0 <= k < usable@.len() && #[trigger] usable@[k].length >= boot_bitmap_bytes(usable@),
            r == Err::<FrameAllocator, InitError>(InitError::NoUsableRegions) <==> usable@.len()
                == 0,
            r == Err::<FrameAllocator, InitError>(InitError::NoBitmapHome) <==> usable@.len() > 0
                && forall|k: int|
                0 <= k < usable@.len() ==> #[trigger] usable@[k].length < boot_bitmap_bytes(
                    usable@,
                ),
            r matches Ok(a) ==> {
                &&& a.wf()
                &&& a.frame_count() == boot_frames(usable@)
                &&& a@.len() == a.frame_count()
                &&& a.bitmap_len() == boot_bitmap_bytes(usable@)
                &&& a.hint() == 0
                &&& exists|h: int|
                    #[trigger] is_bitmap_home(usable@, h, boot_bitmap_bytes(usable@)) && a@
                        == boot_view(
                        usable@,
                        a.frame_count(),
                        usable@[h],
                        boot_bitmap_bytes(usable@),
                    )
            },
    {
        let ghost s = usable@;
        proof {
            lemma_regions_top(s);
        }
        let layout = match boot_layout(usable) {
            Ok(l) => l,
            Err(e) => {
                return Err(e);
            },
        };
        let frames = layout.frames;
        let bitmap_bytes = layout.bitmap_bytes;
        let home = usable[layout.home];
        assert(is_bitmap_home(s, layout.home as int, bitmap_bytes as int));

        // all used, then free what the regions cover
        let bitmap = vec![0xffu8; bitmap_bytes];
        let mut alloc = FrameAllocator { bitmap, frames, next: 0, free: 0 };
        proof {
            assert forall|j: int| 0 <= j < frames implies #[trigger] alloc@[j] by {
                let b = alloc.bitmap@[j / 8];
                let m = (j % 8) as u8;
                assert(b == 0xffu8);
                assert(0xffu8 & (1u8 << m) != 0) by (bit_vector)
                    requires m < 8;
            }
            lemma_count_free_zero(alloc@);
            assert forall|j: int| 0 <= j < frames implies #[trigger] alloc@[j] == !covered_by_first(s, 0, j) by {
            }
        }
        let mut ri: usize = 0;
        while ri < usable.len()
            invariant
                s == usable@,
                regions_valid(s),
                ri <= s.len(),
                alloc.bitmap_fits(),
                alloc.bitmap@.len() == div_ceil(frames as int, 8),
                alloc.frames == frames,
                alloc.next == 0,
                frames == boot_frames(s),
                alloc.free == count_free(alloc@),
                alloc@.len() == frames,
                forall|k: int| 0 <= k < s.len() ==> region_end(#[trigger] s[k]) <= regions_top(s),
                forall|j: int| 0 <= j < frames ==> #[trigger] alloc@[j] == !covered_by_first(s, ri as int, j),
            decreases s.len() - ri,
        {
            let r = usable[ri];
            let first = div_ceil_usize(r.base as usize, FRAME_SIZE);
            let last = (r.base + r.length) as usize / FRAME_SIZE;
            let mut i = first;
            while i < last
                invariant
                    s == usable@,
                    regions_valid(s),
                    ri < s.len(),
                    r == s[ri as int],
                    first == div_ceil(r.base as int, FRAME_SIZE as int),
                    last == region_end(r) / FRAME_SIZE as int,
                    last <= frames,
                    first <= i,
                    i <= last || i == first,
                    alloc.bitmap_fits(),
                    alloc.bitmap@.len() == div_ceil(frames as int, 8),
                    alloc.frames == frames,
                    alloc.next == 0,
                    alloc.free == count_free(alloc@),
                    alloc@.len() == frames,
                    forall|j: int| 0 <= j < frames ==> #[trigger] alloc@[j] == !(covered_by_first(s, ri as int, j) || first <= j < i),
                decreases last - i,
            {
                proof {
                    if covered_by_first(s, ri as int, i as int) {
                        let k = choose|k: int| 0 <= k < ri && #[trigger] region_covers(s[k], i as int);
                        assert(region_covers(s[ri as int], i as int));
                        assert(false);
                    }
                    lemma_count_free_update(alloc@, i as int, false);
                    lemma_count_free_bound(alloc@.update(i as int, false));
                }
                alloc.clear(i);
                alloc.free = alloc.free + 1;
                i = i + 1;
            }
            proof {
                assert forall|j: int| 0 <= j < frames implies #[trigger] alloc@[j] == !covered_by_first(s, ri + 1, j) by {
                    if first <= j < last {
                        assert(region_covers(s[ri as int], j));
                    }
                    if covered_by_first(s, ri + 1, j) && !covered_by_first(s, ri as int, j) {
                        let k = choose|k: int| 0 <= k < ri + 1 && #[trigger] region_covers(s[k], j);
                        assert(k == ri);
                    }
                }
            }
            ri = ri + 1;
        }

        // the bitmap frames themselves are spoken for
        let hfirst = home.base as usize / FRAME_SIZE;
        let hlast = div_ceil_usize(home.base as usize + bitmap_bytes, FRAME_SIZE);
        let mut i = hfirst;
        while i < hlast
            invariant
                alloc.bitmap_fits(),
                alloc.bitmap@.len() == div_ceil(frames as int, 8),
                alloc.frames == frames,
                alloc.next == 0,
                alloc.free == count_free(alloc@),
                alloc@.len() == frames,
                hlast <= frames,
                hfirst <= i <= hlast,
                forall|j: int| 0 <= j < frames ==> #[trigger] alloc@[j] == (!covered_by_first(s, s.len() as int, j) || hfirst <= j < i),
            decreases hlast - i,
        {
            if !alloc.get(i) {
                proof {
                    lemma_count_free_update(alloc@, i as int, true);
                }
                alloc.set(i);
                alloc.free = alloc.free - 1;
            }
            i = i + 1;
        }
        proof {
            assert(alloc@ =~= boot_view(s, frames as nat, home, bitmap_bytes as int));
        }
        Ok(alloc)
    }

    /// Number of frames tracked.
    pub fn frames(&self) -> (n: usize)
        ensures
            n == self.frame_count(),
    {
        self.frames
    }

    /// Bytes of bitmap storage.
    pub fn bitmap_bytes(&self) -> (n: usize)
        ensures
            n == self.bitmap_len(),
    {
        self.bitmap.len()
    }

    /// Free frames remaining.
    pub fn free_frames(&self) -> (n: usize)
        requires
            self.wf(),
        ensures
            n == self.free_count(),
    {
        self.free
    }

    fn set(&mut self, i: usize)
        requires
            old(self).bitmap_fits(),
            i < old(self).frames,
        ensures
            final(self).bitmap@.len() == old(self).bitmap@.len(),
            final(self).frames == old(self).frames,
            final(self).next == old(self).next,
            final(self).free == old(self).free,
            final(self).view() == old(self).view().update(i as int, true),
    {
        let ghost before = self.view();
        let k: u8 = (i % 8) as u8;
        let b = self.bitmap[i / 8];
        self.bitmap.set(i / 8, b | (1u8 << k));
        proof {
            assert forall|j: int| 0 <= j < self.frames implies #[trigger] self.view()[j] == (
            if j == i { true } else { before[j] }) by {
                if j / 8 == i / 8 {
                    lemma_bit_or(b, k, (j % 8) as u8);
                }
            }
            assert(self.view() =~= before.update(i as int, true));
        }
    }

    fn clear(&mut self, i: usize)
        requires
            old(self).bitmap_fits(),
            i < old(self).frames,
        ensures
            final(self).bitmap@.len() == old(self).bitmap@.len(),
            final(self).frames == old(self).frames,
            final(self).next == old(self).next,
            final(self).free == old(self).free,
            final(self).view() == old(self).view().update(i as int, false),
    {
        let ghost before = self.view();
        let k: u8 = (i % 8) as u8;
        let b = self.bitmap[i / 8];
        self.bitmap.set(i / 8, b & !(1u8 << k));
        proof {
            assert forall|j: int| 0 <= j < self.frames implies #[trigger] self.view()[j] == (
            if j == i { false } else { before[j] }) by {
                if j / 8 == i / 8 {
                    lemma_bit_and_not(b, k, (j % 8) as u8);
                }
            }
            assert(self.view() =~= before.update(i as int, false));
        }
    }
}

} // verus!

verus! {

/// `b` is `a` after `allocate_frame` handed out `addr`: the cyclic scan
/// from the hint met its first free frame there, that frame is now used,
/// the hint moved just past it and one frame fewer is free.
pub open spec fn allocated(a: FrameAllocator, b: FrameAllocator, addr: u64) -> bool {
    &&& b.frame_count() == a.frame_count()
    &&& exists|off: int|
        {
            let i = (a.hint() + off) % (a.frame_count() as int);
            &&& #[trigger] first_free_at(a@, a.hint() as int, off)
            &&& addr == i * FRAME_SIZE
            &&& b@ == a@.update(i, true)
            &&& b.hint() == i + 1
            &&& b.free_count() + 1 == a.free_count()
        }
}

/// `b` is `a` after `free_frame(addr)`: that frame is free again, one
/// more frame is free, nothing else moved.
pub open spec fn freed(a: FrameAllocator, b: FrameAllocator, addr: u64) -> bool {
    &&& frame_of(addr) < a.frame_count()
    &&& b.frame_count() == a.frame_count()
    &&& b.hint() == a.hint()
    &&& b@ == a@.update(frame_of(addr), false)
    &&& b.free_count() == a.free_count() + 1
}

/// `b` is `a` after `allocate_contiguous(count)` handed out `addr`: the
/// lowest run of `count` free frames starts there and is now used.
pub open spec fn took_run(a: FrameAllocator, b: FrameAllocator, addr: u64, count: int) -> bool {
    &&& b.frame_count() == a.frame_count()
    &&& b.hint() == a.hint()
    &&& addr as int % FRAME_SIZE as int == 0
    &&& run_free(a@, frame_of(addr), count)
    &&& forall|st: int| 0 <= st < frame_of(addr) ==> !run_free(a@, st, count)
    &&& b@ == mark_used(a@, frame_of(addr), count)
    &&& b.free_count() + count == a.free_count()
}

/// What a single-frame allocation hands out: a frame-aligned address of
/// a tracked frame that was free and is now used; every other frame
/// keeps its state.
pub proof fn lemma_allocated_frame(a: FrameAllocator, b: FrameAllocator, addr: u64)
    requires
        allocated(a, b, addr),
    ensures
        addr as int % FRAME_SIZE as int == 0,
        0 <= frame_of(addr) < a.frame_count(),
        !a@[frame_of(addr)],
        b@[frame_of(addr)],
        b@ == a@.update(frame_of(addr), true),
        b@.len() == b.frame_count(),
{
    a.lemma_view_len();
    b.lemma_view_len();
    let off = choose|off: int|
        {
            let i = (a.hint() + off) % (a.frame_count() as int);
            &&& #[trigger] first_free_at(a@, a.hint() as int, off)
            &&& addr == i * FRAME_SIZE
            &&& b@ == a@.update(i, true)
            &&& b.hint() == i + 1
            &&& b.free_count() + 1 == a.free_count()
        };
    let i = (a.hint() + off) % (a.frame_count() as int);
    assert(0 <= i < a.frame_count()) by {
        vstd::arithmetic::div_mod::lemma_mod_bound(a.hint() + off, a.frame_count() as int);
    }
    assert(addr as int % 4096 == 0 && addr as int / 4096 == i) by (nonlinear_arith)
        requires addr == i * 4096, i >= 0;
}

/// A frame in use is never handed out by `allocate_frame`, and stays in
/// use across it.
pub proof fn lemma_allocation_avoids_used(a: FrameAllocator, b: FrameAllocator, addr: u64, f: u64)
    requires
        allocated(a, b, addr),
        frame_of(f) < a.frame_count(),
        a@[frame_of(f)],
    ensures
        addr != f,
        b@[frame_of(f)],
{
    lemma_allocated_frame(a, b, addr);
}

/// A frame in use is never inside a run that `allocate_contiguous`
/// hands out, and stays in use across it.
pub proof fn lemma_run_avoids_used(a: FrameAllocator, b: FrameAllocator, addr: u64, count: int, f: u64)
    requires
        took_run(a, b, addr, count),
        frame_of(f) < a.frame_count(),
        a@[frame_of(f)],
    ensures
        !(frame_of(addr) <= frame_of(f) < frame_of(addr) + count),
        b@[frame_of(f)],
{
    a.lemma_view_len();
}

/// Freeing one frame leaves every other frame in use.
pub proof fn lemma_free_keeps_others(a: FrameAllocator, b: FrameAllocator, addr: u64, f: u64)
    requires
        freed(a, b, addr),
        frame_of(f) < a.frame_count(),
        frame_of(f) != frame_of(addr),
        a@[frame_of(f)],
    ensures
        b@[frame_of(f)],
{
    a.lemma_view_len();
}

/// Two single-frame allocations in a row hand out distinct, frame
/// aligned addresses.
pub proof fn lemma_successive_allocations_distinct(
    a0: FrameAllocator,
    a1: FrameAllocator,
    a2: FrameAllocator,
    f1: u64,
    f2: u64,
)
    requires
        allocated(a0, a1, f1),
        allocated(a1, a2, f2),
    ensures
        f1 != f2,
        f1 as int % FRAME_SIZE as int == 0,
        f2 as int % FRAME_SIZE as int == 0,
{
    lemma_allocated_frame(a0, a1, f1);
    lemma_allocated_frame(a1, a2, f2);
    lemma_allocation_avoids_used(a1, a2, f2, f1);
}

/// Allocating a frame and freeing it again gives back the used-map and
/// the free count from before.
pub proof fn lemma_allocate_then_free(a: FrameAllocator, b: FrameAllocator, c: FrameAllocator, addr: u64)
    requires
        allocated(a, b, addr),
        freed(b, c, addr),
    ensures
        c@ == a@,
        c.free_count() == a.free_count(),
        c.frame_count() == a.frame_count(),
{
    lemma_allocated_frame(a, b, addr);
    lemma_free_undoes_allocate(a@, frame_of(addr));
}

/// Two single-frame allocations in a row hand out distinct frames: the
/// second scan, over the map the first one left, never meets the frame
/// the first one took.
pub proof fn lemma_allocations_distinct(s: Seq<bool>, start1: int, off1: int, start2: int, off2: int)
    requires
        first_free_at(s, start1, off1),
        first_free_at(
            s.update((start1 + off1) % (s.len() as int), true),
            start2,
            off2,
        ),
    ensures
        (start1 + off1) % (s.len() as int) != (start2 + off2) % (s.len() as int),
{
    let i = (start1 + off1) % (s.len() as int);
    let t = s.update(i, true);
    assert(0 <= i < s.len()) by {
        vstd::arithmetic::div_mod::lemma_mod_bound(start1 + off1, s.len() as int);
    }
    assert(t[i]);
}

/// Taking two free frames and giving both back leaves the used-map and
/// the free count as they were.
pub proof fn lemma_free_count_balances(s: Seq<bool>, i: int, j: int)
    requires
        0 <= i < s.len(),
        0 <= j < s.len(),
        i != j,
        !s[i],
        !s[j],
    ensures
        s.update(i, true).update(j, true).update(i, false).update(j, false) == s,
        count_free(s.update(i, true).update(j, true)) + 2 == count_free(s),
{
    let a = s.update(i, true);
    let b = a.update(j, true);
    lemma_count_free_update(s, i, true);
    lemma_count_free_update(a, j, true);
    assert(b.update(i, false).update(j, false) =~= s);
}

/// Freeing a frame undoes its allocation: the used-map and the free
/// count come back to what they were.
pub proof fn lemma_free_undoes_allocate(s: Seq<bool>, i: int)
    requires
        0 <= i < s.len(),
        !s[i],
    ensures
        s.update(i, true).update(i, false) == s,
        count_free(s.update(i, true)) + 1 == count_free(s),
{
    lemma_count_free_update(s, i, true);
    assert(s.update(i, true).update(i, false) =~= s);
}

/// A contiguous allocation takes exactly `count` free frames.
pub proof fn lemma_contiguous_takes_count(s: Seq<bool>, start: int, count: int)
    requires
        count >= 0,
        run_free(s, start, count),
    ensures
        count_free(mark_used(s, start, count)) + count == count_free(s),
    decreases count,
{
    if count > 0 {
        let t = mark_used(s, start, count - 1);
        lemma_contiguous_takes_count(s, start, count - 1);
        assert(!t[start + count - 1]);
        lemma_count_free_update(t, start + count - 1, true);
        assert(t.update(start + count - 1, true) =~= mark_used(s, start, count));
    } else {
        assert(mark_used(s, start, 0) =~= s);
    }
}

} // verus!
