//! A generic bump allocator over regions of 4 KiB frames.
//!
//! A fixed set of regions is available before any heap exists; further
//! regions go to a growable list once the heap is up.
use vstd::prelude::*;

verus! {

/// Errors reported by the frame allocator.
#[derive(Debug, Clone, Copy, PartialEq, Eq, Structural)]
pub enum DynamicFrameAllocatorError {
    /// No further frames available to allocate.
    OutOfFrames,
    /// Address or address range is invalid.
    OutOfRange,
    /// Address or size is not page-aligned.
    InvalidAlignment,
}

/// Size of one frame in bytes.
pub const FRAME_SIZE: u64 = 0x1000;

/// log2 of [`FRAME_SIZE`].
pub const FRAME_SHIFT: u32 = 12;

/// Mask of the offset bits within a frame.
pub const FRAME_MASK: u64 = 0xFFF;

/// Number of regions that are tracked without a heap.
pub const MAX_FIXED_REGIONS: usize = 4;

/// A value is frame aligned when it is a multiple of the frame size.
pub open spec fn is_frame_aligned(val: u64) -> bool {
    val % 0x1000 == 0
}

/// The smallest multiple of the frame size that is not below `val`.
pub open spec fn frame_round_up(val: u64) -> int {
    if val % 0x1000 == 0 {
        val as int
    } else {
        val - val % 0x1000 + 0x1000
    }
}

/// Byte offset of frame number `n`, as a 64-bit shift computes it (high bits are lost).
pub open spec fn frame_offset(n: u64) -> u64 {
    n << 12u32
}

proof fn lemma_frame_offset_exact(n: u64)
    requires
        n < 0x10_0000_0000_0000,
    ensures
        frame_offset(n) == n * 0x1000,
{
    assert(n < 0x10_0000_0000_0000u64 ==> (n << 12u32) == n * 0x1000) by (bit_vector);
}

/// Law: rounding up to a frame boundary gives the least multiple of the
/// frame size that is not below the value.
pub proof fn lemma_frame_round_up_least(val: u64)
    ensures
        frame_round_up(val) % 0x1000 == 0,
        val <= frame_round_up(val) < val + 0x1000,
        forall|m: int| #![trigger m % 0x1000] val <= m && m % 0x1000 == 0 ==> frame_round_up(val) <= m,
{
    assert forall|m: int| #![trigger m % 0x1000] val <= m && m % 0x1000 == 0 implies frame_round_up(val) <= m by {
        let v = val as int;
        assert(v <= m && m % 0x1000 == 0 && v % 0x1000 != 0 ==> v - v % 0x1000 + 0x1000 <= m) by (nonlinear_arith);
    }
}

/// Checks that `val` is frame aligned.
pub fn align_check(val: u64) -> (r: Result<(), DynamicFrameAllocatorError>)
    ensures
        is_frame_aligned(val) <==> r is Ok,
        r matches Err(e) ==> e == DynamicFrameAllocatorError::InvalidAlignment,
{
    assert((val & 0xFFFu64) == 0 <==> val % 0x1000 == 0) by (bit_vector);
    if (val & (FRAME_SIZE - 1)) != 0 {
        Err(DynamicFrameAllocatorError::InvalidAlignment)
    } else {
        Ok(())
    }
}

/// Rounds `val` up to the next frame boundary.
pub fn align_up(val: u64) -> (r: Result<u64, DynamicFrameAllocatorError>)
    ensures
        frame_round_up(val) <= u64::MAX ==> r == Ok::<u64, DynamicFrameAllocatorError>(
            frame_round_up(val) as u64,
        ),
        frame_round_up(val) > u64::MAX ==> r == Err::<u64, DynamicFrameAllocatorError>(
            DynamicFrameAllocatorError::OutOfRange,
        ),
{
    assert((val & 0xFFFu64) == 0 <==> val % 0x1000 == 0) by (bit_vector);
    assert((val | 0xFFFu64) == val - val % 0x1000 + 0xFFF) by (bit_vector);
    if val & FRAME_MASK == 0 {
        Ok(val)
    } else {
        match (val | FRAME_MASK).checked_add(1) {
            Some(v) => Ok(v),
            None => Err(DynamicFrameAllocatorError::OutOfRange),
        }
    }
}

/// A region of frames and the bump pointer of its allocations.
#[derive(Debug, Clone, Copy, PartialEq, Eq, Structural)]
pub struct FrameRegion {
    /// Address of the first frame.
    pub start_frame_address: u64,
    /// Number of frames in the region.
    pub count: u64,
    /// Number of frames handed out so far.
    pub next: u64,
}

impl FrameRegion {
    /// The region lies below 2^64 and has not handed out more frames than it holds.
    pub open spec fn valid(self) -> bool {
        &&& self.next <= self.count
        &&& self.start_frame_address + self.count * 0x1000 <= u64::MAX
    }

    /// Frames of the region that are still free.
    pub open spec fn spec_free(self) -> int {
        self.count - self.next
    }

    /// Whether `n` frames can come from this region.
    pub open spec fn fits(self, n: u64) -> bool {
        self.spec_free() >= n
    }

    /// Address that the next allocation of this region hands out.
    pub open spec fn next_address(self) -> int {
        self.start_frame_address + frame_offset(self.next)
    }

    /// The region after `n` more frames were handed out.
    pub open spec fn advanced(self, n: u64) -> FrameRegion {
        FrameRegion { next: (self.next + n) as u64, ..self }
    }

    /// An empty region.
    pub fn empty() -> (r: Self)
        ensures
            r == (FrameRegion { start_frame_address: 0, count: 0, next: 0 }),
            r.valid(),
    {
        FrameRegion { start_frame_address: 0, count: 0, next: 0 }
    }

    /// A region of `count` frames at `base`; the range must lie below 2^64.
    pub fn new_from_base_and_count(base: u64, count: u64) -> (r: Result<Self, DynamicFrameAllocatorError>)
        ensures
            !is_frame_aligned(base) ==> r == Err::<Self, DynamicFrameAllocatorError>(
                DynamicFrameAllocatorError::InvalidAlignment,
            ),
            is_frame_aligned(base) && base + count * 0x1000 > u64::MAX ==> r == Err::<
                Self,
                DynamicFrameAllocatorError,
            >(DynamicFrameAllocatorError::OutOfRange),
            is_frame_aligned(base) && base + count * 0x1000 <= u64::MAX ==> r == Ok::<
                Self,
                DynamicFrameAllocatorError,
            >(FrameRegion { start_frame_address: base, count: count, next: 0 }),
            r matches Ok(fr) ==> fr.valid(),
    {
        let c = align_check(base);
        if c.is_err() {
            return Err(DynamicFrameAllocatorError::InvalidAlignment);
        }
        let room = u64::MAX - base;
        let most = room / 0x1000;
        proof {
            let rem = room % 0x1000;
            assert(room == most * 0x1000 + rem && rem < 0x1000);
            assert(count > most <==> count * 0x1000 > room) by (nonlinear_arith)
                requires
                    room == most * 0x1000 + rem,
                    0 <= rem < 0x1000,
            ;
        }
        if count > most {
            return Err(DynamicFrameAllocatorError::OutOfRange);
        }
        Ok(FrameRegion { start_frame_address: base, count: count, next: 0 })
    }

    /// A region of `size` bytes at `base`.
    pub fn new_from_base_and_size(base: u64, size: u64) -> (r: Result<Self, DynamicFrameAllocatorError>)
        ensures
            !is_frame_aligned(size) || !is_frame_aligned(base) ==> r == Err::<
                Self,
                DynamicFrameAllocatorError,
            >(DynamicFrameAllocatorError::InvalidAlignment),
            is_frame_aligned(size) && is_frame_aligned(base) && base + size > u64::MAX ==> r
                == Err::<Self, DynamicFrameAllocatorError>(DynamicFrameAllocatorError::OutOfRange),
            is_frame_aligned(size) && is_frame_aligned(base) && base + size <= u64::MAX ==> r
                == Ok::<Self, DynamicFrameAllocatorError>(
                FrameRegion { start_frame_address: base, count: size / 0x1000, next: 0 },
            ),
            r matches Ok(fr) ==> fr.valid(),
    {
        let c = align_check(size);
        if c.is_err() {
            return Err(DynamicFrameAllocatorError::InvalidAlignment);
        }
        let count = size >> FRAME_SHIFT;
        assert(size % 0x1000 == 0 ==> (size >> 12u32) == size / 0x1000 && size / 0x1000
            < 0x10_0000_0000_0000u64) by (bit_vector);
        assert(count * 0x1000 == size) by (nonlinear_arith)
            requires
                size % 0x1000 == 0,
                count == size / 0x1000,
        ;
        Self::new_from_base_and_count(base, count)
    }

    /// Hands out `count` frames from the front of the free part of the region.
    pub fn allocate_frames(&mut self, count: u64) -> (r: Result<u64, DynamicFrameAllocatorError>)
        requires
            old(self).next <= old(self).count,
            old(self).next_address() <= u64::MAX,
        ensures
            !old(self).fits(count) ==> r == Err::<u64, DynamicFrameAllocatorError>(
                DynamicFrameAllocatorError::OutOfFrames,
            ) && *final(self) == *old(self),
            old(self).fits(count) ==> r == Ok::<u64, DynamicFrameAllocatorError>(
                old(self).next_address() as u64,
            ) && *final(self) == old(self).advanced(count),
    {
        if count > (self.count - self.next) {
            return Err(DynamicFrameAllocatorError::OutOfFrames);
        }
        let alloc = self.start_frame_address + (self.next << FRAME_SHIFT);
        self.next = self.next + count;
        Ok(alloc)
    }

    /// Number of frames that are still free.
    pub fn free_frames(&self) -> (r: u64)
        requires
            self.next <= self.count,
        ensures
            r == self.spec_free(),
    {
        self.count - self.next
    }
}

/// Law: two successive allocations from one valid region hand out disjoint
/// frame ranges, the second right behind the first.
pub proof fn lemma_region_allocations_disjoint(r: FrameRegion, c1: u64, c2: u64)
    requires
        r.valid(),
        r.fits(c1),
        r.advanced(c1).fits(c2),
    ensures
        r.advanced(c1).valid(),
        r.next_address() + c1 * 0x1000 == r.advanced(c1).next_address(),
        r.advanced(c1).next_address() + c2 * 0x1000 <= r.start_frame_address + r.count * 0x1000,
        r.start_frame_address <= r.next_address(),
{
    lemma_frame_offset_exact(r.next);
    lemma_frame_offset_exact((r.next + c1) as u64);
    assert(r.next * 0x1000 + c1 * 0x1000 == (r.next + c1) * 0x1000) by (nonlinear_arith);
    assert((r.next + c1) * 0x1000 + c2 * 0x1000 <= r.count * 0x1000) by (nonlinear_arith)
        requires
            r.next + c1 + c2 <= r.count,
    ;
}

/// The region after allocations of the counts in `cs`, in order.
pub open spec fn allocated_after(r: FrameRegion, cs: Seq<u64>) -> FrameRegion
    decreases cs.len(),
{
    if cs.len() == 0 {
        r
    } else {
        allocated_after(r, cs.drop_last()).advanced(cs.last())
    }
}

/// Each allocation of the counts in `cs`, in order, fits in the region left by the ones before.
pub open spec fn all_fit(r: FrameRegion, cs: Seq<u64>) -> bool {
    forall|j: int| 0 <= j < cs.len() ==> #[trigger] allocated_after(r, cs.take(j)).fits(cs[j])
}

/// The number of frames the counts in `cs` add up to.
pub open spec fn frames_of(cs: Seq<u64>) -> int
    decreases cs.len(),
{
    if cs.len() == 0 {
        0
    } else {
        frames_of(cs.drop_last()) + cs.last()
    }
}

proof fn lemma_allocated_after(r: FrameRegion, cs: Seq<u64>, j: int)
    requires
        r.valid(),
        all_fit(r, cs),
        0 <= j <= cs.len(),
    ensures
        allocated_after(r, cs.take(j)) == (FrameRegion { next: (r.next + frames_of(cs.take(j))) as u64, ..r }),
        r.next + frames_of(cs.take(j)) <= r.count,
        frames_of(cs.take(j)) >= 0,
    decreases j,
{
    if j > 0 {
        lemma_allocated_after(r, cs, j - 1);
        assert(cs.take(j).drop_last() =~= cs.take(j - 1));
        assert(allocated_after(r, cs.take(j - 1)).fits(cs[j - 1]));
    } else {
        assert(cs.take(0) =~= Seq::<u64>::empty());
    }
}

proof fn lemma_frames_grow(cs: Seq<u64>, j: int, k: int)
    requires
        0 <= j < k <= cs.len(),
    ensures
        frames_of(cs.take(k)) >= frames_of(cs.take(j)) + cs[j],
    decreases k,
{
    assert(cs.take(k).drop_last() =~= cs.take(k - 1));
    if k - 1 > j {
        lemma_frames_grow(cs, j, k - 1);
    } else {
        assert(cs.take(k).last() == cs[j]);
    }
}

/// Law: allocations from one valid region, one after the other, each hand
/// out frames of the region, and every allocation ends at or before the
/// start of every later one, so no two of them overlap.
pub proof fn lemma_region_allocations_all_disjoint(r: FrameRegion, cs: Seq<u64>, j: int, k: int)
    requires
        r.valid(),
        all_fit(r, cs),
        0 <= j < k < cs.len(),
    ensures
        r.start_frame_address <= allocated_after(r, cs.take(j)).next_address(),
        allocated_after(r, cs.take(j)).next_address() + cs[j] * 0x1000 <= allocated_after(r, cs.take(k)).next_address(),
        allocated_after(r, cs.take(k)).next_address() + cs[k] * 0x1000 <= r.start_frame_address + r.count * 0x1000,
{
    lemma_allocated_after(r, cs, j);
    lemma_allocated_after(r, cs, k);
    lemma_frames_grow(cs, j, k);
    let nj = (r.next + frames_of(cs.take(j))) as u64;
    let nk = (r.next + frames_of(cs.take(k))) as u64;
    assert(r.count * 0x1000 <= u64::MAX);
    assert(r.count < 0x10_0000_0000_0000) by (nonlinear_arith)
        requires
            r.count * 0x1000 <= u64::MAX,
    ;
    lemma_frame_offset_exact(nj);
    lemma_frame_offset_exact(nk);
    assert(allocated_after(r, cs.take(k)).fits(cs[k]));
    assert(nj * 0x1000 + cs[j] * 0x1000 <= nk * 0x1000) by (nonlinear_arith)
        requires
            nj + cs[j] <= nk,
    ;
    assert(nk * 0x1000 + cs[k] * 0x1000 <= r.count * 0x1000) by (nonlinear_arith)
        requires
            nk + cs[k] <= r.count,
    ;
}

/// Tracks allocations in regions of physical memory.
#[derive(Debug)]
pub struct DynamicFrameAllocator {
    /// Regions that are tracked without a heap.
    pub fixed_regions: [FrameRegion; MAX_FIXED_REGIONS],
    /// Regions added after the fixed ones were used up.
    pub dyn_regions: Option<Vec<FrameRegion>>,
    /// Number of regions added so far.
    pub region_count: usize,
}

/// The first region of `s` that can hand out `n` frames is at index `i`.
pub open spec fn is_first_fit(s: Seq<FrameRegion>, n: u64, i: int) -> bool {
    &&& 0 <= i < s.len()
    &&& s[i].fits(n)
    &&& forall|j: int| 0 <= j < i ==> !(#[trigger] s[j]).fits(n)
}

impl DynamicFrameAllocator {
    /// The growable regions, as a sequence.
    pub open spec fn dyn_seq(&self) -> Seq<FrameRegion> {
        match &self.dyn_regions {
            Some(v) => v@,
            None => Seq::empty(),
        }
    }

    /// All regions in the order in which allocation searches them.
    pub open spec fn regions(&self) -> Seq<FrameRegion> {
        self.fixed_regions@ + self.dyn_seq()
    }

    /// The regions that were added, in the order they were added.
    pub open spec fn added_regions(&self) -> Seq<FrameRegion> {
        self.regions().subrange(0, self.region_count as int)
    }

    /// Well-formedness: every region is valid, the growable list is used
    /// exactly for the regions past the fixed ones, and fixed slots that were
    /// never filled are empty.
    pub open spec fn wf(&self) -> bool {
        &&& forall|i: int| 0 <= i < self.regions().len() ==> (#[trigger] self.regions()[i]).valid()
        &&& self.region_count <= MAX_FIXED_REGIONS ==> self.dyn_regions is None
        &&& self.region_count > MAX_FIXED_REGIONS ==> self.dyn_regions is Some
            && self.dyn_seq().len() == self.region_count - MAX_FIXED_REGIONS
        &&& forall|i: int|
            self.region_count <= i < MAX_FIXED_REGIONS ==> self.fixed_regions[i] == (FrameRegion {
                start_frame_address: 0,
                count: 0,
                next: 0,
            })
    }

    /// Two allocators hold the same regions in the same places.
    pub open spec fn same_state(&self, other: &Self) -> bool {
        &&& self.regions() == other.regions()
        &&& self.fixed_regions == other.fixed_regions
        &&& self.region_count == other.region_count
        &&& (self.dyn_regions is Some <==> other.dyn_regions is Some)
    }

    /// An allocator with no regions.
    pub fn empty() -> (r: Self)
        ensures
            r.wf(),
            r.region_count == 0,
            r.dyn_regions is None,
            forall|i: int|
                0 <= i < MAX_FIXED_REGIONS ==> r.fixed_regions[i] == (FrameRegion {
                    start_frame_address: 0,
                    count: 0,
                    next: 0,
                }),
            r.added_regions() == Seq::<FrameRegion>::empty(),
    {
        let r = DynamicFrameAllocator {
            fixed_regions: [FrameRegion::empty(), FrameRegion::empty(), FrameRegion::empty(), FrameRegion::empty()],
            dyn_regions: None,
            region_count: 0,
        };
        assert(r.regions() =~= r.fixed_regions@);
        r
    }

    /// Adds a region of `size` bytes at `base` to the regions this allocator manages.
    pub fn add_physical_region(&mut self, base: u64, size: u64) -> (r: Result<(), DynamicFrameAllocatorError>)
        requires
            old(self).wf(),
            old(self).region_count < usize::MAX,
        ensures
            final(self).wf(),
            !is_frame_aligned(size) || !is_frame_aligned(base) ==> r == Err::<(), DynamicFrameAllocatorError>(
                DynamicFrameAllocatorError::InvalidAlignment,
            ),
            is_frame_aligned(size) && is_frame_aligned(base) && base + size > u64::MAX ==> r == Err::<
                (),
                DynamicFrameAllocatorError,
            >(DynamicFrameAllocatorError::OutOfRange),
            r is Err ==> *final(self) == *old(self),
            r is Ok <==> is_frame_aligned(size) && is_frame_aligned(base) && base + size <= u64::MAX,
            r is Ok ==> final(self).region_count == old(self).region_count + 1
                && final(self).added_regions() == old(self).added_regions().push(
                FrameRegion { start_frame_address: base, count: size / 0x1000, next: 0 },
            ) && final(self).regions() == (if old(self).region_count < MAX_FIXED_REGIONS {
                old(self).regions().update(
                    old(self).region_count as int,
                    FrameRegion { start_frame_address: base, count: size / 0x1000, next: 0 },
                )
            } else {
                old(self).regions().push(FrameRegion { start_frame_address: base, count: size / 0x1000, next: 0 })
            }),
    {
        let fr = match FrameRegion::new_from_base_and_size(base, size) {
            Ok(fr) => fr,
            Err(e) => return Err(e),
        };
        let ghost old_regions = self.regions();
        if self.region_count < MAX_FIXED_REGIONS {
            let idx = self.region_count;
            self.fixed_regions[idx] = fr;
            self.region_count = self.region_count + 1;
            assert(self.regions() =~= old_regions.update(idx as int, fr));
            assert(self.added_regions() =~= old_regions.subrange(0, idx as int).push(fr));
        } else {
            let mut v = match self.dyn_regions.take() {
                Some(v) => v,
                None => Vec::new(),
            };
            v.push(fr);
            self.dyn_regions = Some(v);
            self.region_count = self.region_count + 1;
            assert(self.regions() =~= old_regions.push(fr));
            assert(self.added_regions() =~= old_regions.subrange(0, old(self).region_count as int).push(fr));
        }
        Ok(())
    }

    /// Hands out `count` frames from the first region that has that many free,
    /// and returns their address.
    pub fn allocate_frames_from_count(&mut self, count: u64) -> (r: Result<u64, DynamicFrameAllocatorError>)
        requires
            old(self).wf(),
        ensures
            final(self).wf(),
            final(self).region_count == old(self).region_count,
            r matches Ok(addr) ==> exists|i: int|
                is_first_fit(old(self).regions(), count, i) && addr == old(self).regions()[i].next_address()
                    && final(self).regions() == old(self).regions().update(
                    i,
                    old(self).regions()[i].advanced(count),
                ),
            r matches Err(e) ==> e == DynamicFrameAllocatorError::OutOfFrames && final(self).same_state(old(self))
                && forall|i: int|
                0 <= i < old(self).regions().len() ==> !(#[trigger] old(self).regions()[i]).fits(count),
    {
        let ghost old_regions = self.regions();
        let mut i: usize = 0;
        while i < MAX_FIXED_REGIONS
            invariant
                0 <= i <= MAX_FIXED_REGIONS,
                *self == *old(self),
                old(self).wf(),
                old_regions == old(self).regions(),
                forall|j: int| 0 <= j < i ==> !(#[trigger] old_regions[j]).fits(count),
            decreases MAX_FIXED_REGIONS - i,
        {
            let mut region = self.fixed_regions[i];
            assert(old_regions[i as int] == region);
            if region.free_frames() >= count {
                proof {
                    lemma_frame_offset_exact(region.next);
                }
                let res = region.allocate_frames(count);
                self.fixed_regions[i] = region;
                proof {
                    assert(is_first_fit(old_regions, count, i as int));
                    assert(self.regions() =~= old_regions.update(i as int, old_regions[i as int].advanced(count)));
                    assert forall|j: int| 0 <= j < self.regions().len() implies (
                    #[trigger] self.regions()[j]).valid() by {
                        if j != i {
                            assert(self.regions()[j] == old_regions[j]);
                        }
                    }
                }
                return res;
            }
            i = i + 1;
        }
        if let Some(mut v) = self.dyn_regions.take() {
            let mut k: usize = 0;
            while k < v.len()
                invariant
                    0 <= k <= v.len(),
                    v@ == old(self).dyn_seq(),
                    old(self).dyn_regions is Some,
                    self.dyn_regions is None,
                    self.fixed_regions == old(self).fixed_regions,
                    self.region_count == old(self).region_count,
                    old_regions == old(self).regions(),
                    old(self).wf(),
                    old_regions.len() == MAX_FIXED_REGIONS + v@.len(),
                    forall|j: int| 0 <= j < MAX_FIXED_REGIONS + k ==> !(#[trigger] old_regions[j]).fits(count),
                decreases v.len() - k,
            {
                let mut region = v[k];
                assert(old_regions[MAX_FIXED_REGIONS + k] == region);
                if region.free_frames() >= count {
                    proof {
                        lemma_frame_offset_exact(region.next);
                    }
                    let res = region.allocate_frames(count);
                    v.set(k, region);
                    self.dyn_regions = Some(v);
                    proof {
                        let i = MAX_FIXED_REGIONS + k;
                        assert(is_first_fit(old_regions, count, i as int));
                        assert(self.regions() =~= old_regions.update(i as int, old_regions[i as int].advanced(count)));
                        assert forall|j: int| 0 <= j < self.regions().len() implies (
                        #[trigger] self.regions()[j]).valid() by {
                            if j != i {
                                assert(self.regions()[j] == old_regions[j]);
                            }
                        }
                    }
                    return res;
                }
                k = k + 1;
            }
            self.dyn_regions = Some(v);
        }
        assert(self.regions() =~= old_regions);
        Err(DynamicFrameAllocatorError::OutOfFrames)
    }

    /// Hands out enough frames for `size` bytes (rounded up to whole frames)
    /// from the first region that has them; returns the address and the rounded size.
    pub fn allocate_frames_from_size(&mut self, size: u64) -> (r: Result<(u64, u64), DynamicFrameAllocatorError>)
        requires
            old(self).wf(),
        ensures
            final(self).wf(),
            frame_round_up(size) > u64::MAX ==> r == Err::<(u64, u64), DynamicFrameAllocatorError>(
                DynamicFrameAllocatorError::OutOfRange,
            ) && final(self).same_state(old(self)),
            r matches Ok((addr, sz)) ==> sz == frame_round_up(size) && exists|i: int|
                is_first_fit(old(self).regions(), (sz / 0x1000) as u64, i) && addr
                    == old(self).regions()[i].next_address() && final(self).regions()
                    == old(self).regions().update(i, old(self).regions()[i].advanced((sz / 0x1000) as u64)),
            frame_round_up(size) <= u64::MAX ==> (r matches Err(e) ==> e == DynamicFrameAllocatorError::OutOfFrames
                && final(self).same_state(old(self)) && forall|i: int|
                0 <= i < old(self).regions().len() ==> !(#[trigger] old(self).regions()[i]).fits(
                    (frame_round_up(size) / 0x1000) as u64,
                )),
    {
        let size = match align_up(size) {
            Ok(s) => s,
            Err(e) => return Err(e),
        };
        assert(size % 0x1000 == 0 ==> (size >> 12u32) == size / 0x1000) by (bit_vector);
        let addr = match self.allocate_frames_from_count(size >> FRAME_SHIFT) {
            Ok(a) => a,
            Err(e) => return Err(e),
        };
        Ok((addr, size))
    }
}

} // verus!
