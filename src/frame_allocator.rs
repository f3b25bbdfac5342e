use vstd::prelude::*;

use vstd::arithmetic::div_mod::lemma_mod_multiples_vanish;

use crate::{align_down, page_floor, PAGE_SIZE};

verus! {

/// What a region of physical memory may be used for.
#[derive(Clone, Copy, Debug, PartialEq, Eq, Structural)]
pub enum MemoryRegionKind {
    /// Free for frame allocation.
    Usable,
    /// Reserved, or in use by the boot loader or firmware.
    Other,
}

/// A region of physical memory, `[start, end)`.
#[derive(Clone, Copy, Debug, PartialEq, Eq, Structural)]
pub struct MemoryRegion {
    pub start: u64,
    pub end: u64,
    pub kind: MemoryRegionKind,
}

/// Number of frame addresses that stepping through `[r.start, r.end)` by 4096 visits.
pub open spec fn region_frame_count(r: MemoryRegion) -> nat {
    if r.start < r.end {
        ((r.end - r.start - 1) / 4096 + 1) as nat
    } else {
        0
    }
}

/// The frames of one region: the frame holding `start`, `start + 4096`, ... below `end`.
pub open spec fn region_frames(r: MemoryRegion) -> Seq<u64> {
    Seq::new(region_frame_count(r), |k: int| page_floor(r.start + 4096 * k) as u64)
}

/// The frames of the usable regions of `regions`, region after region.
pub open spec fn usable_frames(regions: Seq<MemoryRegion>) -> Seq<u64>
    decreases regions.len(),
{
    if regions.len() == 0 {
        Seq::empty()
    } else {
        let last = regions.last();
        let rest = usable_frames(regions.drop_last());
        if last.kind == MemoryRegionKind::Usable {
            rest + region_frames(last)
        } else {
            rest
        }
    }
}

/// The frames of a shorter prefix come first in those of a longer one.
pub proof fn lemma_usable_frames_prefix(regions: Seq<MemoryRegion>, i: int, j: int)
    requires
        0 <= i <= j <= regions.len(),
    ensures
        usable_frames(regions.take(i)).len() <= usable_frames(regions.take(j)).len(),
        usable_frames(regions.take(i)) =~= usable_frames(regions.take(j)).take(
            usable_frames(regions.take(i)).len() as int,
        ),
    decreases j - i,
{
    if i < j {
        lemma_usable_frames_prefix(regions, i, j - 1);
        assert(regions.take(j).drop_last() =~= regions.take(j - 1));
    }
}

/// A catalog as the boot loader hands it over: every region starts on a frame
/// boundary, and no two regions overlap.
pub open spec fn catalog_well_formed(regions: Seq<MemoryRegion>) -> bool {
    &&& forall|i: int| 0 <= i < regions.len() ==> #[trigger] regions[i].start % 4096 == 0
    &&& forall|i: int, j: int|
        0 <= i < regions.len() && 0 <= j < regions.len() && i != j ==> (#[trigger] regions[i]).end
            <= (#[trigger] regions[j]).start || regions[j].end <= regions[i].start
}

/// `addr` is a frame boundary inside one of the usable regions of `regions`.
pub open spec fn in_usable_region(regions: Seq<MemoryRegion>, addr: u64) -> bool {
    &&& addr % 4096 == 0
    &&& exists|i: int|
        0 <= i < regions.len() && (#[trigger] regions[i]).kind == MemoryRegionKind::Usable
            && regions[i].start <= addr < regions[i].end
}

proof fn lemma_region_frames_inside(r: MemoryRegion)
    requires
        r.start % 4096 == 0,
    ensures
        forall|k: int|
            0 <= k < region_frames(r).len() ==> {
                &&& #[trigger] region_frames(r)[k] == r.start + 4096 * k
                &&& r.start <= region_frames(r)[k] < r.end
                &&& region_frames(r)[k] % 4096 == 0
            },
{
    assert forall|k: int| 0 <= k < region_frames(r).len() implies {
        &&& #[trigger] region_frames(r)[k] == r.start + 4096 * k
        &&& r.start <= region_frames(r)[k] < r.end
        &&& region_frames(r)[k] % 4096 == 0
    } by {
        lemma_mod_multiples_vanish(k, r.start as int, 4096);
        assert(4096 * k <= r.end - r.start - 1) by (nonlinear_arith)
            requires
                k < (r.end - r.start - 1) / 4096 + 1,
                r.start < r.end,
        ;
    }
}

proof fn lemma_usable_frames_inside(regions: Seq<MemoryRegion>)
    requires
        catalog_well_formed(regions),
    ensures
        forall|x: int|
            0 <= x < usable_frames(regions).len() ==> in_usable_region(
                regions,
                #[trigger] usable_frames(regions)[x],
            ),
    decreases regions.len(),
{
    if regions.len() > 0 {
        let rest = regions.drop_last();
        let last = regions.last();
        assert(catalog_well_formed(rest)) by {
            assert forall|i: int, j: int|
                0 <= i < rest.len() && 0 <= j < rest.len() && i != j implies (#[trigger] rest[i]).end
                <= (#[trigger] rest[j]).start || rest[j].end <= rest[i].start by {
                assert(rest[i] == regions[i] && rest[j] == regions[j]);
            }
        }
        lemma_usable_frames_inside(rest);
        assert(regions[regions.len() - 1] == last);
        assert(last.start % 4096 == 0);
        lemma_region_frames_inside(last);
        let fr = usable_frames(regions);
        assert forall|x: int| 0 <= x < fr.len() implies in_usable_region(
            regions,
            #[trigger] fr[x],
        ) by {
            let pre = usable_frames(rest);
            if x < pre.len() {
                assert(fr[x] == pre[x]);
                let i = choose|i: int|
                    0 <= i < rest.len() && (#[trigger] rest[i]).kind == MemoryRegionKind::Usable
                        && rest[i].start <= pre[x] < rest[i].end;
                assert(regions[i] == rest[i]);
            } else {
                assert(fr[x] == region_frames(last)[x - pre.len()]);
            }
        }
    }
}

/// Frame uniqueness: on a well-formed catalog, the frames that the allocator
/// hands out one after another are pairwise distinct, each on a frame boundary
/// and inside a usable region.
pub proof fn lemma_frames_distinct(regions: Seq<MemoryRegion>)
    requires
        catalog_well_formed(regions),
    ensures
        forall|x: int|
            0 <= x < usable_frames(regions).len() ==> in_usable_region(
                regions,
                #[trigger] usable_frames(regions)[x],
            ),
        forall|x: int, y: int|
            0 <= x < y < usable_frames(regions).len() ==> #[trigger] usable_frames(regions)[x]
                != #[trigger] usable_frames(regions)[y],
    decreases regions.len(),
{
    lemma_usable_frames_inside(regions);
    if regions.len() > 0 {
        let rest = regions.drop_last();
        let last = regions.last();
        assert(catalog_well_formed(rest)) by {
            assert forall|i: int, j: int|
                0 <= i < rest.len() && 0 <= j < rest.len() && i != j implies (#[trigger] rest[i]).end
                <= (#[trigger] rest[j]).start || rest[j].end <= rest[i].start by {
                assert(rest[i] == regions[i] && rest[j] == regions[j]);
            }
        }
        lemma_frames_distinct(rest);
        assert(regions[regions.len() - 1] == last);
        lemma_region_frames_inside(last);
        let fr = usable_frames(regions);
        let pre = usable_frames(rest);
        assert forall|x: int, y: int| 0 <= x < y < fr.len() implies #[trigger] fr[x]
            != #[trigger] fr[y] by {
            if y >= pre.len() && x < pre.len() {
                assert(fr[x] == pre[x]);
                assert(in_usable_region(rest, pre[x]));
                let i = choose|i: int|
                    0 <= i < rest.len() && (#[trigger] rest[i]).kind == MemoryRegionKind::Usable
                        && rest[i].start <= pre[x] < rest[i].end;
                assert(regions[i] == rest[i]);
                assert(fr[y] == region_frames(last)[y - pre.len()]);
            } else if y < pre.len() {
                assert(fr[x] == pre[x] && fr[y] == pre[y]);
            } else {
                assert(fr[x] == region_frames(last)[x - pre.len()]);
                assert(fr[y] == region_frames(last)[y - pre.len()]);
            }
        }
    }
}

/// Hands out the frames of the usable regions one at a time, in order, each once.
pub struct BootInfoFrameAllocator {
    memory_regions: Vec<MemoryRegion>,
    next: usize,
}

impl BootInfoFrameAllocator {
    /// The region catalog the allocator draws from.
    pub closed spec fn regions(&self) -> Seq<MemoryRegion> {
        self.memory_regions@
    }

    /// How many frames have been handed out.
    pub closed spec fn emitted(&self) -> nat {
        self.next as nat
    }

    /// All frames the allocator can ever hand out, in the order it hands them out.
    pub open spec fn frames(&self) -> Seq<u64> {
        usable_frames(self.regions())
    }

    /// How many frames the allocator can hand out at most (its cursor is a `usize`).
    pub open spec fn capacity(&self) -> nat {
        if self.frames().len() <= usize::MAX {
            self.frames().len()
        } else {
            usize::MAX as nat
        }
    }

    /// The cursor never passes the last frame.
    pub open spec fn wf(&self) -> bool {
        self.emitted() <= self.capacity()
    }

    /// How many frames are left.
    pub open spec fn frames_left(&self) -> nat {
        (self.capacity() - self.emitted()) as nat
    }

    /// An allocator over `memory_regions` that has handed out nothing yet.
    pub fn init(memory_regions: Vec<MemoryRegion>) -> (r: Self)
        ensures
            r.wf(),
            r.regions() == memory_regions@,
            r.emitted() == 0,
    {
        BootInfoFrameAllocator { memory_regions, next: 0 }
    }

    /// How many frames have been handed out.
    pub fn allocated(&self) -> (r: usize)
        ensures
            r == self.emitted(),
    {
        self.next
    }

    /// The next frame of the usable regions, or `None` once they are used up.
    pub fn allocate_frame(&mut self) -> (r: Option<u64>)
        requires
            old(self).wf(),
        ensures
            final(self).wf(),
            final(self).regions() == old(self).regions(),
            old(self).emitted() < old(self).capacity() ==> r == Some(
                old(self).frames()[old(self).emitted() as int],
            ) && final(self).emitted() == old(self).emitted() + 1,
            old(self).emitted() == old(self).capacity() ==> r.is_none() && final(self).emitted()
                == old(self).emitted(),
    {
        let ghost regions = self.memory_regions@;
        let ghost before = *self;
        if self.next == usize::MAX {
            return None;
        }
        let mut remaining: usize = self.next;
        let mut i: usize = 0;
        while i < self.memory_regions.len()
            invariant
                *self == before,
                self.memory_regions@ == regions,
                before == *old(self),
                self.wf(),
                self.next < usize::MAX,
                0 <= i <= regions.len(),
                usable_frames(regions.take(i as int)).len() + remaining == self.next,
            decreases regions.len() - i,
        {
            let r = self.memory_regions[i];
            proof {
                assert(regions.take(i as int + 1).drop_last() =~= regions.take(i as int));
                assert(regions.take(i as int + 1).last() == r);
            }
            if r.kind == MemoryRegionKind::Usable && r.start < r.end {
                let count: u64 = (r.end - r.start - 1) / PAGE_SIZE + 1;
                if (remaining as u64) < count {
                    let frame = align_down(r.start + PAGE_SIZE * remaining as u64);
                    proof {
                        lemma_usable_frames_prefix(regions, i as int + 1, regions.len() as int);
                        assert(regions.take(regions.len() as int) =~= regions);
                        let pre = usable_frames(regions.take(i as int));
                        assert(usable_frames(regions.take(i as int + 1)) == pre + region_frames(r));
                        assert(region_frames(r)[remaining as int] == frame);
                        let upto = usable_frames(regions.take(i as int + 1));
                        assert(upto[self.next as int] == frame);
                        assert(usable_frames(regions)[self.next as int] == frame);
                    }
                    self.next = self.next + 1;
                    return Some(frame);
                }
                remaining = remaining - count as usize;
            }
            i = i + 1;
        }
        proof {
            assert(regions.take(regions.len() as int) =~= regions);
        }
        None
    }
}

} // verus!
