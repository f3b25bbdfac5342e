use vstd::prelude::*;

use crate::address_space::{AddressSpace, Mapping, MemoryError};
use crate::frame_allocator::BootInfoFrameAllocator;
use crate::scanner::{
    first_free_run, nth_page, no_free_run, page_available, run_length, search_free_addr_from,
    PageRange,
};
use vstd::arithmetic::div_mod::{lemma_div_multiples_vanish, lemma_fundamental_div_mod};

use crate::{align_down, page_floor, PAGE_SIZE};

verus! {

/// Physical addresses lie below 2^52.
pub const PHYS_ADDR_LIMIT: u64 = 0x10_0000_0000_0000;

/// First page of the window reserved for device mappings.
pub const DEVICE_WINDOW_START: u64 = 0xFFFF_8000_0000_0000;

/// End (exclusive) of the window reserved for device mappings: the page that
/// holds the highest address.
pub const DEVICE_WINDOW_END: u64 = 0xFFFF_FFFF_FFFF_F000;

/// Flags of every range mapping: present, writable, user-accessible.
pub const MAPPING_FLAGS: u64 = 7;

/// The window that `map_address` searches.
pub open spec fn device_window() -> PageRange {
    PageRange { start: 0xFFFF_8000_0000_0000, end: 0xFFFF_FFFF_FFFF_F000 }
}

/// How many pages the bytes `[start, start + len)` touch; at least one.
pub open spec fn span_pages(start: int, len: int) -> int {
    if len == 0 {
        1
    } else {
        (page_floor(start + len - 1) - page_floor(start)) / 4096 + 1
    }
}

/// The translations a range mapping installs: `count` pages from `virt` on,
/// backed by the frames from `frame` on, in the same order.
pub open spec fn installed(virt: int, frame: int, count: int) -> Seq<Mapping> {
    Seq::new(
        count as nat,
        |i: int| Mapping { page: (virt + 4096 * i) as u64, frame: (frame + 4096 * i) as u64, flags: 7 },
    )
}

/// No double mapping: every page that a range mapping installs at the first
/// free run of a window was unmapped (and not null) before, so installing the
/// run leaves each existing translation as it was.
pub proof fn lemma_run_pages_unmapped(
    space: AddressSpace,
    region: PageRange,
    j: int,
    count: int,
    frame: int,
)
    requires
        first_free_run(space, region, j, count),
    ensures
        forall|i: int|
            0 <= i < count ==> !space.maps(
                (#[trigger] installed(nth_page(region, j), frame, count)[i]).page,
            ) && installed(nth_page(region, j), frame, count)[i].page != 0,
{
    assert forall|i: int| 0 <= i < count implies !space.maps(
        (#[trigger] installed(nth_page(region, j), frame, count)[i]).page,
    ) && installed(nth_page(region, j), frame, count)[i].page != 0 by {
        assert(page_available(space, (nth_page(region, j) + 4096 * i) as u64));
    }
}

/// Span coverage: from a page boundary, `len` bytes (at least one) take
/// `ceil(len / 4096)` pages.
pub proof fn lemma_span_pages_aligned(start: int, len: int)
    requires
        start >= 0,
        start % 4096 == 0,
        len >= 1,
    ensures
        span_pages(start, len) == (len + 4095) / 4096,
{
    lemma_fundamental_div_mod(start, 4096);
    let q = start / 4096;
    vstd::arithmetic::div_mod::lemma_mod_multiples_vanish(q, len - 1, 4096);
    assert(page_floor(start + len - 1) == start + (len - 1) - (len - 1) % 4096);
    lemma_fundamental_div_mod(len - 1, 4096);
    let t = (len - 1) / 4096;
    assert(page_floor(start + len - 1) - page_floor(start) == 4096 * t);
    lemma_div_multiples_vanish(t, 4096);
    vstd::arithmetic::div_mod::lemma_div_plus_one(len - 1, 4096);
    assert(4096 + (len - 1) == len + 4095);
}

/// The number of pages that the bytes `[start, start + object_size)` touch; a
/// range of no bytes still takes one page.
pub fn page_count(start: u64, object_size: usize) -> (r: u64)
    requires
        start + object_size <= PHYS_ADDR_LIMIT,
    ensures
        r == span_pages(start as int, object_size as int),
        1 <= r,
        page_floor(start as int) + 4096 * (r - 1) <= if object_size == 0 {
            start as int
        } else {
            start + object_size - 1
        },
{
    if object_size == 0 {
        return 1;
    }
    let first = align_down(start);
    let last = align_down(start + object_size as u64 - 1);
    proof {
        lemma_fundamental_div_mod(first as int, 4096);
        lemma_fundamental_div_mod(last as int, 4096);
        let a = last as int / 4096;
        let b = first as int / 4096;
        assert(last - first == 4096 * (a - b));
        lemma_div_multiples_vanish(a - b, 4096);
    }
    (last - first) / PAGE_SIZE + 1
}

/// Maps the physical bytes `[start, start + object_size)` at the first run of
/// free pages in `region`, page `i` of the run backed by the `i`-th frame from
/// the frame that holds `start`. Returns the virtual address of the byte at `start`.
pub fn map_pages_from(
    space: &mut AddressSpace,
    frames: &mut BootInfoFrameAllocator,
    start: u64,
    object_size: usize,
    region: PageRange,
) -> (r: Result<u64, MemoryError>)
    requires
        old(space).wf(),
        old(frames).wf(),
        region.wf(),
        start + object_size <= PHYS_ADDR_LIMIT,
    ensures
        final(space).wf(),
        final(frames).wf(),
        final(frames).regions() == old(frames).regions(),
        final(space).entries().len() >= old(space).entries().len(),
        final(space).entries().take(old(space).entries().len() as int) == old(space).entries(),
        r == Err::<u64, MemoryError>(MemoryError::OutOfVirtualMemory) <==> no_free_run(
            *old(space),
            region,
            span_pages(start as int, object_size as int),
        ),
        r == Err::<u64, MemoryError>(MemoryError::OutOfVirtualMemory) ==> final(space).entries()
            == old(space).entries() && final(frames).emitted() == old(frames).emitted(),
        !(r matches Err(MemoryError::AlreadyMapped(_))),
        r == Err::<u64, MemoryError>(MemoryError::Exhausted) ==> final(frames).frames_left() == 0,
        r matches Ok(v) ==> v % 4096 == start % 4096,
        r matches Ok(v) ==> exists|j: int|
            #[trigger] first_free_run(
                *old(space),
                region,
                j,
                span_pages(start as int, object_size as int),
            ) && v == nth_page(region, j) + start % 4096 && final(space).entries()
                == old(space).entries() + installed(
                nth_page(region, j),
                page_floor(start as int),
                span_pages(start as int, object_size as int),
            ),
        !no_free_run(*old(space), region, span_pages(start as int, object_size as int)) && old(
            frames,
        ).frames_left() >= 3 * span_pages(start as int, object_size as int) ==> r is Ok,
{
    let num_pages = page_count(start, object_size);
    let start_frame = align_down(start);
    let virt = match search_free_addr_from(space, num_pages, region) {
        Some(v) => v,
        None => {
            return Err(MemoryError::OutOfVirtualMemory);
        },
    };
    let ghost s0 = *space;
    let ghost f0 = *frames;
    let ghost j = choose|j: int| #[trigger]
        first_free_run(s0, region, j, num_pages as int) && virt == nth_page(region, j);
    proof {
        assert(run_length(num_pages) == num_pages);
    }
    let mut i: u64 = 0;
    while i < num_pages
        invariant
            0 <= i <= num_pages,
            s0 == *old(space),
            f0 == *old(frames),
            space.wf(),
            frames.wf(),
            frames.regions() == f0.regions(),
            first_free_run(s0, region, j, num_pages as int),
            virt == nth_page(region, j),
            virt + 4096 * num_pages <= region.end,
            region.wf(),
            virt % 4096 == 0,
            start_frame == page_floor(start as int),
            start_frame + 4096 * (num_pages - 1) <= PHYS_ADDR_LIMIT,
            num_pages == span_pages(start as int, object_size as int),
            space.entries() == s0.entries() + installed(virt as int, start_frame as int, i as int),
            f0.frames_left() >= 3 * num_pages ==> frames.frames_left() >= 3 * (num_pages - i),
        decreases num_pages - i,
    {
        let page = virt + PAGE_SIZE * i;
        let frame = start_frame + PAGE_SIZE * i;
        proof {
            assert(page_available(s0, (virt + 4096 * i) as u64));
            assert(!space.maps(page)) by {
                if space.maps(page) {
                    let k = choose|k: int|
                        0 <= k < space.entries().len() && (#[trigger] space.entries()[k]).page
                            == page;
                    if k < s0.entries().len() {
                        assert(s0.entries()[k] == space.entries()[k]);
                        assert(s0.maps(page));
                    } else {
                        assert(space.entries()[k] == installed(
                            virt as int,
                            start_frame as int,
                            i as int,
                        )[k - s0.entries().len()]);
                    }
                }
            }
        }
        let ghost before = *space;
        let installed_ok = space.map_to(page, frame, MAPPING_FLAGS, frames);
        proof {
            assert(space.entries().take(s0.entries().len() as int) =~= s0.entries()) by {
                assert(before.entries().take(s0.entries().len() as int) =~= s0.entries());
            }
        }
        match installed_ok {
            Err(e) => {
                return Err(e);
            },
            Ok(()) => {},
        }
        proof {
            assert(space.entries() =~= s0.entries() + installed(
                virt as int,
                start_frame as int,
                i + 1,
            ));
        }
        i = i + 1;
    }
    proof {
        lemma_fundamental_div_mod(virt as int, 4096);
        lemma_fundamental_div_mod(start as int, 4096);
        let q = virt as int / 4096;
        assert(virt + start % 4096 == 4096 * q + start % 4096);
        vstd::arithmetic::div_mod::lemma_mod_multiples_vanish(q, (start % 4096) as int, 4096);
        vstd::arithmetic::div_mod::lemma_small_mod((start % 4096) as nat, 4096);
        assert(space.entries().take(s0.entries().len() as int) =~= s0.entries());
        assert(first_free_run(*old(space), region, j, span_pages(start as int, object_size as int)));
    }
    Ok(virt + start % PAGE_SIZE)
}

/// Maps the physical bytes `[phys, phys + size)` into the device window.
pub fn map_address(
    space: &mut AddressSpace,
    frames: &mut BootInfoFrameAllocator,
    phys: u64,
    size: usize,
) -> (r: Result<u64, MemoryError>)
    requires
        old(space).wf(),
        old(frames).wf(),
        phys + size <= PHYS_ADDR_LIMIT,
    ensures
        final(space).wf(),
        final(frames).wf(),
        final(frames).regions() == old(frames).regions(),
        final(space).entries().len() >= old(space).entries().len(),
        final(space).entries().take(old(space).entries().len() as int) == old(space).entries(),
        r == Err::<u64, MemoryError>(MemoryError::OutOfVirtualMemory) <==> no_free_run(
            *old(space),
            device_window(),
            span_pages(phys as int, size as int),
        ),
        !(r matches Err(MemoryError::AlreadyMapped(_))),
        r == Err::<u64, MemoryError>(MemoryError::Exhausted) ==> final(frames).frames_left() == 0,
        r matches Ok(v) ==> v % 4096 == phys % 4096,
        r matches Ok(v) ==> exists|j: int|
            #[trigger] first_free_run(
                *old(space),
                device_window(),
                j,
                span_pages(phys as int, size as int),
            ) && v == nth_page(device_window(), j) + phys % 4096 && final(space).entries()
                == old(space).entries() + installed(
                nth_page(device_window(), j),
                page_floor(phys as int),
                span_pages(phys as int, size as int),
            ),
        !no_free_run(*old(space), device_window(), span_pages(phys as int, size as int)) && old(
            frames,
        ).frames_left() >= 3 * span_pages(phys as int, size as int) ==> r is Ok,
{
    let window = PageRange { start: DEVICE_WINDOW_START, end: DEVICE_WINDOW_END };
    assert(window == device_window());
    map_pages_from(space, frames, phys, size, window)
}

} // verus!
