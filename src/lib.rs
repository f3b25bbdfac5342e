//! Virtual-memory bookkeeping for a kernel: a frame allocator over the boot
//! loader's region catalog, a search for free runs of virtual pages, and the
//! range mapper that installs a physical span at such a run.

use vstd::prelude::*;

pub mod address_space;
pub mod frame_allocator;
pub mod live_tables;
pub mod range_mapper;
pub mod scanner;

verus! {

/// Size in bytes of one frame or page.
pub const PAGE_SIZE: u64 = 4096;

/// The start of the 4 KiB page (or frame) that holds `addr`.
pub open spec fn page_floor(addr: int) -> int {
    addr - addr % 4096
}

/// Rounds `addr` down to the start of the page that holds it.
pub fn align_down(addr: u64) -> (r: u64)
    ensures
        r == page_floor(addr as int),
        r % 4096 == 0,
        r <= addr,
        addr - r < 4096,
{
    addr - addr % PAGE_SIZE
}

} // verus!
