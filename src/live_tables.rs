use vstd::prelude::*;

use vstd::arithmetic::div_mod::lemma_mod_multiples_vanish;

use x86_64::structures::paging::{OffsetPageTable, Translate};

use crate::scanner::{nth_page, run_length, FreeRunSearch, PageRange, SearchStep};

verus! {

#[verifier::external_type_specification]
#[verifier::external_body]
pub struct ExOffsetPageTable<'a>(OffsetPageTable<'a>);

/// A canonical virtual address: bits 48 to 63 copy bit 47.
pub open spec fn canonical(addr: int) -> bool {
    addr < 0x8000_0000_0000 || 0xFFFF_8000_0000_0000 <= addr
}

/// Every page of `region` has a canonical address.
pub open spec fn canonical_window(region: PageRange) -> bool {
    region.end <= 0x8000_0000_0000 || 0xFFFF_8000_0000_0000 <= region.start
}

/// Relies on `Translate::translate_addr` of x86_64's `OffsetPageTable`, which
/// walks the live hierarchy: whether `addr` is mapped there. The answer depends
/// on page-table memory, so nothing is stated of it. `VirtAddr::new` panics on
/// a non-canonical address, hence the requirement.
#[verifier::external_body]
fn is_mapped_in(mapper: &OffsetPageTable<'_>, addr: u64) -> (r: bool)
    requires
        canonical(addr as int),
{
    mapper.translate_addr(x86_64::VirtAddr::new(addr)).is_some()
}

/// Searches `region` of the live hierarchy for the first run of `num_pages`
/// consecutive pages that are neither null nor mapped (one page where
/// `num_pages` is zero). What comes back is a run start inside the window.
pub fn search_free_addr_in(mapper: &OffsetPageTable<'_>, num_pages: u64, region: PageRange) -> (r:
    Option<u64>)
    requires
        region.wf(),
        canonical_window(region),
    ensures
        r matches Some(a) ==> a != 0 && a % 4096 == 0 && exists|j: int|
            0 <= j && a == #[trigger] nth_page(region, j) && a + 4096 * run_length(num_pages)
                <= region.end,
{
    let mut search = FreeRunSearch::new(num_pages, region);
    let ghost mut pos: int = 0;
    loop
        invariant
            search.wf(),
            search.needed() == run_length(num_pages),
            search.end() == region.end,
            region.wf(),
            canonical_window(region),
            pos >= search.run_len(),
            search.cursor() == nth_page(region, pos),
            search.run_len() > 0 ==> search.run_begin() > 0,
        decreases region.end + 4096 - search.cursor(),
    {
        match search.next_step() {
            SearchStep::Found(a) => {
                proof {
                    search.lemma_bounds();
                    let j = pos - search.run_len();
                    assert(nth_page(region, j) == a);
                    lemma_mod_multiples_vanish(j, region.start as int, 4096);
                }
                return Some(a);
            },
            SearchStep::NotFound => {
                return None;
            },
            SearchStep::Probe(page) => {
                let mapped = is_mapped_in(mapper, page);
                search.record(mapped);
                proof {
                    pos = pos + 1;
                }
            },
        }
    }
}

} // verus!
