use vstd::prelude::*;

use crate::address_space::AddressSpace;
use crate::PAGE_SIZE;

verus! {

/// The pages `start, start + 4096, ...` below `end`, both page boundaries.
#[derive(Clone, Copy, Debug, PartialEq, Eq, Structural)]
pub struct PageRange {
    pub start: u64,
    pub end: u64,
}

impl PageRange {
    pub open spec fn wf(&self) -> bool {
        self.start % 4096 == 0 && self.end % 4096 == 0
    }
}

/// What a search asks for next.
#[derive(Clone, Copy, Debug, PartialEq, Eq, Structural)]
pub enum SearchStep {
    /// Report whether the page at this address is mapped.
    Probe(u64),
    /// A long enough run of free pages starts here.
    Found(u64),
    /// The window holds no long enough run.
    NotFound,
}

/// A page is available when it is not the null page and nothing maps it.
pub open spec fn page_available(space: AddressSpace, page: u64) -> bool {
    page != 0 && !space.maps(page)
}

/// The `count` pages from `start` on are all available.
pub open spec fn run_free(space: AddressSpace, start: int, count: int) -> bool {
    forall|i: int| 0 <= i < count ==> #[trigger] page_available(space, (start + 4096 * i) as u64)
}

/// The length of run a search for `num_pages` pages looks for: a request for
/// none is met by one available page.
pub open spec fn run_length(num_pages: u64) -> int {
    if num_pages == 0 {
        1
    } else {
        num_pages as int
    }
}

/// The `j`-th page of `region`.
pub open spec fn nth_page(region: PageRange, j: int) -> int {
    region.start + 4096 * j
}

/// A run of `count` free pages starts at the `j`-th page of `region` and ends inside it.
pub open spec fn free_run_at(space: AddressSpace, region: PageRange, j: int, count: int) -> bool {
    &&& 0 <= j
    &&& nth_page(region, j) + 4096 * count <= region.end
    &&& run_free(space, nth_page(region, j), count)
}

/// The `j`-th page of `region` starts the first run of `count` free pages in it.
pub open spec fn first_free_run(space: AddressSpace, region: PageRange, j: int, count: int) -> bool {
    &&& free_run_at(space, region, j, count)
    &&& forall|k: int| 0 <= k < j ==> !(#[trigger] free_run_at(space, region, k, count))
}

/// `region` holds no run of `count` free pages.
pub open spec fn no_free_run(space: AddressSpace, region: PageRange, count: int) -> bool {
    forall|k: int| 0 <= k ==> !(#[trigger] free_run_at(space, region, k, count))
}

/// A search through a window, page by page, for a run of consecutive available
/// pages. The caller answers each probe with what the page tables say of that page.
pub struct FreeRunSearch {
    needed: u64,
    end: u64,
    cursor: u64,
    run_start: u64,
    run_len: u64,
}

impl FreeRunSearch {
    pub closed spec fn needed(&self) -> nat {
        self.needed as nat
    }

    pub closed spec fn end(&self) -> nat {
        self.end as nat
    }

    /// The next page to probe.
    pub closed spec fn cursor(&self) -> nat {
        self.cursor as nat
    }

    /// How many available pages come right before the cursor (up to `needed`).
    pub closed spec fn run_len(&self) -> nat {
        self.run_len as nat
    }

    /// Where the current run begins.
    pub open spec fn run_begin(&self) -> int {
        self.cursor() - 4096 * self.run_len()
    }

    pub closed spec fn wf(&self) -> bool {
        &&& self.needed >= 1
        &&& self.cursor % 4096 == 0
        &&& self.end % 4096 == 0
        &&& self.run_len <= self.needed
        &&& self.run_len > 0 ==> self.cursor <= self.end
        &&& self.run_len > 0 ==> self.run_start == self.run_begin()
        &&& self.run_begin() >= 0
    }

    /// The ranges that a well-formed search stays in.
    pub proof fn lemma_bounds(&self)
        requires
            self.wf(),
        ensures
            0 <= self.run_begin() <= self.cursor() <= u64::MAX,
            self.run_len() <= self.needed(),
            1 <= self.needed(),
            self.run_len() > 0 ==> self.cursor() <= self.end(),
    {
    }

    /// The step that the search's state calls for.
    pub open spec fn step_spec(&self) -> SearchStep {
        if self.run_len() >= self.needed() {
            SearchStep::Found(self.run_begin() as u64)
        } else if self.cursor() >= self.end() {
            SearchStep::NotFound
        } else {
            SearchStep::Probe(self.cursor() as u64)
        }
    }

    /// A search for `num_pages` consecutive available pages in `region`.
    pub fn new(num_pages: u64, region: PageRange) -> (r: Self)
        requires
            region.wf(),
        ensures
            r.wf(),
            r.needed() == run_length(num_pages),
            r.end() == region.end,
            r.cursor() == region.start,
            r.run_len() == 0,
    {
        let needed = if num_pages == 0 {
            1
        } else {
            num_pages
        };
        FreeRunSearch { needed, end: region.end, cursor: region.start, run_start: region.start, run_len: 0 }
    }

    /// What the search asks for next.
    pub fn next_step(&self) -> (r: SearchStep)
        requires
            self.wf(),
        ensures
            r == self.step_spec(),
    {
        if self.run_len >= self.needed {
            SearchStep::Found(self.run_start)
        } else if self.cursor >= self.end {
            SearchStep::NotFound
        } else {
            SearchStep::Probe(self.cursor)
        }
    }

    /// Takes the answer to the pending probe: whether the probed page is mapped.
    /// The null page never counts as available.
    pub fn record(&mut self, mapped: bool)
        requires
            old(self).wf(),
            old(self).step_spec() is Probe,
        ensures
            final(self).wf(),
            final(self).needed() == old(self).needed(),
            final(self).end() == old(self).end(),
            final(self).cursor() == old(self).cursor() + 4096,
            final(self).run_len() == if !mapped && old(self).cursor() != 0 {
                old(self).run_len() + 1
            } else {
                0
            },
    {
        if !mapped && self.cursor != 0 {
            if self.run_len == 0 {
                self.run_start = self.cursor;
            }
            self.run_len = self.run_len + 1;
        } else {
            self.run_len = 0;
        }
        self.cursor = self.cursor + PAGE_SIZE;
    }
}

/// Searches `region` for the first run of `num_pages` consecutive pages that are
/// neither null nor mapped in `space` (one page where `num_pages` is zero).
pub fn search_free_addr_from(space: &AddressSpace, num_pages: u64, region: PageRange) -> (r:
    Option<u64>)
    requires
        space.wf(),
        region.wf(),
    ensures
        r matches Some(a) ==> exists|j: int|
            #[trigger] first_free_run(*space, region, j, run_length(num_pages)) && a == nth_page(
                region,
                j,
            ),
        r is None <==> no_free_run(*space, region, run_length(num_pages)),
{
    let ghost need = run_length(num_pages);
    let mut search = FreeRunSearch::new(num_pages, region);
    let ghost mut pos: int = 0;
    loop
        invariant
            search.wf(),
            search.needed() == need,
            need == run_length(num_pages),
            search.end() == region.end,
            region.wf(),
            search.cursor() >= region.start,
            pos >= search.run_len(),
            search.cursor() == nth_page(region, pos),
            run_free(*space, search.run_begin(), search.run_len() as int),
            forall|k: int|
                0 <= k && nth_page(region, k) < search.run_begin() ==> !(#[trigger] free_run_at(
                    *space,
                    region,
                    k,
                    need,
                )),
        decreases region.end + 4096 - search.cursor(),
    {
        match search.next_step() {
            SearchStep::Found(a) => {
                proof {
                    let j = pos - search.run_len();
                    assert(nth_page(region, j) == search.run_begin());
                    assert(free_run_at(*space, region, j, need));
                    assert(forall|k: int|
                        0 <= k < j ==> !(#[trigger] free_run_at(*space, region, k, need)));
                    assert(a == search.run_begin());
                    assert(first_free_run(*space, region, j, need));
                    assert(!no_free_run(*space, region, need));
                }
                return Some(a);
            },
            SearchStep::NotFound => {
                proof {
                    assert forall|k: int| 0 <= k implies !(#[trigger] free_run_at(
                        *space,
                        region,
                        k,
                        need,
                    )) by {
                        if nth_page(region, k) >= search.run_begin() {
                            assert(nth_page(region, k) + 4096 * need > region.end);
                        }
                    }
                }
                return None;
            },
            SearchStep::Probe(page) => {
                let mapped = space.is_mapped(page);
                let ghost prev = search;
                search.record(mapped);
                proof {
                    pos = pos + 1;
                    if page_available(*space, page) {
                        assert(search.run_begin() == prev.run_begin());
                        assert forall|i: int| 0 <= i < search.run_len() implies #[trigger] page_available(
                            *space,
                            (search.run_begin() + 4096 * i) as u64,
                        ) by {
                            if i < prev.run_len() {
                                assert(page_available(*space, (prev.run_begin() + 4096 * i) as u64));
                            }
                        }
                    } else {
                        assert forall|k: int|
                            0 <= k && nth_page(region, k) < search.run_begin() implies !(
                            #[trigger] free_run_at(*space, region, k, need)) by {
                            if nth_page(region, k) >= prev.run_begin() {
                                let i = pos - 1 - k;
                                assert(nth_page(region, k) + 4096 * i == page);
                                assert(!page_available(*space, (nth_page(region, k) + 4096 * i) as u64));
                            }
                        }
                    }
                }
            },
        }
    }
}

} // verus!
