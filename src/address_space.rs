use vstd::prelude::*;

use crate::frame_allocator::BootInfoFrameAllocator;
use crate::{align_down, page_floor, PAGE_SIZE};

verus! {

/// The entry bit that marks a mapping as present.
pub const PRESENT: u64 = 1;

/// The entry bit that allows writes through a mapping.
pub const WRITABLE: u64 = 2;

/// The entry bit that allows user-mode access through a mapping.
pub const USER_ACCESSIBLE: u64 = 4;

/// Span of virtual memory that one third-level table covers (512 GiB).
pub const L3_SPAN: u64 = 0x80_0000_0000;

/// Span of virtual memory that one second-level table covers (1 GiB).
pub const L2_SPAN: u64 = 0x4000_0000;

/// Span of virtual memory that one first-level table covers (2 MiB).
pub const L1_SPAN: u64 = 0x20_0000;

/// Why a memory operation did not complete.
#[derive(Clone, Copy, Debug, PartialEq, Eq, Structural)]
pub enum MemoryError {
    /// The frame allocator had no frame left.
    Exhausted,
    /// The page is mapped already.
    AlreadyMapped(u64),
    /// The search window holds no run of free pages that is long enough.
    OutOfVirtualMemory,
}

/// One installed translation: a virtual page, its frame and its entry flags.
#[derive(Clone, Copy, Debug, PartialEq, Eq, Structural)]
pub struct Mapping {
    pub page: u64,
    pub frame: u64,
    pub flags: u64,
}

/// A four-level page-table hierarchy: the installed translations, and which
/// intermediate tables exist. The root table always exists.
pub struct AddressSpace {
    mappings: Vec<Mapping>,
    l3_tables: Vec<u64>,
    l2_tables: Vec<u64>,
    l1_tables: Vec<u64>,
}

/// The table of a level that covers `page`, as the index of its span.
pub open spec fn table_key(page: u64, span: u64) -> u64 {
    (page / span) as u64
}

impl AddressSpace {
    /// The installed translations, in the order they were installed.
    pub closed spec fn entries(&self) -> Seq<Mapping> {
        self.mappings@
    }

    /// Whether the table of the given span that covers `page` exists.
    pub closed spec fn has_table(&self, page: u64, span: u64) -> bool {
        if span == L3_SPAN {
            self.l3_tables@.contains(table_key(page, span))
        } else if span == L2_SPAN {
            self.l2_tables@.contains(table_key(page, span))
        } else {
            self.l1_tables@.contains(table_key(page, span))
        }
    }

    /// How many intermediate tables installing `page` has to create.
    pub open spec fn tables_missing(&self, page: u64) -> nat {
        (if self.has_table(page, L3_SPAN) { 0nat } else { 1nat }) + (if self.has_table(
            page,
            L2_SPAN,
        ) {
            0nat
        } else {
            1nat
        }) + (if self.has_table(page, L1_SPAN) { 0nat } else { 1nat })
    }

    /// Whether `page` is mapped.
    pub open spec fn maps(&self, page: u64) -> bool {
        exists|i: int| 0 <= i < self.entries().len() && (#[trigger] self.entries()[i]).page == page
    }

    /// Pages are mapped at most once, on page boundaries, under existing tables.
    pub open spec fn wf(&self) -> bool {
        &&& forall|i: int, j: int|
            0 <= i < j < self.entries().len() ==> (#[trigger] self.entries()[i]).page
                != (#[trigger] self.entries()[j]).page
        &&& forall|i: int|
            0 <= i < self.entries().len() ==> (#[trigger] self.entries()[i]).page % 4096 == 0
                && self.entries()[i].frame % 4096 == 0
        &&& forall|i: int|
            0 <= i < self.entries().len() ==> self.tables_missing(
                (#[trigger] self.entries()[i]).page,
            ) == 0
    }

    /// A hierarchy with only its root table and no translations.
    pub fn new() -> (r: Self)
        ensures
            r.wf(),
            r.entries() == Seq::<Mapping>::empty(),
            forall|p: u64| r.tables_missing(p) == 3,
    {
        AddressSpace {
            mappings: Vec::new(),
            l3_tables: Vec::new(),
            l2_tables: Vec::new(),
            l1_tables: Vec::new(),
        }
    }

    /// The number of installed translations.
    pub fn len(&self) -> (r: usize)
        ensures
            r == self.entries().len(),
    {
        self.mappings.len()
    }

    /// The translation installed at position `i`.
    pub fn entry(&self, i: usize) -> (r: Mapping)
        requires
            i < self.entries().len(),
        ensures
            r == self.entries()[i as int],
    {
        self.mappings[i]
    }

    /// Whether the page that starts at `page` is mapped.
    pub fn is_mapped(&self, page: u64) -> (r: bool)
        ensures
            r == self.maps(page),
    {
        let mut i: usize = 0;
        while i < self.mappings.len()
            invariant
                0 <= i <= self.entries().len(),
                forall|j: int| 0 <= j < i ==> (#[trigger] self.entries()[j]).page != page,
            decreases self.entries().len() - i,
        {
            if self.mappings[i].page == page {
                return true;
            }
            i = i + 1;
        }
        false
    }

    /// Whether `key` is among `tables`.
    fn has_key(tables: &Vec<u64>, key: u64) -> (r: bool)
        ensures
            r == tables@.contains(key),
    {
        let mut i: usize = 0;
        while i < tables.len()
            invariant
                0 <= i <= tables@.len(),
                forall|j: int| 0 <= j < i ==> tables@[j] != key,
            decreases tables@.len() - i,
        {
            if tables[i] == key {
                return true;
            }
            i = i + 1;
        }
        false
    }

    proof fn lemma_push_contains(v: Seq<u64>, key: u64)
        ensures
            forall|k: u64| #[trigger] v.push(key).contains(k) <==> v.contains(k) || k == key,
    {
        assert forall|k: u64| #[trigger] v.push(key).contains(k) implies v.contains(k) || k == key by {
            let j = choose|j: int| 0 <= j < v.push(key).len() && v.push(key)[j] == k;
            if j < v.len() {
                assert(v[j] == k);
            }
        }
        assert forall|k: u64| v.contains(k) || k == key implies #[trigger] v.push(key).contains(k) by {
            if k == key {
                assert(v.push(key)[v.len() as int] == k);
            } else {
                let j = choose|j: int| 0 <= j < v.len() && v[j] == k;
                assert(v.push(key)[j] == k);
            }
        }
    }

    /// Creates the table of the given span that covers `page`, taking its frame
    /// from `frames`, unless it exists already.
    fn create_table(&mut self, page: u64, span: u64, frames: &mut BootInfoFrameAllocator) -> (r:
        Result<(), MemoryError>)
        requires
            old(frames).wf(),
            span == L3_SPAN || span == L2_SPAN || span == L1_SPAN,
        ensures
            final(frames).wf(),
            final(frames).regions() == old(frames).regions(),
            final(self).entries() == old(self).entries(),
            old(self).has_table(page, span) ==> r is Ok && final(frames).emitted() == old(frames).emitted(),
            !old(self).has_table(page, span) && old(frames).frames_left() > 0 ==> r is Ok && final(frames).emitted() == old(frames).emitted() + 1,
            !old(self).has_table(page, span) && old(frames).frames_left() == 0 ==> r == Err::<
                (),
                MemoryError,
            >(MemoryError::Exhausted) && final(frames).emitted() == old(frames).emitted(),
            r is Ok ==> final(self).has_table(page, span),
            forall|p: u64, s: u64|
                (s == L3_SPAN || s == L2_SPAN || s == L1_SPAN) ==> (#[trigger] final(self).has_table(p, s) <==> old(self).has_table(p, s) || (r is Ok && s == span
                    && table_key(p, s) == table_key(page, span))),
    {
        let key = page / span;
        let present = if span == L3_SPAN {
            Self::has_key(&self.l3_tables, key)
        } else if span == L2_SPAN {
            Self::has_key(&self.l2_tables, key)
        } else {
            Self::has_key(&self.l1_tables, key)
        };
        if present {
            return Ok(());
        }
        match frames.allocate_frame() {
            None => Err(MemoryError::Exhausted),
            Some(_) => {
                let ghost before = *self;
                if span == L3_SPAN {
                    self.l3_tables.push(key);
                    proof { Self::lemma_push_contains(before.l3_tables@, key); }
                } else if span == L2_SPAN {
                    self.l2_tables.push(key);
                    proof { Self::lemma_push_contains(before.l2_tables@, key); }
                } else {
                    self.l1_tables.push(key);
                    proof { Self::lemma_push_contains(before.l1_tables@, key); }
                }
                Ok(())
            },
        }
    }

    /// Installs `page -> frame` with `flags`, first creating the intermediate
    /// tables it lacks with frames from `frames`. A page that is mapped already
    /// is refused and left as it is.
    pub fn map_to(
        &mut self,
        page: u64,
        frame: u64,
        flags: u64,
        frames: &mut BootInfoFrameAllocator,
    ) -> (r: Result<(), MemoryError>)
        requires
            old(self).wf(),
            old(frames).wf(),
            page % 4096 == 0,
            frame % 4096 == 0,
        ensures
            final(self).wf(),
            final(frames).wf(),
            final(frames).regions() == old(frames).regions(),
            final(frames).emitted() >= old(frames).emitted(),
            old(self).maps(page) ==> r == Err::<(), MemoryError>(MemoryError::AlreadyMapped(page))
                && final(self).entries() == old(self).entries() && final(frames).emitted() == old(frames).emitted(),
            !old(self).maps(page) && old(frames).frames_left() >= old(self).tables_missing(page)
                ==> r is Ok && final(self).entries() == old(self).entries().push(
                (Mapping { page, frame, flags }),
            ) && final(frames).emitted() == old(frames).emitted() + old(self).tables_missing(page),
            !old(self).maps(page) && old(frames).frames_left() < old(self).tables_missing(page)
                ==> r == Err::<(), MemoryError>(MemoryError::Exhausted) && final(self).entries()
                == old(self).entries() && final(frames).frames_left() == 0,
    {
        let ghost s0 = *self;
        if let Err(e) = self.create_table(page, L3_SPAN, frames) {
            proof { self.lemma_tables_grow(&s0); }
            return Err(e);
        }
        let ghost s1 = *self;
        assert(s1.has_table(page, L3_SPAN));
        if let Err(e) = self.create_table(page, L2_SPAN, frames) {
            proof { self.lemma_tables_grow(&s0); }
            return Err(e);
        }
        let ghost s2 = *self;
        assert(s2.has_table(page, L3_SPAN) && s2.has_table(page, L2_SPAN));
        if let Err(e) = self.create_table(page, L1_SPAN, frames) {
            proof { self.lemma_tables_grow(&s0); }
            return Err(e);
        }
        proof { self.lemma_tables_grow(&s0); }
        assert(self.has_table(page, L3_SPAN) && self.has_table(page, L2_SPAN) && self.has_table(
            page,
            L1_SPAN,
        ));
        if self.is_mapped(page) {
            return Err(MemoryError::AlreadyMapped(page));
        }
        let ghost s3 = *self;
        self.mappings.push(Mapping { page, frame, flags });
        proof {
            assert forall|i: int, j: int| 0 <= i < j < self.entries().len() implies (
                #[trigger] self.entries()[i]).page != (#[trigger] self.entries()[j]).page by {
                if j == self.entries().len() - 1 {
                    assert(s3.entries()[i] == self.entries()[i]);
                }
            }
            assert forall|i: int| 0 <= i < self.entries().len() implies self.tables_missing(
                (#[trigger] self.entries()[i]).page,
            ) == 0 by {
                if i < s3.entries().len() {
                    assert(s3.entries()[i] == self.entries()[i]);
                }
            }
            assert(self.entries().last().page == page);
            assert(self.maps(page));
        }
        Ok(())
    }

    /// Tables only ever get added, so what `old` had installed stays under existing tables.
    proof fn lemma_tables_grow(&self, old: &Self)
        requires
            old.wf(),
            self.entries() == old.entries(),
            forall|p: u64, s: u64|
                (s == L3_SPAN || s == L2_SPAN || s == L1_SPAN) && old.has_table(p, s)
                    ==> #[trigger] self.has_table(p, s),
        ensures
            self.wf(),
    {
        assert forall|i: int| 0 <= i < self.entries().len() implies self.tables_missing(
            (#[trigger] self.entries()[i]).page,
        ) == 0 by {
            assert(old.tables_missing(old.entries()[i].page) == 0);
            let p = self.entries()[i].page;
            assert(old.has_table(p, L3_SPAN) && old.has_table(p, L2_SPAN) && old.has_table(p, L1_SPAN));
        }
    }

    /// The physical address that `addr` translates to, or `None` where its page is unmapped.
    pub fn translate_addr(&self, addr: u64) -> (r: Option<u64>)
        requires
            self.wf(),
        ensures
            r.is_none() <==> !self.maps(page_floor(addr as int) as u64),
            forall|i: int|
                0 <= i < self.entries().len() && (#[trigger] self.entries()[i]).page == page_floor(
                    addr as int,
                ) ==> r == Some((self.entries()[i].frame + addr % 4096) as u64),
    {
        let page = align_down(addr);
        let mut i: usize = 0;
        while i < self.mappings.len()
            invariant
                0 <= i <= self.entries().len(),
                self.wf(),
                page == page_floor(addr as int),
                forall|j: int| 0 <= j < i ==> (#[trigger] self.entries()[j]).page != page,
            decreases self.entries().len() - i,
        {
            let m = self.mappings[i];
            if m.page == page {
                assert(self.entries()[i as int].frame % 4096 == 0);
                return Some(m.frame + addr % PAGE_SIZE);
            }
            i = i + 1;
        }
        None
    }
}

} // verus!
