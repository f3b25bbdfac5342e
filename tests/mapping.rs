use kernel_memory::address_space::{AddressSpace, Mapping, MemoryError};
use kernel_memory::frame_allocator::{BootInfoFrameAllocator, MemoryRegion, MemoryRegionKind};
use kernel_memory::range_mapper::{
    map_address, map_pages_from, page_count, DEVICE_WINDOW_START, MAPPING_FLAGS,
};
use kernel_memory::scanner::{search_free_addr_from, FreeRunSearch, PageRange, SearchStep};

fn one_usable_region() -> BootInfoFrameAllocator {
    BootInfoFrameAllocator::init(vec![MemoryRegion {
        start: 0x100000,
        end: 0x200000,
        kind: MemoryRegionKind::Usable,
    }])
}

fn no_usable_region() -> BootInfoFrameAllocator {
    BootInfoFrameAllocator::init(vec![MemoryRegion {
        start: 0x100000,
        end: 0x200000,
        kind: MemoryRegionKind::Other,
    }])
}

fn space_with(pages: &[u64], frames: &mut BootInfoFrameAllocator) -> AddressSpace {
    let mut space = AddressSpace::new();
    for (i, p) in pages.iter().enumerate() {
        assert_eq!(space.map_to(*p, 0x1000 * (i as u64 + 1), MAPPING_FLAGS, frames), Ok(()));
    }
    space
}

#[test]
fn page_count_covers_touched_pages() {
    assert_eq!(page_count(0x101000, 8192), 2);
    assert_eq!(page_count(0x101000, 8193), 3);
    assert_eq!(page_count(0x100fff, 2), 2);
    assert_eq!(page_count(0x101000, 1), 1);
    assert_eq!(page_count(0x101000, 0), 1);
    assert_eq!(page_count(0x1000, 4096 * 5), 5);
}

#[test]
fn map_address_two_pages_in_device_window() {
    let mut frames = one_usable_region();
    let mut space = AddressSpace::new();
    let v = map_address(&mut space, &mut frames, 0x101000, 8192).unwrap();
    assert_eq!(v, DEVICE_WINDOW_START);
    assert_eq!(v % 4096, 0);
    assert_eq!(space.len(), 2);
    assert_eq!(space.entry(0), Mapping { page: v, frame: 0x101000, flags: 7 });
    assert_eq!(space.entry(1), Mapping { page: v + 4096, frame: 0x102000, flags: 7 });
    // one frame for each of the three intermediate tables
    assert_eq!(frames.allocated(), 3);
    assert_eq!(space.translate_addr(v + 0x10), Some(0x101010));
    assert_eq!(space.translate_addr(v + 4096 + 0xfff), Some(0x102fff));
    assert_eq!(space.translate_addr(v + 8192), None);
}

#[test]
fn map_address_keeps_the_byte_offset() {
    let mut frames = one_usable_region();
    let mut space = AddressSpace::new();
    let v = map_address(&mut space, &mut frames, 0x101234, 10).unwrap();
    assert_eq!(v % 4096, 0x234);
    assert_eq!(space.translate_addr(v), Some(0x101234));
    assert_eq!(space.len(), 1);
}

#[test]
fn map_address_spanning_a_boundary_takes_two_pages() {
    let mut frames = one_usable_region();
    let mut space = AddressSpace::new();
    let v = map_address(&mut space, &mut frames, 0x101ffe, 4).unwrap();
    assert_eq!(v % 4096, 0xffe);
    assert_eq!(space.len(), 2);
    assert_eq!(space.entry(1).frame, 0x102000);
}

#[test]
fn zero_length_still_maps_one_page() {
    let mut frames = one_usable_region();
    let mut space = AddressSpace::new();
    let v = map_address(&mut space, &mut frames, 0x105000, 0).unwrap();
    assert_eq!(v, DEVICE_WINDOW_START);
    assert_eq!(space.len(), 1);
}

#[test]
fn no_usable_frames_aborts_at_allocation() {
    let mut frames = no_usable_region();
    assert_eq!(frames.allocate_frame(), None);
    let mut space = AddressSpace::new();
    assert_eq!(map_address(&mut space, &mut frames, 0x101000, 8192), Err(MemoryError::Exhausted));
    assert_eq!(space.len(), 0);
}

#[test]
fn second_mapping_uses_fresh_pages() {
    let mut frames = one_usable_region();
    let mut space = AddressSpace::new();
    let v1 = map_address(&mut space, &mut frames, 0x101000, 8192).unwrap();
    let v2 = map_address(&mut space, &mut frames, 0x101000, 8192).unwrap();
    assert_eq!(v2, v1 + 2 * 4096);
    assert_eq!(space.len(), 4);
    assert_eq!(space.entry(0), Mapping { page: v1, frame: 0x101000, flags: 7 });
    assert_eq!(space.entry(2), Mapping { page: v2, frame: 0x101000, flags: 7 });
    // the tables exist already: no further frame is taken
    assert_eq!(frames.allocated(), 3);
}

#[test]
fn installing_over_a_mapped_page_is_refused() {
    let mut frames = one_usable_region();
    let mut space = AddressSpace::new();
    assert_eq!(space.map_to(0x5000, 0x101000, MAPPING_FLAGS, &mut frames), Ok(()));
    assert_eq!(
        space.map_to(0x5000, 0x109000, MAPPING_FLAGS, &mut frames),
        Err(MemoryError::AlreadyMapped(0x5000))
    );
    assert_eq!(space.len(), 1);
    assert_eq!(space.translate_addr(0x5000), Some(0x101000));
}

#[test]
fn scanner_finds_first_free_run() {
    let mut frames = one_usable_region();
    let space = space_with(&[0x2000, 0x4000, 0x5000], &mut frames);
    let window = PageRange { start: 0x1000, end: 0x10000 };
    assert_eq!(search_free_addr_from(&space, 1, window), Some(0x1000));
    assert_eq!(search_free_addr_from(&space, 2, window), Some(0x6000));
    assert_eq!(search_free_addr_from(&space, 10, window), Some(0x6000));
    assert_eq!(search_free_addr_from(&space, 11, window), None);
    assert_eq!(search_free_addr_from(&space, 0, window), Some(0x1000));
}

#[test]
fn scanner_never_uses_the_null_page() {
    let frames_space = AddressSpace::new();
    let window = PageRange { start: 0, end: 0x4000 };
    assert_eq!(search_free_addr_from(&frames_space, 1, window), Some(0x1000));
    assert_eq!(search_free_addr_from(&frames_space, 3, window), Some(0x1000));
    assert_eq!(search_free_addr_from(&frames_space, 4, window), None);
}

#[test]
fn window_without_room_is_out_of_virtual_memory() {
    let mut frames = one_usable_region();
    let mut space = space_with(&[0x2000], &mut frames);
    let window = PageRange { start: 0x1000, end: 0x4000 };
    assert_eq!(
        map_pages_from(&mut space, &mut frames, 0x101000, 8192, window),
        Err(MemoryError::OutOfVirtualMemory)
    );
    assert_eq!(space.len(), 1);
    let v = map_pages_from(&mut space, &mut frames, 0x101000, 4096, window).unwrap();
    assert_eq!(v, 0x1000);
}

#[test]
fn stepwise_search_follows_probe_answers() {
    let mut search = FreeRunSearch::new(2, PageRange { start: 0x1000, end: 0x5000 });
    assert_eq!(search.next_step(), SearchStep::Probe(0x1000));
    search.record(false);
    assert_eq!(search.next_step(), SearchStep::Probe(0x2000));
    search.record(true);
    assert_eq!(search.next_step(), SearchStep::Probe(0x3000));
    search.record(false);
    assert_eq!(search.next_step(), SearchStep::Probe(0x4000));
    search.record(false);
    assert_eq!(search.next_step(), SearchStep::Found(0x3000));

    let mut short = FreeRunSearch::new(2, PageRange { start: 0x1000, end: 0x3000 });
    short.record(true);
    short.record(false);
    assert_eq!(short.next_step(), SearchStep::NotFound);
}
