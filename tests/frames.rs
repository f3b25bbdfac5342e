use kernel_memory::frame_allocator::{BootInfoFrameAllocator, MemoryRegion, MemoryRegionKind};

fn usable(start: u64, end: u64) -> MemoryRegion {
    MemoryRegion { start, end, kind: MemoryRegionKind::Usable }
}

fn other(start: u64, end: u64) -> MemoryRegion {
    MemoryRegion { start, end, kind: MemoryRegionKind::Other }
}

#[test]
fn frames_come_in_order_from_usable_regions() {
    let mut a = BootInfoFrameAllocator::init(vec![usable(0x100000, 0x200000)]);
    assert_eq!(a.allocate_frame(), Some(0x100000));
    assert_eq!(a.allocate_frame(), Some(0x101000));
    assert_eq!(a.allocate_frame(), Some(0x102000));
    assert_eq!(a.allocated(), 3);
}

#[test]
fn exhaustion_after_every_usable_frame() {
    let mut a = BootInfoFrameAllocator::init(vec![usable(0x100000, 0x200000)]);
    for i in 0..256u64 {
        assert_eq!(a.allocate_frame(), Some(0x100000 + i * 4096));
    }
    assert_eq!(a.allocate_frame(), None);
    assert_eq!(a.allocate_frame(), None);
    assert_eq!(a.allocated(), 256);
}

#[test]
fn no_usable_region_means_no_frame() {
    let mut a = BootInfoFrameAllocator::init(vec![other(0, 0x100000)]);
    assert_eq!(a.allocate_frame(), None);
    let mut empty = BootInfoFrameAllocator::init(Vec::new());
    assert_eq!(empty.allocate_frame(), None);
}

#[test]
fn other_regions_are_skipped_and_frames_are_distinct() {
    let mut a = BootInfoFrameAllocator::init(vec![
        usable(0x1000, 0x3000),
        other(0x3000, 0x8000),
        usable(0x8000, 0x9800),
    ]);
    let mut got = Vec::new();
    while let Some(f) = a.allocate_frame() {
        got.push(f);
    }
    assert_eq!(got, vec![0x1000, 0x2000, 0x8000, 0x9000]);
    for (i, x) in got.iter().enumerate() {
        assert_eq!(x % 4096, 0);
        for y in &got[i + 1..] {
            assert_ne!(x, y);
        }
    }
}

#[test]
fn region_with_unaligned_start_yields_containing_frames() {
    let mut a = BootInfoFrameAllocator::init(vec![usable(0x1800, 0x3000)]);
    assert_eq!(a.allocate_frame(), Some(0x1000));
    assert_eq!(a.allocate_frame(), Some(0x2000));
    assert_eq!(a.allocate_frame(), None);
}
