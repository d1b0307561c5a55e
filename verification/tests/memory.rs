use kernel::heap::HEAP_START;
use kernel::memory::{heap_pages, MemoryRegion, PhysicalMemoryAllocator};

fn region(start: u64, end: u64, usable: bool) -> MemoryRegion {
    MemoryRegion { start, end, usable }
}

#[test]
fn frames_come_from_usable_regions_in_order() {
    let map = vec![
        region(0, 0x3000, true),
        region(0x3000, 0x5000, false),
        region(0x10000, 0x12000, true),
    ];
    let mut a = PhysicalMemoryAllocator::new(map);
    let got: Vec<Option<u64>> = (0..6).map(|_| a.allocate_frame()).collect();
    assert_eq!(
        got,
        vec![Some(0), Some(0x1000), Some(0x2000), Some(0x10000), Some(0x11000), None]
    );
    assert_eq!(a.allocate_frame(), None);
}

#[test]
fn unaligned_region_steps_from_its_start() {
    let mut a = PhysicalMemoryAllocator::new(vec![region(0x1800, 0x3800, true)]);
    assert_eq!(a.allocate_frame(), Some(0x1000));
    assert_eq!(a.allocate_frame(), Some(0x2000));
    assert_eq!(a.allocate_frame(), None);
}

#[test]
fn empty_and_reserved_regions_give_nothing() {
    let a = PhysicalMemoryAllocator::new(vec![region(0x5000, 0x5000, true), region(0, 0x9000, false)]);
    assert_eq!(a.nth_usable_frame(0), None);
}

#[test]
fn nth_usable_frame_skips_regions() {
    let a = PhysicalMemoryAllocator::new(vec![region(0x1000, 0x2001, true), region(0x8000, 0x9000, true)]);
    assert_eq!(a.nth_usable_frame(0), Some(0x1000));
    assert_eq!(a.nth_usable_frame(1), Some(0x2000));
    assert_eq!(a.nth_usable_frame(2), Some(0x8000));
    assert_eq!(a.nth_usable_frame(3), None);
}

#[test]
fn heap_is_backed_by_25_pages() {
    let pages = heap_pages();
    assert_eq!(pages.len(), 25);
    assert_eq!(pages[0], HEAP_START);
    assert_eq!(pages[24], HEAP_START + 24 * 4096);
    assert!(pages.windows(2).all(|w| w[1] == w[0] + 4096));
}

#[test]
fn frames_handed_out_counts_calls() {
    let mut a = PhysicalMemoryAllocator::new(vec![region(0, 0x1000, true)]);
    assert_eq!(a.frames_handed_out(), 0);
    a.allocate_frame();
    a.allocate_frame();
    assert_eq!(a.frames_handed_out(), 2);
}
