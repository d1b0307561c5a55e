use kernel::slab::{block_size, get_block_index, SlabAllocator, NUM_BLOCK_SIZES};

#[test]
fn block_sizes_are_powers_of_two_from_8_to_2048() {
    let sizes: Vec<u64> = (0..NUM_BLOCK_SIZES).map(block_size).collect();
    assert_eq!(sizes, vec![8, 16, 32, 64, 128, 256, 512, 1024, 2048]);
}

#[test]
fn block_index_uses_larger_of_size_and_alignment() {
    assert_eq!(get_block_index(0, 1), Some(0));
    assert_eq!(get_block_index(1, 1), Some(0));
    assert_eq!(get_block_index(8, 8), Some(0));
    assert_eq!(get_block_index(9, 1), Some(1));
    assert_eq!(get_block_index(16, 32), Some(2));
    assert_eq!(get_block_index(100, 8), Some(4));
    assert_eq!(get_block_index(2048, 8), Some(8));
    assert_eq!(get_block_index(2049, 1), None);
    assert_eq!(get_block_index(8, 4096), None);
}

#[test]
fn empty_lists_send_requests_to_fallback() {
    let mut s = SlabAllocator::new();
    assert_eq!(s.allocate(8, 8), None);
    assert_eq!(s.allocate(4096, 8), None);
}

#[test]
fn freed_blocks_are_reused_last_in_first_out() {
    let mut s = SlabAllocator::new();
    assert!(s.deallocate(0x1000, 64, 8));
    assert!(s.deallocate(0x2000, 60, 4));
    assert_eq!(s.blocks(3), vec![0x2000, 0x1000]);
    assert_eq!(s.allocate(33, 1), Some(0x2000));
    assert_eq!(s.allocate(64, 64), Some(0x1000));
    assert_eq!(s.allocate(64, 64), None);
    assert_eq!(s.allocate(8, 8), None);
}

#[test]
fn large_blocks_belong_to_fallback() {
    let mut s = SlabAllocator::new();
    assert!(!s.deallocate(0x5000, 4096, 8));
    for i in 0..NUM_BLOCK_SIZES {
        assert!(s.blocks(i).is_empty());
    }
}

#[test]
fn block_level_operations() {
    let mut s = SlabAllocator::new();
    s.dealloc_block(0x40, 2);
    assert_eq!(s.alloc_block(2), Some(0x40));
    assert_eq!(s.alloc_block(2), None);
}

#[test]
fn defragment_returns_every_block() {
    let mut s = SlabAllocator::new();
    s.deallocate(0x100, 8, 8);
    s.deallocate(0x200, 8, 8);
    s.deallocate(0x300, 2000, 8);
    s.deallocate(0x400, 20, 4);
    let out = s.defragment();
    assert_eq!(out, vec![(0x200, 8), (0x100, 8), (0x400, 32), (0x300, 2048)]);
    for i in 0..NUM_BLOCK_SIZES {
        assert!(s.blocks(i).is_empty());
    }
    assert!(s.defragment().is_empty());
}
