use kernel::heap::{Allocator, FreeBlock, HEAP_SIZE, HEAP_START};

fn ready() -> Allocator {
    let mut a = Allocator::new();
    a.init_self();
    a
}

fn free_total(a: &Allocator) -> u64 {
    a.free_blocks().iter().map(|b| b.size).sum()
}

#[test]
fn allocation_size_rounds_to_whole_headers_plus_one() {
    assert_eq!(Allocator::allocation_size(0), 32);
    assert_eq!(Allocator::allocation_size(1), 32);
    assert_eq!(Allocator::allocation_size(31), 32);
    assert_eq!(Allocator::allocation_size(32), 64);
    assert_eq!(Allocator::allocation_size(100), 128);
}

#[test]
fn new_allocator_has_no_memory() {
    let mut a = Allocator::new();
    assert!(a.is_exhausted());
    assert_eq!(a.allocate(8), None);
}

#[test]
fn init_hands_over_whole_heap() {
    let a = ready();
    assert_eq!(a.free_blocks(), vec![FreeBlock { addr: HEAP_START, size: HEAP_SIZE }]);
}

#[test]
fn allocations_are_carved_from_the_front() {
    let mut a = ready();
    assert_eq!(a.allocate(10), Some(HEAP_START));
    assert_eq!(a.allocate(40), Some(HEAP_START + 32));
    assert_eq!(a.allocate(0), Some(HEAP_START + 96));
    assert_eq!(free_total(&a), HEAP_SIZE - 128);
}

#[test]
fn too_large_request_fails_and_changes_nothing() {
    let mut a = ready();
    assert_eq!(a.allocate(HEAP_SIZE), None);
    assert_eq!(a.free_blocks(), vec![FreeBlock { addr: HEAP_START, size: HEAP_SIZE }]);
}

#[test]
fn exact_fit_removes_block() {
    let mut a = ready();
    assert_eq!(a.allocate(HEAP_SIZE - 32), Some(HEAP_START));
    assert!(a.is_exhausted());
    assert_eq!(a.allocate(0), None);
}

#[test]
fn freeing_everything_restores_one_block() {
    let mut a = ready();
    let p = a.allocate(8).unwrap();
    let q = a.allocate(8).unwrap();
    a.deallocate(p, 8);
    assert_eq!(
        a.free_blocks(),
        vec![
            FreeBlock { addr: HEAP_START, size: 32 },
            FreeBlock { addr: HEAP_START + 64, size: HEAP_SIZE - 64 },
        ]
    );
    a.deallocate(q, 8);
    assert_eq!(a.free_blocks(), vec![FreeBlock { addr: HEAP_START, size: HEAP_SIZE }]);
}

#[test]
fn freed_region_is_reused_by_first_fit() {
    let mut a = ready();
    let p = a.allocate(64).unwrap();
    let _q = a.allocate(64).unwrap();
    a.deallocate(p, 64);
    assert_eq!(a.allocate(64), Some(p));
}

#[test]
fn free_bytes_are_conserved() {
    let mut a = ready();
    let mut live = Vec::new();
    for s in [1u64, 50, 200, 31, 32, 1000] {
        live.push((a.allocate(s).unwrap(), s));
    }
    let used: u64 = live.iter().map(|(_, s)| Allocator::allocation_size(*s)).sum();
    assert_eq!(free_total(&a), HEAP_SIZE - used);
    for (p, s) in live.iter().rev().step_by(2) {
        a.deallocate(*p, *s);
    }
    for (p, s) in live.iter().step_by(2) {
        a.deallocate(*p, *s);
    }
    assert_eq!(free_total(&a), HEAP_SIZE);
}

#[test]
fn coalescing_after_frees() {
    let mut a = ready();
    let p0 = a.allocate(0).unwrap();
    let p1 = a.allocate(0).unwrap();
    let p2 = a.allocate(0).unwrap();
    let _p3 = a.allocate(0).unwrap();
    a.deallocate(p2, 0);
    a.deallocate(p0, 0);
    a.deallocate(p1, 0);
    assert_eq!(
        a.free_blocks(),
        vec![
            FreeBlock { addr: HEAP_START, size: 96 },
            FreeBlock { addr: HEAP_START + 128, size: HEAP_SIZE - 128 },
        ]
    );
    a.defragmentate();
    assert_eq!(free_total(&a), HEAP_SIZE - 32);
}

#[test]
fn allocate_single_box() {
    let mut a = ready();
    let p = a.allocate(4).unwrap();
    assert_eq!(p, HEAP_START);
    a.deallocate(p, 4);
    assert_eq!(a.free_blocks(), vec![FreeBlock { addr: HEAP_START, size: HEAP_SIZE }]);
}

#[test]
fn allocate_repeatedly() {
    let mut a = ready();
    for _ in 0..1_000 {
        let p = a.allocate(16_000).expect("heap exhausted");
        a.deallocate(p, 16_000);
    }
    assert_eq!(a.free_blocks(), vec![FreeBlock { addr: HEAP_START, size: HEAP_SIZE }]);
}

#[test]
fn allocate_vec_of_growing_sizes() {
    let mut a = ready();
    let mut live = Vec::new();
    let mut size = 8u64;
    while let Some(p) = a.allocate(size) {
        live.push((p, size));
        size *= 2;
    }
    assert!(size > 8);
    for (p, s) in live.into_iter().rev() {
        a.deallocate(p, s);
    }
    assert_eq!(a.free_blocks(), vec![FreeBlock { addr: HEAP_START, size: HEAP_SIZE }]);
}

fn no_block_touches_another(a: &Allocator) -> bool {
    let bs = a.free_blocks();
    bs.iter().all(|x| bs.iter().all(|y| x.addr + x.size != y.addr))
}

#[test]
fn allocations_are_aligned_to_headers() {
    let mut a = ready();
    for s in [1u64, 7, 33, 100, 5000, 0] {
        let p = a.allocate(s).unwrap();
        assert_eq!(p % 32, 0);
    }
}

#[test]
fn freeing_leaves_no_touching_blocks() {
    let mut a = ready();
    let ps: Vec<u64> = (0..8).map(|_| a.allocate(40).unwrap()).collect();
    for &i in &[1usize, 3, 5, 2, 7, 0, 6, 4] {
        a.deallocate(ps[i], 40);
        assert!(no_block_touches_another(&a));
    }
    assert_eq!(a.free_blocks(), vec![FreeBlock { addr: HEAP_START, size: HEAP_SIZE }]);
}

#[test]
fn region_in_use_tells_allocated_from_free() {
    let mut a = ready();
    let p = a.allocate(10).unwrap();
    assert!(a.region_in_use(p, 10));
    assert!(!a.region_in_use(p + 32, 10));
    a.deallocate(p, 10);
    assert!(!a.region_in_use(p, 10));
}

#[test]
fn defragmentate_leaves_a_settled_list_alone() {
    let mut a = ready();
    let p = a.allocate(100).unwrap();
    let _q = a.allocate(100).unwrap();
    a.deallocate(p, 100);
    let before = a.free_blocks();
    a.defragmentate();
    assert_eq!(a.free_blocks(), before);
}
