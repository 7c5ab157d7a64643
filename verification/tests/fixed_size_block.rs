use blog_os::allocator::fixed_size_block::FixedSizeBlockAllocator;

#[test]
fn block_sizes_form_the_ladder() {
    let expected: [usize; 9] = [8, 16, 32, 64, 128, 256, 512, 1024, 2048];
    for (i, &bs) in expected.iter().enumerate() {
        assert_eq!(FixedSizeBlockAllocator::block_size(i), bs);
    }
}

#[test]
fn choose_class_picks_the_smallest_fit() {
    assert_eq!(FixedSizeBlockAllocator::choose_class(1, 1), Some(0));
    assert_eq!(FixedSizeBlockAllocator::choose_class(8, 8), Some(0));
    assert_eq!(FixedSizeBlockAllocator::choose_class(9, 8), Some(1));
    assert_eq!(FixedSizeBlockAllocator::choose_class(100, 8), Some(4));
    assert_eq!(FixedSizeBlockAllocator::choose_class(2048, 1), Some(8));
    // Alignment alone can push the request into a bigger class.
    assert_eq!(FixedSizeBlockAllocator::choose_class(8, 64), Some(3));
    // Above the largest class no class fits.
    assert_eq!(FixedSizeBlockAllocator::choose_class(2049, 8), None);
}

#[test]
fn exact_fit_is_served_from_the_class_without_the_fallback() {
    let mut heap = FixedSizeBlockAllocator::new();
    heap.init(4096, 4096);
    assert_eq!(heap.fallback_allocations(), 0);

    // The class starts empty, so the first request carves from the fallback.
    let p = heap.allocate(64, 64).unwrap();
    assert_eq!(heap.fallback_allocations(), 1);

    heap.free(p, 64, 64);

    // The same request again: served from the class's list, same block,
    // and the fallback counter does not move.
    assert_eq!(heap.allocate(64, 64), Some(p));
    assert_eq!(heap.fallback_allocations(), 1);
}

#[test]
fn small_class_round_trip() {
    let mut heap = FixedSizeBlockAllocator::new();
    heap.init(4096, 4096);

    let p = heap.allocate(8, 8).unwrap();
    assert_eq!(heap.fallback_allocations(), 1);
    heap.free(p, 8, 8);
    assert_eq!(heap.allocate(8, 8), Some(p));
    assert_eq!(heap.fallback_allocations(), 1);
}

#[test]
fn oversized_requests_go_to_the_fallback() {
    let mut heap = FixedSizeBlockAllocator::new();
    heap.init(4096, 4096);

    let p = heap.allocate(3000, 8).unwrap();
    assert_eq!(p, 4096);
    assert_eq!(heap.fallback_allocations(), 1);

    heap.free(p, 3000, 8);

    // Freeing an oversized block goes back to the fallback too, and the
    // repeated request reaches the fallback again.
    assert_eq!(heap.allocate(3000, 8), Some(p));
    assert_eq!(heap.fallback_allocations(), 2);
}

#[test]
fn different_classes_get_different_blocks() {
    let mut heap = FixedSizeBlockAllocator::new();
    heap.init(4096, 4096);

    let a = heap.allocate(8, 8).unwrap();
    let b = heap.allocate(16, 8).unwrap();
    let c = heap.allocate(8, 8).unwrap();
    assert_ne!(a, b);
    assert_ne!(a, c);
    assert_ne!(b, c);

    // Each empty class carved its own block.
    assert_eq!(heap.fallback_allocations(), 3);
}

#[test]
fn capacity_exhaustion_fails_closed() {
    let mut heap = FixedSizeBlockAllocator::new();
    heap.init(4096, 256);

    // The window holds four 64-byte carves at most.
    assert!(heap.allocate(64, 64).is_some());
    assert!(heap.allocate(64, 64).is_some());
    assert!(heap.allocate(64, 64).is_some());
    assert!(heap.allocate(64, 64).is_some());
    assert!(heap.allocate(64, 64).is_none());
}
