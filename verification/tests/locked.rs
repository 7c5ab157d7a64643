use blog_os::allocator::Locked;
use blog_os::allocator::bump::BumpAllocator;
use blog_os::allocator::fixed_size_block::FixedSizeBlockAllocator;

#[test]
fn locked_checkout_and_checkin() {
    let mut bump = BumpAllocator::new();
    bump.init(4096, 4096);
    let locked = Locked::new(bump);

    let (mut heap, guard) = locked.lock();
    assert_eq!(heap.allocate(8, 8), Some(4096));
    guard.unlock(heap);

    // The state survives across lock sessions.
    let (mut heap, guard) = locked.lock();
    assert_eq!(heap.allocate(8, 8), Some(4104));
    guard.unlock(heap);
}

#[test]
fn locked_wraps_the_segregated_allocator() {
    let mut inner = FixedSizeBlockAllocator::new();
    inner.init(4096, 4096);
    let locked = Locked::new(inner);

    let (mut heap, guard) = locked.lock();
    let p = heap.allocate(64, 64).unwrap();
    heap.free(p, 64, 64);
    assert_eq!(heap.allocate(64, 64), Some(p));
    assert_eq!(heap.fallback_allocations(), 1);
    guard.unlock(heap);
}
