use blog_os::allocator::bump::BumpAllocator;

#[test]
fn sequential_allocations_increase_and_align() {
    let mut bump = BumpAllocator::new();
    bump.init(0x1000, 0x1000);

    let a1 = bump.allocate(8, 8).unwrap();
    let a2 = bump.allocate(5, 1).unwrap();
    let a3 = bump.allocate(16, 16).unwrap();

    assert_eq!(a1, 0x1000);
    assert_eq!(a2, 0x1008);
    assert_eq!(a3, 0x1010);

    // Strictly increasing, non-overlapping, correctly aligned.
    assert!(a1 + 8 <= a2);
    assert!(a2 + 5 <= a3);
    assert_eq!(a1 % 8, 0);
    assert_eq!(a3 % 16, 0);
}

#[test]
fn freeing_fewer_never_resets_the_cursor() {
    let mut bump = BumpAllocator::new();
    bump.init(0x1000, 0x1000);

    bump.allocate(8, 8).unwrap();
    bump.allocate(8, 8).unwrap();
    bump.allocate(8, 8).unwrap();
    bump.free(0x1000, 8, 8);
    bump.free(0x1008, 8, 8);

    // One allocation is still outstanding, so the cursor has not moved back.
    let next = bump.allocate(8, 8).unwrap();
    assert_eq!(next, 0x1018);
}

#[test]
fn freeing_all_resets_the_cursor() {
    let mut bump = BumpAllocator::new();
    bump.init(0x1000, 0x1000);

    let a1 = bump.allocate(8, 8).unwrap();
    bump.allocate(8, 8).unwrap();
    bump.free(0x1008, 8, 8);
    bump.free(0x1000, 8, 8);

    // Everything was freed, so the whole window is reclaimed.
    let again = bump.allocate(8, 8).unwrap();
    assert_eq!(again, a1);
}

#[test]
fn allocation_fails_when_the_window_is_exhausted() {
    let mut bump = BumpAllocator::new();
    bump.init(0x1000, 64);

    assert!(bump.allocate(48, 8).is_some());
    assert!(bump.allocate(32, 8).is_none());
    assert!(bump.allocate(16, 8).is_some());
    assert!(bump.allocate(1, 1).is_none());
}

#[test]
fn end_to_end_reclaims_the_region() {
    let mut bump = BumpAllocator::new();
    bump.init(4096, 4096);

    // One hundred 8-byte blocks: all succeed, distinct, in range.
    let mut blocks: Vec<usize> = Vec::new();
    for _ in 0..100 {
        let p = bump.allocate(8, 8).unwrap();
        assert!(p >= 4096 && p + 8 <= 8192);
        assert!(!blocks.contains(&p));
        blocks.push(p);
    }

    // Free all one hundred; the whole window is reclaimed.
    for p in blocks {
        bump.free(p, 8, 8);
    }

    // Fifty 64-byte blocks now fit in the reclaimed space.
    for _ in 0..50 {
        assert!(bump.allocate(64, 8).is_some());
    }

    // A final oversized request fails: capacity is exhausted.
    assert!(bump.allocate(5000, 8).is_none());
}
