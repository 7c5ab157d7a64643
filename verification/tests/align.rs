use blog_os::allocator::align_up;

#[test]
fn align_up_already_aligned() {
    assert_eq!(align_up(0, 1), 0);
    assert_eq!(align_up(0, 4096), 0);
    assert_eq!(align_up(16, 8), 16);
    assert_eq!(align_up(4096, 4096), 4096);
}

#[test]
fn align_up_rounds_to_next_multiple() {
    assert_eq!(align_up(1, 1), 1);
    assert_eq!(align_up(13, 8), 16);
    assert_eq!(align_up(17, 16), 32);
    assert_eq!(align_up(4097, 4096), 8192);
}

#[test]
fn align_up_stays_within_one_step() {
    let cases: [(usize, usize); 6] = [(0, 8), (5, 8), (100, 16), (1023, 1024), (1025, 1024), (77, 2)];
    for (addr, align) in cases {
        let r = align_up(addr, align);
        assert!(r >= addr);
        assert_eq!(r % align, 0);
        assert!(r - addr < align);
    }
}
