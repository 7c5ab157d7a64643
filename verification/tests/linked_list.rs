use blog_os::allocator::linked_list::{LinkedListAllocator, ListNode};

#[test]
fn list_node_records_its_span() {
    let node = ListNode::new(4096, 64);
    assert_eq!(node.start_addr(), 4096);
    assert_eq!(node.end_addr(), 4160);
}

#[test]
fn size_align_pads_for_the_record() {
    // Raised to the record alignment and size.
    assert_eq!(LinkedListAllocator::size_align(10, 8), (16, 16));
    // Padded up to the raised alignment.
    assert_eq!(LinkedListAllocator::size_align(100, 8), (112, 16));
    // A large alignment carries through.
    assert_eq!(LinkedListAllocator::size_align(8, 32), (32, 32));
    assert_eq!(LinkedListAllocator::size_align(0, 1), (16, 16));
}

#[test]
fn alloc_from_region_checks_fit_and_leftover() {
    let node = ListNode::new(4096, 64);
    // Fits, with a reusable 32-byte tail.
    assert_eq!(LinkedListAllocator::alloc_from_region(&node, 32, 16), Ok(4096));
    // Fits exactly.
    assert_eq!(LinkedListAllocator::alloc_from_region(&node, 64, 16), Ok(4096));
    // Would leave a 4-byte sliver that cannot host a record.
    assert_eq!(LinkedListAllocator::alloc_from_region(&node, 60, 16), Err(()));
    // Too big for the region.
    assert_eq!(LinkedListAllocator::alloc_from_region(&node, 128, 16), Err(()));
}

#[test]
fn find_region_takes_the_first_fit() {
    let mut heap = LinkedListAllocator::new();
    heap.init(4096, 64);
    heap.add_free_region(8192, 64);

    // The most recently added region is searched first.
    let (node, start) = heap.find_region(64, 16).unwrap();
    assert_eq!(node.start_addr(), 8192);
    assert_eq!(start, 8192);

    let (node, start) = heap.find_region(64, 16).unwrap();
    assert_eq!(node.start_addr(), 4096);
    assert_eq!(start, 4096);

    assert!(heap.find_region(16, 16).is_none());
}

#[test]
fn allocate_fails_closed_when_nothing_fits() {
    let mut heap = LinkedListAllocator::new();
    assert!(heap.allocate(8, 8).is_none());

    heap.init(4096, 4096);
    assert!(heap.allocate(8192, 8).is_none());
    // The failed request left the heap intact.
    assert_eq!(heap.allocate(4096, 8), Some(4096));
}

#[test]
fn round_trip_loses_no_capacity() {
    let mut heap = LinkedListAllocator::new();
    heap.init(4096, 4096);

    let p = heap.allocate(100, 8).unwrap();
    assert_eq!(p, 4096);
    heap.free(p, 100, 8);

    // The same request succeeds again, at the same address.
    assert_eq!(heap.allocate(100, 8), Some(p));
}

#[test]
fn splitting_leaves_a_usable_residual_region() {
    let mut heap = LinkedListAllocator::new();
    heap.init(4096, 4096);

    // Pad to 64 bytes; the remaining 4032 bytes become a new free region.
    let p = heap.allocate(64, 64).unwrap();
    assert_eq!(p, 4096);

    // The residual region serves a request that fills it exactly.
    assert_eq!(heap.allocate(4032, 8), Some(4160));

    // Nothing is left now.
    assert!(heap.allocate(16, 8).is_none());
}

#[test]
fn live_blocks_never_overlap() {
    let mut heap = LinkedListAllocator::new();
    heap.init(4096, 4096);

    let mut live: Vec<(usize, usize)> = Vec::new();
    let sizes: [usize; 6] = [100, 32, 200, 16, 48, 64];
    for size in sizes {
        let p = heap.allocate(size, 8).unwrap();
        let (padded, _) = LinkedListAllocator::size_align(size, 8);
        for &(q, qsize) in &live {
            assert!(p + padded <= q || q + qsize <= p);
        }
        live.push((p, padded));
    }

    // Free two in the middle and allocate again; still no overlap.
    let (p, _) = live.remove(2);
    heap.free(p, 200, 8);
    let (p, _) = live.remove(3);
    heap.free(p, 48, 8);
    for size in [120usize, 40] {
        let p = heap.allocate(size, 8).unwrap();
        let (padded, _) = LinkedListAllocator::size_align(size, 8);
        for &(q, qsize) in &live {
            assert!(p + padded <= q || q + qsize <= p);
        }
        live.push((p, padded));
    }
}
