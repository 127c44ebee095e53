use fractalloc::atomic::AtomicBumpAllocator;

#[test]
fn test_atomic_bump() {
    let memory = [0u8; 1024];
    let start = memory.as_ptr() as usize;
    let mut allocator = AtomicBumpAllocator::new(start, 1024);

    let ptr1 = allocator.allocate(16, 8).unwrap();
    assert_eq!(ptr1 % 8, 0);

    let ptr2 = allocator.allocate(16, 8).unwrap();
    assert_eq!(ptr2 % 8, 0);
    assert!(ptr2 >= ptr1 + 16);
}

#[test]
fn bump_blocks_are_aligned_and_disjoint_until_exhausted() {
    let mut allocator = AtomicBumpAllocator::new(1000, 100);
    let mut blocks = Vec::new();
    while let Some(addr) = allocator.allocate(16, 8) {
        assert_eq!(addr % 8, 0);
        assert!(addr >= 1000 && addr + 16 <= 1100);
        if let Some(last) = blocks.last() {
            assert!(addr >= *last + 16);
        }
        blocks.push(addr);
    }
    assert_eq!(blocks, vec![1000, 1016, 1032, 1048, 1064, 1080]);
    assert_eq!(allocator.allocate(16, 8), None);
    assert_eq!(allocator.allocate(16, 8), None);
    assert_eq!(allocator.allocate(4, 4), Some(1096));
}

#[test]
fn bump_rounds_the_cursor_up() {
    let mut allocator = AtomicBumpAllocator::new(3, 64);
    assert_eq!(allocator.allocate(5, 8), Some(8));
    assert_eq!(allocator.allocate(1, 1), Some(13));
    assert_eq!(allocator.allocate(8, 16), Some(16));
    assert_eq!(allocator.allocate(64, 1), None);
}
