use fractalloc::size_classes::SizeClass;
use fractalloc::thread_cache::ThreadCache;
use fractalloc::{page_span, FractalAllocator, PAGE_SIZE};

/// Serves `size` bytes, handing the allocator a fresh page from `next_page`
/// whenever it has no free block of the class.
fn allocate_or_mint(allocator: &mut FractalAllocator, size: usize, next_page: &mut usize) -> usize {
    if let Some(addr) = allocator.allocate(size) {
        return addr;
    }
    let class = SizeClass::from_size(size).index();
    let page = *next_page;
    *next_page += page_span(class);
    allocator.allocate_new_page(class, page).unwrap()
}

#[test]
fn basic_allocation() {
    let mut allocator = FractalAllocator::new();
    let mut memory = vec![0u8; 2 * PAGE_SIZE];
    let start = memory.as_ptr() as usize;
    let page = (start + PAGE_SIZE - 1) / PAGE_SIZE * PAGE_SIZE;

    assert_eq!(allocator.allocate(64), None);
    let class = SizeClass::from_size(64).index();
    let ptr = allocator.allocate_new_page(class, page).unwrap();
    assert!(ptr != 0);

    let offset = ptr - start;
    memory[offset] = 42;
    assert_eq!(memory[offset], 42);

    allocator.deallocate(ptr, 64);
}

#[test]
fn fresh_page_of_the_smallest_class() {
    let mut allocator = FractalAllocator::new();
    assert_eq!(page_span(0), PAGE_SIZE);
    assert_eq!(allocator.allocate(8), None);
    let ptr = allocator.allocate_new_page(0, 0x10000).unwrap();
    assert_eq!(ptr, 0x10000);
    assert_eq!(ptr % 8, 0);
    // The rest of the page is on the global list, handed out in ascending order.
    assert_eq!(allocator.allocate(8), Some(0x10008));
    assert_eq!(allocator.allocate(8), Some(0x10010));
    for k in 3..512 {
        assert_eq!(allocator.allocate(8), Some(0x10000 + 8 * k));
    }
    assert_eq!(allocator.allocate(8), None);
}

#[test]
fn refused_pages_change_nothing() {
    let mut allocator = FractalAllocator::new();
    assert_eq!(allocator.allocate_new_page(0, 0), None);
    assert_eq!(allocator.allocate_new_page(0, usize::MAX - 100), None);
    assert_eq!(allocator.allocate(8), None);
}

#[test]
fn large_classes_take_one_block_per_page() {
    let mut allocator = FractalAllocator::new();
    let class = SizeClass::from_size(10000).index();
    assert_eq!(SizeClass::from_index(class).size(), 12288);
    assert_eq!(page_span(class), 12288);
    assert_eq!(allocator.allocate_new_page(class, 0x40000), Some(0x40000));
    assert_eq!(allocator.allocate(10000), None);
}

#[test]
fn round_trip_reuses_the_freed_block() {
    let mut allocator = FractalAllocator::new();
    let mut next_page = 0x100000;
    let keep = allocate_or_mint(&mut allocator, 64, &mut next_page);
    let first = allocate_or_mint(&mut allocator, 64, &mut next_page);
    assert_ne!(first, keep);
    allocator.deallocate(first, 64);
    let second = allocate_or_mint(&mut allocator, 64, &mut next_page);
    assert_eq!(second, first);
    let third = allocate_or_mint(&mut allocator, 64, &mut next_page);
    assert!(third != keep && third != second);
}

#[test]
fn live_allocations_never_overlap() {
    let sizes: [usize; 6] = [8, 16, 32, 64, 128, 256];
    let mut allocator = FractalAllocator::new();
    let mut next_page = 0x100000;
    let mut live: Vec<(usize, usize)> = Vec::new();
    let mut seed: u64 = 12345;
    for round in 0..2 {
        for i in 0..1000 {
            let size = sizes[(i + round) % sizes.len()];
            let addr = allocate_or_mint(&mut allocator, size, &mut next_page);
            let span = SizeClass::from_size(size).size();
            for &(other, other_span) in live.iter() {
                assert!(addr + span <= other || other + other_span <= addr);
            }
            live.push((addr, span));
        }
        for i in (1..live.len()).rev() {
            seed = seed.wrapping_mul(6364136223846793005).wrapping_add(1442695040888963407);
            let j = (seed >> 33) as usize % (i + 1);
            live.swap(i, j);
        }
        for (addr, span) in live.drain(..) {
            allocator.deallocate(addr, span);
        }
    }
}

#[test]
fn thread_cache_is_last_in_first_out() {
    let mut cache = ThreadCache::new();
    assert_eq!(cache.allocate(16), None);
    assert!(cache.deallocate(0x1000, 16));
    assert!(cache.deallocate(0x2000, 12));
    assert_eq!(cache.allocate(32), None);
    assert_eq!(cache.allocate(16), Some(0x2000));
    assert_eq!(cache.allocate(9), Some(0x1000));
    assert_eq!(cache.allocate(16), None);
}

#[test]
fn cache_is_served_before_the_global_list() {
    let mut allocator = FractalAllocator::new();
    assert_eq!(allocator.allocate_new_page(1, 0x8000), Some(0x8000));
    allocator.deallocate(0x9000, 16);
    assert_eq!(allocator.allocate(16), Some(0x9000));
    assert_eq!(allocator.allocate(16), Some(0x8010));
    assert_eq!(allocator.allocate_from_size_class(1), Some(0x8020));
}
