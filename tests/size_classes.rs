use fractalloc::size_classes::SizeClass;

#[test]
fn test_size_classes() {
    let sizes = [(8, 0), (16, 1), (24, 2), (32, 3), (64, 4)];

    for (size, expected_index) in sizes {
        let size_class = SizeClass::from_size(size);
        assert_eq!(size_class.index(), expected_index);
        assert!(size_class.size() >= size);
    }
}

#[test]
fn class_sizes_follow_the_bands() {
    let expected: [usize; 8] = [8, 16, 24, 32, 64, 128, 192, 256];
    for (index, size) in expected.iter().enumerate() {
        assert_eq!(SizeClass::from_index(index).size(), *size);
    }
    assert_eq!(SizeClass::from_index(8).size(), 512);
    assert_eq!(SizeClass::from_index(31).size(), 67108864);
}

#[test]
fn derived_class_is_the_smallest_that_fits() {
    for n in 1..=4096usize {
        let class = SizeClass::from_size(n);
        assert!(class.size() >= n);
        if class.index() > 0 {
            assert!(SizeClass::from_index(class.index() - 1).size() < n);
        }
    }
    assert_eq!(SizeClass::from_size(1).index(), 0);
    assert_eq!(SizeClass::from_size(9).index(), 1);
    assert_eq!(SizeClass::from_size(33).index(), 4);
    assert_eq!(SizeClass::from_size(65).index(), 5);
}

#[test]
fn derivation_is_monotonic() {
    let mut previous = 0usize;
    for n in 0..=20000usize {
        let index = SizeClass::from_size(n).index();
        assert!(index >= previous);
        previous = index;
    }
}

#[test]
fn oversized_requests_saturate_at_the_last_class() {
    let class = SizeClass::from_size(usize::MAX);
    assert_eq!(class.index(), 31);
    assert_eq!(class.size(), 67108864);
    assert_eq!(SizeClass::from_size(67108865).index(), 31);
    assert_eq!(SizeClass::from_index(100).index(), 31);
    assert_eq!(SizeClass::from_size(0).index(), 0);
}
