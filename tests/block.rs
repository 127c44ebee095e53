use fractalloc::block::Block;
use std::mem::size_of;

#[test]
fn block_layout() {
    // A node is exactly one link: an address, which is pointer-sized.
    assert_eq!(size_of::<Block>(), size_of::<usize>());
}

#[test]
fn new_block_ends_its_list() {
    assert_eq!(Block::new().next, 0);
}
