use vstd::prelude::*;
use crate::size_classes::NUM_CLASSES;

verus! {

/// A free-list node: the link stored at the start of a free block, naming the
/// next free block of the same list by its address (0 ends the list).
pub struct Block {
    pub next: usize,
}

impl Block {
    /// A node that ends its list.
    pub fn new() -> (r: Block)
        ensures
            r.next == 0,
    {
        Block { next: 0 }
    }
}

/// The contents of a set of free lists: one stack of block addresses per size
/// class, the top of each stack last.
pub open spec fn stacks_of(lists: Seq<Vec<usize>>) -> Seq<Seq<usize>> {
    lists.map_values(|l: Vec<usize>| l@)
}

/// One empty stack per size class.
pub fn empty_free_lists() -> (r: Vec<Vec<usize>>)
    ensures
        stacks_of(r@) == Seq::new(NUM_CLASSES as nat, |i: int| Seq::<usize>::empty()),
{
    let mut lists: Vec<Vec<usize>> = Vec::new();
    let mut i: usize = 0;
    while i < NUM_CLASSES
        invariant
            i <= NUM_CLASSES,
            lists@.len() == i,
            stacks_of(lists@) == Seq::new(i as nat, |k: int| Seq::<usize>::empty()),
        decreases NUM_CLASSES - i,
    {
        let ghost prev = lists@;
        let empty: Vec<usize> = Vec::new();
        lists.push(empty);
        i = i + 1;
        assert forall|k: int| 0 <= k < i implies stacks_of(lists@)[k] == Seq::<usize>::empty() by {
            if k < i - 1 {
                assert(lists@[k] == prev[k]);
                assert(stacks_of(prev)[k] == prev[k]@);
            }
        }
        assert(stacks_of(lists@) =~= Seq::new(i as nat, |k: int| Seq::<usize>::empty()));
    }
    lists
}

} // verus!
