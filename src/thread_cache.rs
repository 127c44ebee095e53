use vstd::prelude::*;
use crate::block::{empty_free_lists, stacks_of};
use crate::size_classes::{class_index_of, SizeClass, NUM_CLASSES};

verus! {

/// The free lists of one worker: one unsynchronized stack per size class.
struct ThreadLocalCache {
    free_lists: Vec<Vec<usize>>,
    alloc_count: usize,
}

impl ThreadLocalCache {
    fn new() -> (r: ThreadLocalCache)
        ensures
            stacks_of(r.free_lists@) == Seq::new(NUM_CLASSES as nat, |i: int| Seq::<usize>::empty()),
            r.alloc_count == 0,
    {
        ThreadLocalCache { free_lists: empty_free_lists(), alloc_count: 0 }
    }
}

/// The fast path of the allocator: blocks freed by one worker, kept for that
/// worker's next requests. Each worker owns its own cache, so no operation here
/// synchronizes; the cache has no bound on its depth and never spills back.
pub struct ThreadCache {
    cache: ThreadLocalCache,
}

impl ThreadCache {
    /// The cached block addresses, one stack per size class, top last.
    pub closed spec fn stacks(&self) -> Seq<Seq<usize>> {
        stacks_of(self.cache.free_lists@)
    }

    /// Number of requests served from the cache so far (wrapping).
    pub closed spec fn hits(&self) -> usize {
        self.cache.alloc_count
    }

    pub open spec fn wf(&self) -> bool {
        self.stacks().len() == NUM_CLASSES
    }

    /// A cache with every stack empty.
    pub fn new() -> (r: ThreadCache)
        ensures
            r.wf(),
            r.stacks() == Seq::new(NUM_CLASSES as nat, |i: int| Seq::<usize>::empty()),
            r.hits() == 0,
    {
        ThreadCache { cache: ThreadLocalCache::new() }
    }

    /// Pops the most recently cached block of the class that `size` maps to, or
    /// reports a miss (`None`, cache unchanged) when that stack is empty.
    pub fn allocate(&mut self, size: usize) -> (r: Option<usize>)
        requires
            old(self).wf(),
        ensures
            final(self).wf(),
            ({
                let c = class_index_of(size as nat) as int;
                let s = old(self).stacks()[c];
                if s.len() == 0 {
                    &&& r is None
                    &&& final(self).stacks() == old(self).stacks()
                    &&& final(self).hits() == old(self).hits()
                } else {
                    &&& r == Some(s.last())
                    &&& final(self).stacks() == old(self).stacks().update(c, s.drop_last())
                    &&& final(self).hits() == old(self).hits().wrapping_add(1)
                }
            }),
    {
        let index = SizeClass::from_size(size).index();
        if self.cache.free_lists[index].len() == 0 {
            return None;
        }
        let block = self.cache.free_lists[index].pop();
        self.cache.alloc_count = self.cache.alloc_count.wrapping_add(1);
        proof {
            assert(self.stacks() =~= old(self).stacks().update(
                index as int,
                old(self).stacks()[index as int].drop_last(),
            ));
        }
        block
    }

    /// Pushes the block at `addr` onto the stack of the class that `size` maps
    /// to; this always succeeds.
    pub fn deallocate(&mut self, addr: usize, size: usize) -> (r: bool)
        requires
            old(self).wf(),
        ensures
            r,
            final(self).wf(),
            ({
                let c = class_index_of(size as nat) as int;
                final(self).stacks() == old(self).stacks().update(c, old(self).stacks()[c].push(addr))
            }),
            final(self).hits() == old(self).hits(),
    {
        let index = SizeClass::from_size(size).index();
        self.cache.free_lists[index].push(addr);
        proof {
            assert(self.stacks() =~= old(self).stacks().update(
                index as int,
                old(self).stacks()[index as int].push(addr),
            ));
        }
        true
    }
}

} // verus!
