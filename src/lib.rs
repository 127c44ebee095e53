use vstd::prelude::*;

pub mod accounting;
pub mod atomic;
pub mod block;
pub mod metrics;
pub mod size_classes;
pub mod thread_cache;

use crate::block::{empty_free_lists, stacks_of};
use crate::size_classes::{
    class_index_of,
    class_size,
    lemma_band_base_pos,
    SizeClass,
    MAX_CLASS_INDEX,
    NUM_CLASSES,
};
use crate::thread_cache::ThreadCache;

verus! {

/// Conventional size of a page taken from the operating system.
pub const PAGE_SIZE: usize = 4096;

/// Bytes to request from the operating system for a fresh page of class `c`:
/// one page, or one block where a block of the class is larger than a page.
pub open spec fn page_span_of(c: nat) -> nat {
    if class_size(c) > PAGE_SIZE {
        class_size(c)
    } else {
        PAGE_SIZE as nat
    }
}

/// Number of blocks of class `c` that one fresh page is sliced into.
pub open spec fn blocks_per_page(c: nat) -> nat {
    page_span_of(c) / class_size(c)
}

/// The blocks of a fresh page at `page` other than the first, in the order they
/// are pushed onto the class's free list: highest address first, so that later
/// pops hand them out in ascending order.
pub open spec fn page_remainder(page: nat, c: nat) -> Seq<usize> {
    let n = blocks_per_page(c);
    Seq::new((n - 1) as nat, |j: int| (page + (n - 1 - j) * class_size(c)) as usize)
}

pub proof fn lemma_class_size_bounds(c: nat)
    requires
        c <= MAX_CLASS_INDEX,
    ensures
        8 <= class_size(c) <= 16777216 * 4,
{
    reveal_with_fuel(crate::size_classes::band_base, 8);
    lemma_band_base_pos(c / 4);
    assert(class_size(c) <= 16777216 * 4) by (nonlinear_arith)
        requires
            class_size(c) == crate::size_classes::band_base(c / 4) * ((c % 4) + 1),
            crate::size_classes::band_base(c / 4) <= 16777216,
            (c % 4) + 1 <= 4,
    {
    }
    assert(class_size(c) >= 8) by (nonlinear_arith)
        requires
            class_size(c) == crate::size_classes::band_base(c / 4) * ((c % 4) + 1),
            crate::size_classes::band_base(c / 4) >= 8,
            (c % 4) + 1 >= 1,
    {
    }
}

/// The blocks carved from one fresh page do not overlap: each block after the
/// first lies past the first block and inside the page, and any two of them are
/// at least a block apart.
pub proof fn lemma_page_blocks_disjoint(page: nat, c: nat, j1: int, j2: int)
    requires
        c <= MAX_CLASS_INDEX,
        page + page_span_of(c) <= usize::MAX,
        0 <= j1 < page_remainder(page, c).len(),
        0 <= j2 < page_remainder(page, c).len(),
        j1 != j2,
    ensures
        ({
            let rest = page_remainder(page, c);
            let bs = class_size(c);
            &&& page + bs <= rest[j1]
            &&& rest[j1] + bs <= page + page_span_of(c)
            &&& rest[j1] + bs <= rest[j2] || rest[j2] + bs <= rest[j1]
        }),
{
    lemma_class_size_bounds(c);
    let bs = class_size(c);
    let span = page_span_of(c);
    let n = blocks_per_page(c);
    assert(n * bs <= span && n >= 1) by (nonlinear_arith)
        requires
            bs > 0,
            span >= bs,
            n == span / bs,
    {
    }
    let k1 = n - 1 - j1;
    let k2 = n - 1 - j2;
    assert(1 <= k1 < n && 1 <= k2 < n);
    assert(k1 * bs + bs <= span && k2 * bs + bs <= span && bs <= k1 * bs) by (nonlinear_arith)
        requires
            1 <= k1 < n,
            1 <= k2 < n,
            n * bs <= span,
            bs > 0,
    {
    }
    assert(k1 * bs + bs <= k2 * bs || k2 * bs + bs <= k1 * bs) by (nonlinear_arith)
        requires
            k1 != k2,
            bs > 0,
    {
    }
    let rest = page_remainder(page, c);
    assert(rest[j1] == page + k1 * bs);
    assert(rest[j2] == page + k2 * bs);
}

/// Each block of a fresh page after the first lies past the first block and
/// inside the page.
pub proof fn lemma_page_block_within(page: nat, c: nat, j: int)
    requires
        c <= MAX_CLASS_INDEX,
        page + page_span_of(c) <= usize::MAX,
        0 <= j < page_remainder(page, c).len(),
    ensures
        page + class_size(c) <= page_remainder(page, c)[j],
        page_remainder(page, c)[j] + class_size(c) <= page + page_span_of(c),
{
    lemma_class_size_bounds(c);
    let bs = class_size(c);
    let span = page_span_of(c);
    let n = blocks_per_page(c);
    assert(n * bs <= span && n >= 1) by (nonlinear_arith)
        requires
            bs > 0,
            span >= bs,
            n == span / bs,
    {
    }
    let k = n - 1 - j;
    assert(1 <= k < n);
    assert(k * bs + bs <= span && bs <= k * bs) by (nonlinear_arith)
        requires
            1 <= k < n,
            n * bs <= span,
            bs > 0,
    {
    }
    assert(page_remainder(page, c)[j] == page + k * bs);
}

/// Bytes to request from the operating system for a fresh page of `size_class`.
pub fn page_span(size_class: usize) -> (r: usize)
    requires
        size_class < NUM_CLASSES,
    ensures
        r == page_span_of(size_class as nat),
{
    proof {
        lemma_class_size_bounds(size_class as nat);
    }
    let block_size = SizeClass::from_index(size_class).size();
    if block_size > PAGE_SIZE {
        block_size
    } else {
        PAGE_SIZE
    }
}

/// The allocation engine: one global free list per size class, in front of
/// which sits the worker's thread cache. Blocks are named by address; fresh
/// pages come from the caller, which asks the operating system for them when
/// `allocate` finds no free block of the class.
///
/// Alignment is not enforced beyond a class's natural alignment within its
/// page: only the requested size selects the class.
pub struct FractalAllocator {
    free_lists: Vec<Vec<usize>>,
    thread_cache: ThreadCache,
}

impl FractalAllocator {
    /// The global free lists, one stack of block addresses per class, top last.
    pub closed spec fn global(&self) -> Seq<Seq<usize>> {
        stacks_of(self.free_lists@)
    }

    /// The thread cache's stacks, one per class, top last.
    pub closed spec fn cache(&self) -> Seq<Seq<usize>> {
        self.thread_cache.stacks()
    }

    pub open spec fn wf(&self) -> bool {
        &&& self.global().len() == NUM_CLASSES
        &&& self.cache().len() == NUM_CLASSES
    }

    /// What `allocate(size)` does, from this state to `next`, returning `r`:
    /// the top of the class's cached stack if any, else the top of its global
    /// list, else nothing, with the block taken off the stack it came from.
    pub open spec fn allocate_post(self, next: Self, size: usize, r: Option<usize>) -> bool {
        let c = class_index_of(size as nat) as int;
        let cached = self.cache()[c];
        let shared = self.global()[c];
        if cached.len() > 0 {
            &&& r == Some(cached.last())
            &&& next.cache() == self.cache().update(c, cached.drop_last())
            &&& next.global() == self.global()
        } else if shared.len() > 0 {
            &&& r == Some(shared.last())
            &&& next.cache() == self.cache()
            &&& next.global() == self.global().update(c, shared.drop_last())
        } else {
            &&& r is None
            &&& next.cache() == self.cache()
            &&& next.global() == self.global()
        }
    }

    /// What `deallocate(addr, size)` does, from this state to `next`: the block
    /// goes on top of its class's cached stack.
    pub open spec fn deallocate_post(self, next: Self, addr: usize, size: usize) -> bool {
        let c = class_index_of(size as nat) as int;
        &&& next.cache() == self.cache().update(c, self.cache()[c].push(addr))
        &&& next.global() == self.global()
    }

    /// An allocator whose free lists and cache are all empty.
    pub fn new() -> (r: FractalAllocator)
        ensures
            r.wf(),
            r.global() == Seq::new(NUM_CLASSES as nat, |i: int| Seq::<usize>::empty()),
            r.cache() == Seq::new(NUM_CLASSES as nat, |i: int| Seq::<usize>::empty()),
    {
        FractalAllocator { free_lists: empty_free_lists(), thread_cache: ThreadCache::new() }
    }

    fn size_class_index(size: usize) -> (r: usize)
        ensures
            r == class_index_of(size as nat),
            r < NUM_CLASSES,
    {
        SizeClass::from_size(size).index()
    }

    /// Pops the top block of the global free list of `size_class`, or `None`
    /// when that list is empty.
    pub fn allocate_from_size_class(&mut self, size_class: usize) -> (r: Option<usize>)
        requires
            old(self).wf(),
            size_class < NUM_CLASSES,
        ensures
            final(self).wf(),
            final(self).cache() == old(self).cache(),
            ({
                let s = old(self).global()[size_class as int];
                if s.len() == 0 {
                    &&& r is None
                    &&& final(self).global() == old(self).global()
                } else {
                    &&& r == Some(s.last())
                    &&& final(self).global() == old(self).global().update(
                        size_class as int,
                        s.drop_last(),
                    )
                }
            }),
    {
        if self.free_lists[size_class].len() == 0 {
            return None;
        }
        let block = self.free_lists[size_class].pop();
        proof {
            assert(self.global() =~= old(self).global().update(
                size_class as int,
                old(self).global()[size_class as int].drop_last(),
            ));
        }
        block
    }

    /// Slices the fresh page at `page` (as given by the operating system, 0 when
    /// it gave none) into blocks of `size_class`, hands out the first block and
    /// pushes the others onto the class's global free list. A page that is null,
    /// or that would run past the end of the address space, is refused with
    /// `None` and changes nothing.
    pub fn allocate_new_page(&mut self, size_class: usize, page: usize) -> (r: Option<usize>)
        requires
            old(self).wf(),
            size_class < NUM_CLASSES,
        ensures
            final(self).wf(),
            final(self).cache() == old(self).cache(),
            if page == 0 || page + page_span_of(size_class as nat) > usize::MAX {
                &&& r is None
                &&& final(self).global() == old(self).global()
            } else {
                &&& r == Some(page)
                &&& final(self).global() == old(self).global().update(
                    size_class as int,
                    old(self).global()[size_class as int] + page_remainder(
                        page as nat,
                        size_class as nat,
                    ),
                )
            },
    {
        let ghost c = size_class as nat;
        proof {
            lemma_class_size_bounds(c);
        }
        let block_size = SizeClass::from_index(size_class).size();
        let span = page_span(size_class);
        if page == 0 || page > usize::MAX - span {
            return None;
        }
        let count = span / block_size;
        assert(count >= 1 && count * block_size <= span) by (nonlinear_arith)
            requires
                span >= block_size,
                block_size > 0,
                count == span / block_size,
        {
        }
        let ghost rest = page_remainder(page as nat, c);
        let ghost base = old(self).global()[size_class as int];
        let mut k: usize = count - 1;
        while k > 0
            invariant
                self.wf(),
                old(self).wf(),
                self.cache() == old(self).cache(),
                size_class < NUM_CLASSES,
                block_size as nat == class_size(c),
                block_size >= 8,
                span as nat == page_span_of(c),
                count as nat == blocks_per_page(c),
                count * block_size <= span,
                page + span <= usize::MAX,
                rest == page_remainder(page as nat, c),
                base == old(self).global()[size_class as int],
                k < count,
                self.global() == old(self).global().update(
                    size_class as int,
                    base + rest.subrange(0, (count - 1 - k) as int),
                ),
            decreases k,
        {
            assert(k * block_size < span) by (nonlinear_arith)
                requires
                    k < count,
                    count * block_size <= span,
                    block_size > 0,
            {
            }
            let addr = page + k * block_size;
            let ghost before = self.global();
            self.free_lists[size_class].push(addr);
            proof {
                let j = (count - 1 - k) as int;
                let sc = size_class as int;
                assert(rest[j] == addr);
                assert(self.global() =~= before.update(sc, before[sc].push(addr)));
                assert(before[sc] == base + rest.subrange(0, j));
                assert(base + rest.subrange(0, j + 1) =~= (base + rest.subrange(0, j)).push(addr));
                assert(self.global() =~= old(self).global().update(
                    sc,
                    base + rest.subrange(0, j + 1),
                ));
            }
            k = k - 1;
        }
        proof {
            assert(rest.subrange(0, (count - 1) as int) =~= rest);
        }
        Some(page)
    }

    /// Serves a request of `size` bytes from the thread cache, else from the
    /// class's global free list. `None` means neither holds a block of the
    /// class: the caller then takes a fresh page and hands it to
    /// `allocate_new_page`.
    pub fn allocate(&mut self, size: usize) -> (r: Option<usize>)
        requires
            old(self).wf(),
        ensures
            final(self).wf(),
            old(self).allocate_post(*final(self), size, r),
    {
        let cached = self.thread_cache.allocate(size);
        if cached.is_some() {
            return cached;
        }
        let size_class = Self::size_class_index(size);
        self.allocate_from_size_class(size_class)
    }

    /// Returns the block at `addr`, allocated with the same `size`, to the
    /// thread cache, which always takes it.
    pub fn deallocate(&mut self, addr: usize, size: usize)
        requires
            old(self).wf(),
        ensures
            final(self).wf(),
            old(self).deallocate_post(*final(self), addr, size),
    {
        if self.thread_cache.deallocate(addr, size) {
            return;
        }
        let size_class = Self::size_class_index(size);
        self.free_lists[size_class].push(addr);
    }
}

/// Freeing a block and then asking for the same size hands that very block
/// back and leaves every free list as it was before the pair of calls.
pub proof fn lemma_free_then_allocate_reuses(
    s0: FractalAllocator,
    s1: FractalAllocator,
    s2: FractalAllocator,
    addr: usize,
    size: usize,
    r: Option<usize>,
)
    requires
        s0.wf(),
        s0.deallocate_post(s1, addr, size),
        s1.allocate_post(s2, size, r),
    ensures
        r == Some(addr),
        s2.cache() == s0.cache(),
        s2.global() == s0.global(),
{
    let c = class_index_of(size as nat) as int;
    crate::size_classes::lemma_first_fit_from(0, size as nat);
    assert(s1.cache()[c] == s0.cache()[c].push(addr));
    assert(s1.cache()[c].drop_last() =~= s0.cache()[c]);
    assert(s2.cache() =~= s0.cache());
}

} // verus!
