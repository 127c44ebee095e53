use vstd::prelude::*;
use vstd::multiset::Multiset;
use vstd::seq_lib::{group_to_multiset_ensures, lemma_multiset_commutative};
use crate::size_classes::{
    class_index_of,
    class_size,
    lemma_first_fit_from,
    MAX_CLASS_INDEX,
    NUM_CLASSES,
};
use crate::{
    lemma_page_block_within,
    lemma_page_blocks_disjoint,
    page_remainder,
    page_span_of,
    FractalAllocator,
};

verus! {

/// Two byte ranges, each given as (start, length), share no byte.
pub open spec fn extents_disjoint(x: (int, int), y: (int, int)) -> bool {
    x.0 + x.1 <= y.0 || y.0 + y.1 <= x.0
}

/// No range occurs twice and no two ranges overlap.
pub open spec fn all_disjoint(m: Multiset<(int, int)>) -> bool {
    &&& forall|x: (int, int)| #[trigger] m.count(x) <= 1
    &&& forall|x: (int, int), y: (int, int)|
        #[trigger] m.contains(x) && #[trigger] m.contains(y) && x != y ==> extents_disjoint(x, y)
}

/// The byte range of a block of class `c` at `addr`.
pub open spec fn extent(addr: usize, c: nat) -> (int, int) {
    (addr as int, class_size(c) as int)
}

/// The ranges of the blocks on one stack of class `c`.
pub open spec fn stack_blocks(stack: Seq<usize>, c: nat) -> Multiset<(int, int)> {
    stack.map_values(|a: usize| extent(a, c)).to_multiset()
}

/// The ranges of the blocks on the stacks of the first `n` classes.
pub open spec fn blocks_upto(stacks: Seq<Seq<usize>>, n: nat) -> Multiset<(int, int)>
    decreases n,
{
    if n == 0 {
        Multiset::empty()
    } else {
        blocks_upto(stacks, (n - 1) as nat).add(stack_blocks(stacks[n - 1], (n - 1) as nat))
    }
}

/// The ranges of every free block the allocator holds, cached or global.
pub open spec fn free_blocks(s: FractalAllocator) -> Multiset<(int, int)> {
    blocks_upto(s.cache(), NUM_CLASSES as nat).add(blocks_upto(s.global(), NUM_CLASSES as nat))
}

proof fn lemma_blocks_upto_same(a: Seq<Seq<usize>>, b: Seq<Seq<usize>>, n: nat)
    requires
        forall|i: int| 0 <= i < n ==> a[i] == b[i],
    ensures
        blocks_upto(a, n) == blocks_upto(b, n),
    decreases n,
{
    if n > 0 {
        lemma_blocks_upto_same(a, b, (n - 1) as nat);
    }
}

proof fn lemma_blocks_upto_update(st: Seq<Seq<usize>>, c: nat, t: Seq<usize>, n: nat)
    requires
        c < n <= st.len(),
    ensures
        blocks_upto(st.update(c as int, t), n).add(stack_blocks(st[c as int], c)) =~= blocks_upto(
            st,
            n,
        ).add(stack_blocks(t, c)),
    decreases n,
{
    let m = (n - 1) as nat;
    let st2 = st.update(c as int, t);
    let old_c = stack_blocks(st[c as int], c);
    let new_c = stack_blocks(t, c);
    let lhs = blocks_upto(st2, n).add(old_c);
    let rhs = blocks_upto(st, n).add(new_c);
    if c == m {
        assert forall|i: int| 0 <= i < m implies st2[i] == st[i] by {}
        lemma_blocks_upto_same(st2, st, m);
        assert(st2[m as int] == t);
        assert forall|x: (int, int)| lhs.count(x) == rhs.count(x) by {
            assert(lhs.count(x) == blocks_upto(st2, m).count(x) + new_c.count(x) + old_c.count(x));
            assert(rhs.count(x) == blocks_upto(st, m).count(x) + old_c.count(x) + new_c.count(x));
        }
    } else {
        lemma_blocks_upto_update(st, c, t, m);
        assert(st2[m as int] == st[m as int]);
        let top = stack_blocks(st[m as int], m);
        let below_l = blocks_upto(st2, m).add(old_c);
        let below_r = blocks_upto(st, m).add(new_c);
        assert(below_l == below_r);
        assert forall|x: (int, int)| lhs.count(x) == rhs.count(x) by {
            assert(lhs.count(x) == blocks_upto(st2, m).count(x) + top.count(x) + old_c.count(x));
            assert(rhs.count(x) == blocks_upto(st, m).count(x) + top.count(x) + new_c.count(x));
            assert(below_l.count(x) == below_r.count(x));
        }
    }
    assert(lhs =~= rhs);
}

proof fn lemma_stack_blocks_push(s: Seq<usize>, a: usize, c: nat)
    ensures
        stack_blocks(s.push(a), c) =~= stack_blocks(s, c).insert(extent(a, c)),
{
    broadcast use group_to_multiset_ensures;

    let f = |x: usize| extent(x, c);
    assert(s.push(a).map_values(f) =~= s.map_values(f).push(f(a)));
}

/// Allocating only moves a block from the free lists to the caller: the free
/// blocks afterwards, with the block handed out, are the free blocks before.
pub proof fn lemma_allocate_moves_block(
    s0: FractalAllocator,
    s1: FractalAllocator,
    size: usize,
    r: Option<usize>,
)
    requires
        s0.wf(),
        s0.allocate_post(s1, size, r),
        r is Some,
    ensures
        free_blocks(s1).insert(extent(r->0, class_index_of(size as nat))) =~= free_blocks(s0),
{
    let c = class_index_of(size as nat);
    lemma_first_fit_from(0, size as nat);
    let n = NUM_CLASSES as nat;
    let e = extent(r->0, c);
    let cached = s0.cache()[c as int];
    let xc = blocks_upto(s1.cache(), n);
    let yc = blocks_upto(s0.cache(), n);
    let xg = blocks_upto(s1.global(), n);
    let yg = blocks_upto(s0.global(), n);
    if cached.len() > 0 {
        let rest = cached.drop_last();
        assert(cached =~= rest.push(cached.last()));
        lemma_stack_blocks_push(rest, cached.last(), c);
        lemma_blocks_upto_update(s0.cache(), c, rest, n);
        let sr = stack_blocks(rest, c);
        assert forall|x: (int, int)| xc.insert(e).count(x) == yc.count(x) by {
            assert(xc.add(stack_blocks(cached, c)).count(x) == yc.add(sr).count(x));
        }
        assert(xc.insert(e) =~= yc);
        assert(xg == yg);
    } else {
        let shared = s0.global()[c as int];
        let rest = shared.drop_last();
        assert(shared =~= rest.push(shared.last()));
        lemma_stack_blocks_push(rest, shared.last(), c);
        lemma_blocks_upto_update(s0.global(), c, rest, n);
        let sr = stack_blocks(rest, c);
        assert forall|x: (int, int)| xg.insert(e).count(x) == yg.count(x) by {
            assert(xg.add(stack_blocks(shared, c)).count(x) == yg.add(sr).count(x));
        }
        assert(xg.insert(e) =~= yg);
        assert(xc == yc);
    }
    assert forall|x: (int, int)| free_blocks(s1).insert(e).count(x) == free_blocks(s0).count(x) by {
        assert(free_blocks(s1).count(x) == xc.count(x) + xg.count(x));
        assert(free_blocks(s0).count(x) == yc.count(x) + yg.count(x));
    }
}

/// Deallocating only moves a block from the caller to the free lists.
pub proof fn lemma_deallocate_moves_block(
    s0: FractalAllocator,
    s1: FractalAllocator,
    addr: usize,
    size: usize,
)
    requires
        s0.wf(),
        s0.deallocate_post(s1, addr, size),
    ensures
        free_blocks(s1) =~= free_blocks(s0).insert(extent(addr, class_index_of(size as nat))),
{
    let c = class_index_of(size as nat);
    lemma_first_fit_from(0, size as nat);
    let n = NUM_CLASSES as nat;
    let e = extent(addr, c);
    let cached = s0.cache()[c as int];
    lemma_stack_blocks_push(cached, addr, c);
    lemma_blocks_upto_update(s0.cache(), c, cached.push(addr), n);
    let xc = blocks_upto(s1.cache(), n);
    let yc = blocks_upto(s0.cache(), n);
    let g = blocks_upto(s0.global(), n);
    let sc = stack_blocks(cached, c);
    assert forall|x: (int, int)| xc.count(x) == yc.insert(e).count(x) by {
        assert(xc.add(sc).count(x) == yc.add(stack_blocks(cached.push(addr), c)).count(x));
    }
    assert forall|x: (int, int)| free_blocks(s1).count(x) == free_blocks(s0).insert(e).count(x) by {
        assert(free_blocks(s1).count(x) == xc.count(x) + g.count(x));
        assert(free_blocks(s0).count(x) == yc.count(x) + g.count(x));
    }
}

/// Where the free blocks and the caller's live blocks are pairwise disjoint,
/// they stay so after an allocation, with the new block among the live ones.
pub proof fn lemma_allocate_keeps_blocks_disjoint(
    s0: FractalAllocator,
    s1: FractalAllocator,
    size: usize,
    r: Option<usize>,
    live: Multiset<(int, int)>,
)
    requires
        s0.wf(),
        s0.allocate_post(s1, size, r),
        r is Some,
        all_disjoint(free_blocks(s0).add(live)),
    ensures
        all_disjoint(free_blocks(s1).add(live.insert(extent(r->0, class_index_of(size as nat))))),
{
    lemma_allocate_moves_block(s0, s1, size, r);
    let e = extent(r->0, class_index_of(size as nat));
    assert(free_blocks(s1).add(live.insert(e)) =~= free_blocks(s0).add(live));
}

/// Where the free blocks and the caller's live blocks are pairwise disjoint,
/// they stay so after one of the live blocks is freed with its own size.
pub proof fn lemma_deallocate_keeps_blocks_disjoint(
    s0: FractalAllocator,
    s1: FractalAllocator,
    addr: usize,
    size: usize,
    live: Multiset<(int, int)>,
)
    requires
        s0.wf(),
        s0.deallocate_post(s1, addr, size),
        live.contains(extent(addr, class_index_of(size as nat))),
        all_disjoint(free_blocks(s0).add(live)),
    ensures
        all_disjoint(free_blocks(s1).add(live.remove(extent(addr, class_index_of(size as nat))))),
{
    lemma_deallocate_moves_block(s0, s1, addr, size);
    let e = extent(addr, class_index_of(size as nat));
    assert(free_blocks(s1).add(live.remove(e)) =~= free_blocks(s0).add(live));
}

/// The ranges of all the blocks that a fresh page of class `c` at `page` is
/// sliced into: the first one and the rest.
pub open spec fn page_blocks(page: usize, c: nat) -> Multiset<(int, int)> {
    stack_blocks(page_remainder(page as nat, c), c).insert(extent(page, c))
}

proof fn lemma_page_block_inside(page: usize, c: nat, y: (int, int))
    requires
        c <= MAX_CLASS_INDEX,
        page + page_span_of(c) <= usize::MAX,
        page_blocks(page, c).contains(y),
    ensures
        y.1 == class_size(c),
        y.1 > 0,
        page <= y.0,
        y.0 + y.1 <= page + page_span_of(c),
{
    broadcast use group_to_multiset_ensures;

    crate::lemma_class_size_bounds(c);
    let rest = page_remainder(page as nat, c);
    let f = |a: usize| extent(a, c);
    if y != extent(page, c) {
        assert(rest.map_values(f).contains(y));
        let j = choose|j: int| 0 <= j < rest.len() && rest.map_values(f)[j] == y;
        assert(y == extent(rest[j], c));
        lemma_page_block_within(page as nat, c, j);
    } else {
        assert(page_span_of(c) >= class_size(c));
    }
}

proof fn lemma_page_blocks_all_disjoint(page: usize, c: nat)
    requires
        c <= MAX_CLASS_INDEX,
        page + page_span_of(c) <= usize::MAX,
    ensures
        all_disjoint(page_blocks(page, c)),
{
    broadcast use group_to_multiset_ensures;

    crate::lemma_class_size_bounds(c);
    let rest = page_remainder(page as nat, c);
    let f = |a: usize| extent(a, c);
    let mapped = rest.map_values(f);
    let first = extent(page, c);
    assert forall|j1: int, j2: int| 0 <= j1 < mapped.len() && 0 <= j2 < mapped.len() && j1 != j2
        implies #[trigger] mapped[j1] != #[trigger] mapped[j2] && extents_disjoint(mapped[j1], mapped[j2])
        && extents_disjoint(mapped[j1], first) by {
        lemma_page_blocks_disjoint(page as nat, c, j1, j2);
    }
    assert forall|j: int| 0 <= j < mapped.len() implies extents_disjoint(#[trigger] mapped[j], first) by {
        assert(mapped[j] == extent(rest[j], c));
        lemma_page_block_within(page as nat, c, j);
    }
    assert(mapped.no_duplicates());
    mapped.lemma_multiset_has_no_duplicates();
    assert(!mapped.contains(first));
    let pb = page_blocks(page, c);
    assert forall|x: (int, int)| #[trigger] pb.count(x) <= 1 by {
        if mapped.to_multiset().contains(x) {
            assert(x != first);
        }
    }
    assert forall|x: (int, int), y: (int, int)|
        #[trigger] pb.contains(x) && #[trigger] pb.contains(y) && x != y implies extents_disjoint(x, y) by {
        if x != first && y != first {
            assert(mapped.contains(x) && mapped.contains(y));
            let j1 = choose|j: int| 0 <= j < mapped.len() && mapped[j] == x;
            let j2 = choose|j: int| 0 <= j < mapped.len() && mapped[j] == y;
        } else if x != first {
            assert(mapped.contains(x));
        } else {
            assert(mapped.contains(y));
        }
    }
}

/// Where the free blocks and the caller's live blocks are pairwise disjoint and
/// none of them meets a fresh page, slicing the page keeps them so: its first
/// block joins the live ones, the rest the free lists.
pub proof fn lemma_new_page_keeps_blocks_disjoint(
    s0: FractalAllocator,
    s1: FractalAllocator,
    size_class: usize,
    page: usize,
    live: Multiset<(int, int)>,
)
    requires
        s0.wf(),
        size_class < NUM_CLASSES,
        page + page_span_of(size_class as nat) <= usize::MAX,
        s1.cache() == s0.cache(),
        s1.global() == s0.global().update(
            size_class as int,
            s0.global()[size_class as int] + page_remainder(page as nat, size_class as nat),
        ),
        all_disjoint(free_blocks(s0).add(live)),
        forall|x: (int, int)| #[trigger]
            free_blocks(s0).add(live).contains(x) ==> extents_disjoint(
                x,
                (page as int, page_span_of(size_class as nat) as int),
            ),
    ensures
        all_disjoint(free_blocks(s1).add(live.insert(extent(page, size_class as nat)))),
{
    broadcast use group_to_multiset_ensures;

    let c = size_class as nat;
    let n = NUM_CLASSES as nat;
    let rest = page_remainder(page as nat, c);
    let old_c = s0.global()[c as int];
    let f = |a: usize| extent(a, c);
    assert((old_c + rest).map_values(f) =~= old_c.map_values(f) + rest.map_values(f));
    lemma_multiset_commutative(old_c.map_values(f), rest.map_values(f));
    lemma_blocks_upto_update(s0.global(), c, old_c + rest, n);
    let xg = blocks_upto(s1.global(), n);
    let yg = blocks_upto(s0.global(), n);
    let cc = blocks_upto(s0.cache(), n);
    let sr = stack_blocks(rest, c);
    let so = stack_blocks(old_c, c);
    assert forall|x: (int, int)| xg.count(x) == yg.count(x) + sr.count(x) by {
        assert(xg.add(so).count(x) == yg.add(stack_blocks(old_c + rest, c)).count(x));
    }
    let t0 = free_blocks(s0).add(live);
    let pb = page_blocks(page, c);
    let t1 = free_blocks(s1).add(live.insert(extent(page, c)));
    assert forall|x: (int, int)| t1.count(x) == t0.count(x) + pb.count(x) by {
        assert(free_blocks(s1).count(x) == cc.count(x) + xg.count(x));
        assert(free_blocks(s0).count(x) == cc.count(x) + yg.count(x));
    }
    assert(t1 =~= t0.add(pb));
    lemma_page_blocks_all_disjoint(page, c);
    let span = page_span_of(c) as int;
    assert forall|x: (int, int)| #[trigger] t1.count(x) <= 1 by {
        if pb.contains(x) {
            lemma_page_block_inside(page, c, x);
            if t0.contains(x) {
                assert(extents_disjoint(x, (page as int, span)));
            }
        }
    }
    assert forall|x: (int, int), y: (int, int)|
        #[trigger] t1.contains(x) && #[trigger] t1.contains(y) && x != y implies extents_disjoint(x, y) by {
        if pb.contains(x) {
            lemma_page_block_inside(page, c, x);
            if t0.contains(y) {
                assert(extents_disjoint(y, (page as int, span)));
            } else {
                assert(pb.contains(y));
            }
        } else {
            assert(t0.contains(x));
            if pb.contains(y) {
                lemma_page_block_inside(page, c, y);
                assert(extents_disjoint(x, (page as int, span)));
            } else {
                assert(t0.contains(y));
            }
        }
    }
}

} // verus!
