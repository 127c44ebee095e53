use vstd::prelude::*;
use vstd::arithmetic::div_mod::{lemma_fundamental_div_mod, lemma_mod_multiples_basic};

verus! {

/// `c` rounded up to the next multiple of `a`.
pub open spec fn align_up(c: nat, a: nat) -> nat {
    if c % a == 0 {
        c
    } else {
        (c + (a - c % a)) as nat
    }
}

/// Rounding up lands on a multiple of `a`, at or after `c` and less than `a` past it.
pub proof fn lemma_align_up(c: nat, a: nat)
    requires
        a > 0,
    ensures
        align_up(c, a) % a == 0,
        c <= align_up(c, a) < c + a,
{
    lemma_fundamental_div_mod(c as int, a as int);
    if c % a != 0 {
        let q = (c / a) as int;
        assert(align_up(c, a) == (q + 1) * a) by (nonlinear_arith)
            requires
                c == a * q + c % a,
                align_up(c, a) == c + (a - c % a),
        ;
        lemma_mod_multiples_basic(q + 1, a as int);
    }
}

/// Monotonic allocation over the fixed address range `[start, start + size)`:
/// a cursor that only moves forward; blocks are never reclaimed one by one.
///
/// The cursor advances under `&mut self`: exclusive access to the arena takes
/// the place of a compare-and-swap retry on a shared cursor.
pub struct AtomicBumpAllocator {
    current: usize,
    end: usize,
}

impl AtomicBumpAllocator {
    /// The next free address.
    pub closed spec fn cursor(&self) -> nat {
        self.current as nat
    }

    /// One past the last address of the arena.
    pub closed spec fn limit(&self) -> nat {
        self.end as nat
    }

    pub open spec fn wf(&self) -> bool {
        self.cursor() <= self.limit()
    }

    /// An arena over `[start, start + size)`; the range must fit the address space.
    pub fn new(start: usize, size: usize) -> (r: AtomicBumpAllocator)
        requires
            start + size <= usize::MAX,
        ensures
            r.wf(),
            r.cursor() == start,
            r.limit() == start + size,
    {
        AtomicBumpAllocator { current: start, end: start + size }
    }

    /// Hands out `size` bytes at the cursor rounded up to `align`, or `None`
    /// when the aligned block would run past the end of the arena; a refused
    /// request leaves the arena unchanged.
    pub fn allocate(&mut self, size: usize, align: usize) -> (r: Option<usize>)
        requires
            old(self).wf(),
            align > 0,
        ensures
            final(self).wf(),
            final(self).limit() == old(self).limit(),
            match r {
                Some(a) => {
                    &&& a == align_up(old(self).cursor(), align as nat)
                    &&& a % align == 0
                    &&& a + size <= old(self).limit()
                    &&& final(self).cursor() == a + size
                },
                None => {
                    &&& align_up(old(self).cursor(), align as nat) + size > old(self).limit()
                    &&& final(self).cursor() == old(self).cursor()
                },
            },
    {
        let current = self.current;
        proof {
            lemma_align_up(current as nat, align as nat);
        }
        let rem = current % align;
        let pad: usize = if rem == 0 {
            0
        } else {
            align - rem
        };
        let room = self.end - current;
        if pad > room || size > room - pad {
            return None;
        }
        let aligned = current + pad;
        self.current = aligned + size;
        Some(aligned)
    }
}

/// Two requests served one after the other never overlap: the second block
/// starts at or after the end of the first, and both are aligned as asked.
pub proof fn lemma_bump_blocks_disjoint(
    cursor: nat,
    limit: nat,
    size1: nat,
    align1: nat,
    size2: nat,
    align2: nat,
)
    requires
        align1 > 0,
        align2 > 0,
        align_up(cursor, align1) + size1 <= limit,
        align_up(align_up(cursor, align1) + size1, align2) + size2 <= limit,
    ensures
        align_up(cursor, align1) % align1 == 0,
        align_up(align_up(cursor, align1) + size1, align2) % align2 == 0,
        align_up(cursor, align1) + size1 <= align_up(align_up(cursor, align1) + size1, align2),
{
    lemma_align_up(cursor, align1);
    lemma_align_up(align_up(cursor, align1) + size1, align2);
}

/// Once a request does not fit, the same request keeps failing, as does any
/// larger one with the same alignment: a refusal leaves the cursor where it was.
pub proof fn lemma_bump_exhaustion_persists(cursor: nat, limit: nat, size: nat, align: nat, larger: nat)
    requires
        align > 0,
        align_up(cursor, align) + size > limit,
        size <= larger,
    ensures
        align_up(cursor, align) + larger > limit,
{
}

} // verus!
