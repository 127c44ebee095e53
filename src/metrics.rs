use vstd::prelude::*;

verus! {

/// `x + y` wrapped around the width of `usize`.
pub open spec fn wrap_add(x: usize, y: usize) -> usize {
    if x + y > usize::MAX {
        (x + y - (usize::MAX + 1)) as usize
    } else {
        (x + y) as usize
    }
}

/// `x - y` wrapped around the width of `usize`.
pub open spec fn wrap_sub(x: usize, y: usize) -> usize {
    if x >= y {
        (x - y) as usize
    } else {
        (x - y + (usize::MAX + 1)) as usize
    }
}

/// A snapshot of the allocator's counters.
#[derive(Debug, Clone, Copy)]
pub struct AllocationStats {
    pub total_allocations: usize,
    pub total_deallocations: usize,
    pub bytes_allocated: usize,
    pub allocation_failures: usize,
    pub cache_hits: usize,
    pub cache_misses: usize,
}

/// Counters kept beside the allocator; nothing in the allocation path reads them.
/// Each counter wraps around on overflow.
pub struct AllocatorMetrics {
    total_allocations: usize,
    total_deallocations: usize,
    bytes_allocated: usize,
    allocation_failures: usize,
    cache_hits: usize,
    cache_misses: usize,
}

impl View for AllocatorMetrics {
    type V = AllocationStats;

    closed spec fn view(&self) -> AllocationStats {
        AllocationStats {
            total_allocations: self.total_allocations,
            total_deallocations: self.total_deallocations,
            bytes_allocated: self.bytes_allocated,
            allocation_failures: self.allocation_failures,
            cache_hits: self.cache_hits,
            cache_misses: self.cache_misses,
        }
    }
}

impl AllocatorMetrics {
    /// All counters at zero.
    pub fn new() -> (r: AllocatorMetrics)
        ensures
            r@ == (AllocationStats {
                total_allocations: 0,
                total_deallocations: 0,
                bytes_allocated: 0,
                allocation_failures: 0,
                cache_hits: 0,
                cache_misses: 0,
            }),
    {
        AllocatorMetrics {
            total_allocations: 0,
            total_deallocations: 0,
            bytes_allocated: 0,
            allocation_failures: 0,
            cache_hits: 0,
            cache_misses: 0,
        }
    }

    /// Counts one allocation and adds its size to the outstanding bytes.
    pub fn record_allocation(&mut self, size: usize)
        ensures
            final(self)@ == (AllocationStats {
                total_allocations: wrap_add(old(self)@.total_allocations, 1),
                bytes_allocated: wrap_add(old(self)@.bytes_allocated, size),
                ..old(self)@
            }),
    {
        self.total_allocations = self.total_allocations.wrapping_add(1);
        self.bytes_allocated = self.bytes_allocated.wrapping_add(size);
    }

    /// Counts one deallocation and takes its size off the outstanding bytes.
    pub fn record_deallocation(&mut self, size: usize)
        ensures
            final(self)@ == (AllocationStats {
                total_deallocations: wrap_add(old(self)@.total_deallocations, 1),
                bytes_allocated: wrap_sub(old(self)@.bytes_allocated, size),
                ..old(self)@
            }),
    {
        self.total_deallocations = self.total_deallocations.wrapping_add(1);
        self.bytes_allocated = self.bytes_allocated.wrapping_sub(size);
    }

    pub fn record_cache_hit(&mut self)
        ensures
            final(self)@ == (AllocationStats {
                cache_hits: wrap_add(old(self)@.cache_hits, 1),
                ..old(self)@
            }),
    {
        self.cache_hits = self.cache_hits.wrapping_add(1);
    }

    pub fn record_cache_miss(&mut self)
        ensures
            final(self)@ == (AllocationStats {
                cache_misses: wrap_add(old(self)@.cache_misses, 1),
                ..old(self)@
            }),
    {
        self.cache_misses = self.cache_misses.wrapping_add(1);
    }

    /// The current value of every counter.
    pub fn get_stats(&self) -> (r: AllocationStats)
        ensures
            r == self@,
    {
        AllocationStats {
            total_allocations: self.total_allocations,
            total_deallocations: self.total_deallocations,
            bytes_allocated: self.bytes_allocated,
            allocation_failures: self.allocation_failures,
            cache_hits: self.cache_hits,
            cache_misses: self.cache_misses,
        }
    }
}

} // verus!
