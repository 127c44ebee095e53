use fractalloc::metrics::{AllocationStats, AllocatorMetrics};

fn hit_rate(stats: &AllocationStats) -> f64 {
    let total = stats.cache_hits + stats.cache_misses;
    if total == 0 {
        0.0
    } else {
        stats.cache_hits as f64 / total as f64
    }
}

#[test]
fn hit_rate_with_no_samples_is_zero() {
    let metrics = AllocatorMetrics::new();
    let stats = metrics.get_stats();
    assert_eq!(stats.cache_hits, 0);
    assert_eq!(stats.cache_misses, 0);
    assert_eq!(hit_rate(&stats), 0.0);
}

#[test]
fn hit_rate_after_three_hits_and_one_miss() {
    let mut metrics = AllocatorMetrics::new();
    metrics.record_cache_hit();
    metrics.record_cache_hit();
    metrics.record_cache_hit();
    metrics.record_cache_miss();
    let stats = metrics.get_stats();
    assert_eq!(stats.cache_hits, 3);
    assert_eq!(stats.cache_misses, 1);
    assert_eq!(hit_rate(&stats), 0.75);
}

#[test]
fn allocation_counters_track_outstanding_bytes() {
    let mut metrics = AllocatorMetrics::new();
    metrics.record_allocation(64);
    metrics.record_allocation(16);
    metrics.record_deallocation(64);
    let stats = metrics.get_stats();
    assert_eq!(stats.total_allocations, 2);
    assert_eq!(stats.total_deallocations, 1);
    assert_eq!(stats.bytes_allocated, 16);
    assert_eq!(stats.allocation_failures, 0);
}

#[test]
fn outstanding_bytes_wrap_like_the_counters() {
    let mut metrics = AllocatorMetrics::new();
    metrics.record_deallocation(1);
    assert_eq!(metrics.get_stats().bytes_allocated, usize::MAX);
    metrics.record_allocation(2);
    assert_eq!(metrics.get_stats().bytes_allocated, 1);
}
