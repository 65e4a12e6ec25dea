//! The cache, the estimator and the tracker at work.

use ternary_constant_cache::{
    AccessPattern, CacheLine, CacheLineId, CacheSizeEstimator, ConstantCache, MissTracker,
    MissType, Rate, CACHE_LINE_SIZE,
};

fn ratio(rate: Rate) -> f64 {
    rate.num as f64 / rate.den as f64
}

#[test]
fn test_sequential_access_high_hit_rate() {
    let mut cache = ConstantCache::new(16);
    // Sequential access: each line holds 32 addresses, so 16 lines hold 512 addresses
    for _ in 0..3 {
        for addr in 0..512u64 {
            cache.access(addr);
        }
    }
    // After warmup, should have very high hit rate
    assert!(ratio(cache.hit_rate()) > 0.9, "hit rate was {}", ratio(cache.hit_rate()));
}

#[test]
fn test_random_access_lower_hit_rate() {
    // Use a deterministic "random" pattern
    let mut rng_state: u64 = 42;
    let mut next_random = || -> u64 {
        rng_state = rng_state.wrapping_mul(6364136223846793005).wrapping_add(1);
        rng_state >> 33
    };

    let mut cache = ConstantCache::new(4);
    for _ in 0..1000 {
        cache.access(next_random() % 256);
    }
    // Random access should have lower hit rate than sequential
    // with only 4 cache lines for 8 possible lines (256/32=8)
    assert!(ratio(cache.hit_rate()) < 0.7, "hit rate was {}", ratio(cache.hit_rate()));
}

#[test]
fn test_lru_eviction() {
    let mut cache = ConstantCache::new(2);

    // Load tag 0
    cache.access(0);
    assert_eq!(cache.occupied(), 1);

    // Load tag 1 (different line)
    cache.access(CACHE_LINE_SIZE as u64);
    assert_eq!(cache.occupied(), 2);

    // Load tag 2 - should evict tag 0 (LRU)
    cache.access((CACHE_LINE_SIZE * 2) as u64);
    assert_eq!(cache.occupied(), 2);
    assert_eq!(cache.stats().evictions, 1);

    // Access tag 0 again - should be a miss (was evicted)
    let hit = cache.access(0);
    assert!(!hit);
    assert_eq!(cache.stats().evictions, 2);
}

#[test]
fn test_cache_size_vs_hit_rate() {
    // Round-robin over 4 distinct lines, one access per line per round.
    // Working set = 4 lines; 200 rounds => 800 accesses.
    let addresses: Vec<u64> = (0..200).flat_map(|_| [0u64, 32, 64, 96]).collect();

    let results = CacheSizeEstimator::estimate_optimal_size(&addresses, 1, 6, 1);
    // Hand calculation:
    //  - sizes 1,2,3 (< working set): every access misses (thrashing) => 0.0
    //  - sizes >= 4: 4 compulsory misses in round 1, then all hits => 796/800 = 0.995
    assert_eq!(results.len(), 6);
    let results: Vec<(usize, f64)> = results.into_iter().map(|(s, r)| (s, ratio(r))).collect();
    for (size, rate) in &results[..3] {
        assert_eq!(*rate, 0.0, "size {} should thrash at exactly 0.0", size);
    }
    for (size, rate) in &results[3..] {
        assert!(
            (rate - 0.995).abs() < 1e-12,
            "size {} should reach 0.995, got {}",
            size,
            rate
        );
    }
    // Hit rate must be monotonic non-decreasing as the cache grows.
    for w in results.windows(2) {
        assert!(
            w[1].1 >= w[0].1,
            "hit rate should not decrease as cache grows"
        );
    }
}

#[test]
fn test_miss_tracking() {
    let mut tracker = MissTracker::new();

    // First access to tag 0: compulsory miss
    assert_eq!(tracker.record(0, false), MissType::Compulsory);

    // First access to tag 1: compulsory miss
    assert_eq!(
        tracker.record(CACHE_LINE_SIZE as u64, false),
        MissType::Compulsory
    );

    // Second access to tag 0: if miss, it's capacity
    assert_eq!(tracker.record(0, false), MissType::Capacity);

    // Hit
    assert_eq!(tracker.record(0, true), MissType::Hit);

    assert_eq!(tracker.compulsory_misses.len(), 2);
    assert_eq!(tracker.capacity_misses.len(), 1);
}

#[test]
fn test_access_pattern_sequential() {
    let mut cache = ConstantCache::new(16);
    for addr in 0..100u64 {
        cache.access(addr);
    }
    assert_eq!(cache.analyze_access_pattern(), AccessPattern::Sequential);
}

#[test]
fn test_access_pattern_strided() {
    let mut cache = ConstantCache::new(16);
    for i in 0..50u64 {
        cache.access(i * 4);
    }
    assert_eq!(
        cache.analyze_access_pattern(),
        AccessPattern::Strided { stride: 4 }
    );
}

#[test]
fn test_access_pattern_random() {
    let mut cache = ConstantCache::new(16);
    // Mixed strides -> random
    let addrs = [0, 5, 100, 3, 200, 7, 50, 11];
    for &a in &addrs {
        cache.access(a);
    }
    assert_eq!(cache.analyze_access_pattern(), AccessPattern::Random);
}

#[test]
fn test_access_pattern_unknown_too_few() {
    let cache = ConstantCache::new(4);
    assert_eq!(cache.analyze_access_pattern(), AccessPattern::Unknown);
}

#[test]
fn test_access_pattern_cyclic_tile_is_not_random() {
    // A kernel that loops over a fixed tile (0..N repeated) is the most common
    // ternary access shape. It has a single wrap-around jump per iteration, which
    // must NOT cause it to be misreported as Random.
    let mut cache = ConstantCache::new(16);
    for _ in 0..5 {
        for addr in 0..96u64 {
            cache.access(addr);
        }
    }
    assert_eq!(cache.analyze_access_pattern(), AccessPattern::Sequential);
}

#[test]
fn test_preload() {
    let mut cache = ConstantCache::new(4);
    cache.preload(0);
    cache.preload(CACHE_LINE_SIZE as u64);
    assert_eq!(cache.occupied(), 2);
    // Accessing preloaded lines should be hits
    assert!(cache.access(0));
    assert!(cache.access(CACHE_LINE_SIZE as u64));
}

#[test]
fn test_flush() {
    let mut cache = ConstantCache::new(4);
    cache.access(0);
    cache.access(CACHE_LINE_SIZE as u64);
    assert_eq!(cache.occupied(), 2);
    cache.flush();
    assert_eq!(cache.occupied(), 0);
}

#[test]
fn test_working_set_size() {
    let addrs: Vec<u64> = vec![
        0,
        1,
        2,
        CACHE_LINE_SIZE as u64,
        CACHE_LINE_SIZE as u64 + 1,
        CACHE_LINE_SIZE as u64 * 2,
    ];
    assert_eq!(CacheSizeEstimator::working_set_size(&addrs), 3);
}

#[test]
fn test_min_size_for_hit_rate() {
    // Pattern touching 4 unique lines
    let addresses: Vec<u64> = (0..100)
        .flat_map(|i| {
            let base = (i % 4) as u64 * CACHE_LINE_SIZE as u64;
            (base..base + 10).collect::<Vec<_>>()
        })
        .collect();

    let min_size = CacheSizeEstimator::min_size_for_hit_rate(&addresses, Rate { num: 9, den: 10 }, 16);
    assert!(min_size.is_some());
    assert!(min_size.unwrap() <= 4);

    let by_float = CacheSizeEstimator::min_size_satisfying(&addresses, |r| ratio(r) >= 0.9, 16);
    assert_eq!(by_float, min_size);
}

#[test]
fn test_cache_line_touch() {
    let mut line = CacheLine::new(CacheLineId(0), 0);
    assert!(!line.valid);
    assert_eq!(line.access_count, 0);
    line.touch(10);
    assert!(line.valid);
    assert_eq!(line.access_count, 1);
    assert_eq!(line.last_access_cycle, 10);
    line.touch(20);
    assert_eq!(line.access_count, 2);
    assert_eq!(line.last_access_cycle, 20);
}

#[test]
fn test_stats_reset() {
    let mut cache = ConstantCache::new(4);
    cache.access(0);
    cache.access(0);
    assert!(cache.stats().total_accesses >= 2);
    cache.reset_stats();
    assert_eq!(cache.stats().total_accesses, 0);
}

#[test]
fn test_compulsory_vs_capacity_misses() {
    let mut cache = ConstantCache::new(2);
    // Touch 3 different tags with only 2 slots
    cache.access(0); // compulsory miss (tag 0)
    cache.access(CACHE_LINE_SIZE as u64); // compulsory miss (tag 1)
    cache.access((CACHE_LINE_SIZE * 2) as u64); // compulsory miss (tag 2), evicts tag 0
    cache.access(0); // capacity miss (tag 0 was evicted)
    assert_eq!(cache.stats().compulsory_misses, 3);
    assert_eq!(cache.stats().capacity_misses, 1);
}

#[test]
fn test_capacity_zero_never_caches() {
    // A zero-capacity cache must never store anything: every access is a miss.
    let mut cache = ConstantCache::new(0);
    assert_eq!(cache.capacity(), 0);
    assert!(!cache.access(0)); // miss, nothing stored
    assert!(!cache.access(0)); // still a miss
    assert!(!cache.access(32)); // different line, still a miss
    assert_eq!(cache.occupied(), 0);
    assert_eq!(cache.stats().evictions, 0);
    assert_eq!(cache.stats().total_accesses, 3);
    assert_eq!(cache.stats().misses, 3);
    assert_eq!(cache.stats().hits, 0);
}

#[test]
fn test_preload_capacity_zero_is_noop() {
    let mut cache = ConstantCache::new(0);
    cache.preload(0);
    cache.preload(32);
    assert_eq!(cache.occupied(), 0);
    assert!(!cache.access(0)); // nothing preloaded
}

#[test]
fn test_single_entry_cache() {
    let mut cache = ConstantCache::new(1);
    assert!(!cache.access(0)); // tag0 miss
    assert!(cache.access(5)); // same tag (5/32 == 0) -> hit
    assert!(!cache.access(32)); // tag1 miss, evicts tag0
    assert!(!cache.access(0)); // tag0 was evicted -> miss
    assert_eq!(cache.occupied(), 1);
    assert_eq!(cache.stats().hits, 1);
    assert_eq!(cache.stats().evictions, 2);
}

#[test]
fn test_capacity_boundary_exact_fit() {
    // Working set exactly equals capacity: no capacity misses after warmup.
    let mut cache = ConstantCache::new(4);
    for _ in 0..50u64 {
        for tag in 0..4u64 {
            cache.access(tag * CACHE_LINE_SIZE as u64);
        }
    }
    // 200 accesses: round 0 has 4 compulsory misses; rounds 1..50 are all hits.
    // hits = 196, compulsory = 4, capacity = 0 => 196/200 = 0.98.
    assert_eq!(cache.stats().total_accesses, 200);
    assert_eq!(cache.stats().compulsory_misses, 4);
    assert_eq!(cache.stats().capacity_misses, 0);
    assert_eq!(cache.stats().hits, 196);
    assert!((ratio(cache.hit_rate()) - 0.98).abs() < 1e-12);
}

#[test]
fn test_empty_cache_hit_rate() {
    let cache = ConstantCache::new(8);
    assert_eq!(ratio(cache.hit_rate()), 0.0); // no accesses -> 0.0, never NaN/panic
    assert_eq!(ratio(cache.miss_rate()), 1.0);
    assert_eq!(cache.occupied(), 0);
    assert_eq!(cache.stats().total_accesses, 0);
    assert_eq!(cache.analyze_access_pattern(), AccessPattern::Unknown);
}

#[test]
fn test_reset_stats_resets_miss_classification() {
    // After reset_stats, the compulsory/capacity split must restart from a clean
    // baseline (ever_loaded is cleared), otherwise a re-access to a previously
    // evicted line would be wrongly counted as a capacity miss.
    let mut cache = ConstantCache::new(1);
    cache.access(0); // tag0 compulsory miss
    cache.access(32); // tag1 compulsory miss, evicts tag0
    cache.access(0); // tag0 capacity miss (was evicted)
    assert_eq!(cache.stats().compulsory_misses, 2);
    assert_eq!(cache.stats().capacity_misses, 1);

    cache.reset_stats(); // clears ever_loaded as well
    assert!(cache.access(0)); // tag0 still resident -> HIT, not a miss
    cache.access(32); // tag1 not resident -> must be COMPULSORY now
    assert_eq!(cache.stats().compulsory_misses, 1);
    assert_eq!(cache.stats().capacity_misses, 0);
}

#[test]
fn test_lru_recency_on_reaccess() {
    // Re-accessing a line must promote its recency, so a *different* line is evicted.
    let mut cache = ConstantCache::new(2);
    cache.access(0); // tag0 -> lru [0]
    cache.access(32); // tag1 -> lru [1, 0]
    cache.access(0); // tag0 HIT -> lru [0, 1] (tag1 is now least recent)
    cache.access(64); // tag2 miss, must evict tag1 (not tag0)
    assert!(cache.access(0)); // tag0 still resident -> HIT
    assert!(!cache.access(32)); // tag1 was evicted -> MISS
}
