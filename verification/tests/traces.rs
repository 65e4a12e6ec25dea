//! The laws of the cache on concrete traces.

use ternary_constant_cache::{
    CacheSizeEstimator, ConstantCache, MissTracker, MissType, Rate,
};

/// A trace that wanders over `lines` lines.
fn wander(lines: u64, length: usize) -> Vec<u64> {
    let mut state: u64 = 7;
    let mut trace: Vec<u64> = Vec::new();
    while trace.len() < length {
        state = state.wrapping_mul(6364136223846793005).wrapping_add(1442695040888963407);
        trace.push((state >> 33) % (lines * 32));
    }
    trace
}

fn run(addresses: &[u64], size: usize) -> ConstantCache {
    let mut cache = ConstantCache::new(size);
    for &a in addresses {
        cache.access(a);
    }
    cache
}

#[test]
fn counters_balance() {
    let trace = wander(12, 600);
    for size in 0..14 {
        let cache = run(&trace, size);
        let s = cache.stats();
        assert_eq!(s.total_accesses, 600);
        assert_eq!(s.hits + s.misses, s.total_accesses);
        assert_eq!(s.compulsory_misses + s.capacity_misses, s.misses);
        assert_eq!(s.compulsory_misses as usize, CacheSizeEstimator::working_set_size(&trace));
        assert!(s.evictions <= s.misses);
        assert!(cache.occupied() <= size);
        let hit = cache.hit_rate();
        let miss = cache.miss_rate();
        assert_eq!(hit.num + miss.num, hit.den as i128);
        assert!(hit.num >= 0 && miss.num >= 0);
    }
}

#[test]
fn larger_caches_hit_at_least_as_often() {
    let trace = wander(9, 500);
    let results = CacheSizeEstimator::estimate_optimal_size(&trace, 0, 12, 1);
    for w in results.windows(2) {
        assert!(w[1].1.at_least(&w[0].1));
    }
}

#[test]
fn larger_caches_hold_what_smaller_ones_hold() {
    let trace = wander(9, 300);
    for size in 0..9 {
        let small = run(&trace, size);
        let large = run(&trace, size + 1);
        for line in 0..9u64 {
            if small.clone().access(line * 32) {
                assert!(large.clone().access(line * 32));
            }
        }
    }
}

#[test]
fn minimum_size_separates_small_from_large() {
    let trace = wander(8, 400);
    let target = Rate { num: 1, den: 2 };
    let min = CacheSizeEstimator::min_size_for_hit_rate(&trace, target, 20).unwrap();
    for size in 1..20 {
        assert_eq!(run(&trace, size).hit_rate().at_least(&target), size >= min);
    }
}

#[test]
fn fitting_working_set_never_misses_twice() {
    let trace = wander(6, 400);
    let lines = CacheSizeEstimator::working_set_size(&trace);
    for size in lines..lines + 3 {
        let cache = run(&trace, size);
        assert_eq!(cache.stats().misses as usize, lines);
        assert_eq!(cache.stats().hits as usize, trace.len() - lines);
        assert_eq!(cache.stats().capacity_misses, 0);
        assert_eq!(cache.stats().evictions, 0);
        assert_eq!(cache.occupied(), lines);
    }
}

#[test]
fn line_survives_fewer_lines_than_capacity() {
    for size in 0..6usize {
        for others in 0..8usize {
            let mut cache = run(&wander(5, 50), size);
            cache.access(0);
            for round in 0..3u64 {
                for line in 1..=others as u64 {
                    cache.access(line * 32 + round);
                }
            }
            assert_eq!(cache.access(5), others < size);
        }
    }
}

#[test]
fn same_line_again_is_a_hit() {
    let mut cache = run(&wander(20, 200), 3);
    cache.access(1000);
    assert!(cache.access(1001));
    cache.preload(5000);
    assert!(cache.access(5001));
}

#[test]
fn reset_does_not_change_what_hits() {
    let trace = wander(7, 300);
    let mut plain = ConstantCache::new(3);
    let mut reset = ConstantCache::new(3);
    for (i, &a) in trace.iter().enumerate() {
        if i % 50 == 0 {
            reset.reset_stats();
        }
        if i % 70 == 0 {
            plain.flush();
            reset.flush();
        }
        if i % 11 == 0 {
            plain.preload(a + 64);
            reset.preload(a + 64);
        }
        assert_eq!(plain.access(a), reset.access(a));
    }
}

#[test]
fn only_the_first_access_is_compulsory() {
    let trace = wander(5, 300);
    let mut tracker = MissTracker::new();
    for (i, &a) in trace.iter().enumerate() {
        let first = trace[..i].iter().all(|&b| b / 32 != a / 32);
        let expected = if i % 3 == 0 {
            MissType::Hit
        } else if first {
            MissType::Compulsory
        } else {
            MissType::Capacity
        };
        assert_eq!(tracker.record(a, i % 3 == 0), expected);
    }
}

#[test]
fn tracker_agrees_with_cache() {
    let trace = wander(9, 500);
    for size in 0..10 {
        let mut cache = ConstantCache::new(size);
        let mut tracker = MissTracker::new();
        for &a in &trace {
            let before = cache.stats().clone();
            let hit = cache.access(a);
            let kind = tracker.record(a, hit);
            let after = cache.stats();
            assert_eq!(kind == MissType::Hit, after.hits == before.hits + 1);
            assert_eq!(
                kind == MissType::Compulsory,
                after.compulsory_misses == before.compulsory_misses + 1
            );
        }
        assert_eq!(tracker.compulsory_misses.len() as u64, cache.stats().compulsory_misses);
        assert_eq!(tracker.capacity_misses.len() as u64, cache.stats().capacity_misses);
        assert_eq!(tracker.total_misses() as u64, cache.stats().misses);
    }
}

#[test]
fn quick_start() {
    let mut cache = ConstantCache::new(16);
    for addr in 0..1024u64 {
        cache.access(addr);
    }
    assert_eq!(cache.hit_rate(), Rate { num: 992, den: 1024 });
    assert_eq!(cache.analyze_access_pattern().to_string(), "Sequential");
}

#[test]
fn sizing_a_weight_cache() {
    // A matrix of 10,000 trits, packed into 2 bits each, read 100 times.
    let weight_bytes: u64 = (10_000 * 2 + 7) / 8;
    let addresses: Vec<u64> = (0..100).flat_map(|_| 0..weight_bytes).collect();
    // Each line is read 32 times in a row, so a single line reaches 95%.
    let target = Rate { num: 95, den: 100 };
    assert_eq!(CacheSizeEstimator::min_size_for_hit_rate(&addresses, target, 128), Some(1));
    assert_eq!(CacheSizeEstimator::working_set_size(&addresses), 79);
    let results = CacheSizeEstimator::estimate_optimal_size(&addresses, 78, 79, 1);
    assert_eq!(results[0].1, Rate { num: 250_000 - 7_900, den: 250_000 });
    assert_eq!(results[1].1, Rate { num: 250_000 - 79, den: 250_000 });
}
