//! Edge cases and exact values.

use ternary_constant_cache::{
    AccessPattern, CacheLine, CacheLineId, CacheSizeEstimator, CacheStats, ConstantCache,
    MissTracker, MissType, Rate, CACHE_LINE_SIZE, TRITS_PER_LINE,
};

fn pattern_of(addresses: &[u64]) -> AccessPattern {
    let mut cache = ConstantCache::new(4);
    for &a in addresses {
        cache.access(a);
    }
    cache.analyze_access_pattern()
}

#[test]
fn constants_have_their_values() {
    assert_eq!(CACHE_LINE_SIZE, 32);
    assert_eq!(TRITS_PER_LINE, 161);
}

#[test]
fn address_is_split_into_tag_and_offset() {
    assert_eq!(ConstantCache::tag_for_address(0), 0);
    assert_eq!(ConstantCache::tag_for_address(31), 0);
    assert_eq!(ConstantCache::tag_for_address(32), 1);
    assert_eq!(ConstantCache::offset_for_address(31), 31);
    assert_eq!(ConstantCache::offset_for_address(32), 0);
    assert_eq!(ConstantCache::tag_for_address(u64::MAX), u64::MAX / 32);
    assert_eq!(ConstantCache::offset_for_address(u64::MAX), 31);
}

#[test]
fn new_line_is_zeroed() {
    let line = CacheLine::new(CacheLineId(7), 9);
    assert_eq!(line.id, CacheLineId(7));
    assert_eq!(line.tag, 9);
    assert_eq!(line.data, vec![0u8; 32]);
    assert_eq!(line.last_access_cycle, 0);
    let copy = line.clone();
    assert_eq!(copy.tag, 9);
    assert_eq!(copy.data, line.data);
}

#[test]
fn patterns_as_text() {
    assert_eq!(AccessPattern::Sequential.to_string(), "Sequential");
    assert_eq!(AccessPattern::Random.to_string(), "Random");
    assert_eq!(AccessPattern::Unknown.to_string(), "Unknown");
    assert_eq!(AccessPattern::Strided { stride: 4 }.to_string(), "Strided(stride=4)");
    assert_eq!(AccessPattern::Strided { stride: 1060 }.to_string(), "Strided(stride=1060)");
    assert_eq!(
        AccessPattern::Strided { stride: u64::MAX }.to_string(),
        "Strided(stride=18446744073709551615)"
    );
}

#[test]
fn three_accesses_are_not_enough() {
    assert_eq!(pattern_of(&[0, 1, 2]), AccessPattern::Unknown);
    assert_eq!(pattern_of(&[0, 1, 2, 3]), AccessPattern::Sequential);
}

#[test]
fn exactly_half_is_no_majority() {
    // Gaps 1, 1, 5, 7.
    assert_eq!(pattern_of(&[0, 1, 2, 7, 14]), AccessPattern::Random);
    // Gaps 1, 1, 5.
    assert_eq!(pattern_of(&[0, 1, 2, 7]), AccessPattern::Sequential);
}

#[test]
fn standing_still_or_going_back_is_random() {
    assert_eq!(pattern_of(&[5, 5, 5, 5, 5]), AccessPattern::Random);
    assert_eq!(pattern_of(&[50, 40, 30, 20]), AccessPattern::Random);
}

#[test]
fn constant_gap_decides() {
    assert_eq!(pattern_of(&[3, 10, 17, 24]), AccessPattern::Strided { stride: 7 });
    assert_eq!(
        pattern_of(&[0, 1 << 62, 0, 1 << 62]),
        AccessPattern::Strided { stride: 1 << 62 }
    );
}

#[test]
fn gaps_span_the_whole_address_space() {
    let top = u64::MAX;
    assert_eq!(pattern_of(&[top - 3, top - 2, top - 1, top]), AccessPattern::Sequential);
    assert_eq!(pattern_of(&[0, top, 0, top]), AccessPattern::Strided { stride: top });
    assert_eq!(pattern_of(&[top, 0, top, 0]), AccessPattern::Random);
    let middle = 1u64 << 63;
    assert_eq!(
        pattern_of(&[middle - 2, middle - 1, middle, middle + 1]),
        AccessPattern::Sequential
    );
}

#[test]
fn stride_beyond_the_middle_of_the_address_space() {
    let big = (1u64 << 63) + 8;
    let mut cache = ConstantCache::new(4);
    cache.access(0);
    cache.access(big);
    cache.access(0);
    cache.access(big);
    assert_eq!(cache.analyze_access_pattern(), AccessPattern::Strided { stride: big });
}

#[test]
fn miss_after_a_recorded_hit_is_no_first_access() {
    let mut tracker = MissTracker::new();
    assert_eq!(tracker.record(0, true), MissType::Hit);
    assert_eq!(tracker.record(0, false), MissType::Capacity);
    assert!(tracker.compulsory_misses.is_empty());
    assert_eq!(tracker.capacity_misses, vec![0]);
}

#[test]
fn preload_without_lines_loads_nothing() {
    let mut cache = ConstantCache::new(0);
    cache.preload(0);
    assert!(!cache.access(0));
    assert_eq!(cache.stats().compulsory_misses, 1);
    assert_eq!(cache.stats().capacity_misses, 0);
}

#[test]
fn tile_across_the_middle_is_sequential() {
    let base = (1u64 << 63) - 3;
    let mut cache = ConstantCache::new(2);
    for _ in 0..5 {
        for a in base..base + 6 {
            cache.access(a);
        }
    }
    assert_eq!(cache.analyze_access_pattern(), AccessPattern::Sequential);
}

#[test]
fn tile_loops_are_sequential_at_every_length() {
    for n in 2..40u64 {
        for rounds in [2u64, 3, 17, 60, 600] {
            let mut cache = ConstantCache::new(3);
            for _ in 0..rounds {
                for a in 0..n {
                    cache.access(a);
                }
            }
            assert_eq!(cache.analyze_access_pattern(), AccessPattern::Sequential);
        }
    }
}

#[test]
fn only_the_newest_accesses_are_classified() {
    let mut cache = ConstantCache::new(4);
    for i in 0..5000u64 {
        cache.access(i * 2);
    }
    assert_eq!(cache.analyze_access_pattern(), AccessPattern::Strided { stride: 2 });
    for a in 0..512u64 {
        cache.access(a);
    }
    // 511 gaps of one, the jump back and 511 gaps of two.
    assert_eq!(cache.analyze_access_pattern(), AccessPattern::Random);
    cache.access(512);
    // 512 gaps of one, the jump back and 510 gaps of two.
    assert_eq!(cache.analyze_access_pattern(), AccessPattern::Sequential);
}

#[test]
fn reset_forgets_the_history() {
    let mut cache = ConstantCache::new(4);
    for a in 0..10u64 {
        cache.access(a);
    }
    cache.reset_stats();
    assert_eq!(cache.analyze_access_pattern(), AccessPattern::Unknown);
    assert_eq!(cache.stats().hits, 0);
    assert_eq!(cache.stats().misses, 0);
    assert_eq!(cache.stats().evictions, 0);
    assert_eq!(cache.occupied(), 1);
}

#[test]
fn rates_are_exact() {
    let mut cache = ConstantCache::new(1);
    assert_eq!(cache.hit_rate(), Rate { num: 0, den: 1 });
    assert_eq!(cache.miss_rate(), Rate { num: 1, den: 1 });
    cache.access(0);
    cache.access(1);
    cache.access(2);
    assert_eq!(cache.hit_rate(), Rate { num: 2, den: 3 });
    assert_eq!(cache.miss_rate(), Rate { num: 1, den: 3 });
}

#[test]
fn rates_of_arbitrary_counters() {
    let mut stats = CacheStats::default();
    assert_eq!(stats.total_accesses, 0);
    stats.total_accesses = 4;
    stats.hits = 6;
    assert_eq!(stats.hit_rate(), Rate { num: 6, den: 4 });
    assert_eq!(stats.miss_rate(), Rate { num: -2, den: 4 });
    stats.hits = u64::MAX;
    stats.total_accesses = 1;
    assert_eq!(stats.miss_rate(), Rate { num: 1 - u64::MAX as i128, den: 1 });
    let copy = stats.clone();
    stats.reset();
    assert_eq!(stats.hits, 0);
    assert_eq!(copy.hits, u64::MAX);
}

#[test]
fn rates_are_compared_by_value() {
    let rate = |num: i128, den: u64| Rate { num, den };
    assert!(rate(1, 2).at_least(&rate(2, 4)));
    assert!(rate(2, 4).at_least(&rate(1, 2)));
    assert!(!rate(1, 2).at_least(&rate(2, 3)));
    assert!(rate(0, 1).at_least(&rate(-1, 2)));
    assert!(!rate(-1, 2).at_least(&rate(0, 1)));
    assert!(rate(-1, 3).at_least(&rate(-1, 2)));
    assert!(!rate(-1, 2).at_least(&rate(-1, 3)));
    let top = u64::MAX as i128;
    assert!(rate(top, 1).at_least(&rate(top, u64::MAX)));
    assert!(!rate(top - 1, u64::MAX).at_least(&rate(1, 1)));
    assert!(rate(-top, u64::MAX).at_least(&rate(-1, 1)));
}

#[test]
fn preload_counts_evictions_only() {
    let mut cache = ConstantCache::new(1);
    cache.preload(0);
    cache.preload(31);
    assert_eq!(cache.stats().evictions, 0);
    cache.preload(32);
    assert_eq!(cache.stats().evictions, 1);
    assert_eq!(cache.stats().total_accesses, 0);
    assert_eq!(cache.occupied(), 1);
    // The line was loaded before, by the first preload.
    assert!(!cache.access(0));
    assert_eq!(cache.stats().capacity_misses, 1);
    assert_eq!(cache.stats().compulsory_misses, 0);
}

#[test]
fn preload_of_a_resident_line_keeps_the_order() {
    let mut cache = ConstantCache::new(2);
    cache.access(0);
    cache.access(32);
    cache.preload(0);
    cache.access(64);
    assert!(cache.access(32));
    assert!(!cache.access(0));
}

#[test]
fn zero_capacity_misses_are_classified() {
    let mut cache = ConstantCache::new(0);
    cache.access(0);
    cache.access(0);
    assert_eq!(cache.stats().compulsory_misses, 1);
    assert_eq!(cache.stats().capacity_misses, 1);
}

#[test]
fn flush_keeps_what_was_counted() {
    let mut cache = ConstantCache::new(4);
    cache.access(0);
    cache.access(0);
    cache.flush();
    assert_eq!(cache.stats().hits, 1);
    assert_eq!(cache.stats().evictions, 0);
    assert!(!cache.access(0));
    assert_eq!(cache.stats().capacity_misses, 1);
}

#[test]
fn clones_go_separate_ways() {
    let mut cache = ConstantCache::new(2);
    cache.access(0);
    let mut copy = cache.clone();
    copy.access(32);
    copy.access(64);
    assert_eq!(cache.occupied(), 1);
    assert_eq!(copy.occupied(), 2);
    assert!(cache.access(0));
    assert!(!copy.access(0));
    assert_eq!(copy.stats().capacity_misses, 1);
    assert_eq!(copy.capacity(), 2);
}

#[test]
fn sweep_visits_every_step() {
    let addresses: Vec<u64> = vec![0, 32, 0, 32];
    let sizes = |min: usize, max: usize, step: usize| -> Vec<usize> {
        CacheSizeEstimator::estimate_optimal_size(&addresses, min, max, step)
            .into_iter()
            .map(|(size, _)| size)
            .collect()
    };
    assert_eq!(sizes(1, 7, 3), vec![1, 4, 7]);
    assert_eq!(sizes(1, 6, 3), vec![1, 4]);
    assert_eq!(sizes(0, 2, 0), vec![0, 1, 2]);
    assert_eq!(sizes(5, 4, 1), Vec::<usize>::new());
    assert_eq!(sizes(usize::MAX - 1, usize::MAX, 1), vec![usize::MAX - 1, usize::MAX]);
    assert_eq!(sizes(1, usize::MAX, usize::MAX), vec![1]);
}

#[test]
fn sweep_reports_exact_rates() {
    let addresses: Vec<u64> = vec![0, 32, 0, 32];
    let results = CacheSizeEstimator::estimate_optimal_size(&addresses, 0, 3, 1);
    assert_eq!(
        results,
        vec![
            (0, Rate { num: 0, den: 4 }),
            (1, Rate { num: 0, den: 4 }),
            (2, Rate { num: 2, den: 4 }),
            (3, Rate { num: 2, den: 4 }),
        ]
    );
    let empty = CacheSizeEstimator::estimate_optimal_size(&[], 1, 1, 1);
    assert_eq!(empty, vec![(1, Rate { num: 0, den: 1 })]);
}

#[test]
fn minimum_size_starts_at_one_line() {
    let addresses: Vec<u64> = vec![0, 32, 0, 32];
    let min = |num: i128, den: u64, max: usize| {
        CacheSizeEstimator::min_size_for_hit_rate(&addresses, Rate { num, den }, max)
    };
    assert_eq!(min(0, 1, 4), Some(1));
    assert_eq!(min(-1, 2, 4), Some(1));
    assert_eq!(min(1, 2, 4), Some(2));
    assert_eq!(min(1, 2, 1), None);
    assert_eq!(min(3, 4, 100), None);
    assert_eq!(min(0, 1, 0), None);
}

#[test]
fn minimum_size_by_any_criterion() {
    let addresses: Vec<u64> = vec![0, 32, 0, 32];
    let min = |target: f64| {
        CacheSizeEstimator::min_size_satisfying(
            &addresses,
            |r| r.num as f64 / r.den as f64 >= target,
            8,
        )
    };
    assert_eq!(min(0.5), Some(2));
    assert_eq!(min(0.51), None);
    assert_eq!(min(f64::NAN), None);
}

#[test]
fn working_set_of_nothing_is_empty() {
    assert_eq!(CacheSizeEstimator::working_set_size(&[]), 0);
    assert_eq!(CacheSizeEstimator::working_set_size(&[5, 5, 6]), 1);
}

#[test]
fn tracker_keeps_addresses() {
    let mut tracker = MissTracker::new();
    assert_eq!(tracker.record(40, false), MissType::Compulsory);
    assert_eq!(tracker.record(33, false), MissType::Capacity);
    assert_eq!(tracker.record(35, true), MissType::Hit);
    assert_eq!(tracker.record(1, false), MissType::Compulsory);
    assert_eq!(tracker.compulsory_misses, vec![40, 1]);
    assert_eq!(tracker.capacity_misses, vec![33]);
    assert_eq!(tracker.total_misses(), 3);
    let mut copy = tracker.clone();
    assert_eq!(copy.record(34, false), MissType::Capacity);
    tracker.reset();
    assert_eq!(tracker.total_misses(), 0);
    assert_eq!(copy.total_misses(), 4);
    assert_eq!(tracker.record(33, false), MissType::Compulsory);
    assert_eq!(MissTracker::default().total_misses(), 0);
}
