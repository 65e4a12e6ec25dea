//! The simulated constant cache.

use std::collections::hash_map::Entry;
use std::collections::{HashMap, HashSet, VecDeque};
use vstd::prelude::*;

use crate::laws;
use crate::line;
use crate::line::{CacheLine, CacheLineId, LineState, CACHE_LINE_SIZE};
use crate::order;
use crate::pattern;
use crate::pattern::AccessPattern;
use crate::state::{CacheState, MAX_HISTORY};
use crate::stats::{CacheStats, Rate};
use crate::tags::copy_tags;
use crate::validity;

verus! {

broadcast use vstd::std_specs::hash::group_hash_axioms;

/// Constant cache with LRU eviction policy.
#[derive(Debug)]
pub struct ConstantCache {
    /// Total number of cache lines.
    capacity: usize,
    /// Cache lines indexed by tag.
    lines: HashMap<u64, CacheLine>,
    /// LRU order: front = most recent, back = least recent.
    lru_order: VecDeque<u64>,
    /// Current simulation cycle.
    cycle: u64,
    /// Statistics.
    stats: CacheStats,
    /// Recent access addresses for pattern analysis.
    access_history: Vec<u64>,
    /// Set of tags ever loaded (for compulsory miss tracking).
    ever_loaded: HashSet<u64>,
}

/// The contents of each line of the map.
spec fn line_states(lines: Map<u64, CacheLine>) -> Map<u64, LineState> {
    lines.map_values(|l: CacheLine| l@)
}

impl View for ConstantCache {
    type V = CacheState;

    closed spec fn view(&self) -> CacheState {
        CacheState {
            capacity: self.capacity as nat,
            lines: line_states(self.lines@),
            lru: self.lru_order@,
            cycle: self.cycle as nat,
            counters: self.stats@,
            history: self.access_history@,
            ever_loaded: self.ever_loaded@,
        }
    }
}

impl Clone for ConstantCache {
    fn clone(&self) -> (copy: Self)
        ensures
            copy@ == self@,
    {
        let copy = ConstantCache {
            capacity: self.capacity,
            lines: self.lines.clone(),
            lru_order: self.lru_order.clone(),
            cycle: self.cycle,
            stats: self.stats.clone(),
            access_history: self.access_history.clone(),
            ever_loaded: copy_tags(&self.ever_loaded),
        };
        assert(copy.lru_order@ =~= self.lru_order@);
        assert(copy.access_history@ =~= self.access_history@);
        copy
    }
}

/// Take `tag` out of the order, if it is there.
fn remove_tag(lru_order: &mut VecDeque<u64>, tag: u64)
    requires
        old(lru_order)@.no_duplicates(),
    ensures
        final(lru_order)@ == order::without(old(lru_order)@, tag),
{
    let mut i: usize = 0;
    while i < lru_order.len()
        invariant
            lru_order@ == old(lru_order)@,
            lru_order@.no_duplicates(),
            forall|j: int| 0 <= j < i ==> lru_order@[j] != tag,
        decreases lru_order@.len() - i,
    {
        if lru_order[i] == tag {
            proof {
                order::lemma_without_at(lru_order@, i as int);
            }
            lru_order.remove(i);
            return;
        }
        i += 1;
    }
}

impl ConstantCache {
    /// Create a new constant cache with the given number of lines.
    pub fn new(capacity: usize) -> (cache: Self)
        ensures
            cache@ == CacheState::fresh(capacity as nat),
            cache@.valid(),
    {
        let cache = ConstantCache {
            capacity,
            lines: HashMap::new(),
            lru_order: VecDeque::new(),
            cycle: 0,
            stats: CacheStats::default(),
            access_history: Vec::new(),
            ever_loaded: HashSet::new(),
        };
        assert(cache@ =~= CacheState::fresh(capacity as nat));
        cache
    }

    /// Number of cache lines.
    pub fn capacity(&self) -> (capacity: usize)
        ensures
            capacity == self@.capacity,
    {
        self.capacity
    }

    /// Current number of occupied lines.
    pub fn occupied(&self) -> (occupied: usize)
        ensures
            occupied == self@.lines.dom().len(),
            self@.valid() ==> occupied == self@.lru.len() && occupied <= self@.capacity,
    {
        proof {
            assert(self@.lines.dom() =~= self.lines@.dom());
            if self@.valid() {
                lemma_occupied(*self);
            }
        }
        self.lines.len()
    }

    /// Get cache statistics.
    pub fn stats(&self) -> (stats: &CacheStats)
        ensures
            stats@ == self@.counters,
    {
        &self.stats
    }

    /// Reset all statistics while keeping the current cache *contents*.
    ///
    /// This clears the counters, the access-pattern history, and the "ever loaded"
    /// set used to classify compulsory vs. capacity misses, so that the next access
    /// window starts from a clean measurement baseline. Note that lines currently
    /// resident stay resident; re-accessing them is still a hit. Use `flush` to
    /// also evict the contents.
    pub fn reset_stats(&mut self)
        ensures
            final(self)@ == old(self)@.reset_stats(),
            old(self)@.valid() ==> final(self)@.valid(),
    {
        self.stats.reset();
        self.access_history.clear();
        self.ever_loaded.clear();
        assert(self@ =~= old(self)@.reset_stats());
    }

    /// Load a cache line, evicting via LRU if necessary.
    fn load_line(&mut self, tag: u64)
        requires
            old(self)@.valid(),
            !old(self)@.resident(tag),
            old(self)@.full() ==> old(self)@.counters.evictions < u64::MAX,
        ensures
            final(self)@ == old(self)@.load(tag),
            final(self)@.valid(),
    {
        proof {
            validity::lemma_load_keeps_valid(self@, tag);
        }
        let ghost before = self@;
        // A zero-capacity cache never stores anything; every access is a miss.
        if self.capacity == 0 {
            assert(self@ =~= before.load(tag));
            return;
        }
        proof {
            lemma_occupied(*self);
        }
        // The cache never holds more lines than its capacity, so one has to leave at most.
        if self.lines.len() >= self.capacity {
            // Evict the least-recently-used line.
            if let Some(lru_tag) = self.lru_order.pop_back() {
                self.lines.remove(&lru_tag);
                self.stats.evictions += 1;
            }
        }
        let mut line = CacheLine::new(CacheLineId(tag), tag);
        line.touch(self.cycle);
        self.lines.insert(tag, line);
        self.lru_order.push_front(tag);
        proof {
            let after = before.load(tag);
            assert(self@.lru =~= after.lru);
            assert(self@.lines =~= after.lines);
            assert(self@ =~= after);
        }
    }

    /// Access the cache at the given address. Returns true on hit.
    pub fn access(&mut self, address: u64) -> (hit: bool)
        requires
            old(self)@.valid(),
            old(self)@.access_fits(address),
        ensures
            hit == old(self)@.hits(address),
            hit <==> old(self)@.lru.contains(address / 32),
            final(self)@ == old(self)@.access(address),
            final(self)@.capacity > 0 ==> final(self)@.lru[0] == address / 32,
            final(self)@.counters.hits == old(self)@.counters.hits + if hit {
                1nat
            } else {
                0nat
            },
            final(self)@.valid(),
    {
        proof {
            validity::law_access_keeps_valid(self@, address);
            laws::law_access_moves_line_to_front(self@, address);
        }
        let ghost before = self@;
        self.cycle += 1;
        self.stats.total_accesses += 1;
        self.access_history.push(address);
        if self.access_history.len() > MAX_HISTORY {
            self.access_history.remove(0);
        }
        assert(self@ =~= before.ticked(address));
        let tag: u64 = ConstantCache::tag_for_address(address);
        let cycle: u64 = self.cycle;
        if let Entry::Occupied(entry) = self.lines.entry(tag) {
            // Cache hit
            entry.into_mut().touch(cycle);
            self.stats.hits += 1;
            // Update LRU: move to front
            remove_tag(&mut self.lru_order, tag);
            self.lru_order.push_front(tag);
            assert(self@ =~= before.access(address));
            true
        } else {
            // Cache miss
            self.stats.misses += 1;
            if !self.ever_loaded.contains(&tag) {
                self.stats.compulsory_misses += 1;
                self.ever_loaded.insert(tag);
            } else {
                self.stats.capacity_misses += 1;
            }
            assert(self@ =~= before.ticked(address).missed(tag));
            self.load_line(tag);
            false
        }
    }

    /// Preload a line into the cache (warm up).
    pub fn preload(&mut self, address: u64)
        requires
            old(self)@.valid(),
            old(self)@.preload_fits(address),
        ensures
            final(self)@ == old(self)@.preload(address),
            final(self)@.valid(),
            final(self)@.capacity > 0 ==> final(self)@.lru.contains(address / 32),
            final(self)@.capacity == 0 ==> final(self)@ == old(self)@,
    {
        proof {
            validity::law_preload_keeps_valid(self@, address);
            if self@.capacity > 0 {
                laws::law_preloaded_line_hits(self@, address, address);
                assert(self@.preload(address).lines.contains_key(address / 32));
            }
        }
        let tag: u64 = ConstantCache::tag_for_address(address);
        if self.capacity > 0 && !self.lines.contains_key(&tag) {
            self.load_line(tag);
            self.ever_loaded.insert(tag);
            assert(self@ =~= old(self)@.preload(address));
        }
    }

    /// Analyze the access pattern from recent history.
    ///
    /// Classification is based on the *dominant* stride: the most common gap between
    /// consecutive accesses. If a single stride accounts for **more than half** of all
    /// consecutive gaps, the pattern is reported as that stride:
    ///
    /// - dominant stride of `1`: `AccessPattern::Sequential`
    /// - dominant stride `> 1`: `AccessPattern::Strided`
    /// - otherwise (no clear majority, or a non-positive dominant stride):
    ///   `AccessPattern::Random`
    ///
    /// Using a majority rather than requiring *every* stride to match deliberately
    /// tolerates the single large wrap-around jump that occurs when a kernel loops
    /// over a fixed tile (e.g. `0..N` repeated), which is the most common access shape
    /// for ternary kernels. At least 4 accesses are required; before that,
    /// `AccessPattern::Unknown` is returned.
    pub fn analyze_access_pattern(&self) -> (pattern: AccessPattern)
        ensures
            pattern::has_pattern(self@.history, pattern),
            forall|p: AccessPattern| #[trigger]
                pattern::has_pattern(self@.history, p) ==> p == pattern,
    {
        pattern::classify(&self.access_history)
    }

    /// Get the current hit rate.
    pub fn hit_rate(&self) -> (rate: Rate)
        ensures
            rate@ == self@.counters.hit_rate(),
            rate.valid(),
    {
        self.stats.hit_rate()
    }

    /// Get the current miss rate.
    pub fn miss_rate(&self) -> (rate: Rate)
        ensures
            rate@ == self@.counters.miss_rate(),
            rate.valid(),
    {
        self.stats.miss_rate()
    }

    /// Flush the entire cache.
    pub fn flush(&mut self)
        ensures
            final(self)@ == old(self)@.flush(),
            old(self)@.valid() ==> final(self)@.valid(),
    {
        self.lines.clear();
        self.lru_order.clear();
        assert(self@ =~= old(self)@.flush());
    }

    /// Compute the tag from a ternary data address (address / line_size).
    pub fn tag_for_address(address: u64) -> (tag: u64)
        ensures
            tag == line::tag_of(address),
    {
        address / CACHE_LINE_SIZE as u64
    }

    /// Compute the offset within a cache line.
    pub fn offset_for_address(address: u64) -> (offset: usize)
        ensures
            offset == line::offset_of(address),
    {
        (address % CACHE_LINE_SIZE as u64) as usize
    }
}

/// The map of lines holds as many lines as the recency order names.
proof fn lemma_occupied(cache: ConstantCache)
    requires
        cache@.order_valid(),
    ensures
        cache.lines@.dom().len() == cache.lru_order@.len(),
{
    let lru = cache.lru_order@;
    lru.unique_seq_to_set();
    assert forall|t: u64| cache.lines@.dom().contains(t) <==> lru.to_set().contains(t) by {
        assert(cache@.lines.contains_key(t) <==> cache.lines@.contains_key(t));
    }
    assert(cache.lines@.dom() =~= lru.to_set());
}

} // verus!
