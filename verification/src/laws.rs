//! Laws of single operations: what an access, a preload, a flush and a reset
//! promise about the operations that follow.

use vstd::prelude::*;

use crate::line;
use crate::order;
use crate::state::{CacheState, Operation};
use crate::stats::Counters;
use crate::validity;

verus! {

/// After an access the recency order is the old one with the accessed line moved
/// to the front, cut off at the capacity: hit or miss makes no difference.
pub proof fn law_access_moves_line_to_front(s: CacheState, address: u64)
    requires
        s.valid(),
    ensures
        s.access(address).lru == order::at_most(
            order::promoted(s.lru, line::tag_of(address)),
            s.capacity,
        ),
        s.capacity > 0 ==> s.access(address).lru[0] == line::tag_of(address),
{
    let tag = line::tag_of(address);
    order::lemma_promoted(s.lru, tag);
    if !s.hits(address) {
        assert(!s.lru.contains(tag));
    }
}

/// A line that was just accessed is resident, so the next access to any of its
/// addresses is a hit (unless the cache has no lines at all).
pub proof fn law_accessed_line_hits(s: CacheState, a: u64, b: u64)
    requires
        s.valid(),
        s.capacity > 0,
        line::tag_of(a) == line::tag_of(b),
    ensures
        s.access(a).hits(b),
{
    validity::law_access_keeps_valid(s, a);
    law_access_moves_line_to_front(s, a);
    assert(s.access(a).lru.contains(line::tag_of(b)));
}

/// A line that was just preloaded is resident, so accessing it is a hit (unless
/// the cache has no lines at all).
pub proof fn law_preloaded_line_hits(s: CacheState, a: u64, b: u64)
    requires
        s.valid(),
        s.capacity > 0,
        line::tag_of(a) == line::tag_of(b),
    ensures
        s.preload(a).hits(b),
{
    if !s.hits(a) {
        validity::lemma_load_keeps_valid(s, line::tag_of(a));
    }
}

/// A preload is no access: of all that is measured only the evictions can change,
/// and a later miss of a line that it loaded counts as a capacity miss. Where there
/// are no lines it does nothing.
pub proof fn law_preload_is_no_access(s: CacheState, address: u64)
    ensures
        s.preload(address).capacity == s.capacity,
        s.preload(address).cycle == s.cycle,
        s.preload(address).history == s.history,
        s.preload(address).counters == (Counters {
            evictions: s.preload(address).counters.evictions,
            ..s.counters
        }),
        s.preload(address).counters.evictions == s.counters.evictions + if !s.hits(address)
            && s.full() {
            1nat
        } else {
            0nat
        },
        s.capacity == 0 ==> s.preload(address) == s,
        s.capacity > 0 && !s.hits(address) ==> s.preload(address).ever_loaded.contains(
            line::tag_of(address),
        ),
{
}

/// Preloading the same line again changes nothing.
pub proof fn law_preload_twice_is_preload_once(s: CacheState, a: u64, b: u64)
    requires
        s.valid(),
        line::tag_of(a) == line::tag_of(b),
    ensures
        s.preload(a).preload(b) == s.preload(a),
{
    let tag = line::tag_of(a);
    if !s.hits(a) {
        validity::lemma_load_keeps_valid(s, tag);
    }
}

/// A hit makes no line leave. A miss makes at most the least recently used line
/// leave, and only when the cache is full; every other line stays.
pub proof fn law_only_least_recent_line_leaves(s: CacheState, address: u64, t: u64)
    requires
        s.valid(),
        s.resident(t),
    ensures
        !s.access(address).resident(t) <==> !s.hits(address) && s.full() && t == s.lru.last(),
        s.access(address).counters.evictions == s.counters.evictions + if !s.hits(address)
            && s.full() {
            1nat
        } else {
            0nat
        },
{
    let tag = line::tag_of(address);
    let n = s.access(address);
    validity::law_access_keeps_valid(s, address);
    law_access_moves_line_to_front(s, address);
    order::lemma_promoted(s.lru, tag);
    let k = s.lru.index_of(t);
    assert(s.lru.contains(t));
    assert(n.resident(t) <==> n.lru.contains(t));
    if s.hits(address) {
        assert(n.lru == order::promoted(s.lru, tag));
    } else {
        let longer = seq![tag] + s.lru;
        assert(longer[k + 1] == t);
        if s.full() && t == s.lru.last() {
            assert(k == s.lru.len() - 1);
            if n.lru.contains(t) {
                let j = n.lru.index_of(t);
                assert(longer[j] == t);
                assert(s.lru[j - 1] == s.lru[k]);
            }
        } else {
            assert(n.lru[k + 1] == t);
        }
    }
}

/// A cache without lines stores nothing: no access is a hit, nothing is ever
/// evicted, and a preload does nothing.
pub proof fn law_zero_capacity_never_caches(s: CacheState, address: u64)
    requires
        s.valid(),
        s.capacity == 0,
    ensures
        !s.hits(address),
        s.access(address).lru.len() == 0,
        s.access(address).counters.misses == s.counters.misses + 1,
        s.access(address).counters.evictions == s.counters.evictions,
        s.preload(address) == s,
{
    if s.hits(address) {
        assert(s.lru.contains(line::tag_of(address)));
    }
}

/// No operation changes the capacity.
pub proof fn law_capacity_is_fixed(s: CacheState, address: u64)
    ensures
        s.access(address).capacity == s.capacity,
        s.preload(address).capacity == s.capacity,
        s.reset_stats().capacity == s.capacity,
        s.flush().capacity == s.capacity,
{
}

/// A flushed cache holds nothing, so the next access is a miss; the statistics stay.
pub proof fn law_flush_empties(s: CacheState, address: u64)
    ensures
        s.flush().lru.len() == 0,
        !s.flush().hits(address),
        s.flush().counters == s.counters,
        s.flush().history == s.history,
        s.flush().ever_loaded == s.ever_loaded,
{
}

/// Resetting the statistics does not touch the contents: whatever is accessed,
/// preloaded or flushed afterwards, the cache holds the same lines as it would
/// have held without the reset, and an access hits exactly when it would have hit.
pub proof fn law_reset_keeps_contents(s: CacheState, operations: Seq<Operation>, address: u64)
    ensures
        s.reset_stats().perform(operations).lru == s.perform(operations).lru,
        s.reset_stats().perform(operations).lines == s.perform(operations).lines,
        s.reset_stats().perform(operations).cycle == s.perform(operations).cycle,
        s.reset_stats().perform(operations).capacity == s.perform(operations).capacity,
        s.reset_stats().perform(operations).hits(address) == s.perform(operations).hits(address),
    decreases operations.len(),
{
    if operations.len() > 0 {
        law_reset_keeps_contents(s, operations.drop_last(), address);
    }
}

/// After a reset every counter is at zero and classification starts anew: the
/// first miss is compulsory, whatever was loaded before the reset.
pub proof fn law_reset_restarts_classification(s: CacheState, address: u64)
    ensures
        s.reset_stats().counters == Counters::zero(),
        s.reset_stats().history.len() == 0,
        s.reset_stats().hits(address) == s.hits(address),
        !s.hits(address) ==> s.reset_stats().access(address).counters.compulsory_misses == 1,
        s.reset_stats().access(address).counters.capacity_misses == 0,
{
}

/// A miss is compulsory when its line was neither missed nor preloaded since the
/// last reset, and a capacity miss otherwise; a hit counts as neither.
pub proof fn law_access_classifies_misses(s: CacheState, address: u64)
    ensures
        ({
            let c = s.access(address).counters;
            let tag = line::tag_of(address);
            &&& c.total_accesses == s.counters.total_accesses + 1
            &&& s.hits(address) ==> c == (Counters {
                total_accesses: s.counters.total_accesses + 1,
                hits: s.counters.hits + 1,
                ..s.counters
            })
            &&& !s.hits(address) ==> c.misses == s.counters.misses + 1 && c.hits == s.counters.hits
            &&& !s.hits(address) && !s.ever_loaded.contains(tag) ==> c.compulsory_misses
                == s.counters.compulsory_misses + 1 && c.capacity_misses
                == s.counters.capacity_misses
            &&& !s.hits(address) && s.ever_loaded.contains(tag) ==> c.capacity_misses
                == s.counters.capacity_misses + 1 && c.compulsory_misses
                == s.counters.compulsory_misses
        }),
{
}

} // verus!
