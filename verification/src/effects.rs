//! What every single operation does to every part of a cache, read off the
//! parts themselves.

use vstd::prelude::*;

use crate::line::{CacheLineId, LineState};
use crate::order;
use crate::state::{CacheState, Operation};

verus! {

/// A fresh cache has the requested capacity, holds nothing, and has counted nothing.
pub proof fn law_fresh_cache_is_empty(capacity: nat)
    ensures
        ({
            let s = CacheState::fresh(capacity);
            &&& s.capacity == capacity
            &&& s.lines.dom() == Set::<u64>::empty()
            &&& s.lru.len() == 0
            &&& s.cycle == 0
            &&& s.counters.total_accesses == 0
            &&& s.counters.hits == 0
            &&& s.counters.misses == 0
            &&& s.counters.evictions == 0
            &&& s.counters.compulsory_misses == 0
            &&& s.counters.capacity_misses == 0
            &&& s.history.len() == 0
            &&& s.ever_loaded == Set::<u64>::empty()
        }),
{
    assert(CacheState::fresh(capacity).lines.dom() =~= Set::<u64>::empty());
}

/// An access hits exactly when the block of 32 addresses around it is resident,
/// that is, when the recency order names it.
pub proof fn law_hit_is_residency(s: CacheState, address: u64)
    requires
        s.valid(),
    ensures
        s.hits(address) <==> s.lines.contains_key(address / 32),
        s.hits(address) <==> s.lru.contains(address / 32),
        s.resident(address / 32) <==> s.hits(address),
        s.lru.no_duplicates(),
        s.lru.len() <= s.capacity,
{
    assert(s.lines.contains_key(address / 32) <==> s.lru.contains(address / 32));
}

/// The history after an access: the address is added as the newest one, and the
/// oldest one is dropped once there are more than 1024.
pub proof fn law_access_extends_history(s: CacheState, address: u64)
    requires
        s.history.len() <= 1024,
    ensures
        s.history.len() < 1024 ==> s.access(address).history == s.history.push(address),
        s.history.len() == 1024 ==> s.access(address).history == s.history.skip(1).push(address),
        s.access(address).history.len() <= 1024,
        s.access(address).history.last() == address,
{
    if s.history.len() == 1024 {
        assert(s.access(address).history =~= s.history.skip(1).push(address));
    }
}

/// An access to a resident line, at place `k` of the recency order: the line moves
/// to the front, the others keep their order, one hit is counted, and nothing is
/// loaded, evicted or forgotten.
pub proof fn law_hit_effect(s: CacheState, address: u64, k: int)
    requires
        s.valid(),
        0 <= k < s.lru.len(),
        s.lru[k] == address / 32,
    ensures
        ({
            let n = s.access(address);
            let tag = address / 32;
            &&& s.hits(address)
            &&& n.lru == seq![tag] + s.lru.take(k) + s.lru.skip(k + 1)
            &&& n.lines.dom() == s.lines.dom()
            &&& forall|t: u64| t != tag ==> #[trigger] n.lines[t] == s.lines[t]
            &&& n.lines[tag].access_count == s.lines[tag].access_count + 1
            &&& n.lines[tag].last_access_cycle == s.cycle + 1
            &&& n.lines[tag].valid
            &&& n.lines[tag].id == s.lines[tag].id
            &&& n.lines[tag].tag == s.lines[tag].tag
            &&& n.lines[tag].data == s.lines[tag].data
            &&& n.capacity == s.capacity
            &&& n.cycle == s.cycle + 1
            &&& n.ever_loaded == s.ever_loaded
            &&& n.counters.total_accesses == s.counters.total_accesses + 1
            &&& n.counters.hits == s.counters.hits + 1
            &&& n.counters.misses == s.counters.misses
            &&& n.counters.evictions == s.counters.evictions
            &&& n.counters.compulsory_misses == s.counters.compulsory_misses
            &&& n.counters.capacity_misses == s.counters.capacity_misses
        }),
{
    let n = s.access(address);
    let tag = address / 32;
    assert(s.lru.contains(tag));
    assert(s.lines.contains_key(tag));
    order::lemma_without_at(s.lru, k);
    assert(n.lru =~= seq![tag] + s.lru.take(k) + s.lru.skip(k + 1));
    assert(n.lines.dom() =~= s.lines.dom());
}

/// An access to a line that is not resident: the line comes to the front of the
/// recency order, of which no more than the capacity is kept; whatever falls off
/// the end leaves the cache. The line is remembered as loaded, whatever the cache
/// held, and the miss is compulsory exactly when it was not remembered before.
pub proof fn law_miss_effect(s: CacheState, address: u64, t: u64)
    requires
        s.valid(),
        !s.lines.contains_key(address / 32),
    ensures
        ({
            let n = s.access(address);
            let tag = address / 32;
            let full = s.capacity > 0 && s.lru.len() == s.capacity;
            &&& !s.hits(address)
            &&& s.capacity == 0 ==> n.lru.len() == 0
            &&& s.capacity > 0 && !full ==> n.lru == seq![tag] + s.lru
            &&& full ==> n.lru == seq![tag] + s.lru.drop_last()
            &&& n.lines.contains_key(t) <==> s.capacity > 0 && (t == tag || (s.lines.contains_key(t)
                && !(full && t == s.lru.last())))
            &&& n.lines.contains_key(t) && t != tag ==> n.lines[t] == s.lines[t]
            &&& s.capacity > 0 ==> n.lines[tag].access_count == 1
            &&& s.capacity > 0 ==> n.lines[tag].last_access_cycle == s.cycle + 1
            &&& s.capacity > 0 ==> n.lines[tag].valid
            &&& s.capacity > 0 ==> n.lines[tag].id == CacheLineId(tag)
            &&& s.capacity > 0 ==> n.lines[tag].tag == tag
            &&& s.capacity > 0 ==> n.lines[tag].data == seq![0u8; 32]
            &&& n.capacity == s.capacity
            &&& n.cycle == s.cycle + 1
            &&& n.ever_loaded == s.ever_loaded.insert(tag)
            &&& n.counters.total_accesses == s.counters.total_accesses + 1
            &&& n.counters.hits == s.counters.hits
            &&& n.counters.misses == s.counters.misses + 1
            &&& n.counters.evictions == s.counters.evictions + if full {
                1nat
            } else {
                0nat
            }
            &&& n.counters.compulsory_misses == s.counters.compulsory_misses
                + if s.ever_loaded.contains(tag) {
                0nat
            } else {
                1nat
            }
            &&& n.counters.capacity_misses == s.counters.capacity_misses
                + if s.ever_loaded.contains(tag) {
                1nat
            } else {
                0nat
            }
        }),
{
    let n = s.access(address);
    let tag = address / 32;
    lemma_front_of_order(s, tag);
    assert(s.lines.contains_key(t) <==> s.lru.contains(t));
    assert(s.lines.contains_key(s.lru.last()) <==> s.lru.contains(s.lru.last()));
    if s.capacity > 0 {
        assert(n.lines[tag].data =~= seq![0u8; 32]);
    }
}

/// The front of the recency order, once `tag` is put in front of it.
proof fn lemma_front_of_order(s: CacheState, tag: u64)
    requires
        s.valid(),
    ensures
        ({
            let front = order::at_most(seq![tag] + s.lru, s.capacity);
            &&& s.capacity == 0 ==> front.len() == 0
            &&& 0 < s.capacity && s.lru.len() < s.capacity ==> front == seq![tag] + s.lru
            &&& 0 < s.capacity && s.lru.len() == s.capacity ==> front == seq![tag]
                + s.lru.drop_last()
        }),
{
    let front = order::at_most(seq![tag] + s.lru, s.capacity);
    if 0 < s.capacity && s.lru.len() < s.capacity {
        assert(front =~= seq![tag] + s.lru);
    } else if 0 < s.capacity {
        assert(front =~= seq![tag] + s.lru.drop_last());
    }
}

/// A preload of a line that is resident, or into a cache without lines, changes nothing.
pub proof fn law_needless_preload_changes_nothing(s: CacheState, address: u64)
    requires
        s.capacity == 0 || s.lines.contains_key(address / 32),
    ensures
        s.preload(address) == s,
{
}

/// A preload of a line that is not resident: the line comes to the front of the
/// recency order, the others keep theirs, and a line leaves exactly when the cache
/// was full and it was the least recently used one. The line is remembered as
/// loaded; no access, hit or miss is counted.
pub proof fn law_preload_effect(s: CacheState, address: u64, t: u64)
    requires
        s.valid(),
        s.capacity > 0,
        !s.lines.contains_key(address / 32),
    ensures
        ({
            let n = s.preload(address);
            let tag = address / 32;
            let full = s.lru.len() == s.capacity;
            &&& !full ==> n.lru == seq![tag] + s.lru
            &&& full ==> n.lru == seq![tag] + s.lru.drop_last()
            &&& n.lines.contains_key(tag)
            &&& s.lines.contains_key(t) ==> (!n.lines.contains_key(t) <==> full && t
                == s.lru.last())
            &&& !s.lines.contains_key(t) && t != tag ==> !n.lines.contains_key(t)
            &&& n.lines.contains_key(t) && t != tag ==> n.lines[t] == s.lines[t]
            &&& n.lines[tag].access_count == 1
            &&& n.lines[tag].last_access_cycle == s.cycle
            &&& n.lines[tag].valid
            &&& n.lines[tag].id == CacheLineId(tag)
            &&& n.lines[tag].tag == tag
            &&& n.lines[tag].data == seq![0u8; 32]
            &&& n.capacity == s.capacity
            &&& n.cycle == s.cycle
            &&& n.history == s.history
            &&& n.ever_loaded == s.ever_loaded.insert(tag)
            &&& n.counters.total_accesses == s.counters.total_accesses
            &&& n.counters.hits == s.counters.hits
            &&& n.counters.misses == s.counters.misses
            &&& n.counters.evictions == s.counters.evictions + if full {
                1nat
            } else {
                0nat
            }
            &&& n.counters.compulsory_misses == s.counters.compulsory_misses
            &&& n.counters.capacity_misses == s.counters.capacity_misses
        }),
{
    let tag = address / 32;
    lemma_front_of_order(s, tag);
    assert(s.lines.contains_key(t) <==> s.lru.contains(t));
    assert(s.lines.contains_key(tag) <==> s.lru.contains(tag));
    assert(s.preload(address).lines[tag].data =~= seq![0u8; 32]);
}

/// A preload and an access of the same absent line leave the same lines in the
/// same order, and remember the same lines as loaded.
pub proof fn law_preload_loads_as_access_does(s: CacheState, address: u64)
    requires
        s.valid(),
        s.capacity > 0,
        !s.lines.contains_key(address / 32),
    ensures
        s.preload(address).lru == s.access(address).lru,
        s.preload(address).lines.dom() == s.access(address).lines.dom(),
        s.preload(address).ever_loaded == s.access(address).ever_loaded,
        s.preload(address).counters.evictions == s.access(address).counters.evictions,
{
    assert(s.preload(address).lines.dom() =~= s.access(address).lines.dom());
}

/// A reset zeroes every counter, forgets the history and which lines were loaded,
/// and leaves the contents, the recency order and the clock alone.
pub proof fn law_reset_effect(s: CacheState)
    ensures
        ({
            let n = s.reset_stats();
            &&& n.counters.total_accesses == 0
            &&& n.counters.hits == 0
            &&& n.counters.misses == 0
            &&& n.counters.evictions == 0
            &&& n.counters.compulsory_misses == 0
            &&& n.counters.capacity_misses == 0
            &&& n.history.len() == 0
            &&& n.ever_loaded == Set::<u64>::empty()
            &&& n.lines == s.lines
            &&& n.lru == s.lru
            &&& n.cycle == s.cycle
            &&& n.capacity == s.capacity
        }),
{
}

/// A flush drops every line and nothing else: counters, history, clock and the
/// memory of what was loaded stay.
pub proof fn law_flush_effect(s: CacheState)
    ensures
        ({
            let n = s.flush();
            &&& n.lines.dom() == Set::<u64>::empty()
            &&& n.lru.len() == 0
            &&& n.counters == s.counters
            &&& n.history == s.history
            &&& n.ever_loaded == s.ever_loaded
            &&& n.cycle == s.cycle
            &&& n.capacity == s.capacity
        }),
{
    assert(s.flush().lines.dom() =~= Set::<u64>::empty());
}

/// Operations act one after the other, each on what the earlier ones left.
pub proof fn law_perform_goes_in_order(
    s: CacheState,
    operations: Seq<Operation>,
    operation: Operation,
)
    ensures
        s.perform(Seq::empty()) == s,
        s.perform(operations.push(operation)) == match operation {
            Operation::Access(address) => s.perform(operations).access(address),
            Operation::Preload(address) => s.perform(operations).preload(address),
            Operation::ResetStats => s.perform(operations).reset_stats(),
            Operation::Flush => s.perform(operations).flush(),
        },
{
    assert(operations.push(operation).drop_last() =~= operations);
}

/// Accesses act one after the other, each on what the earlier ones left.
pub proof fn law_run_goes_in_order(s: CacheState, addresses: Seq<u64>, address: u64)
    ensures
        s.run(Seq::empty()) == s,
        s.run(addresses.push(address)) == s.run(addresses).access(address),
{
    assert(addresses.push(address).drop_last() =~= addresses);
}

/// As long as the clock and the eviction counter are not at their end, any address
/// can be accessed and preloaded.
pub proof fn law_counters_leave_room(s: CacheState, address: u64)
    requires
        s.valid(),
        s.cycle < u64::MAX - 1,
        s.counters.evictions < u64::MAX,
    ensures
        s.access_fits(address),
        s.preload_fits(address),
{
}

/// A new line is invalid, never touched and filled with 32 zeroes; each touch makes
/// it valid, counts one access, notes the cycle, and changes nothing else.
pub proof fn law_line_effects(id: CacheLineId, tag: u64, l: LineState, cycle: nat)
    ensures
        ({
            let fresh = LineState::untouched(id, tag);
            &&& fresh.id == id
            &&& fresh.tag == tag
            &&& fresh.data.len() == 32
            &&& forall|i: int| 0 <= i < 32 ==> #[trigger] fresh.data[i] == 0
            &&& !fresh.valid
            &&& fresh.access_count == 0
            &&& fresh.last_access_cycle == 0
        }),
        l.touched(cycle).valid,
        l.touched(cycle).access_count == l.access_count + 1,
        l.touched(cycle).last_access_cycle == cycle,
        l.touched(cycle).id == l.id,
        l.touched(cycle).tag == l.tag,
        l.touched(cycle).data == l.data,
{
}

} // verus!
