//! Laws of whole traces: what a sequence of accesses leaves behind, how caches
//! of different sizes compare on it, and how long a line survives.

use vstd::prelude::*;

use crate::laws;
use crate::line;
use crate::order;
use crate::pattern;
use crate::pattern::AccessPattern;
use crate::state::{CacheState, MAX_HISTORY};
use crate::stats;
use crate::tags;
use crate::validity;

verus! {

/// The cache of the given size after accessing all addresses, starting empty.
pub open spec fn simulated(addresses: Seq<u64>, size: nat) -> CacheState {
    CacheState::fresh(size).run(addresses)
}

/// The number of different lines that the addresses touch.
pub open spec fn working_set(addresses: Seq<u64>) -> nat {
    tags::tags_of(addresses).len()
}

/// What a simulation has counted and remembered: one cycle per address, every
/// line touched so far remembered, and one compulsory miss for each of them.
pub proof fn law_simulation_counts(addresses: Seq<u64>, size: nat)
    ensures
        ({
            let s = simulated(addresses, size);
            &&& s.valid()
            &&& s.capacity == size
            &&& s.cycle == addresses.len()
            &&& s.counters.total_accesses == addresses.len()
            &&& s.history == order::newest(addresses, MAX_HISTORY as nat)
            &&& s.ever_loaded == tags::tags_of(addresses)
            &&& s.counters.compulsory_misses == working_set(addresses)
            &&& s.counters.evictions <= s.counters.misses
            &&& forall|t: u64| #[trigger]
                s.lines.contains_key(t) ==> s.ever_loaded.contains(t) && s.lines[t].access_count
                    <= s.lines[t].last_access_cycle
        }),
    decreases addresses.len(),
{
    let s = simulated(addresses, size);
    validity::law_fresh_is_valid(size);
    validity::law_run_keeps_valid(CacheState::fresh(size), addresses);
    if addresses.len() == 0 {
        assert(tags::tags_of(addresses) =~= Set::empty());
        assert(s.history =~= addresses);
    } else {
        let init = addresses.drop_last();
        let last = addresses.last();
        let before = simulated(init, size);
        law_simulation_counts(init, size);
        assert(init.push(last) =~= addresses);
        tags::lemma_tags_of_push(init, last);
        validity::law_run_keeps_valid(CacheState::fresh(size), init);
        assert(s.history =~= order::newest(addresses, MAX_HISTORY as nat));
        assert(s.ever_loaded =~= tags::tags_of(addresses));
    }
}

/// A larger cache holds everything that a smaller one holds at the same point of
/// the same trace: the smaller one's recency order is the front of the larger one's.
pub proof fn law_larger_cache_contains_smaller(addresses: Seq<u64>, small: nat, large: nat)
    requires
        small <= large,
    ensures
        simulated(addresses, small).lru == order::at_most(simulated(addresses, large).lru, small),
        forall|t: u64|
            simulated(addresses, small).resident(t) ==> #[trigger] simulated(
                addresses,
                large,
            ).resident(t),
    decreases addresses.len(),
{
    let s = simulated(addresses, small);
    let l = simulated(addresses, large);
    law_simulation_counts(addresses, small);
    law_simulation_counts(addresses, large);
    if addresses.len() > 0 {
        let init = addresses.drop_last();
        let last = addresses.last();
        let tag = line::tag_of(last);
        let s0 = simulated(init, small);
        let l0 = simulated(init, large);
        law_simulation_counts(init, small);
        law_simulation_counts(init, large);
        law_larger_cache_contains_smaller(init, small, large);
        laws::law_access_moves_line_to_front(s0, last);
        laws::law_access_moves_line_to_front(l0, last);
        order::lemma_promoted_prefix(l0.lru, small, tag);
        let p = order::promoted(l0.lru, tag);
        assert(order::at_most(order::at_most(p, large), small) =~= order::at_most(p, small));
    }
    assert(s.lru =~= order::at_most(l.lru, small));
    assert forall|t: u64| s.resident(t) implies #[trigger] l.resident(t) by {
        assert(s.lru.contains(t));
        assert(l.lru[s.lru.index_of(t)] == t);
    }
}

/// On the same trace a larger cache never has fewer hits.
pub proof fn law_hits_grow_with_size(addresses: Seq<u64>, small: nat, large: nat)
    requires
        small <= large,
    ensures
        simulated(addresses, small).counters.hits <= simulated(addresses, large).counters.hits,
    decreases addresses.len(),
{
    if addresses.len() > 0 {
        let init = addresses.drop_last();
        law_hits_grow_with_size(init, small, large);
        law_larger_cache_contains_smaller(init, small, large);
        let tag = line::tag_of(addresses.last());
        assert(simulated(init, small).resident(tag) ==> simulated(init, large).resident(tag));
    }
}

/// The hit rate never decreases as the cache grows.
pub proof fn law_hit_rate_grows_with_size(addresses: Seq<u64>, small: nat, large: nat)
    requires
        small <= large,
    ensures
        stats::fraction_at_least(
            simulated(addresses, large).counters.hit_rate(),
            simulated(addresses, small).counters.hit_rate(),
        ),
{
    law_simulation_counts(addresses, small);
    law_simulation_counts(addresses, large);
    law_hits_grow_with_size(addresses, small, large);
    let n = addresses.len() as int;
    let a = simulated(addresses, large).counters.hits as int;
    let b = simulated(addresses, small).counters.hits as int;
    assert(a * n >= b * n) by (nonlinear_arith)
        requires
            a >= b,
            n >= 0,
    ;
}

/// A cache that the working set fits into misses each line once and never again:
/// no line is evicted, no miss is a capacity miss, all other accesses are hits.
pub proof fn law_working_set_fits(addresses: Seq<u64>, size: nat)
    requires
        working_set(addresses) <= size,
    ensures
        ({
            let s = simulated(addresses, size);
            &&& s.counters.evictions == 0
            &&& s.counters.capacity_misses == 0
            &&& s.counters.misses == working_set(addresses)
            &&& s.counters.hits == addresses.len() - working_set(addresses)
            &&& s.lru.to_set() == tags::tags_of(addresses)
            &&& s.lru.len() == working_set(addresses)
        }),
    decreases addresses.len(),
{
    let s = simulated(addresses, size);
    law_simulation_counts(addresses, size);
    if addresses.len() == 0 {
        assert(s.lru.to_set() =~= tags::tags_of(addresses));
    } else {
        let init = addresses.drop_last();
        let last = addresses.last();
        let tag = line::tag_of(last);
        let before = simulated(init, size);
        assert(init.push(last) =~= addresses);
        tags::lemma_tags_of_push(init, last);
        law_simulation_counts(init, size);
        law_working_set_fits(init, size);
        assert(before.resident(tag) <==> before.lru.contains(tag));
        assert(before.lru.contains(tag) <==> before.lru.to_set().contains(tag));
        laws::law_access_moves_line_to_front(before, last);
        order::lemma_promoted(before.lru, tag);
        if !before.hits(last) {
            assert(before.lru.len() < size);
        }
        assert(s.lru == order::promoted(before.lru, tag));
        assert(s.lru.to_set() =~= tags::tags_of(addresses));
        s.lru.unique_seq_to_set();
    }
}

/// A cache of any size sees a loop over a fixed tile of at least two addresses as
/// sequential, despite the jump back at the end of each round.
pub proof fn law_cache_sees_tile_loop_as_sequential(base: u64, n: nat, rounds: nat, size: nat)
    requires
        n >= 2,
        n * rounds >= 4,
        base + n <= 0x1_0000_0000_0000_0000,
    ensures
        pattern::has_pattern(
            simulated(pattern::tile_loop(base, n, rounds), size).history,
            AccessPattern::Sequential,
        ),
{
    law_simulation_counts(pattern::tile_loop(base, n, rounds), size);
    pattern::law_looping_over_a_tile_is_sequential(base, n, rounds);
}

/// The smaller of two numbers.
spec fn min(a: nat, b: nat) -> nat {
    if a < b {
        a
    } else {
        b
    }
}

/// After a run the lines it touched stand at the front of the recency order, as
/// many of them as fit.
proof fn lemma_touched_lines_in_front(s: CacheState, addresses: Seq<u64>)
    requires
        s.valid(),
    ensures
        ({
            let n = s.run(addresses);
            let touched = tags::tags_of(addresses);
            let m = min(touched.len(), s.capacity);
            &&& n.valid()
            &&& n.capacity == s.capacity
            &&& touched.finite()
            &&& m <= n.lru.len()
            &&& forall|i: int| 0 <= i < m ==> touched.contains(#[trigger] n.lru[i])
            &&& forall|i: int|
                m <= i < n.lru.len() ==> !touched.contains(#[trigger] n.lru[i])
        }),
    decreases addresses.len(),
{
    let n = s.run(addresses);
    let touched = tags::tags_of(addresses);
    validity::law_run_keeps_valid(s, addresses);
    if addresses.len() == 0 {
        assert(touched =~= Set::empty());
    } else {
        let init = addresses.drop_last();
        let last = addresses.last();
        let tag = line::tag_of(last);
        let before = s.run(init);
        let old_touched = tags::tags_of(init);
        let old_m = min(old_touched.len(), s.capacity);
        let m = min(touched.len(), s.capacity);
        assert(init.push(last) =~= addresses);
        tags::lemma_tags_of_push(init, last);
        lemma_touched_lines_in_front(s, init);
        laws::law_access_moves_line_to_front(before, last);
        order::lemma_promoted(before.lru, tag);
        let p = order::promoted(before.lru, tag);
        if old_m == old_touched.len() {
            lemma_all_in_front(before.lru, old_touched, old_m);
        }
        if before.lru.contains(tag) {
            let k = before.lru.index_of(tag);
            order::lemma_without_at(before.lru, k);
            assert(n.lru == p);
            assert(forall|i: int|
                0 <= i < p.len() ==> #[trigger] p[i] == if i == 0 {
                    tag
                } else if i <= k {
                    before.lru[i - 1]
                } else {
                    before.lru[i]
                });
        } else {
            assert(forall|i: int|
                0 <= i < p.len() ==> #[trigger] p[i] == if i == 0 {
                    tag
                } else {
                    before.lru[i - 1]
                });
        }
        assert(forall|i: int| 0 <= i < n.lru.len() ==> #[trigger] n.lru[i] == p[i]);
    }
}

/// Where all of a set's elements could stand in front, all of them do.
proof fn lemma_all_in_front(lru: Seq<u64>, touched: Set<u64>, m: nat)
    requires
        lru.no_duplicates(),
        touched.finite(),
        m == touched.len(),
        m <= lru.len(),
        forall|i: int| 0 <= i < m ==> touched.contains(#[trigger] lru[i]),
    ensures
        forall|t: u64| #[trigger]
            touched.contains(t) ==> exists|i: int| 0 <= i < m && lru[i] == t,
{
    let front = lru.take(m as int);
    front.unique_seq_to_set();
    assert(front.to_set().subset_of(touched));
    vstd::set_lib::lemma_subset_equality(front.to_set(), touched);
    assert forall|t: u64| #[trigger] touched.contains(t) implies exists|i: int|
        0 <= i < m && lru[i] == t by {
        assert(front.to_set().contains(t));
        let i = front.index_of(t);
        assert(lru[i] == t);
    }
}

/// A line that starts out in front stands right behind the lines touched since,
/// for as long as it fits.
proof fn lemma_line_stands_behind_touched(s: CacheState, tag: u64, addresses: Seq<u64>)
    requires
        s.valid(),
        s.lru.len() > 0,
        s.lru[0] == tag,
        !tags::tags_of(addresses).contains(tag),
        working_set(addresses) < s.capacity,
    ensures
        working_set(addresses) < s.run(addresses).lru.len(),
        s.run(addresses).lru[working_set(addresses) as int] == tag,
    decreases addresses.len(),
{
    let n = s.run(addresses);
    let touched = tags::tags_of(addresses);
    if addresses.len() == 0 {
        assert(touched =~= Set::empty());
    } else {
        let init = addresses.drop_last();
        let last = addresses.last();
        let t = line::tag_of(last);
        let before = s.run(init);
        let old_touched = tags::tags_of(init);
        let m = old_touched.len() as int;
        assert(init.push(last) =~= addresses);
        tags::lemma_tags_of_push(init, last);
        lemma_line_stands_behind_touched(s, tag, init);
        lemma_touched_lines_in_front(s, init);
        laws::law_access_moves_line_to_front(before, last);
        order::lemma_promoted(before.lru, t);
        let p = order::promoted(before.lru, t);
        lemma_all_in_front(before.lru, old_touched, m as nat);
        if before.lru.contains(t) {
            let k = before.lru.index_of(t);
            order::lemma_without_at(before.lru, k);
            if old_touched.contains(t) {
                assert(k < m);
                assert(p[m] == before.lru[m]);
            } else {
                assert(k > m);
                assert(p[m + 1] == before.lru[m]);
            }
        } else {
            assert(!old_touched.contains(t));
            assert(p[m + 1] == before.lru[m]);
        }
    }
}

/// A line that starts out in front, followed by accesses to other lines only, is
/// still resident if and only if fewer different lines were touched since than the
/// cache has room for.
proof fn lemma_front_line_survives(start: CacheState, tag: u64, addresses: Seq<u64>)
    requires
        start.valid(),
        start.lru.len() > 0,
        start.lru[0] == tag,
        !tags::tags_of(addresses).contains(tag),
    ensures
        start.run(addresses).resident(tag) <==> working_set(addresses) < start.capacity,
{
    let n = start.run(addresses);
    lemma_touched_lines_in_front(start, addresses);
    assert(n.resident(tag) <==> n.lru.contains(tag));
    if working_set(addresses) < start.capacity {
        lemma_line_stands_behind_touched(start, tag, addresses);
        assert(n.lru[working_set(addresses) as int] == tag);
    } else if n.lru.contains(tag) {
        assert(tags::tags_of(addresses).contains(n.lru[n.lru.index_of(tag)]));
    }
}

/// Least recently used, exactly: after an access to a line, followed by accesses
/// to other lines only, the line is still resident if and only if fewer different
/// lines were touched since than the cache has room for.
pub proof fn law_line_survives_fewer_lines_than_capacity(
    s: CacheState,
    address: u64,
    addresses: Seq<u64>,
)
    requires
        s.valid(),
        !tags::tags_of(addresses).contains(line::tag_of(address)),
    ensures
        s.access(address).run(addresses).hits(address) <==> working_set(addresses) < s.capacity,
{
    let tag = line::tag_of(address);
    let start = s.access(address);
    validity::law_access_keeps_valid(s, address);
    laws::law_access_moves_line_to_front(s, address);
    order::lemma_promoted(s.lru, tag);
    if s.capacity > 0 {
        lemma_front_line_survives(start, tag, addresses);
    } else {
        validity::law_run_keeps_valid(start, addresses);
        lemma_touched_lines_in_front(start, addresses);
        assert(start.run(addresses).resident(tag) <==> start.run(addresses).lru.contains(tag));
    }
}

/// A preloaded line is as recent as an accessed one: after the preload of a line
/// that was not resident, followed by accesses to other lines only, the line is
/// still resident if and only if fewer different lines were touched since than the
/// cache has room for.
pub proof fn law_preloaded_line_survives_fewer_lines_than_capacity(
    s: CacheState,
    address: u64,
    addresses: Seq<u64>,
)
    requires
        s.valid(),
        !s.hits(address),
        !tags::tags_of(addresses).contains(line::tag_of(address)),
    ensures
        s.preload(address).run(addresses).hits(address) <==> working_set(addresses) < s.capacity,
{
    let tag = line::tag_of(address);
    let start = s.preload(address);
    validity::law_preload_keeps_valid(s, address);
    if s.capacity > 0 {
        lemma_front_line_survives(start, tag, addresses);
    } else {
        lemma_touched_lines_in_front(start, addresses);
        assert(start.run(addresses).resident(tag) <==> start.run(addresses).lru.contains(tag));
    }
}

/// A preload of a line that was not resident moves every other line back by one
/// place, and only the one that stood at the last place leaves.
pub proof fn law_preload_pushes_lines_back_by_one(s: CacheState, address: u64, k: int)
    requires
        s.valid(),
        s.capacity > 0,
        !s.hits(address),
        0 <= k < s.lru.len(),
    ensures
        s.preload(address).resident(s.lru[k]) <==> k + 1 < s.capacity,
        k + 1 < s.capacity ==> s.preload(address).lru[k + 1] == s.lru[k],
{
    let n = s.preload(address);
    validity::law_preload_keeps_valid(s, address);
    assert(s.resident(s.lru[k]) <==> s.lru.contains(s.lru[k]));
    assert(n.resident(s.lru[k]) <==> n.lru.contains(s.lru[k]));
    if k + 1 < s.capacity {
        assert(n.lru[k + 1] == s.lru[k]);
    } else if n.lru.contains(s.lru[k]) {
        let j = n.lru.index_of(s.lru[k]);
        assert(s.lru[j - 1] == s.lru[k]);
    }
}

} // verus!
