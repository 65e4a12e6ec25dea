//! Reuse distances: which accesses of a trace hit, told from the trace alone.
//!
//! An access hits in a cache of a given size exactly when its line was touched
//! before and fewer other lines than the cache has room for were touched since.

use vstd::prelude::*;

use crate::count::positions;
use crate::count;
use crate::line;
use crate::state::CacheState;
use crate::tags;
use crate::trace;

verus! {

/// The lines touched after position `j` and before position `i` of a trace.
pub open spec fn lines_between(addresses: Seq<u64>, j: int, i: int) -> Set<u64> {
    Set::new(|t: u64| exists|k: int| j < k < i && #[trigger] addresses[k] / 32 == t)
}

/// Whether the line at position `i` of a trace was touched before, at a time since
/// which fewer than `size` lines were touched.
pub open spec fn reused_within(addresses: Seq<u64>, i: int, size: nat) -> bool {
    exists|j: int|
        0 <= j < i && #[trigger] addresses[j] / 32 == addresses[i] / 32 && lines_between(
            addresses,
            j,
            i,
        ).len() < size
}

/// Whether the access at position `i` of a trace is the first one to its line.
pub open spec fn first_touch(addresses: Seq<u64>, i: int) -> bool {
    forall|j: int| 0 <= j < i ==> #[trigger] addresses[j] / 32 != addresses[i] / 32
}

/// How many accesses of a trace reuse their line before `size` other lines are touched.
pub open spec fn short_reuses(addresses: Seq<u64>, size: nat) -> nat {
    positions(addresses.len(), |i: int| reused_within(addresses, i, size)).len()
}

/// How many lines a trace touches: the accesses that touch their line first.
pub open spec fn lines_touched(addresses: Seq<u64>) -> nat {
    positions(addresses.len(), |i: int| first_touch(addresses, i)).len()
}

/// The tags of a trace are the blocks of 32 addresses that it touches.
pub proof fn law_tags_are_blocks_touched(addresses: Seq<u64>, t: u64)
    ensures
        tags::tags_of(addresses).contains(t) <==> exists|k: int|
            0 <= k < addresses.len() && #[trigger] addresses[k] / 32 == t,
        tags::tags_of(addresses).finite(),
{
    let ts = addresses.map_values(|a: u64| line::tag_of(a));
    ts.lemma_cardinality_of_set();
    if tags::tags_of(addresses).contains(t) {
        let k = ts.index_of(t);
        assert(addresses[k] / 32 == t);
    }
    if exists|k: int| 0 <= k < addresses.len() && #[trigger] addresses[k] / 32 == t {
        let k = choose|k: int| 0 <= k < addresses.len() && #[trigger] addresses[k] / 32 == t;
        assert(ts[k] == t);
    }
}

/// The lines between two positions are those of the part of the trace between them.
proof fn lemma_lines_between(addresses: Seq<u64>, j: int, i: int)
    requires
        -1 <= j < i <= addresses.len(),
    ensures
        lines_between(addresses, j, i) == tags::tags_of(addresses.subrange(j + 1, i)),
        lines_between(addresses, j, i).finite(),
{
    let part = addresses.subrange(j + 1, i);
    assert forall|t: u64|
        lines_between(addresses, j, i).contains(t) <==> #[trigger] tags::tags_of(part).contains(
            t,
        ) by {
        law_tags_are_blocks_touched(part, t);
        if lines_between(addresses, j, i).contains(t) {
            let k = choose|k: int| j < k < i && #[trigger] addresses[k] / 32 == t;
            assert(part[k - j - 1] / 32 == t);
        }
        if tags::tags_of(part).contains(t) {
            let k = choose|k: int| 0 <= k < part.len() && #[trigger] part[k] / 32 == t;
            assert(addresses[k + j + 1] / 32 == t);
        }
    }
    law_tags_are_blocks_touched(part, 0);
    assert(lines_between(addresses, j, i) =~= tags::tags_of(part));
}

/// A line that was touched was touched a last time.
proof fn lemma_last_touch(addresses: Seq<u64>, tag: u64, j: int) -> (last: int)
    requires
        0 <= j < addresses.len(),
        addresses[j] / 32 == tag,
    ensures
        j <= last < addresses.len(),
        addresses[last] / 32 == tag,
        forall|k: int| last < k < addresses.len() ==> #[trigger] addresses[k] / 32 != tag,
    decreases addresses.len() - j,
{
    if exists|k: int| j < k < addresses.len() && #[trigger] addresses[k] / 32 == tag {
        let k = choose|k: int| j < k < addresses.len() && #[trigger] addresses[k] / 32 == tag;
        lemma_last_touch(addresses, tag, k)
    } else {
        j
    }
}

/// A run over two traces is a run over the first, and then one over the second.
pub proof fn law_run_splits(s: CacheState, first: Seq<u64>, second: Seq<u64>)
    ensures
        s.run(first + second) == s.run(first).run(second),
    decreases second.len(),
{
    if second.len() == 0 {
        assert(first + second =~= first);
    } else {
        assert((first + second).drop_last() =~= first + second.drop_last());
        law_run_splits(s, first, second.drop_last());
    }
}

/// After a trace that starts with an empty cache, an address hits exactly when its
/// line was touched at some point of the trace since which fewer different lines
/// were touched than the cache has room for.
pub proof fn law_hit_is_short_reuse(addresses: Seq<u64>, size: nat, address: u64)
    ensures
        CacheState::fresh(size).run(addresses).hits(address) <==> exists|j: int|
            0 <= j < addresses.len() && #[trigger] addresses[j] / 32 == address / 32
                && lines_between(addresses, j, addresses.len() as int).len() < size,
{
    let s = trace::simulated(addresses, size);
    let tag = address / 32;
    let n = addresses.len() as int;
    trace::law_simulation_counts(addresses, size);
    law_tags_are_blocks_touched(addresses, tag);
    if exists|j: int| 0 <= j < n && #[trigger] addresses[j] / 32 == tag {
        let earlier = if exists|j: int|
            0 <= j < n && #[trigger] addresses[j] / 32 == tag && lines_between(
                addresses,
                j,
                n,
            ).len() < size {
            choose|j: int|
                0 <= j < n && #[trigger] addresses[j] / 32 == tag && lines_between(
                    addresses,
                    j,
                    n,
                ).len() < size
        } else {
            choose|j: int| 0 <= j < n && #[trigger] addresses[j] / 32 == tag
        };
        let last = lemma_last_touch(addresses, tag, earlier);
        let rest = addresses.skip(last + 1);
        let before = trace::simulated(addresses.take(last), size);
        lemma_lines_between(addresses, earlier, n);
        lemma_lines_between(addresses, last, n);
        assert(lines_between(addresses, last, n).subset_of(lines_between(addresses, earlier, n)));
        vstd::set_lib::lemma_len_subset(
            lines_between(addresses, last, n),
            lines_between(addresses, earlier, n),
        );
        assert(rest =~= addresses.subrange(last + 1, n));
        law_tags_are_blocks_touched(rest, tag);
        assert(forall|k: int| 0 <= k < rest.len() ==> #[trigger] rest[k] == addresses[k + last + 1]);
        trace::law_simulation_counts(addresses.take(last), size);
        trace::law_line_survives_fewer_lines_than_capacity(before, addresses[last], rest);
        assert(addresses =~= addresses.take(last).push(addresses[last]) + rest);
        law_run_splits(
            CacheState::fresh(size),
            addresses.take(last).push(addresses[last]),
            rest,
        );
        assert(addresses.take(last).push(addresses[last]).drop_last() =~= addresses.take(last));
    }
}

/// In a trace, the access at position `i` hits exactly when its line is reused soon
/// enough: told from the addresses before it alone.
pub proof fn law_access_hits_on_short_reuse(addresses: Seq<u64>, size: nat, i: int)
    requires
        0 <= i < addresses.len(),
    ensures
        CacheState::fresh(size).run(addresses.take(i)).hits(addresses[i]) <==> reused_within(
            addresses,
            i,
            size,
        ),
{
    let before = addresses.take(i);
    law_hit_is_short_reuse(before, size, addresses[i]);
    assert forall|j: int| 0 <= j < i implies lines_between(before, j, i) == #[trigger] lines_between(
        addresses,
        j,
        i,
    ) by {
        lemma_same_lines_between(before, addresses, j, i);
    }
    if reused_within(addresses, i, size) {
        let j = choose|j: int|
            0 <= j < i && #[trigger] addresses[j] / 32 == addresses[i] / 32 && lines_between(
                addresses,
                j,
                i,
            ).len() < size;
        assert(before[j] / 32 == addresses[i] / 32);
    }
    if before.len() == i && exists|j: int|
        0 <= j < i && #[trigger] before[j] / 32 == addresses[i] / 32 && lines_between(
            before,
            j,
            i,
        ).len() < size {
        let j = choose|j: int|
            0 <= j < i && #[trigger] before[j] / 32 == addresses[i] / 32 && lines_between(
                before,
                j,
                i,
            ).len() < size;
        assert(addresses[j] / 32 == addresses[i] / 32);
        assert(lines_between(before, j, i) == lines_between(addresses, j, i));
    }
}

/// Traces that agree up to `i` have the same lines between earlier positions.
proof fn lemma_same_lines_between(a: Seq<u64>, b: Seq<u64>, j: int, i: int)
    requires
        0 <= j <= i <= a.len(),
        i <= b.len(),
        forall|k: int| 0 <= k < i ==> a[k] == b[k],
    ensures
        lines_between(a, j, i) == lines_between(b, j, i),
{
    assert forall|t: u64|
        lines_between(a, j, i).contains(t) <==> #[trigger] lines_between(b, j, i).contains(t) by {
        if lines_between(a, j, i).contains(t) {
            let k = choose|k: int| j < k < i && #[trigger] a[k] / 32 == t;
            assert(b[k] / 32 == t);
        }
        if lines_between(b, j, i).contains(t) {
            let k = choose|k: int| j < k < i && #[trigger] b[k] / 32 == t;
            assert(a[k] / 32 == t);
        }
    }
    assert(lines_between(a, j, i) =~= lines_between(b, j, i));
}

/// What a run counts, from any state: one access for each address, and as many
/// hits as there are positions whose address hits when its turn comes. Every other
/// access is a miss.
pub proof fn law_run_counts_each_access(s: CacheState, addresses: Seq<u64>)
    requires
        s.valid(),
    ensures
        ({
            let n = s.run(addresses);
            let hits = positions(
                addresses.len(),
                |i: int| s.run(addresses.take(i)).hits(addresses[i]),
            ).len();
            &&& n.counters.total_accesses == s.counters.total_accesses + addresses.len()
            &&& n.counters.hits == s.counters.hits + hits
            &&& n.counters.misses == s.counters.misses + addresses.len() - hits
            &&& n.cycle == s.cycle + addresses.len()
            &&& n.capacity == s.capacity
        }),
    decreases addresses.len(),
{
    let p = |i: int| s.run(addresses.take(i)).hits(addresses[i]);
    count::lemma_positions_bounded(addresses.len(), p);
    if addresses.len() > 0 {
        let init = addresses.drop_last();
        let q = |i: int| s.run(init.take(i)).hits(init[i]);
        law_run_counts_each_access(s, init);
        assert forall|i: int| 0 <= i < init.len() implies #[trigger] p(i) == q(i) by {
            assert(init.take(i) =~= addresses.take(i));
        }
        count::lemma_same_positions(init.len(), p, q);
        count::lemma_one_more_position(init.len(), p);
        assert(addresses.take(init.len() as int) =~= init);
    }
}

/// The hits of a whole trace in a cache of a given size that starts empty: one for
/// each access whose line is reused soon enough. Every other access is a miss; the
/// compulsory ones are those that touch their line first.
pub proof fn law_hits_are_short_reuses(addresses: Seq<u64>, size: nat)
    ensures
        ({
            let c = CacheState::fresh(size).run(addresses).counters;
            let hits = positions(
                addresses.len(),
                |i: int| reused_within(addresses, i, size),
            ).len();
            let firsts = positions(addresses.len(), |i: int| first_touch(addresses, i)).len();
            &&& c.total_accesses == addresses.len()
            &&& c.hits == hits
            &&& c.misses == addresses.len() - hits
            &&& c.compulsory_misses == firsts
            &&& c.capacity_misses == addresses.len() - hits - firsts
        }),
{
    let s = CacheState::fresh(size);
    let p = |i: int| s.run(addresses.take(i)).hits(addresses[i]);
    let q = |i: int| reused_within(addresses, i, size);
    crate::validity::law_fresh_is_valid(size);
    law_run_counts_each_access(s, addresses);
    assert forall|i: int| 0 <= i < addresses.len() implies #[trigger] p(i) == q(i) by {
        law_access_hits_on_short_reuse(addresses, size, i);
    }
    count::lemma_same_positions(addresses.len(), p, q);
    trace::law_simulation_counts(addresses, size);
    law_working_set_is_first_touches(addresses);
}

/// The working set of a trace has one line for each access that touches its line first.
pub proof fn law_working_set_is_first_touches(addresses: Seq<u64>)
    ensures
        trace::working_set(addresses) == positions(
            addresses.len(),
            |i: int| first_touch(addresses, i),
        ).len(),
    decreases addresses.len(),
{
    let p = |i: int| first_touch(addresses, i);
    count::lemma_positions_bounded(addresses.len(), p);
    if addresses.len() == 0 {
        assert(tags::tags_of(addresses) =~= Set::empty());
    } else {
        let init = addresses.drop_last();
        let last = addresses.last();
        let q = |i: int| first_touch(init, i);
        law_working_set_is_first_touches(init);
        assert forall|i: int| 0 <= i < init.len() implies #[trigger] p(i) == q(i) by {
            assert(forall|j: int| 0 <= j <= i ==> #[trigger] init[j] == addresses[j]);
            assert(forall|j: int| 0 <= j <= i ==> #[trigger] addresses[j] == init[j]);
        }
        count::lemma_same_positions(init.len(), p, q);
        count::lemma_one_more_position(init.len(), p);
        assert(init.push(last) =~= addresses);
        tags::lemma_tags_of_push(init, last);
        law_tags_are_blocks_touched(init, last / 32);
        assert(forall|j: int| 0 <= j < init.len() ==> #[trigger] init[j] == addresses[j]);
        assert(forall|j: int| 0 <= j < init.len() ==> #[trigger] addresses[j] == init[j]);
    }
}

/// Lines are neither made nor lost: every line that a run loads is still in the
/// cache or was evicted, and every miss loads one (unless the cache has no lines).
pub proof fn law_loaded_lines_stay_or_are_evicted(s: CacheState, addresses: Seq<u64>)
    requires
        s.valid(),
    ensures
        ({
            let n = s.run(addresses);
            &&& s.capacity > 0 ==> n.lru.len() + n.counters.evictions + s.counters.misses
                == s.lru.len() + s.counters.evictions + n.counters.misses
            &&& s.capacity == 0 ==> n.lru.len() == 0 && n.counters.evictions
                == s.counters.evictions
            &&& n.lru.len() <= s.capacity
        }),
    decreases addresses.len(),
{
    crate::validity::law_run_keeps_valid(s, addresses);
    if addresses.len() > 0 {
        let init = addresses.drop_last();
        law_loaded_lines_stay_or_are_evicted(s, init);
        crate::validity::law_run_keeps_valid(s, init);
        law_run_counts_each_access(s, init);
        let before = s.run(init);
        crate::laws::law_access_moves_line_to_front(before, addresses.last());
        crate::order::lemma_promoted(before.lru, line::tag_of(addresses.last()));
        assert(before.lines.contains_key(line::tag_of(addresses.last())) <==> before.lru.contains(
            line::tag_of(addresses.last()),
        ));
    }
}

} // verus!
