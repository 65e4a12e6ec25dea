//! Every operation leads from a valid cache state to a valid cache state.

use vstd::prelude::*;

use crate::line;
use crate::order;
use crate::state::{CacheState, Operation, MAX_HISTORY};

verus! {

/// A fresh cache is valid.
pub proof fn law_fresh_is_valid(capacity: nat)
    ensures
        CacheState::fresh(capacity).valid(),
{
}

/// Fetching a line that is not resident keeps the state valid.
pub proof fn lemma_load_keeps_valid(s: CacheState, tag: u64)
    requires
        s.valid(),
        !s.resident(tag),
    ensures
        s.load(tag).valid(),
        s.load(tag).resident(tag) <==> s.capacity > 0,
{
    let n = s.load(tag);
    assert(!s.lru.contains(tag));
    if s.capacity > 0 {
        let kept = if s.full() {
            s.lru.drop_last()
        } else {
            s.lru
        };
        assert(n.lru =~= seq![tag] + kept);
        assert forall|t: u64| #[trigger] n.lines.contains_key(t) <==> n.lru.contains(t) by {
            assert(s.lines.contains_key(t) <==> s.lru.contains(t));
            order::lemma_one_in_front(kept, tag, t);
            if s.full() {
                order::lemma_all_but_last(s.lru, t);
            }
        }
        assert(n.lines.contains_key(tag));
        assert forall|i: int, j: int|
            0 <= i < j < n.lru.len() implies n.lines[#[trigger] n.lru[i]].last_access_cycle
            >= n.lines[#[trigger] n.lru[j]].last_access_cycle by {
            assert(n.lru[j] == s.lru[j - 1]);
            assert(s.lru.contains(s.lru[j - 1]));
            assert(s.lines.contains_key(s.lru[j - 1]));
            assert(n.lines[n.lru[j]] == s.lines[s.lru[j - 1]]);
            if i > 0 {
                assert(n.lru[i] == s.lru[i - 1]);
                assert(s.lru.contains(s.lru[i - 1]));
            }
        }
    }
}

/// Counting an access keeps everything but the balance of the counters.
proof fn lemma_ticked(s: CacheState, address: u64)
    requires
        s.valid(),
    ensures
        s.ticked(address).order_valid(),
        s.ticked(address).lines_valid(),
        s.ticked(address).recency_valid(),
        s.ticked(address).history.len() == if s.counters.total_accesses + 1 < MAX_HISTORY {
            s.counters.total_accesses + 1
        } else {
            MAX_HISTORY as nat
        },
{
}

/// An access keeps the state valid.
pub proof fn law_access_keeps_valid(s: CacheState, address: u64)
    requires
        s.valid(),
    ensures
        s.access(address).valid(),
{
    let tag = line::tag_of(address);
    let t = s.ticked(address);
    lemma_ticked(s, address);
    if s.hits(address) {
        let n = t.hit(tag);
        let k = s.lru.index_of(tag);
        order::lemma_promoted(s.lru, tag);
        order::lemma_without_at(s.lru, k);
        assert forall|i: int, j: int|
            0 <= i < j < n.lru.len() implies n.lines[#[trigger] n.lru[i]].last_access_cycle
            >= n.lines[#[trigger] n.lru[j]].last_access_cycle by {
            let j0 = if j - 1 < k {
                j - 1
            } else {
                j
            };
            assert(n.lru[j] == s.lru[j0]);
            assert(s.lru.contains(s.lru[j0]) && s.lru[j0] != s.lru[k]);
            assert(s.lines.contains_key(s.lru[j0]));
            if i > 0 {
                let i0 = if i - 1 < k {
                    i - 1
                } else {
                    i
                };
                assert(n.lru[i] == s.lru[i0]);
                assert(s.lru[i0] != s.lru[k]);
            }
        }
    } else {
        lemma_load_keeps_valid(t.missed(tag), tag);
    }
}

/// A preload keeps the state valid.
pub proof fn law_preload_keeps_valid(s: CacheState, address: u64)
    requires
        s.valid(),
    ensures
        s.preload(address).valid(),
{
    let tag = line::tag_of(address);
    if !s.resident(tag) {
        lemma_load_keeps_valid(s, tag);
    }
}

/// Resetting the statistics keeps the state valid.
pub proof fn law_reset_stats_keeps_valid(s: CacheState)
    requires
        s.valid(),
    ensures
        s.reset_stats().valid(),
{
}

/// Flushing keeps the state valid.
pub proof fn law_flush_keeps_valid(s: CacheState)
    requires
        s.valid(),
    ensures
        s.flush().valid(),
{
}

/// A whole run of accesses keeps the state valid.
pub proof fn law_run_keeps_valid(s: CacheState, addresses: Seq<u64>)
    requires
        s.valid(),
    ensures
        s.run(addresses).valid(),
    decreases addresses.len(),
{
    if addresses.len() > 0 {
        law_run_keeps_valid(s, addresses.drop_last());
        law_access_keeps_valid(s.run(addresses.drop_last()), addresses.last());
    }
}

/// Any sequence of operations keeps the state valid.
pub proof fn law_perform_keeps_valid(s: CacheState, operations: Seq<Operation>)
    requires
        s.valid(),
    ensures
        s.perform(operations).valid(),
    decreases operations.len(),
{
    if operations.len() > 0 {
        let before = s.perform(operations.drop_last());
        law_perform_keeps_valid(s, operations.drop_last());
        match operations.last() {
            Operation::Access(address) => law_access_keeps_valid(before, address),
            Operation::Preload(address) => law_preload_keeps_valid(before, address),
            Operation::ResetStats => law_reset_stats_keeps_valid(before),
            Operation::Flush => law_flush_keeps_valid(before),
        }
    }
}

} // verus!
