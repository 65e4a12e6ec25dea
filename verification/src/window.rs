//! Measurement windows: what a cache counts and remembers from a reset of its
//! statistics onwards, whatever it held at the reset.

use vstd::prelude::*;

use crate::count::positions;
use crate::count;
use crate::state::{CacheState, Operation};

verus! {

/// The addresses accessed by a sequence of operations, oldest first.
pub open spec fn accessed(operations: Seq<Operation>) -> Seq<u64>
    decreases operations.len(),
{
    if operations.len() == 0 {
        Seq::empty()
    } else {
        match operations.last() {
            Operation::Access(address) => accessed(operations.drop_last()).push(address),
            _ => accessed(operations.drop_last()),
        }
    }
}

/// Whether no operation resets the statistics.
pub open spec fn one_window(operations: Seq<Operation>) -> bool {
    forall|i: int| 0 <= i < operations.len() ==> !(#[trigger] operations[i] is ResetStats)
}

/// Whether the operation at position `i` accesses an address that is not resident
/// when its turn comes.
pub open spec fn misses_at(s: CacheState, operations: Seq<Operation>, i: int) -> bool {
    operations[i] matches Operation::Access(a) && !s.perform(
        operations.take(i),
    ).lines.contains_key(a / 32)
}

/// Whether the operation at position `i` fetches the line `tag`: an access to it or
/// a preload of it, when it is not resident.
pub open spec fn fetches_at(s: CacheState, operations: Seq<Operation>, i: int, tag: u64) -> bool {
    &&& match operations[i] {
        Operation::Access(a) => a / 32 == tag,
        Operation::Preload(a) => a / 32 == tag && s.capacity > 0,
        _ => false,
    }
    &&& !s.perform(operations.take(i)).lines.contains_key(tag)
}

/// Whether the line `tag` was fetched before position `i`.
pub open spec fn fetched_before(
    s: CacheState,
    operations: Seq<Operation>,
    i: int,
    tag: u64,
) -> bool {
    exists|k: int| 0 <= k < i && #[trigger] fetches_at(s, operations, k, tag)
}

proof fn lemma_first_operations(s: CacheState, operations: Seq<Operation>)
    requires
        operations.len() > 0,
    ensures
        forall|i: int, tag: u64|
            0 <= i < operations.len() - 1 ==> #[trigger] fetches_at(
                s,
                operations.drop_last(),
                i,
                tag,
            ) == fetches_at(s, operations, i, tag),
        forall|i: int, tag: u64|
            0 <= i <= operations.len() - 1 ==> #[trigger] fetched_before(
                s,
                operations.drop_last(),
                i,
                tag,
            ) == fetched_before(s, operations, i, tag),
        forall|i: int|
            0 <= i < operations.len() - 1 ==> #[trigger] misses_at(s, operations.drop_last(), i)
                == misses_at(s, operations, i),
        operations.take(operations.len() - 1) == operations.drop_last(),
{
    let init = operations.drop_last();
    assert forall|i: int, tag: u64| 0 <= i < init.len() implies #[trigger] fetches_at(
        s,
        init,
        i,
        tag,
    ) == fetches_at(s, operations, i, tag) by {
        assert(init.take(i) =~= operations.take(i));
    }
    assert forall|i: int, tag: u64| 0 <= i <= init.len() implies #[trigger] fetched_before(
        s,
        init,
        i,
        tag,
    ) == fetched_before(s, operations, i, tag) by {
        if fetched_before(s, init, i, tag) {
            let k = choose|k: int| 0 <= k < i && #[trigger] fetches_at(s, init, k, tag);
            assert(fetches_at(s, operations, k, tag));
        }
        if fetched_before(s, operations, i, tag) {
            let k = choose|k: int| 0 <= k < i && #[trigger] fetches_at(s, operations, k, tag);
            assert(fetches_at(s, init, k, tag));
        }
    }
    assert forall|i: int| 0 <= i < init.len() implies #[trigger] misses_at(s, init, i)
        == misses_at(s, operations, i) by {
        assert(init.take(i) =~= operations.take(i));
    }
    assert(operations.take(operations.len() - 1) =~= init);
}

/// In a measurement window a cache remembers exactly the lines fetched since the
/// reset, by an access or a preload: not those resident at the reset, and all of
/// those that missed, whatever else the cache held.
pub proof fn law_window_remembers_fetched_lines(
    s: CacheState,
    operations: Seq<Operation>,
    tag: u64,
)
    requires
        one_window(operations),
    ensures
        s.reset_stats().perform(operations).ever_loaded.contains(tag) <==> fetched_before(
            s.reset_stats(),
            operations,
            operations.len() as int,
            tag,
        ),
        s.reset_stats().perform(operations).capacity == s.capacity,
    decreases operations.len(),
{
    let r = s.reset_stats();
    if operations.len() > 0 {
        let init = operations.drop_last();
        assert forall|i: int| 0 <= i < init.len() implies !(#[trigger] init[i] is ResetStats) by {
            assert(init[i] == operations[i]);
        }
        law_window_remembers_fetched_lines(s, init, tag);
        lemma_first_operations(r, operations);
        let last = init.len() as int;
        assert(operations[last] == operations.last());
        assert(!(operations[last] is ResetStats));
        if fetched_before(r, operations, last, tag) {
            let k = choose|k: int| 0 <= k < last && #[trigger] fetches_at(r, operations, k, tag);
            assert(fetches_at(r, operations, k, tag));
        }
        assert(fetched_before(r, operations, last + 1, tag) <==> fetched_before(
            r,
            operations,
            last,
            tag,
        ) || fetches_at(r, operations, last, tag));
    }
}

/// In a measurement window, a miss is compulsory exactly when its line was not
/// fetched since the reset, and a capacity miss otherwise.
pub proof fn law_window_classifies_misses(
    s: CacheState,
    operations: Seq<Operation>,
    address: u64,
)
    requires
        one_window(operations),
        !s.reset_stats().perform(operations).lines.contains_key(address / 32),
    ensures
        ({
            let before = s.reset_stats().perform(operations);
            let after = before.access(address);
            let again = fetched_before(
                s.reset_stats(),
                operations,
                operations.len() as int,
                address / 32,
            );
            &&& after.counters.misses == before.counters.misses + 1
            &&& !again ==> after.counters.compulsory_misses == before.counters.compulsory_misses + 1
                && after.counters.capacity_misses == before.counters.capacity_misses
            &&& again ==> after.counters.capacity_misses == before.counters.capacity_misses + 1
                && after.counters.compulsory_misses == before.counters.compulsory_misses
        }),
{
    law_window_remembers_fetched_lines(s, operations, address / 32);
}

/// What a measurement window counts: its accesses, those of them that miss, and
/// among these the first fetches of their line as compulsory ones.
pub proof fn law_window_counts(s: CacheState, operations: Seq<Operation>)
    requires
        one_window(operations),
    ensures
        ({
            let r = s.reset_stats();
            let c = r.perform(operations).counters;
            let misses = positions(operations.len(), |i: int| misses_at(r, operations, i)).len();
            let firsts = positions(
                operations.len(),
                |i: int|
                    misses_at(r, operations, i) && !fetched_before(
                        r,
                        operations,
                        i,
                        operations[i]->Access_0 / 32,
                    ),
            ).len();
            &&& c.total_accesses == accessed(operations).len()
            &&& c.misses == misses
            &&& c.hits == accessed(operations).len() - misses
            &&& c.compulsory_misses == firsts
            &&& c.capacity_misses == misses - firsts
        }),
    decreases operations.len(),
{
    let r = s.reset_stats();
    let p = |i: int| misses_at(r, operations, i);
    let f = |i: int|
        misses_at(r, operations, i) && !fetched_before(
            r,
            operations,
            i,
            operations[i]->Access_0 / 32,
        );
    if operations.len() == 0 {
        count::lemma_positions_bounded(operations.len(), p);
        count::lemma_positions_bounded(operations.len(), f);
    } else {
        let init = operations.drop_last();
        let last = init.len() as int;
        let p0 = |i: int| misses_at(r, init, i);
        let f0 = |i: int|
            misses_at(r, init, i) && !fetched_before(r, init, i, init[i]->Access_0 / 32);
        assert forall|i: int| 0 <= i < init.len() implies !(#[trigger] init[i] is ResetStats) by {
            assert(init[i] == operations[i]);
        }
        law_window_counts(s, init);
        lemma_first_operations(r, operations);
        count::lemma_same_positions(init.len(), p, p0);
        assert forall|i: int| 0 <= i < init.len() implies #[trigger] f(i) == f0(i) by {
            assert(init[i] == operations[i]);
            assert(fetched_before(r, init, i, init[i]->Access_0 / 32) == fetched_before(
                r,
                operations,
                i,
                init[i]->Access_0 / 32,
            ));
        }
        count::lemma_same_positions(init.len(), f, f0);
        count::lemma_one_more_position(init.len(), p);
        count::lemma_one_more_position(init.len(), f);
        assert(operations[last] == operations.last());
        assert(!(operations[last] is ResetStats));
        if let Operation::Access(a) = operations.last() {
            law_window_remembers_fetched_lines(s, init, a / 32);
            assert(fetched_before(r, init, last, a / 32) == fetched_before(
                r,
                operations,
                last,
                a / 32,
            ));
        }
    }
}

/// The history of a measurement window: the newest 1024 of its accesses, or all of
/// them where there are fewer; preloads and flushes leave no trace in it.
pub proof fn law_window_history_is_newest_accesses(s: CacheState, operations: Seq<Operation>)
    requires
        one_window(operations),
    ensures
        accessed(operations).len() <= 1024 ==> s.reset_stats().perform(operations).history
            == accessed(operations),
        accessed(operations).len() > 1024 ==> s.reset_stats().perform(operations).history
            == accessed(operations).skip(accessed(operations).len() - 1024),
    decreases operations.len(),
{
    let n = s.reset_stats().perform(operations);
    let all = accessed(operations);
    if operations.len() == 0 {
        assert(n.history =~= all);
    } else {
        let init = operations.drop_last();
        assert forall|i: int| 0 <= i < init.len() implies !(#[trigger] init[i] is ResetStats) by {
            assert(init[i] == operations[i]);
        }
        law_window_history_is_newest_accesses(s, init);
        assert(operations[init.len() as int] == operations.last());
        assert(!(operations[init.len() as int] is ResetStats));
        let shown = if all.len() <= 1024 {
            all
        } else {
            all.skip(all.len() - 1024)
        };
        assert(n.history =~= shown);
    }
}

} // verus!
