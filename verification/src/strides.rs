//! How the gaps of a history decide its pattern, told from the addresses alone.

use vstd::prelude::*;

use crate::cache::ConstantCache;
use crate::count::positions;
use crate::count;
use crate::pattern::{gaps, has_pattern, is_majority, occurrences, AccessPattern};
use crate::pattern;
use crate::state::CacheState;

verus! {

/// How many consecutive accesses of a history lie `d` addresses apart.
pub open spec fn gap_count(history: Seq<u64>, d: int) -> nat {
    positions(
        (history.len() - 1) as nat,
        |i: int| history[i + 1] - history[i] == d,
    ).len()
}

/// The pattern named after a gap: one is sequential, more than one is strided, and
/// anything else is random.
pub open spec fn named_after(d: int) -> AccessPattern {
    if d == 1 {
        AccessPattern::Sequential
    } else if d > 1 {
        AccessPattern::Strided { stride: d as u64 }
    } else {
        AccessPattern::Random
    }
}

proof fn lemma_occurrences_are_positions(s: Seq<int>, d: int)
    ensures
        occurrences(s, d) == positions(s.len(), |i: int| s[i] == d).len(),
    decreases s.len(),
{
    let p = |i: int| s[i] == d;
    reveal(Seq::filter);
    if s.len() == 0 {
        count::lemma_positions_bounded(s.len(), p);
    } else {
        let init = s.drop_last();
        let q = |i: int| init[i] == d;
        lemma_occurrences_are_positions(init, d);
        count::lemma_same_positions(init.len(), p, q);
        count::lemma_one_more_position(init.len(), p);
        assert(init.push(s.last()) =~= s);
        pattern::lemma_occurrences_push(init, d, s.last());
    }
}

/// The gaps of a history as counted by position.
proof fn lemma_gap_count(history: Seq<u64>, d: int)
    requires
        history.len() > 0,
    ensures
        gap_count(history, d) == occurrences(gaps(history), d),
        gaps(history).len() == history.len() - 1,
{
    let g = gaps(history);
    lemma_occurrences_are_positions(g, d);
    count::lemma_same_positions(
        g.len(),
        |i: int| g[i] == d,
        |i: int| history[i + 1] - history[i] == d,
    );
}

/// A gap that makes up more than half of the gaps of at least four accesses decides
/// the pattern, whatever the other gaps are.
pub proof fn law_majority_gap_decides(history: Seq<u64>, d: int, p: AccessPattern)
    requires
        history.len() >= 4,
        2 * positions(
            (history.len() - 1) as nat,
            |i: int| history[i + 1] - history[i] == d,
        ).len() > history.len() - 1,
    ensures
        d == 1 ==> (has_pattern(history, p) <==> p == AccessPattern::Sequential),
        d > 1 ==> d <= u64::MAX && (has_pattern(history, p) <==> p == AccessPattern::Strided {
            stride: d as u64,
        }),
        d <= 0 ==> (has_pattern(history, p) <==> p == AccessPattern::Random),
{
    let g = gaps(history);
    assert(gap_count(history, d) == positions(
        (history.len() - 1) as nat,
        |i: int| history[i + 1] - history[i] == d,
    ).len());
    lemma_gap_count(history, d);
    pattern::lemma_occurrences_bounds(g, d);
    assert(is_majority(g, d));
    let k = g.index_of(d);
    assert(g[k] == history[k + 1] - history[k]);
    if d <= 0 {
        assert forall|e: int| e > 0 implies !is_majority(g, e) by {
            if is_majority(g, e) {
                pattern::law_majority_is_unique(g, d, e);
            }
        }
    }
    assert(has_pattern(history, named_after(d)));
    if has_pattern(history, p) {
        pattern::law_pattern_is_unique(history, p, named_after(d));
    }
}

/// At least four accesses of which no gap makes up more than half are random.
pub proof fn law_no_majority_is_random(history: Seq<u64>, p: AccessPattern)
    requires
        history.len() >= 4,
        forall|d: int| 2 * #[trigger] gap_count(history, d) <= history.len() - 1,
    ensures
        has_pattern(history, p) <==> p == AccessPattern::Random,
{
    let g = gaps(history);
    assert forall|d: int| !#[trigger] is_majority(g, d) by {
        lemma_gap_count(history, d);
        assert(2 * gap_count(history, d) <= history.len() - 1);
    }
    assert(has_pattern(history, AccessPattern::Random));
    if has_pattern(history, p) {
        pattern::law_pattern_is_unique(history, p, AccessPattern::Random);
    }
}

/// Fewer than four accesses are of unknown pattern, and no longer history is.
pub proof fn law_short_history_is_unknown(history: Seq<u64>, p: AccessPattern)
    ensures
        history.len() < 4 ==> (has_pattern(history, p) <==> p == AccessPattern::Unknown),
        history.len() >= 4 && has_pattern(history, p) ==> p != AccessPattern::Unknown,
{
}

/// Where the addresses start makes no difference: moving all of them by the same
/// distance keeps the pattern.
pub proof fn law_moved_history_has_same_pattern(
    history: Seq<u64>,
    moved: Seq<u64>,
    distance: int,
    p: AccessPattern,
)
    requires
        history.len() == moved.len(),
        forall|i: int| 0 <= i < history.len() ==> #[trigger] moved[i] == history[i] + distance,
    ensures
        has_pattern(history, p) <==> has_pattern(moved, p),
{
    assert(gaps(history) =~= gaps(moved));
}

/// Spreading the addresses by a factor spreads the stride by it.
pub proof fn law_spread_history_has_spread_stride(
    history: Seq<u64>,
    spread: Seq<u64>,
    factor: u64,
    stride: u64,
)
    requires
        history.len() == spread.len(),
        factor > 1,
        stride > 1,
        forall|i: int| 0 <= i < history.len() ==> #[trigger] spread[i] == factor * history[i],
    ensures
        has_pattern(history, AccessPattern::Sequential) ==> has_pattern(
            spread,
            AccessPattern::Strided { stride: factor },
        ),
        has_pattern(history, AccessPattern::Strided { stride }) ==> has_pattern(
            spread,
            AccessPattern::Strided { stride: (factor * stride) as u64 },
        ) && factor * stride <= u64::MAX,
{
    if history.len() >= 4 {
        assert forall|d: int| gap_count(spread, factor * d) == #[trigger] gap_count(history, d) by {
            let p = |i: int| history[i + 1] - history[i] == d;
            let q = |i: int| spread[i + 1] - spread[i] == factor * d;
            assert forall|i: int| 0 <= i < history.len() - 1 implies #[trigger] p(i) == q(i) by {
                let x = history[i + 1] as int;
                let y = history[i] as int;
                let f = factor as int;
                assert(spread[i + 1] == factor * history[i + 1]);
                assert(spread[i] == factor * history[i]);
                assert(f * x - f * y == f * (x - y)) by (nonlinear_arith);
                assert(x - y == d <==> f * (x - y) == f * d) by (nonlinear_arith)
                    requires
                        f > 1,
                ;
            }
            count::lemma_same_positions((history.len() - 1) as nat, p, q);
        }
        if has_pattern(history, AccessPattern::Sequential) {
            lemma_gap_count(history, 1);
            assert(gap_count(spread, factor * 1) == gap_count(history, 1));
            law_majority_gap_decides(
                spread,
                factor as int,
                AccessPattern::Strided { stride: factor },
            );
        }
        if has_pattern(history, AccessPattern::Strided { stride }) {
            let d = factor * stride;
            lemma_gap_count(history, stride as int);
            assert(gap_count(spread, factor * (stride as int)) == gap_count(
                history,
                stride as int,
            ));
            assert(d > 1) by (nonlinear_arith)
                requires
                    d == factor * stride,
                    factor > 1,
                    stride > 1,
            ;
            law_majority_gap_decides(spread, d, AccessPattern::Strided { stride: d as u64 });
        }
    }
}

/// A history that goes forward by a stride is random when read backwards.
pub proof fn law_backwards_is_random(history: Seq<u64>, backwards: Seq<u64>, p: AccessPattern)
    requires
        has_pattern(history, p),
        p is Sequential || p is Strided,
        backwards == history.reverse(),
    ensures
        has_pattern(backwards, AccessPattern::Random),
{
    let d: int = if p is Sequential {
        1
    } else {
        p->stride as int
    };
    let g = gaps(history);
    let h = gaps(backwards);
    lemma_occurrences_backwards(g, h, d);
    lemma_majority_of_gaps_decides(backwards, -d);
}

proof fn lemma_occurrences_backwards(g: Seq<int>, h: Seq<int>, d: int)
    requires
        g.len() == h.len(),
        forall|i: int| 0 <= i < g.len() ==> #[trigger] h[i] == -g[g.len() - 1 - i],
    ensures
        occurrences(h, -d) == occurrences(g, d),
    decreases g.len(),
{
    reveal(Seq::filter);
    if g.len() > 0 {
        let g0 = g.skip(1);
        let h0 = h.drop_last();
        assert forall|i: int| 0 <= i < g0.len() implies #[trigger] h0[i] == -g0[g0.len() - 1 - i] by {
            assert(h0[i] == h[i]);
        }
        lemma_occurrences_backwards(g0, h0, d);
        assert(h0.push(h.last()) =~= h);
        pattern::lemma_occurrences_push(h0, -d, h.last());
        lemma_occurrences_in_front(g0, d, g[0]);
        assert(seq![g[0]] + g0 =~= g);
        assert(h.last() == -g[0]);
    }
}

proof fn lemma_occurrences_in_front(s: Seq<int>, x: int, y: int)
    ensures
        occurrences(seq![y] + s, x) == occurrences(s, x) + if x == y {
            1nat
        } else {
            0nat
        },
    decreases s.len(),
{
    reveal(Seq::filter);
    if s.len() == 0 {
        assert(seq![y] + s =~= Seq::<int>::empty().push(y));
        pattern::lemma_occurrences_push(Seq::empty(), x, y);
        assert(s =~= Seq::empty());
    } else {
        lemma_occurrences_in_front(s.drop_last(), x, y);
        assert(seq![y] + s =~= (seq![y] + s.drop_last()).push(s.last()));
        assert(s =~= s.drop_last().push(s.last()));
        pattern::lemma_occurrences_push(seq![y] + s.drop_last(), x, s.last());
        pattern::lemma_occurrences_push(s.drop_last(), x, s.last());
    }
}

/// A majority of the gaps decides.
proof fn lemma_majority_of_gaps_decides(history: Seq<u64>, d: int)
    requires
        history.len() >= 4,
        is_majority(gaps(history), d),
    ensures
        has_pattern(history, named_after(d)),
{
    lemma_gap_count(history, d);
    law_majority_gap_decides(history, d, named_after(d));
}

/// The newest 1024 accesses of a kernel that loops over a tile of at least two
/// addresses with a fixed stride have that stride, despite the jump back at the end
/// of each round, however many rounds there are, and however much of the loop the
/// accesses still show.
pub proof fn law_looping_over_a_strided_tile(
    addresses: Seq<u64>,
    base: u64,
    stride: u64,
    n: nat,
    rounds: nat,
)
    requires
        n >= 2,
        stride >= 1,
        n * rounds >= 4,
        addresses.len() == n * rounds,
        forall|i: int|
            0 <= i < addresses.len() ==> #[trigger] addresses[i] == base + stride * (i % (
            n as int)),
    ensures
        ({
            let newest = if addresses.len() > 1024 {
                addresses.skip(addresses.len() - 1024)
            } else {
                addresses
            };
            &&& stride == 1 ==> has_pattern(newest, AccessPattern::Sequential)
            &&& stride > 1 ==> has_pattern(newest, AccessPattern::Strided { stride })
        }),
{
    let offset = if addresses.len() > 1024 {
        addresses.len() - 1024
    } else {
        0
    };
    let newest = if addresses.len() > 1024 {
        addresses.skip(addresses.len() - 1024)
    } else {
        addresses
    };
    pattern::lemma_stride_of_tile_window_dominates(base, stride as int, n, rounds, newest, offset);
    lemma_majority_of_gaps_decides(newest, stride as int);
}

/// What a cache reports of its history: unknown for fewer than four accesses;
/// otherwise the gap that makes up more than half of the gaps, if there is one and
/// it goes forward; random in every other case.
pub proof fn law_report_follows_majority_gap(
    cache: &ConstantCache,
    reported: AccessPattern,
    d: int,
)
    requires
        call_ensures(ConstantCache::analyze_access_pattern, (cache,), reported),
    ensures
        ({
            let h = cache@.history;
            let count = positions((h.len() - 1) as nat, |i: int| h[i + 1] - h[i] == d).len();
            &&& reported == AccessPattern::Unknown <==> h.len() < 4
            &&& h.len() >= 4 && 2 * count > h.len() - 1 && d == 1 ==> reported
                == AccessPattern::Sequential
            &&& h.len() >= 4 && 2 * count > h.len() - 1 && d > 1 ==> reported
                == (AccessPattern::Strided { stride: d as u64 })
            &&& h.len() >= 4 && 2 * count > h.len() - 1 && d <= 0 ==> reported
                == AccessPattern::Random
            &&& reported == AccessPattern::Sequential && d == 1 ==> 2 * count > h.len() - 1
            &&& reported is Strided && d == reported->stride ==> d > 1 && 2 * count > h.len() - 1
        }),
{
    let h = cache@.history;
    assert(has_pattern(h, reported));
    assert(gap_count(h, d) == positions(
        (h.len() - 1) as nat,
        |i: int| h[i + 1] - h[i] == d,
    ).len());
    if h.len() >= 4 {
        lemma_gap_count(h, d);
        if 2 * gap_count(h, d) > h.len() - 1 {
            law_majority_gap_decides(h, d, reported);
        }
    }
}

/// A cache of any size and in any state, from a reset on, reports a loop over a tile
/// of at least two addresses with a fixed stride by that stride.
pub proof fn law_cache_sees_strided_tile(
    s: CacheState,
    addresses: Seq<u64>,
    base: u64,
    stride: u64,
    n: nat,
    rounds: nat,
)
    requires
        n >= 2,
        stride >= 1,
        n * rounds >= 4,
        addresses.len() == n * rounds,
        forall|i: int|
            0 <= i < addresses.len() ==> #[trigger] addresses[i] == base + stride * (i % (
            n as int)),
    ensures
        stride == 1 ==> has_pattern(
            s.reset_stats().run(addresses).history,
            AccessPattern::Sequential,
        ),
        stride > 1 ==> has_pattern(
            s.reset_stats().run(addresses).history,
            AccessPattern::Strided { stride },
        ),
{
    law_looping_over_a_strided_tile(addresses, base, stride, n, rounds);
    law_run_history_is_newest_addresses(s, addresses);
}

/// From a reset on, the history holds the newest 1024 addresses accessed, or all of
/// them where there are fewer.
pub proof fn law_run_history_is_newest_addresses(s: CacheState, addresses: Seq<u64>)
    ensures
        s.reset_stats().run(addresses).history == if addresses.len() > 1024 {
            addresses.skip(addresses.len() - 1024)
        } else {
            addresses
        },
    decreases addresses.len(),
{
    let h = s.reset_stats().run(addresses).history;
    let newest = if addresses.len() > 1024 {
        addresses.skip(addresses.len() - 1024)
    } else {
        addresses
    };
    if addresses.len() > 0 {
        law_run_history_is_newest_addresses(s, addresses.drop_last());
    }
    assert(h =~= newest);
}

} // verus!
