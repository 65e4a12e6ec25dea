//! What cache sizing answers, told from the trace alone.

use vstd::prelude::*;

use crate::count;
use crate::estimator::CacheSizeEstimator;
use crate::estimator;
use crate::reuse::{lines_touched, reused_within, short_reuses};
use crate::reuse;
use crate::state::CacheState;
use crate::stats::Rate;
use crate::trace;

verus! {

/// The hit rate at a size is the fraction of the accesses of the whole trace whose
/// line is reused soon enough for a cache of exactly that size.
pub proof fn law_hit_rate_is_share_of_short_reuses(addresses: Seq<u64>, size: nat)
    ensures
        addresses.len() > 0 ==> estimator::hit_rate_at(addresses, size) == (
            short_reuses(addresses, size) as int,
            addresses.len() as int,
        ),
        addresses.len() == 0 ==> estimator::hit_rate_at(addresses, size) == (0int, 1int),
        estimator::hit_rate_at(addresses, size).0
            == CacheState::fresh(size).run(addresses).counters.hits,
        short_reuses(addresses, size) <= addresses.len(),
{
    reuse::law_hits_are_short_reuses(addresses, size);
    count::lemma_positions_bounded(
        addresses.len(),
        |i: int| reused_within(addresses, i, size),
    );
}

/// A cache with a line for each line touched misses the first touches only; one
/// without lines misses everything; and no cache hits more than the first does.
pub proof fn law_short_reuses_at_the_ends(addresses: Seq<u64>, size: nat)
    ensures
        size >= lines_touched(addresses) ==> short_reuses(addresses, size) == addresses.len()
            - lines_touched(addresses),
        size == 0 ==> short_reuses(addresses, size) == 0,
        short_reuses(addresses, size) <= addresses.len() - lines_touched(addresses),
        addresses.len() > 0 ==> 1 <= lines_touched(addresses) <= addresses.len(),
{
    reuse::law_hits_are_short_reuses(addresses, size);
    reuse::law_working_set_is_first_touches(addresses);
    trace::law_simulation_counts(addresses, size);
    let p = |i: int| reuse::first_touch(addresses, i);
    count::lemma_positions_bounded(addresses.len(), p);
    if size >= lines_touched(addresses) {
        trace::law_working_set_fits(addresses, size);
    }
    if size == 0 {
        let q = |i: int| reused_within(addresses, i, size);
        assert(count::positions(addresses.len(), q) =~= Set::empty());
    }
    if addresses.len() > 0 {
        assert(count::positions(addresses.len(), p).contains(0));
        vstd::set::axiom_set_contains_len(count::positions(addresses.len(), p), 0);
    }
}

/// A sweep starts at the smallest size, goes on by the step (by one where the step is
/// zero), and ends with the last size that does not exceed the largest.
pub proof fn law_sweep_visits_every_step(
    addresses: &[u64],
    min_size: usize,
    max_size: usize,
    step: usize,
    results: Vec<(usize, Rate)>,
    k: int,
)
    requires
        call_ensures(
            CacheSizeEstimator::estimate_optimal_size,
            (addresses, min_size, max_size, step),
            results,
        ),
    ensures
        ({
            let by: int = if step == 0 {
                1
            } else {
                step as int
            };
            &&& results@.len() == 0 <==> min_size > max_size
            &&& results@.len() > 0 ==> results@[0].0 == min_size
            &&& 0 <= k < results@.len() ==> min_size <= results@[k].0 <= max_size
            &&& 0 <= k < results@.len() - 1 ==> results@[k + 1].0 == results@[k].0 + by
            &&& results@.len() > 0 ==> results@[results@.len() - 1].0 + by > max_size
        }),
{
    let n = results@.len();
    assert(n > 0 <==> estimator::swept_size(min_size as nat, step as nat, 0) <= max_size);
    assert(estimator::swept_size(min_size as nat, step as nat, n) > max_size);
    if 0 <= k < n {
        assert(estimator::swept_size(min_size as nat, step as nat, k as nat) <= max_size);
    }
    if 0 <= k < n - 1 {
        estimator::lemma_next_size(min_size as nat, step as nat, k as nat);
        assert(results@[k + 1].0 == estimator::swept_size(
            min_size as nat,
            step as nat,
            (k + 1) as nat,
        ));
    }
    if n > 0 {
        estimator::lemma_next_size(min_size as nat, step as nat, (n - 1) as nat);
        assert(results@[n - 1].0 == estimator::swept_size(
            min_size as nat,
            step as nat,
            (n - 1) as nat,
        ));
    }
}

/// Each size of a sweep is reported with the share of accesses whose line is reused
/// soon enough for it. Where the size suffices for all lines touched, only the first
/// touches miss; a size of zero never hits; no rate exceeds that of a sufficient size.
pub proof fn law_sweep_reports_share_of_short_reuses(
    addresses: &[u64],
    min_size: usize,
    max_size: usize,
    step: usize,
    results: Vec<(usize, Rate)>,
    k: int,
)
    requires
        call_ensures(
            CacheSizeEstimator::estimate_optimal_size,
            (addresses, min_size, max_size, step),
            results,
        ),
        0 <= k < results@.len(),
    ensures
        ({
            let (size, rate) = results@[k];
            let len = addresses@.len();
            let lines = lines_touched(addresses@);
            &&& len == 0 ==> rate.num == 0 && rate.den == 1
            &&& len > 0 ==> rate.num == short_reuses(addresses@, size as nat) && rate.den == len
            &&& len > 0 && size >= lines ==> rate.num == len - lines
            &&& len > 0 && size == 0 ==> rate.num == 0
            &&& len > 0 ==> 0 <= rate.num <= len - lines
        }),
{
    let size = results@[k].0;
    assert(results@[k].1@ == estimator::hit_rate_at(addresses@, size as nat));
    law_hit_rate_is_share_of_short_reuses(addresses@, size as nat);
    law_short_reuses_at_the_ends(addresses@, size as nat);
}

/// Whether a cache of a given size reaches a target: whether the share of short
/// reuses in the whole trace does.
pub proof fn law_reaching_is_about_whole_trace(addresses: Seq<u64>, target: Rate, size: nat)
    ensures
        addresses.len() > 0 ==> (estimator::reaches(addresses, target, size) <==> short_reuses(
            addresses,
            size,
        ) * target.den >= target.num * addresses.len()),
        addresses.len() == 0 ==> (estimator::reaches(addresses, target, size) <==> 0
            >= target.num),
{
    law_hit_rate_is_share_of_short_reuses(addresses, size);
}

/// The minimum size for a target is the least size, from one line to the largest
/// allowed, at which the share of short reuses in the whole trace reaches the
/// target; there is none exactly when no such size does.
pub proof fn law_min_size_is_least_that_reaches(
    addresses: &[u64],
    target: Rate,
    max_size: usize,
    min_size: Option<usize>,
    k: nat,
)
    requires
        target.valid(),
        call_ensures(
            CacheSizeEstimator::min_size_for_hit_rate,
            (addresses, target, max_size),
            min_size,
        ),
        addresses@.len() > 0,
    ensures
        match min_size {
            Some(size) => {
                &&& 1 <= size <= max_size
                &&& short_reuses(addresses@, size as nat) * target.den >= target.num
                    * addresses@.len()
                &&& 1 <= k < size ==> short_reuses(addresses@, k) * target.den < target.num
                    * addresses@.len()
            },
            None => 1 <= k <= max_size ==> short_reuses(addresses@, k) * target.den < target.num
                * addresses@.len(),
        },
{
    if let Some(size) = min_size {
        law_reaching_is_about_whole_trace(addresses@, target, size as nat);
    }
    law_reaching_is_about_whole_trace(addresses@, target, k);
    assert(1 <= k <= max_size && (min_size matches Some(size) ==> k < size)
        ==> !estimator::reaches(addresses@, target, k));
}

/// Where a cache with a line for each line touched reaches the target and is
/// allowed, there is a minimum size, and it is no larger than that.
pub proof fn law_min_size_is_within_lines_touched(
    addresses: &[u64],
    target: Rate,
    max_size: usize,
    min_size: Option<usize>,
)
    requires
        target.valid(),
        call_ensures(
            CacheSizeEstimator::min_size_for_hit_rate,
            (addresses, target, max_size),
            min_size,
        ),
        addresses@.len() > 0,
    ensures
        ({
            let len = addresses@.len();
            let lines = lines_touched(addresses@);
            let reachable = (len - lines) * target.den >= target.num * len;
            &&& reachable && lines <= max_size ==> min_size is Some && min_size->0 <= lines
            &&& !reachable ==> min_size is None
            &&& target.num <= 0 && max_size >= 1 ==> min_size == Some(1usize)
            &&& max_size == 0 ==> min_size is None
        }),
{
    let len = addresses@.len() as int;
    let lines = lines_touched(addresses@);
    let den = target.den as int;
    law_short_reuses_at_the_ends(addresses@, lines);
    law_min_size_is_least_that_reaches(addresses, target, max_size, min_size, lines);
    law_min_size_is_least_that_reaches(addresses, target, max_size, min_size, 1);
    if let Some(size) = min_size {
        law_short_reuses_at_the_ends(addresses@, size as nat);
        let a = short_reuses(addresses@, size as nat) as int;
        assert(a * den <= (len - lines) * den) by (nonlinear_arith)
            requires
                a <= len - lines,
                den > 0,
        ;
    }
    if target.num <= 0 {
        let a = short_reuses(addresses@, 1) as int;
        let num = target.num as int;
        assert(a * den >= 0 && num * len <= 0) by (nonlinear_arith)
            requires
                a >= 0,
                den > 0,
                num <= 0,
                len > 0,
        ;
    }
}

/// Without accesses the hit rate is zero at every size: one line suffices for a
/// target of zero or less, and nothing for more.
pub proof fn law_min_size_of_empty_trace(
    addresses: &[u64],
    target: Rate,
    max_size: usize,
    min_size: Option<usize>,
)
    requires
        target.valid(),
        call_ensures(
            CacheSizeEstimator::min_size_for_hit_rate,
            (addresses, target, max_size),
            min_size,
        ),
        addresses@.len() == 0,
    ensures
        min_size == if target.num <= 0 && max_size >= 1 {
            Some(1usize)
        } else {
            None
        },
{
    law_reaching_is_about_whole_trace(addresses@, target, 1);
    if let Some(size) = min_size {
        law_reaching_is_about_whole_trace(addresses@, target, size as nat);
    }
    assert(1 <= max_size && (min_size matches Some(size) ==> 1 < size) ==> !estimator::reaches(
        addresses@,
        target,
        1,
    ));
}

/// A higher target never needs a smaller cache, and a larger limit never changes a
/// size that was found.
pub proof fn law_min_size_grows_with_target(
    addresses: &[u64],
    low: Rate,
    high: Rate,
    low_limit: usize,
    high_limit: usize,
    for_low: Option<usize>,
    for_high: Option<usize>,
)
    requires
        low.valid(),
        high.valid(),
        low.num * high.den <= high.num * low.den,
        low_limit >= high_limit,
        call_ensures(
            CacheSizeEstimator::min_size_for_hit_rate,
            (addresses, low, low_limit),
            for_low,
        ),
        call_ensures(
            CacheSizeEstimator::min_size_for_hit_rate,
            (addresses, high, high_limit),
            for_high,
        ),
    ensures
        for_high is Some ==> for_low is Some && for_low->0 <= for_high->0,
        low == high && for_high is Some ==> for_low == for_high,
{
    if let Some(size) = for_high {
        let hits = if addresses@.len() > 0 {
            short_reuses(addresses@, size as nat) as int
        } else {
            0
        };
        let len = if addresses@.len() > 0 {
            addresses@.len() as int
        } else {
            1
        };
        law_reaching_is_about_whole_trace(addresses@, low, size as nat);
        law_reaching_is_about_whole_trace(addresses@, high, size as nat);
        let (a, b) = (low.num as int, low.den as int);
        let (c, d) = (high.num as int, high.den as int);
        assert(hits * d >= c * len);
        assert(hits * b >= a * len) by (nonlinear_arith)
            requires
                hits * d >= c * len,
                a * d <= c * b,
                b > 0,
                d > 0,
                len > 0,
        ;
        assert(estimator::reaches(addresses@, low, size as nat));
        if low == high && for_low is Some {
            assert(for_low->0 < size ==> !estimator::reaches(addresses@, high, for_low->0 as nat));
        }
    }
}

/// The hit rate as a `Rate` has the share of short reuses for its parts; it is zero
/// for an empty trace.
pub proof fn law_rate_is_share_of_short_reuses(addresses: &[u64], size: nat)
    ensures
        addresses@.len() > 0 ==> estimator::rate_at(addresses@, size).num == short_reuses(
            addresses@,
            size,
        ) && estimator::rate_at(addresses@, size).den == addresses@.len(),
        addresses@.len() == 0 ==> estimator::rate_at(addresses@, size).num == 0
            && estimator::rate_at(addresses@, size).den == 1,
{
    law_hit_rate_is_share_of_short_reuses(addresses@, size);
    assert(addresses@.len() == addresses.len());
}

/// The search by any criterion judges each size by the share of short reuses in the
/// whole trace, and finds the least size, from one line on, that is accepted.
pub proof fn law_search_judges_share_of_short_reuses<F: Fn(Rate) -> bool>(
    addresses: &[u64],
    reached: F,
    max_size: usize,
    min_size: Option<usize>,
    k: nat,
    judged: Rate,
)
    requires
        call_ensures(
            CacheSizeEstimator::min_size_satisfying::<F>,
            (addresses, reached, max_size),
            min_size,
        ),
        judged.den == if addresses@.len() > 0 {
            addresses@.len()
        } else {
            1
        },
        judged.num == if addresses@.len() > 0 {
            short_reuses(addresses@, k)
        } else {
            0
        },
    ensures
        min_size matches Some(size) ==> 1 <= size <= max_size,
        min_size matches Some(size) ==> (k == size ==> call_ensures(reached, (judged,), true)),
        1 <= k <= max_size && (min_size matches Some(size) ==> k < size) ==> call_ensures(
            reached,
            (judged,),
            false,
        ),
{
    law_rate_is_share_of_short_reuses(addresses, k);
    assert(estimator::rate_at(addresses@, k) == judged);
}

/// The working set is counted by the accesses that touch their line first.
pub proof fn law_working_set_size_counts_first_touches(addresses: &[u64], size: usize)
    requires
        call_ensures(CacheSizeEstimator::working_set_size, (addresses,), size),
    ensures
        size == lines_touched(addresses@),
        size == Set::new(
            |t: u64|
                exists|i: int| 0 <= i < addresses@.len() && #[trigger] addresses@[i] / 32 == t,
        ).len(),
        size == 0 <==> addresses@.len() == 0,
        size <= addresses@.len(),
{
    reuse::law_working_set_is_first_touches(addresses@);
    law_short_reuses_at_the_ends(addresses@, 0);
    let blocks = Set::new(
        |t: u64| exists|i: int| 0 <= i < addresses@.len() && #[trigger] addresses@[i] / 32 == t,
    );
    assert forall|t: u64| #[trigger]
        blocks.contains(t) <==> crate::tags::tags_of(addresses@).contains(t) by {
        reuse::law_tags_are_blocks_touched(addresses@, t);
    }
    assert(blocks =~= crate::tags::tags_of(addresses@));
    count::lemma_positions_bounded(
        addresses@.len(),
        |i: int| reuse::first_touch(addresses@, i),
    );
}

/// The order of the accesses does not matter to the working set, nor how often a
/// line is touched: traces that touch the same lines have the same one.
pub proof fn law_working_set_is_about_lines(
    a: &[u64],
    b: &[u64],
    size_a: usize,
    size_b: usize,
)
    requires
        call_ensures(CacheSizeEstimator::working_set_size, (a,), size_a),
        call_ensures(CacheSizeEstimator::working_set_size, (b,), size_b),
        forall|i: int|
            0 <= i < a@.len() ==> exists|j: int|
                0 <= j < b@.len() && #[trigger] b@[j] / 32 == #[trigger] a@[i] / 32,
    ensures
        size_a <= size_b,
{
    let ta = crate::tags::tags_of(a@);
    let tb = crate::tags::tags_of(b@);
    assert forall|t: u64| ta.contains(t) implies #[trigger] tb.contains(t) by {
        reuse::law_tags_are_blocks_touched(a@, t);
        reuse::law_tags_are_blocks_touched(b@, t);
        let i = choose|i: int| 0 <= i < a@.len() && #[trigger] a@[i] / 32 == t;
        assert(exists|j: int| 0 <= j < b@.len() && #[trigger] b@[j] / 32 == a@[i] / 32);
    }
    reuse::law_tags_are_blocks_touched(b@, 0);
    vstd::set_lib::lemma_len_subset(ta, tb);
}

} // verus!
