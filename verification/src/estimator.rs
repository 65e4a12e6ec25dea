//! Cache sizing: simulate one trace with caches of different sizes.

use std::collections::HashSet;
use vstd::prelude::*;

use crate::cache::ConstantCache;
use crate::stats;
use crate::stats::Rate;
use crate::tags;
use crate::trace;

verus! {

broadcast use vstd::std_specs::hash::group_hash_axioms;

/// Optimal cache size estimator.
pub struct CacheSizeEstimator;

/// The hit rate that a cache of the given size reaches on the addresses.
pub open spec fn hit_rate_at(addresses: Seq<u64>, size: nat) -> (int, int) {
    trace::simulated(addresses, size).counters.hit_rate()
}

/// The hit rate that a cache of the given size reaches on the addresses, as a `Rate`.
pub open spec fn rate_at(addresses: Seq<u64>, size: nat) -> Rate {
    Rate {
        num: hit_rate_at(addresses, size).0 as i128,
        den: hit_rate_at(addresses, size).1 as u64,
    }
}

/// The `k`-th size of a sweep; a step of zero counts as a step of one.
pub open spec fn swept_size(min_size: nat, step: nat, k: nat) -> nat {
    min_size + k * (if step == 0 {
        1nat
    } else {
        step
    })
}

/// Whether a cache of the given size reaches the target hit rate on the addresses.
pub open spec fn reaches(addresses: Seq<u64>, target: Rate, size: nat) -> bool {
    stats::fraction_at_least(hit_rate_at(addresses, size), target@)
}

/// Simulate accesses to all addresses with a cache of the given size, starting empty.
fn simulate(addresses: &[u64], size: usize) -> (cache: ConstantCache)
    ensures
        cache@ == trace::simulated(addresses@, size as nat),
        cache@.valid(),
{
    let mut cache = ConstantCache::new(size);
    let mut i: usize = 0;
    assert(addresses@.take(0) =~= Seq::<u64>::empty());
    while i < addresses.len()
        invariant
            0 <= i <= addresses@.len(),
            cache@ == trace::simulated(addresses@.take(i as int), size as nat),
            cache@.valid(),
        decreases addresses@.len() - i,
    {
        proof {
            let done = addresses@.take(i as int);
            let next = addresses@.take(i + 1);
            trace::law_simulation_counts(done, size as nat);
            assert(next.drop_last() =~= done);
            assert(next.last() == addresses@[i as int]);
        }
        cache.access(addresses[i]);
        i += 1;
    }
    assert(addresses@.take(i as int) =~= addresses@);
    cache
}

impl CacheSizeEstimator {
    /// Simulate accesses with varying cache sizes and return (size, hit rate) pairs.
    pub fn estimate_optimal_size(
        addresses: &[u64],
        min_size: usize,
        max_size: usize,
        step: usize,
    ) -> (results: Vec<(usize, Rate)>)
        ensures
            results@.len() == 0 <==> min_size > max_size,
            swept_size(min_size as nat, step as nat, results@.len()) > max_size,
            forall|k: nat|
                k < results@.len() <==> #[trigger] swept_size(min_size as nat, step as nat, k)
                    <= max_size,
            forall|k: int|
                0 <= k < results@.len() ==> {
                    &&& (#[trigger] results@[k]).0 == swept_size(
                        min_size as nat,
                        step as nat,
                        k as nat,
                    )
                    &&& results@[k].1@ == hit_rate_at(addresses@, results@[k].0 as nat)
                    &&& results@[k].1.valid()
                },
            forall|j: int, k: int|
                0 <= j <= k < results@.len() ==> stats::fraction_at_least(
                    (#[trigger] results@[k]).1@,
                    (#[trigger] results@[j]).1@,
                ),
    {
        let stride: usize = if step == 0 {
            1
        } else {
            step
        };
        let mut results: Vec<(usize, Rate)> = Vec::new();
        let mut size: usize = min_size;
        let mut more: bool = min_size <= max_size;
        assert(swept_size(min_size as nat, step as nat, 0) == min_size);
        while more
            invariant
                stride == if step == 0 {
                    1usize
                } else {
                    step
                },
                more ==> size == swept_size(min_size as nat, step as nat, results@.len())
                    && size <= max_size,
                !more ==> swept_size(min_size as nat, step as nat, results@.len()) > max_size,
                forall|k: int|
                    0 <= k < results@.len() ==> {
                        &&& (#[trigger] results@[k]).0 == swept_size(
                            min_size as nat,
                            step as nat,
                            k as nat,
                        )
                        &&& results@[k].0 <= max_size
                            &&& results@[k].1@ == hit_rate_at(addresses@, results@[k].0 as nat)
                        &&& results@[k].1.valid()
                    },
            decreases (if more { max_size - size + 1 } else { 0 }),
        {
            let cache = simulate(addresses, size);
            let rate = cache.hit_rate();
            proof {
                lemma_next_size(min_size as nat, step as nat, results@.len());
            }
            results.push((size, rate));
            if max_size - size >= stride {
                size += stride;
            } else {
                more = false;
            }
        }
        proof {
            let n = results@.len();
            assert forall|k: nat|
                k < n <==> #[trigger] swept_size(min_size as nat, step as nat, k) <= max_size by {
                if k < n {
                    assert(results@[k as int].0 <= max_size);
                } else {
                    lemma_sizes_grow(min_size as nat, step as nat, n, k);
                }
            }
            assert forall|j: int, k: int|
                0 <= j <= k < results@.len() implies stats::fraction_at_least(
                (#[trigger] results@[k]).1@,
                (#[trigger] results@[j]).1@,
            ) by {
                lemma_sizes_grow(min_size as nat, step as nat, j as nat, k as nat);
                trace::law_hit_rate_grows_with_size(
                    addresses@,
                    results@[j].0 as nat,
                    results@[k].0 as nat,
                );
            }
        }
        results
    }

    /// Find the minimum cache size, from one line up to `max_size`, whose hit rate
    /// is one that `reached` accepts.
    pub fn min_size_satisfying<F: Fn(Rate) -> bool>(
        addresses: &[u64],
        reached: F,
        max_size: usize,
    ) -> (min_size: Option<usize>)
        requires
            forall|rate: Rate| rate.valid() ==> #[trigger] call_requires(reached, (rate,)),
        ensures
            match min_size {
                Some(size) => {
                    &&& 1 <= size <= max_size
                    &&& call_ensures(reached, (rate_at(addresses@, size as nat),), true)
                    &&& forall|k: nat|
                        1 <= k < size ==> call_ensures(
                            reached,
                            (#[trigger] rate_at(addresses@, k),),
                            false,
                        )
                },
                None => forall|k: nat|
                    1 <= k <= max_size ==> call_ensures(
                        reached,
                        (#[trigger] rate_at(addresses@, k),),
                        false,
                    ),
            },
            max_size >= 1 && min_size != Some(1usize) ==> call_ensures(
                reached,
                (rate_at(addresses@, 1),),
                false,
            ),
    {
        let mut size: usize = 0;
        while size < max_size
            invariant
                size <= max_size,
                forall|rate: Rate| rate.valid() ==> #[trigger] call_requires(reached, (rate,)),
                forall|k: nat|
                    1 <= k <= size ==> call_ensures(
                        reached,
                        (#[trigger] rate_at(addresses@, k),),
                        false,
                    ),
            decreases max_size - size,
        {
            size += 1;
            let cache = simulate(addresses, size);
            let rate = cache.hit_rate();
            assert(rate == rate_at(addresses@, size as nat));
            if reached(rate) {
                return Some(size);
            }
        }
        None
    }

    /// Find the minimum cache size, from one line up to `max_size`, that achieves
    /// the target hit rate.
    pub fn min_size_for_hit_rate(
        addresses: &[u64],
        target_hit_rate: Rate,
        max_size: usize,
    ) -> (min_size: Option<usize>)
        requires
            target_hit_rate.valid(),
        ensures
            match min_size {
                Some(size) => {
                    &&& 1 <= size <= max_size
                    &&& reaches(addresses@, target_hit_rate, size as nat)
                    &&& forall|k: nat|
                        1 <= k < size ==> !#[trigger] reaches(addresses@, target_hit_rate, k)
                },
                None => forall|k: nat|
                    1 <= k <= max_size ==> !#[trigger] reaches(addresses@, target_hit_rate, k),
            },
            min_size is Some <==> max_size >= 1 && reaches(
                addresses@,
                target_hit_rate,
                max_size as nat,
            ),
    {
        let reached = |rate: Rate| -> (r: bool)
            requires
                rate.valid(),
            ensures
                r == stats::fraction_at_least(rate@, target_hit_rate@),
            { rate.at_least(&target_hit_rate) };
        let min_size = CacheSizeEstimator::min_size_satisfying(addresses, reached, max_size);
        proof {
            if let Some(size) = min_size {
                lemma_rate_is_exact(addresses, size as nat);
            }
            if let Some(size) = min_size {
                law_larger_sizes_reach_too(
                    addresses@,
                    target_hit_rate,
                    size as nat,
                    max_size as nat,
                );
            }
            assert forall|k: nat|
                1 <= k <= max_size && (min_size matches Some(size) ==> k < size)
                    implies !#[trigger] reaches(addresses@, target_hit_rate, k) by {
                lemma_rate_is_exact(addresses, k);
                assert(call_ensures(reached, (rate_at(addresses@, k),), false));
            }
        }
        min_size
    }

    /// Compute the working set size (unique cache lines touched).
    pub fn working_set_size(addresses: &[u64]) -> (size: usize)
        ensures
            size == trace::working_set(addresses@),
    {
        let mut tags: HashSet<u64> = HashSet::new();
        let mut i: usize = 0;
        assert(tags::tags_of(addresses@.take(0)) =~= Set::<u64>::empty());
        while i < addresses.len()
            invariant
                0 <= i <= addresses@.len(),
                tags@ == tags::tags_of(addresses@.take(i as int)),
            decreases addresses@.len() - i,
        {
            proof {
                assert(addresses@.take(i + 1) =~= addresses@.take(i as int).push(
                    addresses@[i as int],
                ));
                tags::lemma_tags_of_push(addresses@.take(i as int), addresses@[i as int]);
            }
            tags.insert(ConstantCache::tag_for_address(addresses[i]));
            i += 1;
        }
        assert(addresses@.take(i as int) =~= addresses@);
        tags.len()
    }
}

/// A hit rate of a simulation fits into a `Rate` without loss.
proof fn lemma_rate_is_exact(addresses: &[u64], size: nat)
    ensures
        rate_at(addresses@, size)@ == hit_rate_at(addresses@, size),
        rate_at(addresses@, size).valid(),
{
    trace::law_simulation_counts(addresses@, size);
    assert(addresses@.len() == addresses.len());
}

pub(crate) proof fn lemma_next_size(min_size: nat, step: nat, k: nat)
    ensures
        swept_size(min_size, step, k + 1) == swept_size(min_size, step, k) + if step == 0 {
            1nat
        } else {
            step
        },
{
    assert((k + 1) * step == k * step + step) by (nonlinear_arith);
}

proof fn lemma_sizes_grow(min_size: nat, step: nat, j: nat, k: nat)
    requires
        j <= k,
    ensures
        swept_size(min_size, step, j) <= swept_size(min_size, step, k),
{
    assert(j * step <= k * step) by (nonlinear_arith)
        requires
            j <= k,
    ;
}

/// Once a size reaches a target hit rate, so does every larger size: the minimum
/// size separates the sizes that are too small from those that suffice.
pub proof fn law_larger_sizes_reach_too(
    addresses: Seq<u64>,
    target: Rate,
    small: nat,
    large: nat,
)
    requires
        target.valid(),
        small <= large,
        reaches(addresses, target, small),
    ensures
        reaches(addresses, target, large),
{
    trace::law_simulation_counts(addresses, small);
    trace::law_simulation_counts(addresses, large);
    trace::law_hits_grow_with_size(addresses, small, large);
    let a = hit_rate_at(addresses, small).0;
    let b = hit_rate_at(addresses, large).0;
    let d = target.den as int;
    assert(b * d >= a * d) by (nonlinear_arith)
        requires
            b >= a,
            d >= 0,
    ;
}

} // verus!
