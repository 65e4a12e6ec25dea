//! What the functions that only read, or only make a value, answer.

use vstd::prelude::*;

use crate::cache::ConstantCache;
use crate::line::{CacheLine, CacheLineId};
use crate::pattern::{decimal, AccessPattern};
use crate::stats::{CacheStats, Counters, Rate};
use crate::tracker::MissTracker;

verus! {

/// An address belongs to the block of 32 addresses that its tag counts.
pub proof fn law_tag_and_offset(address: u64, tag: u64, offset: usize)
    requires
        call_ensures(ConstantCache::tag_for_address, (address,), tag),
        call_ensures(ConstantCache::offset_for_address, (address,), offset),
    ensures
        tag == address / 32,
        offset == address % 32,
        address == 32 * tag + offset,
{
}

/// A new cache has the requested number of lines, all of them empty.
pub proof fn law_new_cache(capacity: usize, cache: ConstantCache)
    requires
        call_ensures(ConstantCache::new, (capacity,), cache),
    ensures
        cache@.valid(),
        cache@.capacity == capacity,
        cache@.lru.len() == 0,
        cache@.lines.dom() == Set::<u64>::empty(),
        cache@.ever_loaded == Set::<u64>::empty(),
        cache@.history.len() == 0,
        cache@.counters.total_accesses == 0,
        cache@.counters.evictions == 0,
{
    crate::effects::law_fresh_cache_is_empty(capacity as nat);
}

/// A valid cache reports its number of lines, how many of them are occupied, which
/// are never more, and its counters.
pub proof fn law_cache_reports_itself(
    cache: &ConstantCache,
    capacity: usize,
    occupied: usize,
    stats: &CacheStats,
)
    requires
        cache@.valid(),
        call_ensures(ConstantCache::capacity, (cache,), capacity),
        call_ensures(ConstantCache::occupied, (cache,), occupied),
        call_ensures(ConstantCache::stats, (cache,), stats),
    ensures
        capacity == cache@.capacity,
        occupied == cache@.lru.len(),
        occupied <= capacity,
        stats.total_accesses == cache@.counters.total_accesses,
        stats.hits == cache@.counters.hits,
        stats.misses == cache@.counters.misses,
        stats.evictions == cache@.counters.evictions,
        stats.compulsory_misses == cache@.counters.compulsory_misses,
        stats.capacity_misses == cache@.counters.capacity_misses,
        stats.total_accesses == stats.hits + stats.misses,
        stats.misses == stats.compulsory_misses + stats.capacity_misses,
{
}

/// The rates of a cache are those of its statistics.
pub proof fn law_cache_rates_are_those_of_its_counters(
    cache: &ConstantCache,
    hit_rate: Rate,
    miss_rate: Rate,
)
    requires
        call_ensures(ConstantCache::hit_rate, (cache,), hit_rate),
        call_ensures(ConstantCache::miss_rate, (cache,), miss_rate),
    ensures
        cache@.counters.total_accesses > 0 ==> hit_rate.num == cache@.counters.hits && hit_rate.den
            == cache@.counters.total_accesses,
        cache@.counters.total_accesses == 0 ==> hit_rate.num == 0 && hit_rate.den == 1,
        miss_rate.den == hit_rate.den,
        miss_rate.num == hit_rate.den - hit_rate.num,
        cache@.valid() && cache@.counters.total_accesses > 0 ==> miss_rate.num
            == cache@.counters.misses,
{
}

/// The hit rate of counters is hits over accesses, and zero without accesses; the
/// miss rate is one minus it.
pub proof fn law_rates_are_shares(stats: &CacheStats, hit_rate: Rate, miss_rate: Rate)
    requires
        call_ensures(CacheStats::hit_rate, (stats,), hit_rate),
        call_ensures(CacheStats::miss_rate, (stats,), miss_rate),
    ensures
        stats.total_accesses > 0 ==> hit_rate.num == stats.hits && hit_rate.den
            == stats.total_accesses,
        stats.total_accesses == 0 ==> hit_rate.num == 0 && hit_rate.den == 1,
        miss_rate.den == hit_rate.den,
        miss_rate.num == hit_rate.den - hit_rate.num,
{
}

/// New counters are all at zero.
pub proof fn law_new_counters(stats: CacheStats)
    requires
        call_ensures(CacheStats::default, (), stats),
    ensures
        stats@ == Counters::zero(),
        stats.total_accesses == 0,
        stats.hits == 0,
        stats.misses == 0,
        stats.evictions == 0,
        stats.compulsory_misses == 0,
        stats.capacity_misses == 0,
        Counters::zero().total_accesses == 0,
        Counters::zero().hits == 0,
        Counters::zero().misses == 0,
        Counters::zero().evictions == 0,
        Counters::zero().compulsory_misses == 0,
        Counters::zero().capacity_misses == 0,
{
}

/// Rates are compared by value: by cross-multiplication.
pub proof fn law_at_least_compares_values(a: &Rate, b: &Rate, reached: bool)
    requires
        a.den > 0,
        b.den > 0,
        -0xffff_ffff_ffff_ffff <= a.num <= 0xffff_ffff_ffff_ffff,
        -0xffff_ffff_ffff_ffff <= b.num <= 0xffff_ffff_ffff_ffff,
        call_ensures(Rate::at_least, (a, b), reached),
    ensures
        reached <==> a.num * b.den >= b.num * a.den,
        call_requires(Rate::at_least, (a, b)),
{
}

/// Any two rates can be compared, and where each is at least the other their values
/// are the same.
pub proof fn law_at_least_is_total(a: &Rate, b: &Rate, ab: bool, ba: bool)
    requires
        a.valid(),
        b.valid(),
        call_ensures(Rate::at_least, (a, b), ab),
        call_ensures(Rate::at_least, (b, a), ba),
    ensures
        ab || ba,
        ab && ba <==> a.num * b.den == b.num * a.den,
{
}

/// A new line bears its id and tag, holds 32 zeroes, and was never touched.
pub proof fn law_new_line(id: CacheLineId, tag: u64, line: CacheLine)
    requires
        call_ensures(CacheLine::new, (id, tag), line),
    ensures
        line.id == id,
        line.tag == tag,
        line.data@.len() == 32,
        forall|i: int| 0 <= i < 32 ==> #[trigger] line.data@[i] == 0,
        !line.valid,
        line.access_count == 0,
        line.last_access_cycle == 0,
{
    assert(line.data@ == line@.data);
}

/// A new tracker has recorded nothing, and the total is that of both lists.
pub proof fn law_new_tracker(tracker: MissTracker, total: usize)
    requires
        call_ensures(MissTracker::new, (), tracker),
        call_ensures(MissTracker::total_misses, (&tracker,), total),
    ensures
        total == 0,
        tracker@.compulsory.len() == 0,
        tracker@.capacity.len() == 0,
        tracker@.seen == Set::<u64>::empty(),
{
}

/// The total of a tracker is the length of both of its lists together.
pub proof fn law_total_misses(tracker: &MissTracker, total: usize)
    requires
        call_ensures(MissTracker::total_misses, (tracker,), total),
    ensures
        total == tracker@.compulsory.len() + tracker@.capacity.len(),
{
}

/// The value of a digit.
pub open spec fn digit_value(c: char) -> int {
    c as int - '0' as int
}

/// The number that a sequence of digits stands for, in decimal.
pub open spec fn value_of(digits: Seq<char>) -> int
    decreases digits.len(),
{
    if digits.len() == 0 {
        0
    } else {
        10 * value_of(digits.drop_last()) + digit_value(digits.last())
    }
}

proof fn lemma_digit(d: int)
    requires
        0 <= d < 10,
    ensures
        digit_value("0123456789"@[d]) == d,
{
    reveal_strlit("0123456789");
}

/// The decimal digits of a number are digits, stand for that number, and do not
/// start with a zero unless it is the only one.
pub proof fn law_decimal_stands_for_the_number(n: nat)
    ensures
        value_of(decimal(n)) == n,
        decimal(n).len() > 0,
        forall|i: int| 0 <= i < decimal(n).len() ==> 0 <= digit_value(#[trigger] decimal(n)[i]) < 10,
        decimal(n).len() > 1 ==> decimal(n)[0] != '0',
        n > 0 ==> decimal(n)[0] != '0',
    decreases n,
{
    let digits = decimal(n);
    if n < 10 {
        lemma_digit(n as int);
        assert(digits.drop_last() =~= Seq::empty());
        assert(value_of(digits.drop_last()) == 0);
    } else {
        law_decimal_stands_for_the_number(n / 10);
        lemma_digit((n % 10) as int);
        assert(digits.drop_last() =~= decimal(n / 10));
        assert forall|i: int| 0 <= i < digits.len() implies 0 <= digit_value(
            #[trigger] digits[i],
        ) < 10 by {
            if i < digits.len() - 1 {
                assert(digits[i] == decimal(n / 10)[i]);
            }
        }
        assert(digits[0] == decimal(n / 10)[0]);
    }
}

/// What each pattern is called.
pub proof fn law_pattern_text(pattern: &AccessPattern, text: String)
    requires
        call_ensures(AccessPattern::to_string, (pattern,), text),
    ensures
        *pattern == AccessPattern::Sequential ==> text@ == "Sequential"@,
        *pattern == AccessPattern::Random ==> text@ == "Random"@,
        *pattern == AccessPattern::Unknown ==> text@ == "Unknown"@,
        pattern matches AccessPattern::Strided { stride } ==> exists|digits: Seq<char>|
            {
                &&& text@ == "Strided(stride="@ + digits + ")"@
                &&& #[trigger] value_of(digits) == stride
                &&& digits.len() > 0
                &&& forall|i: int| 0 <= i < digits.len() ==> 0 <= digit_value(
                    #[trigger] digits[i],
                ) < 10
                &&& digits.len() > 1 ==> digits[0] != '0'
            },
{
    if let AccessPattern::Strided { stride } = *pattern {
        law_decimal_stands_for_the_number(stride as nat);
        assert(value_of(decimal(stride as nat)) == stride);
    }
}

} // verus!
