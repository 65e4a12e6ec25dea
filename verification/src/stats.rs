//! Counters of a simulation and the rates read off them.

use vstd::prelude::*;

verus! {

/// An exact rate, `num / den`.
///
/// `==` compares numerator and denominator, not the values of the fractions.
#[derive(Debug, Clone, Copy, PartialEq, Eq, Structural)]
pub struct Rate {
    /// Numerator of the rate (negative only where more hits than accesses were counted).
    pub num: i128,
    /// Denominator of the rate.
    pub den: u64,
}

impl View for Rate {
    type V = (int, int);

    open spec fn view(&self) -> (int, int) {
        (self.num as int, self.den as int)
    }
}

/// The fraction of `hits` in `accesses`; zero when there were no accesses.
pub open spec fn hit_fraction(hits: nat, accesses: nat) -> (int, int) {
    if accesses == 0 {
        (0, 1)
    } else {
        (hits as int, accesses as int)
    }
}

/// One minus the fraction `f`.
pub open spec fn complement(f: (int, int)) -> (int, int) {
    (f.1 - f.0, f.1)
}

/// Whether the fraction `f` is at least the fraction `g`, both with a positive denominator.
pub open spec fn fraction_at_least(f: (int, int), g: (int, int)) -> bool {
    f.0 * g.1 >= g.0 * f.1
}

impl Rate {
    /// A rate with a positive denominator and a numerator that counts at most as far as `u64`.
    pub open spec fn valid(self) -> bool {
        &&& self.den > 0
        &&& -(u64::MAX as int) <= self.num <= u64::MAX
    }

    /// Whether this rate is at least `other`.
    pub fn at_least(&self, other: &Rate) -> (reached: bool)
        requires
            self.valid(),
            other.valid(),
        ensures
            reached == fraction_at_least(self@, other@),
    {
        if self.num >= 0 && other.num >= 0 {
            proof {
                lemma_product_fits(self.num as int, other.den as int);
                lemma_product_fits(other.num as int, self.den as int);
            }
            (self.num as u128) * (other.den as u128) >= (other.num as u128) * (self.den as u128)
        } else if self.num < 0 && other.num < 0 {
            proof {
                lemma_product_fits(-self.num as int, other.den as int);
                lemma_product_fits(-other.num as int, self.den as int);
            }
            ((-self.num) as u128) * (other.den as u128) <= ((-other.num) as u128) * (
            self.den as u128)
        } else {
            proof {
                lemma_sign_of_product(self.num as int, other.den as int);
                lemma_sign_of_product(other.num as int, self.den as int);
            }
            self.num >= 0
        }
    }
}

proof fn lemma_product_fits(a: int, b: int)
    requires
        0 <= a <= u64::MAX,
        0 <= b <= u64::MAX,
    ensures
        0 <= a * b <= u128::MAX,
        (-a) * b == -(a * b),
{
    assert(0 <= a * b <= 0xffff_ffff_ffff_ffffint * 0xffff_ffff_ffff_ffffint) by (nonlinear_arith)
        requires
            0 <= a <= 0xffff_ffff_ffff_ffffint,
            0 <= b <= 0xffff_ffff_ffff_ffffint,
    ;
    assert((-a) * b == -(a * b)) by (nonlinear_arith);
}

proof fn lemma_sign_of_product(a: int, b: int)
    requires
        b > 0,
    ensures
        a >= 0 ==> a * b >= 0,
        a < 0 ==> a * b < 0,
{
    assert(a >= 0 ==> a * b >= 0) by (nonlinear_arith)
        requires
            b > 0,
    ;
    assert(a < 0 ==> a * b < 0) by (nonlinear_arith)
        requires
            b > 0,
    ;
}

/// Cache statistics.
#[derive(Debug)]
pub struct CacheStats {
    /// Total number of simulated `ConstantCache::access` calls.
    pub total_accesses: u64,
    /// Accesses that found their line already resident in the cache.
    pub hits: u64,
    /// Accesses that did not find their line resident (compulsory + capacity).
    pub misses: u64,
    /// Lines removed from the cache to make room for new ones.
    pub evictions: u64,
    /// Misses to a line seen for the very first time (unavoidable cold misses).
    pub compulsory_misses: u64,
    /// Misses to a line that was previously loaded but since evicted (preventable).
    pub capacity_misses: u64,
}

/// The counters of a simulation, unbounded.
pub struct Counters {
    pub total_accesses: nat,
    pub hits: nat,
    pub misses: nat,
    pub evictions: nat,
    pub compulsory_misses: nat,
    pub capacity_misses: nat,
}

impl Counters {
    /// All counters at zero.
    pub open spec fn zero() -> Counters {
        Counters {
            total_accesses: 0,
            hits: 0,
            misses: 0,
            evictions: 0,
            compulsory_misses: 0,
            capacity_misses: 0,
        }
    }

    /// Every access is a hit or a miss, and every miss is compulsory or a capacity miss.
    pub open spec fn balanced(self) -> bool {
        &&& self.total_accesses == self.hits + self.misses
        &&& self.misses == self.compulsory_misses + self.capacity_misses
    }

    /// The fraction of accesses that were hits.
    pub open spec fn hit_rate(self) -> (int, int) {
        hit_fraction(self.hits, self.total_accesses)
    }

    /// The fraction of accesses that were not hits.
    pub open spec fn miss_rate(self) -> (int, int) {
        complement(self.hit_rate())
    }
}

impl View for CacheStats {
    type V = Counters;

    open spec fn view(&self) -> Counters {
        Counters {
            total_accesses: self.total_accesses as nat,
            hits: self.hits as nat,
            misses: self.misses as nat,
            evictions: self.evictions as nat,
            compulsory_misses: self.compulsory_misses as nat,
            capacity_misses: self.capacity_misses as nat,
        }
    }
}

impl Default for CacheStats {
    fn default() -> (stats: Self)
        ensures
            stats@ == Counters::zero(),
    {
        CacheStats {
            total_accesses: 0,
            hits: 0,
            misses: 0,
            evictions: 0,
            compulsory_misses: 0,
            capacity_misses: 0,
        }
    }
}

impl Clone for CacheStats {
    fn clone(&self) -> (copy: Self)
        ensures
            copy == *self,
    {
        CacheStats {
            total_accesses: self.total_accesses,
            hits: self.hits,
            misses: self.misses,
            evictions: self.evictions,
            compulsory_misses: self.compulsory_misses,
            capacity_misses: self.capacity_misses,
        }
    }
}

impl CacheStats {
    /// Fraction of all accesses that were hits (zero when there have been no accesses).
    pub fn hit_rate(&self) -> (rate: Rate)
        ensures
            rate@ == self@.hit_rate(),
            rate.valid(),
    {
        if self.total_accesses == 0 {
            return Rate { num: 0, den: 1 };
        }
        Rate { num: self.hits as i128, den: self.total_accesses }
    }

    /// Fraction of all accesses that were misses (one minus the hit rate).
    pub fn miss_rate(&self) -> (rate: Rate)
        ensures
            rate@ == self@.miss_rate(),
            rate.valid(),
    {
        let hit_rate = self.hit_rate();
        Rate { num: hit_rate.den as i128 - hit_rate.num, den: hit_rate.den }
    }

    /// Reset every counter back to zero.
    pub fn reset(&mut self)
        ensures
            final(self)@ == Counters::zero(),
    {
        *self = CacheStats::default();
    }
}

/// The hit rate and the miss rate of the same counters add up to one.
pub proof fn law_hit_and_miss_rate_sum_to_one(c: Counters)
    ensures
        c.hit_rate().1 == c.miss_rate().1,
        c.hit_rate().1 > 0,
        c.hit_rate().0 + c.miss_rate().0 == c.hit_rate().1,
{
}

/// In balanced counters both rates lie between zero and one, and the miss rate
/// is the fraction of misses as soon as there was an access.
pub proof fn law_rates_of_balanced_counters(c: Counters)
    requires
        c.balanced(),
    ensures
        0 <= c.hit_rate().0 <= c.hit_rate().1,
        0 <= c.miss_rate().0 <= c.miss_rate().1,
        c.total_accesses > 0 ==> c.miss_rate() == (c.misses as int, c.total_accesses as int),
        c.total_accesses == 0 ==> c.hit_rate() == (0int, 1int) && c.miss_rate() == (1int, 1int),
{
}

} // verus!
