//! Cache lines: their identity, their contents and how a touch changes them.

use vstd::arithmetic::power;
use vstd::prelude::*;

verus! {

/// Cache line size in bytes (typical GPU constant cache line = 32 bytes).
pub const CACHE_LINE_SIZE: usize = 32;

/// Number of trits storable per cache line (32 bytes x 8 bits / log2(3), rounded down).
pub const TRITS_PER_LINE: usize = 161;

/// The tag of the line that holds `address`.
pub open spec fn tag_of(address: u64) -> u64 {
    address / (CACHE_LINE_SIZE as u64)
}

/// The position of `address` within its line.
pub open spec fn offset_of(address: u64) -> u64 {
    address % (CACHE_LINE_SIZE as u64)
}

/// Unique identifier for a cache line.
#[derive(Debug, Clone, Copy, PartialEq, Eq, Hash, PartialOrd, Ord, Structural)]
pub struct CacheLineId(
    /// The raw tag/index value identifying this line (`address / CACHE_LINE_SIZE`).
    pub u64,
);

/// A single cache line holding ternary data.
#[derive(Debug)]
pub struct CacheLine {
    /// Identifier (derived from the tag) for this line.
    pub id: CacheLineId,
    /// Address tag this line was loaded from (`address / CACHE_LINE_SIZE`).
    pub tag: u64,
    /// Raw payload bytes (zero-initialized placeholder in this simulation).
    pub data: Vec<u8>,
    /// Whether the line currently holds valid data.
    pub valid: bool,
    /// Number of times this line has been touched.
    pub access_count: u64,
    /// Cycle counter of the most recent touch (used for LRU recency).
    pub last_access_cycle: u64,
}

/// The contents of a cache line, with unbounded counters.
#[verifier::ext_equal]
pub struct LineState {
    pub id: CacheLineId,
    pub tag: u64,
    pub data: Seq<u8>,
    pub valid: bool,
    pub access_count: nat,
    pub last_access_cycle: nat,
}

impl LineState {
    /// A line that was never touched: invalid, with a payload of zeroes.
    pub open spec fn untouched(id: CacheLineId, tag: u64) -> LineState {
        LineState {
            id,
            tag,
            data: Seq::new(CACHE_LINE_SIZE as nat, |i: int| 0u8),
            valid: false,
            access_count: 0,
            last_access_cycle: 0,
        }
    }

    /// The line after one more touch, at the given cycle.
    pub open spec fn touched(self, cycle: nat) -> LineState {
        LineState {
            valid: true,
            access_count: self.access_count + 1,
            last_access_cycle: cycle,
            ..self
        }
    }

    /// A line fetched for `tag` at the given cycle: touched exactly once.
    pub open spec fn loaded(tag: u64, cycle: nat) -> LineState {
        LineState::untouched(CacheLineId(tag), tag).touched(cycle)
    }
}

impl View for CacheLine {
    type V = LineState;

    open spec fn view(&self) -> LineState {
        LineState {
            id: self.id,
            tag: self.tag,
            data: self.data@,
            valid: self.valid,
            access_count: self.access_count as nat,
            last_access_cycle: self.last_access_cycle as nat,
        }
    }
}

impl Clone for CacheLine {
    fn clone(&self) -> (copy: Self)
        ensures
            copy@ == self@,
    {
        let copy = CacheLine {
            id: self.id,
            tag: self.tag,
            data: self.data.clone(),
            valid: self.valid,
            access_count: self.access_count,
            last_access_cycle: self.last_access_cycle,
        };
        assert(copy.data@ =~= self.data@);
        copy
    }
}

impl CacheLine {
    /// Create a new cache line with the given id and tag, initially invalid and untouched.
    pub fn new(id: CacheLineId, tag: u64) -> (line: Self)
        ensures
            line@ == LineState::untouched(id, tag),
    {
        let line = CacheLine {
            id,
            tag,
            data: vec![0u8; CACHE_LINE_SIZE],
            valid: false,
            access_count: 0,
            last_access_cycle: 0,
        };
        assert(line@.data =~= LineState::untouched(id, tag).data);
        line
    }

    /// Mark this line as accessed.
    pub fn touch(&mut self, cycle: u64)
        requires
            old(self).access_count < u64::MAX,
        ensures
            final(self)@ == old(self)@.touched(cycle as nat),
    {
        self.access_count += 1;
        self.last_access_cycle = cycle;
        self.valid = true;
    }
}

/// An address is its line's tag and its offset in the line, put together; the
/// offset stays within the line.
pub proof fn law_address_splits_into_tag_and_offset(address: u64)
    ensures
        address == tag_of(address) * CACHE_LINE_SIZE + offset_of(address),
        offset_of(address) < CACHE_LINE_SIZE,
{
    vstd::arithmetic::div_mod::lemma_fundamental_div_mod(address as int, CACHE_LINE_SIZE as int);
    vstd::arithmetic::mul::lemma_mul_is_commutative(tag_of(address) as int, CACHE_LINE_SIZE as int);
}

/// Two addresses lie on the same line exactly when both fall into the same
/// aligned block of `CACHE_LINE_SIZE` addresses.
pub proof fn law_same_tag_is_same_block(a: u64, b: u64)
    ensures
        tag_of(a) == tag_of(b) <==> a - offset_of(a) == b - offset_of(b),
{
}

/// `TRITS_PER_LINE` is the largest number of trits whose states can all be told
/// apart by the bits of a line.
pub proof fn law_trits_per_line_is_largest_that_fits()
    ensures
        power::pow(3, TRITS_PER_LINE as nat) <= power::pow(2, (8 * CACHE_LINE_SIZE) as nat),
        power::pow(2, (8 * CACHE_LINE_SIZE) as nat) < power::pow(3, (TRITS_PER_LINE + 1) as nat),
{
    power::lemma_pow1(3);
    power::lemma_pow_adds(3, 1, 1);
    assert(power::pow(3, 2) == 9int);
    power::lemma_pow_adds(3, 2, 2);
    assert(power::pow(3, 4) == 81int);
    power::lemma_pow_adds(3, 4, 4);
    assert(power::pow(3, 8) == 6561int);
    power::lemma_pow_adds(3, 8, 8);
    assert(power::pow(3, 16) == 43046721int);
    power::lemma_pow_adds(3, 16, 16);
    assert(power::pow(3, 32) == 1853020188851841int);
    power::lemma_pow_adds(3, 32, 32);
    assert(power::pow(3, 64) == 3433683820292512484657849089281int);
    power::lemma_pow_adds(3, 64, 64);
    assert(power::pow(3, 128) == 11790184577738583171520872861412518665678211592275841109096961int);
    power::lemma_pow_adds(3, 128, 32);
    assert(power::pow(3, 160) == 21847450052839212624230656502990235142567050104912751880812823948662932355201int);
    power::lemma_pow_adds(3, 160, 1);
    power::lemma_pow_adds(3, 160, 2);
    power::lemma_pow1(2);
    power::lemma_pow_adds(2, 1, 1);
    assert(power::pow(2, 2) == 4int);
    power::lemma_pow_adds(2, 2, 2);
    assert(power::pow(2, 4) == 16int);
    power::lemma_pow_adds(2, 4, 4);
    assert(power::pow(2, 8) == 256int);
    power::lemma_pow_adds(2, 8, 8);
    assert(power::pow(2, 16) == 65536int);
    power::lemma_pow_adds(2, 16, 16);
    assert(power::pow(2, 32) == 4294967296int);
    power::lemma_pow_adds(2, 32, 32);
    assert(power::pow(2, 64) == 18446744073709551616int);
    power::lemma_pow_adds(2, 64, 64);
    assert(power::pow(2, 128) == 340282366920938463463374607431768211456int);
    power::lemma_pow_adds(2, 128, 128);
    assert(power::pow(2, 256) == 115792089237316195423570985008687907853269984665640564039457584007913129639936int);
}

} // verus!
