//! The mathematical model of the cache: what a state is, which states are
//! reachable, and how each operation moves from one state to the next.

use vstd::prelude::*;

use crate::line::{CacheLineId, LineState, CACHE_LINE_SIZE};
use crate::stats::Counters;
use crate::line;
use crate::order;

verus! {

/// How many of the most recent addresses are kept for pattern analysis.
pub const MAX_HISTORY: usize = 1024;

/// An operation that changes a cache.
pub enum Operation {
    /// An access to an address.
    Access(u64),
    /// A preload of the line of an address.
    Preload(u64),
    /// A reset of the statistics.
    ResetStats,
    /// A flush of the contents.
    Flush,
}

/// The state of a cache.
#[verifier::ext_equal]
pub struct CacheState {
    /// The number of lines the cache can hold.
    pub capacity: nat,
    /// The resident lines, by tag.
    pub lines: Map<u64, LineState>,
    /// The tags of the resident lines, most recently used first.
    pub lru: Seq<u64>,
    /// The number of accesses simulated so far.
    pub cycle: nat,
    /// The statistics since the last reset.
    pub counters: Counters,
    /// The most recent addresses accessed since the last reset, oldest first.
    pub history: Seq<u64>,
    /// The tags loaded or missed since the last reset.
    pub ever_loaded: Set<u64>,
}

impl CacheState {
    /// A cache that has seen nothing yet.
    pub open spec fn fresh(capacity: nat) -> CacheState {
        CacheState {
            capacity,
            lines: Map::empty(),
            lru: Seq::empty(),
            cycle: 0,
            counters: Counters::zero(),
            history: Seq::empty(),
            ever_loaded: Set::empty(),
        }
    }

    /// Whether the line with this tag is in the cache.
    pub open spec fn resident(self, tag: u64) -> bool {
        self.lines.contains_key(tag)
    }

    /// Whether loading a line now would push another one out.
    pub open spec fn full(self) -> bool {
        0 < self.capacity <= self.lru.len()
    }

    /// The resident lines and the recency order describe the same set of lines,
    /// which fits into the cache.
    pub open spec fn order_valid(self) -> bool {
        &&& self.lru.no_duplicates()
        &&& self.lru.len() <= self.capacity
        &&& forall|t: u64| #[trigger] self.lines.contains_key(t) <==> self.lru.contains(t)
    }

    /// Every resident line is what its tag says, was touched at least once, and
    /// at most once per cycle after it was loaded.
    pub open spec fn lines_valid(self) -> bool {
        forall|t: u64| #[trigger] self.lines.contains_key(t) ==> {
            let l = self.lines[t];
            &&& l.id == CacheLineId(t)
            &&& l.tag == t
            &&& l.data == Seq::new(CACHE_LINE_SIZE as nat, |i: int| 0u8)
            &&& l.valid
            &&& 1 <= l.access_count <= l.last_access_cycle + 1
            &&& l.last_access_cycle <= self.cycle
        }
    }

    /// A line further to the front was not touched before a line further to the back.
    pub open spec fn recency_valid(self) -> bool {
        forall|i: int, j: int|
            0 <= i < j < self.lru.len() ==> self.lines[#[trigger] self.lru[i]].last_access_cycle
                >= self.lines[#[trigger] self.lru[j]].last_access_cycle
    }

    /// The counters balance, and the history holds the newest of the counted accesses.
    pub open spec fn counters_valid(self) -> bool {
        &&& self.counters.balanced()
        &&& self.counters.total_accesses <= self.cycle
        &&& self.history.len() == if self.counters.total_accesses < MAX_HISTORY {
            self.counters.total_accesses
        } else {
            MAX_HISTORY as nat
        }
    }

    /// What holds of every cache, whatever was done with it.
    pub open spec fn valid(self) -> bool {
        &&& self.order_valid()
        &&& self.lines_valid()
        &&& self.recency_valid()
        &&& self.counters_valid()
    }

    /// Fetch the line `tag`, which is not resident: it becomes the most recent
    /// one, and whatever no longer fits leaves at the other end.
    pub open spec fn load(self, tag: u64) -> CacheState {
        CacheState {
            lru: order::at_most(seq![tag] + self.lru, self.capacity),
            lines: if self.capacity == 0 {
                self.lines
            } else if self.full() {
                self.lines.remove(self.lru.last()).insert(tag, LineState::loaded(tag, self.cycle))
            } else {
                self.lines.insert(tag, LineState::loaded(tag, self.cycle))
            },
            counters: Counters {
                evictions: self.counters.evictions + if self.full() {
                    1nat
                } else {
                    0nat
                },
                ..self.counters
            },
            ..self
        }
    }

    /// The clock, the access counter and the history after one more access.
    pub open spec fn ticked(self, address: u64) -> CacheState {
        CacheState {
            cycle: self.cycle + 1,
            history: order::newest(self.history.push(address), MAX_HISTORY as nat),
            counters: Counters {
                total_accesses: self.counters.total_accesses + 1,
                ..self.counters
            },
            ..self
        }
    }

    /// Count a hit on `tag`: its line is touched and becomes the most recent one.
    pub open spec fn hit(self, tag: u64) -> CacheState {
        CacheState {
            lines: self.lines.insert(tag, self.lines[tag].touched(self.cycle)),
            lru: order::promoted(self.lru, tag),
            counters: Counters { hits: self.counters.hits + 1, ..self.counters },
            ..self
        }
    }

    /// Count a miss on `tag`: compulsory the first time, a capacity miss afterwards.
    pub open spec fn missed(self, tag: u64) -> CacheState {
        let first = !self.ever_loaded.contains(tag);
        CacheState {
            ever_loaded: self.ever_loaded.insert(tag),
            counters: Counters {
                misses: self.counters.misses + 1,
                compulsory_misses: self.counters.compulsory_misses + if first {
                    1nat
                } else {
                    0nat
                },
                capacity_misses: self.counters.capacity_misses + if first {
                    0nat
                } else {
                    1nat
                },
                ..self.counters
            },
            ..self
        }
    }

    /// Whether an access to `address` is a hit.
    pub open spec fn hits(self, address: u64) -> bool {
        self.resident(line::tag_of(address))
    }

    /// Access `address`: touch its line if it is resident, fetch it otherwise.
    pub open spec fn access(self, address: u64) -> CacheState {
        let tag = line::tag_of(address);
        if self.hits(address) {
            self.ticked(address).hit(tag)
        } else {
            self.ticked(address).missed(tag).load(tag)
        }
    }

    /// Fetch the line of `address` without accessing it; nothing happens if it is
    /// resident, or if the cache has no lines at all.
    pub open spec fn preload(self, address: u64) -> CacheState {
        let tag = line::tag_of(address);
        if self.capacity == 0 || self.resident(tag) {
            self
        } else {
            CacheState { ever_loaded: self.ever_loaded.insert(tag), ..self.load(tag) }
        }
    }

    /// Start counting anew; the lines stay where they are.
    pub open spec fn reset_stats(self) -> CacheState {
        CacheState {
            counters: Counters::zero(),
            history: Seq::empty(),
            ever_loaded: Set::empty(),
            ..self
        }
    }

    /// Drop every line; what was counted stays counted.
    pub open spec fn flush(self) -> CacheState {
        CacheState { lines: Map::empty(), lru: Seq::empty(), ..self }
    }

    /// Access the addresses one after the other.
    pub open spec fn run(self, addresses: Seq<u64>) -> CacheState
        decreases addresses.len(),
    {
        if addresses.len() == 0 {
            self
        } else {
            self.run(addresses.drop_last()).access(addresses.last())
        }
    }

    /// What one operation does.
    pub open spec fn step(self, operation: Operation) -> CacheState {
        match operation {
            Operation::Access(address) => self.access(address),
            Operation::Preload(address) => self.preload(address),
            Operation::ResetStats => self.reset_stats(),
            Operation::Flush => self.flush(),
        }
    }

    /// Carry out the operations one after the other.
    pub open spec fn perform(self, operations: Seq<Operation>) -> CacheState
        decreases operations.len(),
    {
        if operations.len() == 0 {
            self
        } else {
            self.perform(operations.drop_last()).step(operations.last())
        }
    }

    /// No 64-bit counter overflows when `address` is accessed.
    pub open spec fn access_fits(self, address: u64) -> bool {
        &&& self.cycle < u64::MAX
        &&& self.hits(address) ==> self.lines[line::tag_of(address)].access_count < u64::MAX
        &&& !self.hits(address) && self.full() ==> self.counters.evictions < u64::MAX
    }

    /// No 64-bit counter overflows when `address` is preloaded.
    pub open spec fn preload_fits(self, address: u64) -> bool {
        !self.hits(address) && self.full() ==> self.counters.evictions < u64::MAX
    }
}

} // verus!
