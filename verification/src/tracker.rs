//! Miss tracking: which addresses caused which kind of miss.

use std::collections::HashSet;
use vstd::prelude::*;

use crate::cache::ConstantCache;
use crate::count::positions;
use crate::count;
use crate::line;
use crate::state::CacheState;
use crate::tags;
use crate::tags::copy_tags;

verus! {

broadcast use vstd::std_specs::hash::group_hash_axioms;

/// Classification of a cache miss.
#[derive(Debug, Clone, Copy, PartialEq, Eq, Structural)]
pub enum MissType {
    /// The access was a hit: no miss at all.
    Hit,
    /// First-ever access to the line (a cold, unavoidable miss).
    Compulsory,
    /// Re-access to a line that was previously loaded but since evicted.
    Capacity,
}

/// Miss tracking utility for detailed miss analysis.
///
/// Use this alongside `ConstantCache` (or any other cache model) when you want to
/// keep the *addresses* that caused each kind of miss, not just the counts.
#[derive(Debug)]
pub struct MissTracker {
    /// Addresses of accesses that were the first-ever touch of their line.
    pub compulsory_misses: Vec<u64>,
    /// Addresses of accesses to a line that had been loaded and since evicted.
    pub capacity_misses: Vec<u64>,
    /// Tags of the lines accessed so far.
    ever_seen: HashSet<u64>,
}

/// What a miss tracker has recorded.
#[verifier::ext_equal]
pub struct TrackerState {
    /// Addresses of compulsory misses, oldest first.
    pub compulsory: Seq<u64>,
    /// Addresses of capacity misses, oldest first.
    pub capacity: Seq<u64>,
    /// Tags of the lines accessed so far.
    pub seen: Set<u64>,
}

impl TrackerState {
    /// A tracker that has recorded nothing.
    pub open spec fn empty() -> TrackerState {
        TrackerState { compulsory: Seq::empty(), capacity: Seq::empty(), seen: Set::empty() }
    }

    /// How an access is classified: a miss is compulsory if no access to its line was
    /// recorded before.
    pub open spec fn classify(self, address: u64, hit: bool) -> MissType {
        if hit {
            MissType::Hit
        } else if self.seen.contains(line::tag_of(address)) {
            MissType::Capacity
        } else {
            MissType::Compulsory
        }
    }

    /// Record an access: its line has been seen from now on, and a miss keeps its address.
    pub open spec fn record(self, address: u64, hit: bool) -> TrackerState {
        match self.classify(address, hit) {
            MissType::Hit => TrackerState { seen: self.seen.insert(line::tag_of(address)), ..self },
            MissType::Capacity => TrackerState { capacity: self.capacity.push(address), ..self },
            MissType::Compulsory => TrackerState {
                compulsory: self.compulsory.push(address),
                seen: self.seen.insert(line::tag_of(address)),
                ..self
            },
        }
    }

    /// Record the accesses one after the other.
    pub open spec fn record_all(self, accesses: Seq<(u64, bool)>) -> TrackerState
        decreases accesses.len(),
    {
        if accesses.len() == 0 {
            self
        } else {
            let (address, hit) = accesses.last();
            self.record_all(accesses.drop_last()).record(address, hit)
        }
    }

    /// The compulsory misses are of different lines, and all misses are of lines seen.
    pub open spec fn valid(self) -> bool {
        &&& tags::tags_of(self.compulsory).subset_of(self.seen)
        &&& forall|i: int, j: int|
            0 <= i < j < self.compulsory.len() ==> line::tag_of(#[trigger] self.compulsory[i])
                != line::tag_of(#[trigger] self.compulsory[j])
        &&& tags::tags_of(self.capacity).subset_of(self.seen)
    }
}

impl View for MissTracker {
    type V = TrackerState;

    closed spec fn view(&self) -> TrackerState {
        TrackerState {
            compulsory: self.compulsory_misses@,
            capacity: self.capacity_misses@,
            seen: self.ever_seen@,
        }
    }
}

impl Default for MissTracker {
    fn default() -> (tracker: Self)
        ensures
            tracker@ == TrackerState::empty(),
    {
        MissTracker {
            compulsory_misses: Vec::new(),
            capacity_misses: Vec::new(),
            ever_seen: HashSet::new(),
        }
    }
}

impl Clone for MissTracker {
    fn clone(&self) -> (copy: Self)
        ensures
            copy@ == self@,
    {
        let copy = MissTracker {
            compulsory_misses: self.compulsory_misses.clone(),
            capacity_misses: self.capacity_misses.clone(),
            ever_seen: copy_tags(&self.ever_seen),
        };
        assert(copy.compulsory_misses@ =~= self.compulsory_misses@);
        assert(copy.capacity_misses@ =~= self.capacity_misses@);
        copy
    }
}

impl MissTracker {
    /// Create a new empty miss tracker.
    pub fn new() -> (tracker: Self)
        ensures
            tracker@ == TrackerState::empty(),
    {
        MissTracker::default()
    }

    /// Record an access and classify any miss.
    pub fn record(&mut self, address: u64, hit: bool) -> (kind: MissType)
        ensures
            kind == old(self)@.classify(address, hit),
            final(self)@ == old(self)@.record(address, hit),
    {
        let tag: u64 = ConstantCache::tag_for_address(address);
        if hit {
            self.ever_seen.insert(tag);
            return MissType::Hit;
        }
        if self.ever_seen.contains(&tag) {
            self.capacity_misses.push(address);
            MissType::Capacity
        } else {
            self.ever_seen.insert(tag);
            self.compulsory_misses.push(address);
            MissType::Compulsory
        }
    }

    /// Total miss count.
    pub fn total_misses(&self) -> (total: usize)
        requires
            self@.compulsory.len() + self@.capacity.len() <= usize::MAX,
        ensures
            total == self@.compulsory.len() + self@.capacity.len(),
    {
        self.compulsory_misses.len() + self.capacity_misses.len()
    }

    /// Reset tracking state.
    pub fn reset(&mut self)
        ensures
            final(self)@ == TrackerState::empty(),
    {
        self.compulsory_misses.clear();
        self.capacity_misses.clear();
        self.ever_seen.clear();
    }
}

/// What a tracker has recorded is what its public lists show.
proof fn lemma_lists_show_what_was_recorded(tracker: MissTracker)
    ensures
        tracker@.compulsory == tracker.compulsory_misses@,
        tracker@.capacity == tracker.capacity_misses@,
{
}

/// A tracker that has recorded nothing has no misses and has seen no line.
pub proof fn law_empty_tracker_has_nothing()
    ensures
        TrackerState::empty().compulsory.len() == 0,
        TrackerState::empty().capacity.len() == 0,
        TrackerState::empty().seen == Set::<u64>::empty(),
{
}

/// What recording one access does: its line has been seen afterwards, and no other
/// line newly so. A hit is added to neither list. A miss is added to the end of
/// one: to the capacity misses if its line was seen before, else to the compulsory
/// ones.
pub proof fn law_record_effect(t: TrackerState, address: u64, hit: bool)
    ensures
        ({
            let n = t.record(address, hit);
            let kind = t.classify(address, hit);
            let again = t.seen.contains(address / 32);
            &&& kind == MissType::Hit <==> hit
            &&& kind == MissType::Capacity <==> !hit && again
            &&& kind == MissType::Compulsory <==> !hit && !again
            &&& n.seen == t.seen.insert(address / 32)
            &&& n.compulsory == if !hit && !again {
                t.compulsory.push(address)
            } else {
                t.compulsory
            }
            &&& n.capacity == if !hit && again {
                t.capacity.push(address)
            } else {
                t.capacity
            }
        }),
{
    assert(t.record(address, hit).seen =~= t.seen.insert(address / 32));
}

/// Recorded accesses act one after the other, each on what the earlier ones left.
pub proof fn law_record_all_goes_in_order(
    t: TrackerState,
    accesses: Seq<(u64, bool)>,
    access: (u64, bool),
)
    ensures
        t.record_all(Seq::empty()) == t,
        t.record_all(accesses.push(access)) == t.record_all(accesses).record(access.0, access.1),
{
    assert(accesses.push(access).drop_last() =~= accesses);
}

/// Whether the recorded access at position `i` is a miss of a line that no earlier
/// access on record touched.
pub open spec fn first_miss_at(accesses: Seq<(u64, bool)>, i: int) -> bool {
    &&& !accesses[i].1
    &&& forall|j: int| 0 <= j < i ==> #[trigger] accesses[j].0 / 32 != accesses[i].0 / 32
}

/// How many misses of each kind are on record: one compulsory miss for each miss
/// that is the first access to its line, one capacity miss for every other miss.
pub proof fn law_tracker_counts_misses(accesses: Seq<(u64, bool)>)
    ensures
        ({
            let t = TrackerState::empty().record_all(accesses);
            let misses = positions(accesses.len(), |i: int| !accesses[i].1).len();
            let firsts = positions(accesses.len(), |i: int| first_miss_at(accesses, i)).len();
            &&& t.compulsory.len() == firsts
            &&& t.capacity.len() == misses - firsts
        }),
    decreases accesses.len(),
{
    let p = |i: int| !accesses[i].1;
    let f = |i: int| first_miss_at(accesses, i);
    if accesses.len() == 0 {
        count::lemma_positions_bounded(accesses.len(), p);
        count::lemma_positions_bounded(accesses.len(), f);
    } else {
        let init = accesses.drop_last();
        let p0 = |i: int| !init[i].1;
        let f0 = |i: int| first_miss_at(init, i);
        let (address, hit) = accesses.last();
        law_tracker_counts_misses(init);
        count::lemma_same_positions(init.len(), p, p0);
        assert forall|i: int| 0 <= i < init.len() implies #[trigger] f(i) == f0(i) by {
            assert(forall|j: int| 0 <= j <= i ==> #[trigger] init[j] == accesses[j]);
            assert(forall|j: int| 0 <= j <= i ==> #[trigger] accesses[j] == init[j]);
        }
        count::lemma_same_positions(init.len(), f, f0);
        count::lemma_one_more_position(init.len(), p);
        count::lemma_one_more_position(init.len(), f);
        lemma_seen_lines_were_accessed(init, address / 32);
        assert(forall|j: int| 0 <= j < init.len() ==> #[trigger] init[j] == accesses[j]);
        assert(forall|j: int| 0 <= j < init.len() ==> #[trigger] accesses[j] == init[j]);
    }
}

/// A tracker that has recorded nothing is valid.
pub proof fn law_empty_tracker_is_valid()
    ensures
        TrackerState::empty().valid(),
{
    assert(tags::tags_of(Seq::<u64>::empty()) =~= Set::<u64>::empty());
}

/// Recording keeps a tracker valid.
pub proof fn law_record_keeps_tracker_valid(t: TrackerState, address: u64, hit: bool)
    requires
        t.valid(),
    ensures
        t.record(address, hit).valid(),
{
    let tag = line::tag_of(address);
    let n = t.record(address, hit);
    tags::lemma_tags_of_push(t.compulsory, address);
    tags::lemma_tags_of_push(t.capacity, address);
    if n.compulsory.len() > t.compulsory.len() {
        assert forall|i: int, j: int|
            0 <= i < j < n.compulsory.len() implies line::tag_of(#[trigger] n.compulsory[i])
            != line::tag_of(#[trigger] n.compulsory[j]) by {
            if j == t.compulsory.len() {
                let ts = t.compulsory.map_values(|a: u64| line::tag_of(a));
                assert(ts[i] == line::tag_of(t.compulsory[i]));
                assert(ts.to_set().contains(ts[i]));
            }
        }
    }
}

/// As long as no line is hit before it was seen, the lines seen are exactly those
/// of the compulsory misses: recording a miss, or a hit on a line seen before,
/// keeps it so.
pub proof fn law_lines_seen_are_compulsory_misses(t: TrackerState, address: u64, hit: bool)
    requires
        t.seen == tags::tags_of(t.compulsory),
        hit ==> t.seen.contains(line::tag_of(address)),
    ensures
        ({
            let n = t.record(address, hit);
            n.seen == tags::tags_of(n.compulsory)
        }),
{
    tags::lemma_tags_of_push(t.compulsory, address);
    assert(t.record(address, hit).seen =~= tags::tags_of(t.record(address, hit).compulsory));
}

/// A tracker has seen a line exactly when an access to it, hit or miss, was recorded.
proof fn lemma_seen_lines_were_accessed(accesses: Seq<(u64, bool)>, tag: u64)
    ensures
        TrackerState::empty().record_all(accesses).seen.contains(tag) <==> exists|i: int|
            0 <= i < accesses.len() && line::tag_of(#[trigger] accesses[i].0) == tag,
    decreases accesses.len(),
{
    if accesses.len() > 0 {
        let init = accesses.drop_last();
        lemma_seen_lines_were_accessed(init, tag);
        assert(forall|i: int| 0 <= i < init.len() ==> #[trigger] accesses[i].0 == init[i].0);
        assert(forall|i: int| 0 <= i < init.len() ==> #[trigger] init[i].0 == accesses[i].0);
        assert(accesses.last().0 == accesses[accesses.len() - 1].0);
    }
}

/// A miss is compulsory exactly when it is the first access to its line on record,
/// and a capacity miss when any access to the line, hit or miss, came before it.
pub proof fn law_only_first_access_is_compulsory(accesses: Seq<(u64, bool)>, address: u64)
    ensures
        ({
            let kind = TrackerState::empty().record_all(accesses).classify(address, false);
            let first = forall|i: int|
                0 <= i < accesses.len() ==> line::tag_of(#[trigger] accesses[i].0) != line::tag_of(
                    address,
                );
            &&& kind == MissType::Compulsory <==> first
            &&& kind == MissType::Capacity <==> !first
        }),
{
    lemma_seen_lines_were_accessed(accesses, line::tag_of(address));
}

/// A tracker that is told of every access to a cache: the state of both after the
/// addresses were accessed one after the other.
pub open spec fn alongside(t: TrackerState, s: CacheState, addresses: Seq<u64>) -> TrackerState
    decreases addresses.len(),
{
    if addresses.len() == 0 {
        t
    } else {
        let init = addresses.drop_last();
        alongside(t, s, init).record(addresses.last(), s.run(init).hits(addresses.last()))
    }
}

/// A tracker that goes along with a cache from the start keeps exactly the addresses
/// of the misses that the cache counts, kind by kind. So does one that joins later,
/// if both know the same lines and these are all the lines in the cache.
pub proof fn law_tracker_agrees_with_cache(t: TrackerState, s: CacheState, addresses: Seq<u64>)
    requires
        t.seen == s.ever_loaded,
        s.lines.dom().subset_of(s.ever_loaded),
        t.compulsory.len() == s.counters.compulsory_misses,
        t.capacity.len() == s.counters.capacity_misses,
    ensures
        s.run(addresses).lines.dom().subset_of(s.run(addresses).ever_loaded),
        alongside(t, s, addresses).seen == s.run(addresses).ever_loaded,
        alongside(t, s, addresses).compulsory.len() == s.run(addresses).counters.compulsory_misses,
        alongside(t, s, addresses).capacity.len() == s.run(addresses).counters.capacity_misses,
    decreases addresses.len(),
{
    if addresses.len() > 0 {
        let init = addresses.drop_last();
        law_tracker_agrees_with_cache(t, s, init);
        assert(alongside(t, s, addresses).seen =~= s.run(addresses).ever_loaded);
    }
}

} // verus!
