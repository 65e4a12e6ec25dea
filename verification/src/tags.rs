//! Sets of line tags.

use std::collections::HashSet;
use vstd::prelude::*;

use crate::line;

verus! {

broadcast use vstd::std_specs::hash::group_hash_axioms;

/// The tags of the lines that a sequence of addresses touches.
pub open spec fn tags_of(addresses: Seq<u64>) -> Set<u64> {
    addresses.map_values(|a: u64| line::tag_of(a)).to_set()
}

/// One more address adds its tag to the tags touched.
pub proof fn lemma_tags_of_push(addresses: Seq<u64>, address: u64)
    ensures
        tags_of(addresses.push(address)) == tags_of(addresses).insert(line::tag_of(address)),
        tags_of(addresses).finite(),
{
    let tags = addresses.map_values(|a: u64| line::tag_of(a));
    let more = addresses.push(address).map_values(|a: u64| line::tag_of(a));
    assert(more =~= tags.push(line::tag_of(address)));
    tags.lemma_push_to_set_commute(line::tag_of(address));
    tags.lemma_cardinality_of_set();
}

/// A set with the same tags.
pub(crate) fn copy_tags(tags: &HashSet<u64>) -> (copy: HashSet<u64>)
    ensures
        copy@ == tags@,
{
    let mut copy: HashSet<u64> = HashSet::new();
    let ghost all = vstd::std_specs::iter::IteratorSpec::remaining(&tags.iter()).unref();
    for tag in it: tags.iter()
        invariant
            all == it.seq().unref(),
            all.to_set() == tags@,
            copy@ == all.take(it.index()).to_set(),
    {
        proof {
            let done = all.take(it.index());
            assert(all.take(it.index() + 1) =~= done.push(*tag));
            done.lemma_push_to_set_commute(*tag);
        }
        copy.insert(*tag);
    }
    assert(all.take(all.len() as int) =~= all);
    copy
}

} // verus!
