//! Recency orders: sequences of tags, most recently used first.

use vstd::prelude::*;

verus! {

/// The last `n` elements of `s`, or all of it if it is no longer than that.
pub open spec fn newest<A>(s: Seq<A>, n: nat) -> Seq<A> {
    if s.len() > n {
        s.skip(s.len() - n)
    } else {
        s
    }
}

/// The first `n` elements of `s`, or all of it if it is no longer than that.
pub open spec fn at_most<A>(s: Seq<A>, n: nat) -> Seq<A> {
    if s.len() > n {
        s.take(n as int)
    } else {
        s
    }
}

/// `order` with `tag` taken out, if it is there.
pub open spec fn without(order: Seq<u64>, tag: u64) -> Seq<u64> {
    if order.contains(tag) {
        order.remove(order.index_of(tag))
    } else {
        order
    }
}

/// `order` with `tag` moved (or added) to the front.
pub open spec fn promoted(order: Seq<u64>, tag: u64) -> Seq<u64> {
    seq![tag] + without(order, tag)
}

/// Taking out the tag at position `k` removes that position and nothing else.
pub proof fn lemma_without_at(order: Seq<u64>, k: int)
    requires
        order.no_duplicates(),
        0 <= k < order.len(),
    ensures
        without(order, order[k]) == order.remove(k),
{
    assert(order.contains(order[k]));
}

/// What moving a tag to the front does to membership, to the length and to duplicates.
pub proof fn lemma_promoted(order: Seq<u64>, tag: u64)
    requires
        order.no_duplicates(),
    ensures
        promoted(order, tag).no_duplicates(),
        promoted(order, tag)[0] == tag,
        promoted(order, tag).len() == order.len() + if order.contains(tag) {
            0int
        } else {
            1int
        },
        forall|t: u64| #[trigger]
            promoted(order, tag).contains(t) <==> t == tag || order.contains(t),
{
    let p = promoted(order, tag);
    if order.contains(tag) {
        let k = order.index_of(tag);
        lemma_without_at(order, k);
        assert forall|t: u64| #[trigger] p.contains(t) <==> t == tag || order.contains(t) by {
            if order.contains(t) && t != tag {
                let j = order.index_of(t);
                if j < k {
                    assert(p[j + 1] == t);
                } else {
                    assert(p[j] == t);
                }
            }
            if p.contains(t) && t != tag {
                let j = p.index_of(t);
                if j - 1 < k {
                    assert(order[j - 1] == t);
                } else {
                    assert(order[j] == t);
                }
            }
            assert(p[0] == tag);
        }
    } else {
        assert forall|t: u64| #[trigger] p.contains(t) <==> t == tag || order.contains(t) by {
            if order.contains(t) {
                assert(p[order.index_of(t) + 1] == t);
            }
            if p.contains(t) && t != tag {
                assert(order[p.index_of(t) - 1] == t);
            }
            assert(p[0] == tag);
        }
    }
}

/// Whether only the first `c` entries of an order are known or all of them, its
/// first `c` entries after a promotion are the same.
pub proof fn lemma_promoted_prefix(order: Seq<u64>, c: nat, tag: u64)
    requires
        order.no_duplicates(),
    ensures
        at_most(promoted(at_most(order, c), tag), c) == at_most(promoted(order, tag), c),
{
    if order.len() > c {
        let prefix = order.take(c as int);
        if prefix.contains(tag) {
            let k = prefix.index_of(tag);
            assert(order[k] == tag);
            lemma_without_at(prefix, k);
            lemma_without_at(order, k);
            assert(at_most(promoted(prefix, tag), c) =~= at_most(promoted(order, tag), c));
        } else {
            if order.contains(tag) {
                let k = order.index_of(tag);
                if k < c {
                    assert(prefix[k] == tag);
                }
                lemma_without_at(order, k);
            }
            assert(at_most(promoted(prefix, tag), c) =~= at_most(promoted(order, tag), c));
        }
    }
}

/// A sequence with one more element in front holds that element and what it held before.
pub proof fn lemma_one_in_front(s: Seq<u64>, first: u64, t: u64)
    ensures
        (seq![first] + s).contains(t) <==> t == first || s.contains(t),
{
    let longer = seq![first] + s;
    assert(longer[0] == first);
    if s.contains(t) {
        assert(longer[s.index_of(t) + 1] == t);
    }
    if longer.contains(t) && t != first {
        assert(s[longer.index_of(t) - 1] == t);
    }
}

/// Without its last element, a sequence without duplicates still holds the others.
pub proof fn lemma_all_but_last(s: Seq<u64>, t: u64)
    requires
        s.len() > 0,
        s.no_duplicates(),
    ensures
        s.drop_last().contains(t) <==> s.contains(t) && t != s.last(),
{
    if s.contains(t) && t != s.last() {
        assert(s.drop_last()[s.index_of(t)] == t);
    }
    if s.drop_last().contains(t) {
        assert(s[s.drop_last().index_of(t)] == t);
    }
}

} // verus!
