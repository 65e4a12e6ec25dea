//! Counting: how many positions of a sequence have a property.

use vstd::prelude::*;

verus! {

/// The positions below `n` that have the property `p`.
pub open spec fn positions(n: nat, p: spec_fn(int) -> bool) -> Set<int> {
    Set::new(|i: int| 0 <= i < n && p(i))
}

/// A position counts exactly when it lies below `n` and has the property.
pub proof fn law_positions_have_the_property(n: nat, p: spec_fn(int) -> bool, i: int)
    ensures
        positions(n, p).contains(i) <==> 0 <= i < n && p(i),
{
}

/// One position more is counted exactly when it has the property.
pub proof fn lemma_one_more_position(n: nat, p: spec_fn(int) -> bool)
    ensures
        positions(n + 1, p).finite(),
        positions(n, p).finite(),
        positions(n + 1, p).len() == positions(n, p).len() + if p(n as int) {
            1nat
        } else {
            0nat
        },
    decreases n,
{
    let now = positions(n, p);
    let more = positions(n + 1, p);
    if n > 0 {
        lemma_one_more_position((n - 1) as nat, p);
    } else {
        assert(now =~= Set::empty());
    }
    if p(n as int) {
        assert(more =~= now.insert(n as int));
    } else {
        assert(more =~= now);
    }
}

/// There are finitely many positions, none if there is nothing to count, and
/// never more than there are elements.
pub proof fn lemma_positions_bounded(n: nat, p: spec_fn(int) -> bool)
    ensures
        positions(n, p).finite(),
        positions(n, p).len() <= n,
        n == 0 ==> positions(n, p).len() == 0,
    decreases n,
{
    if n > 0 {
        lemma_positions_bounded((n - 1) as nat, p);
        lemma_one_more_position((n - 1) as nat, p);
    } else {
        assert(positions(n, p) =~= Set::empty());
    }
}

/// Properties that agree below `n` count the same positions.
pub proof fn lemma_same_positions(n: nat, p: spec_fn(int) -> bool, q: spec_fn(int) -> bool)
    requires
        forall|i: int| 0 <= i < n ==> #[trigger] p(i) == q(i),
    ensures
        positions(n, p) == positions(n, q),
{
    assert(positions(n, p) =~= positions(n, q));
}

} // verus!
