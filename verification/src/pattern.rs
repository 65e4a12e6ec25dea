//! Access patterns: the gaps between consecutive addresses, which gap
//! dominates, and how a history is classified by it.

use std::collections::HashMap;
use vstd::prelude::*;
use vstd::string::StringExecFns;

use crate::order;
use crate::state::MAX_HISTORY;

verus! {

broadcast use vstd::std_specs::hash::group_hash_axioms;

/// Access pattern classification.
#[derive(Debug, Clone, Copy, PartialEq, Eq, Structural)]
pub enum AccessPattern {
    /// Sequential stride-1 access.
    Sequential,
    /// Access with a fixed stride > 1.
    Strided {
        /// The constant gap (in addresses) between consecutive accesses (always > 1).
        stride: u64,
    },
    /// Random / irregular access.
    Random,
    /// Unknown (not enough data yet).
    Unknown,
}

/// The gaps between consecutive addresses, each the later minus the earlier one.
pub open spec fn gaps(history: Seq<u64>) -> Seq<int> {
    if history.len() == 0 {
        Seq::empty()
    } else {
        Seq::new((history.len() - 1) as nat, |i: int| history[i + 1] - history[i])
    }
}

/// How often `x` occurs in `s`.
pub open spec fn occurrences(s: Seq<int>, x: int) -> nat {
    s.filter(|y: int| y == x).len()
}

/// Whether more than half of `s` is `x`.
pub open spec fn is_majority(s: Seq<int>, x: int) -> bool {
    2 * occurrences(s, x) > s.len()
}

/// Whether a history of accesses is of the given pattern.
pub open spec fn has_pattern(history: Seq<u64>, pattern: AccessPattern) -> bool {
    match pattern {
        AccessPattern::Unknown => history.len() < 4,
        AccessPattern::Sequential => history.len() >= 4 && is_majority(gaps(history), 1),
        AccessPattern::Strided { stride } => history.len() >= 4 && stride > 1 && is_majority(
            gaps(history),
            stride as int,
        ),
        AccessPattern::Random => history.len() >= 4 && forall|d: int|
            d > 0 ==> !is_majority(gaps(history), d),
    }
}

/// The decimal digits of `n`, most significant first, without leading zeroes.
pub open spec fn decimal(n: nat) -> Seq<char>
    decreases n,
{
    if n < 10 {
        seq!["0123456789"@[n as int]]
    } else {
        decimal(n / 10).push("0123456789"@[(n % 10) as int])
    }
}

impl AccessPattern {
    /// The pattern as text.
    pub open spec fn text(self) -> Seq<char> {
        match self {
            AccessPattern::Sequential => "Sequential"@,
            AccessPattern::Strided { stride } => "Strided(stride="@ + decimal(stride as nat) + ")"@,
            AccessPattern::Random => "Random"@,
            AccessPattern::Unknown => "Unknown"@,
        }
    }

    /// The pattern as text, with the stride in decimal.
    pub fn to_string(&self) -> (text: String)
        ensures
            text@ == self.text(),
    {
        match self {
            AccessPattern::Sequential => "Sequential".to_owned(),
            AccessPattern::Strided { stride } => {
                let mut text = "Strided(stride=".to_owned();
                append_decimal(&mut text, *stride);
                text.append(")");
                text
            },
            AccessPattern::Random => "Random".to_owned(),
            AccessPattern::Unknown => "Unknown".to_owned(),
        }
    }
}

/// The digit `d` as a string of one character.
fn digit(d: u64) -> (s: &'static str)
    requires
        d < 10,
    ensures
        s@ == seq!["0123456789"@[d as int]],
{
    proof {
        reveal_strlit("0123456789");
        reveal_strlit("0");
        reveal_strlit("1");
        reveal_strlit("2");
        reveal_strlit("3");
        reveal_strlit("4");
        reveal_strlit("5");
        reveal_strlit("6");
        reveal_strlit("7");
        reveal_strlit("8");
        reveal_strlit("9");
    }
    if d == 0 {
        "0"
    } else if d == 1 {
        "1"
    } else if d == 2 {
        "2"
    } else if d == 3 {
        "3"
    } else if d == 4 {
        "4"
    } else if d == 5 {
        "5"
    } else if d == 6 {
        "6"
    } else if d == 7 {
        "7"
    } else if d == 8 {
        "8"
    } else {
        "9"
    }
}

/// Append `n` in decimal.
fn append_decimal(text: &mut String, n: u64)
    ensures
        final(text)@ == old(text)@ + decimal(n as nat),
    decreases n,
{
    if n >= 10 {
        append_decimal(text, n / 10);
    }
    text.append(digit(n % 10));
    proof {
        let d = seq!["0123456789"@[(n % 10) as int]];
        if n >= 10 {
            assert(old(text)@ + decimal((n / 10) as nat) + d =~= old(text)@ + decimal(n as nat));
        }
    }
}

pub(crate) proof fn lemma_occurrences_push(s: Seq<int>, x: int, y: int)
    ensures
        occurrences(s.push(y), x) == occurrences(s, x) + if x == y {
            1nat
        } else {
            0nat
        },
{
    reveal(Seq::filter);
    assert(s.push(y).drop_last() =~= s);
}

/// What occurs at all is an element, and nothing occurs more often than there are elements.
pub(crate) proof fn lemma_occurrences_bounds(s: Seq<int>, x: int)
    ensures
        occurrences(s, x) <= s.len(),
        occurrences(s, x) > 0 ==> s.contains(x),
    decreases s.len(),
{
    reveal(Seq::filter);
    if s.len() > 0 {
        lemma_occurrences_bounds(s.drop_last(), x);
        assert(s.drop_last().push(s.last()) =~= s);
        lemma_occurrences_push(s.drop_last(), x, s.last());
        assert(s[s.len() - 1] == s.last());
        if s.drop_last().contains(x) {
            assert(s[s.drop_last().index_of(x)] == x);
        }
    }
}

pub(crate) proof fn lemma_two_values_share(s: Seq<int>, x: int, y: int)
    requires
        x != y,
    ensures
        occurrences(s, x) + occurrences(s, y) <= s.len(),
    decreases s.len(),
{
    reveal(Seq::filter);
    if s.len() > 0 {
        lemma_two_values_share(s.drop_last(), x, y);
        assert(s.drop_last().push(s.last()) =~= s);
        lemma_occurrences_push(s.drop_last(), x, s.last());
        lemma_occurrences_push(s.drop_last(), y, s.last());
    }
}

/// At most one gap can make up more than half of all gaps.
pub proof fn law_majority_is_unique(s: Seq<int>, x: int, y: int)
    requires
        is_majority(s, x),
        is_majority(s, y),
    ensures
        x == y,
{
    if x != y {
        lemma_two_values_share(s, x, y);
    }
}

/// A history is of one pattern only.
pub proof fn law_pattern_is_unique(history: Seq<u64>, p: AccessPattern, q: AccessPattern)
    requires
        has_pattern(history, p),
        has_pattern(history, q),
    ensures
        p == q,
{
    if history.len() >= 4 {
        let g = gaps(history);
        if p is Strided && q is Strided {
            law_majority_is_unique(g, p->stride as int, q->stride as int);
        }
        if p is Strided && q is Sequential {
            law_majority_is_unique(g, p->stride as int, 1);
        }
        if p is Sequential && q is Strided {
            law_majority_is_unique(g, 1, q->stride as int);
        }
    }
}

/// Every history is of some pattern.
pub proof fn law_every_history_has_a_pattern(history: Seq<u64>)
    ensures
        exists|p: AccessPattern| has_pattern(history, p),
{
    let g = gaps(history);
    if history.len() < 4 {
        assert(has_pattern(history, AccessPattern::Unknown));
    } else if is_majority(g, 1) {
        assert(has_pattern(history, AccessPattern::Sequential));
    } else if exists|d: int| d > 0 && is_majority(g, d) {
        let d = choose|d: int| d > 0 && is_majority(g, d);
        lemma_occurrences_bounds(g, d);
        assert(g.contains(d));
        assert(0 < d <= u64::MAX);
        assert(has_pattern(history, AccessPattern::Strided { stride: d as u64 }));
    } else {
        assert(has_pattern(history, AccessPattern::Random));
    }
}

proof fn lemma_occurrences_of_constant(s: Seq<int>, d: int)
    requires
        forall|i: int| 0 <= i < s.len() ==> s[i] == d,
    ensures
        occurrences(s, d) == s.len(),
    decreases s.len(),
{
    reveal(Seq::filter);
    if s.len() > 0 {
        lemma_occurrences_of_constant(s.drop_last(), d);
        assert(s.drop_last().push(s.last()) =~= s);
        lemma_occurrences_push(s.drop_last(), d, s.last());
    }
}

/// Where all gaps are the same, that gap decides: one is sequential, more than one
/// is strided by it, and standing still or going backwards is random.
pub proof fn law_constant_gap_decides(history: Seq<u64>, d: int)
    requires
        history.len() >= 4,
        forall|i: int| 0 <= i < gaps(history).len() ==> gaps(history)[i] == d,
    ensures
        d == 1 ==> has_pattern(history, AccessPattern::Sequential),
        d > 1 ==> has_pattern(history, AccessPattern::Strided { stride: d as u64 }),
        d <= 0 ==> has_pattern(history, AccessPattern::Random),
{
    let g = gaps(history);
    lemma_occurrences_of_constant(g, d);
    assert(g[0] == d);
    if d <= 0 {
        assert forall|e: int| e > 0 implies !is_majority(g, e) by {
            lemma_two_values_share(g, d, e);
        }
    }
}

/// The addresses of a kernel that loops `rounds` times over the tile of `n`
/// addresses that starts at `base`.
pub open spec fn tile_loop(base: u64, n: nat, rounds: nat) -> Seq<u64> {
    Seq::new(n * rounds, |i: int| (base + i % (n as int)) as u64)
}

/// One step further, the quotient grows exactly where the remainder wraps around.
proof fn lemma_next_quotient(x: int, n: int)
    requires
        x >= 0,
        n > 0,
    ensures
        x % n == n - 1 ==> (x + 1) / n == x / n + 1 && (x + 1) % n == 0,
        x % n != n - 1 ==> (x + 1) / n == x / n && (x + 1) % n == x % n + 1,
{
    vstd::arithmetic::div_mod::lemma_fundamental_div_mod(x, n);
    let q = x / n;
    let r = x % n;
    if r == n - 1 {
        assert(x + 1 == (q + 1) * n) by (nonlinear_arith)
            requires
                x == n * q + r,
                r == n - 1,
        ;
        vstd::arithmetic::div_mod::lemma_fundamental_div_mod_converse(x + 1, n, q + 1, 0);
    } else {
        assert(x + 1 == q * n + (r + 1)) by (nonlinear_arith)
            requires
                x == n * q + r,
        ;
        vstd::arithmetic::div_mod::lemma_fundamental_div_mod_converse(x + 1, n, q, r + 1);
    }
}

/// In a window of a loop over a tile of stride `d`, every gap is `d` but for the
/// jumps back to the start.
proof fn lemma_gaps_of_tile_window(
    base: u64,
    d: int,
    n: nat,
    window: Seq<u64>,
    offset: int,
    j: int,
)
    requires
        n >= 2,
        d >= 1,
        offset >= 0,
        forall|i: int|
            0 <= i < window.len() ==> #[trigger] window[i] == base + d * ((offset + i) % (
            n as int)),
        0 <= j <= gaps(window).len(),
    ensures
        occurrences(gaps(window).take(j), d) == j - ((offset + j) / (n as int) - offset / (
        n as int)),
    decreases j,
{
    let g = gaps(window);
    let m = n as int;
    reveal(Seq::filter);
    if j == 0 {
        assert(g.take(0) =~= Seq::<int>::empty());
    } else {
        lemma_gaps_of_tile_window(base, d, n, window, offset, j - 1);
        let x = offset + j - 1;
        lemma_next_quotient(x, m);
        vstd::arithmetic::div_mod::lemma_mod_bound(x, m);
        assert(window[j - 1] == base + d * (x % m));
        assert(window[j] == base + d * ((x + 1) % m));
        assert(g[j - 1] == window[j] - window[j - 1]);
        if x % m == m - 1 {
            assert(d * (m - 1) > 0 && d * 0 == 0) by (nonlinear_arith)
                requires
                    d >= 1,
                    m >= 2,
            ;
        } else {
            assert(d * (x % m + 1) == d * (x % m) + d) by (nonlinear_arith);
        }
        assert(g.take(j) =~= g.take(j - 1).push(g[j - 1]));
        lemma_occurrences_push(g.take(j - 1), d, g[j - 1]);
    }
}

/// In any window onto the end of a loop over a tile of at least two addresses with
/// stride `d`, if it shows at least four accesses and all of the loop or an even
/// number of accesses, more than half of the gaps are `d`.
pub(crate) proof fn lemma_stride_of_tile_window_dominates(
    base: u64,
    d: int,
    n: nat,
    rounds: nat,
    window: Seq<u64>,
    offset: int,
)
    requires
        n >= 2,
        d >= 1,
        0 <= offset <= n * rounds,
        window.len() == n * rounds - offset,
        forall|i: int|
            0 <= i < window.len() ==> #[trigger] window[i] == base + d * ((offset + i) % (
            n as int)),
        window.len() >= 4,
        offset == 0 || window.len() % 2 == 0,
    ensures
        is_majority(gaps(window), d),
{
    let g = gaps(window);
    let m = n as int;
    let k = rounds as int;
    let total = g.len() as int;
    lemma_gaps_of_tile_window(base, d, n, window, offset, total);
    assert(g.take(total) =~= g);
    let last = offset + total;
    assert(last == m * k - 1);
    let q0 = offset / m;
    let q1 = last / m;
    vstd::arithmetic::div_mod::lemma_fundamental_div_mod(offset, m);
    vstd::arithmetic::div_mod::lemma_mod_bound(offset, m);
    assert(q1 == k - 1) by {
        assert(last == (k - 1) * m + (m - 1)) by (nonlinear_arith)
            requires
                last == m * k - 1,
        ;
        vstd::arithmetic::div_mod::lemma_fundamental_div_mod_converse(last, m, k - 1, m - 1);
    }
    let jumps = q1 - q0;
    assert(m * jumps <= total && (offset == 0 ==> m * jumps <= total - 1)) by (nonlinear_arith)
        requires
            jumps == k - 1 - q0,
            offset == m * q0 + offset % m,
            0 <= offset % m < m,
            m >= 2,
            total == m * k - 1 - offset,
    ;
    assert(2 * jumps <= m * jumps || jumps < 0) by (nonlinear_arith)
        requires
            m >= 2,
    ;
}

/// Any window onto the end of a loop over a tile of at least two addresses, if it
/// shows at least four accesses and all of the loop or an even number of accesses,
/// is sequential.
proof fn lemma_tile_window_is_sequential(
    base: u64,
    n: nat,
    rounds: nat,
    window: Seq<u64>,
    offset: int,
)
    requires
        n >= 2,
        base + n <= 0x1_0000_0000_0000_0000,
        0 <= offset <= n * rounds,
        window == tile_loop(base, n, rounds).skip(offset),
        window.len() >= 4,
        offset == 0 || window.len() % 2 == 0,
    ensures
        has_pattern(window, AccessPattern::Sequential),
{
    assert forall|i: int| 0 <= i < window.len() implies #[trigger] window[i] == base + 1 * ((offset
        + i) % (n as int)) by {
        assert(window[i] == tile_loop(base, n, rounds)[offset + i]);
        vstd::arithmetic::div_mod::lemma_mod_bound(offset + i, n as int);
    }
    lemma_stride_of_tile_window_dominates(base, 1, n, rounds, window, offset);
}

/// The newest accesses of a kernel that loops over a fixed tile of at least two
/// addresses are sequential, despite the jump back at the end of each round, and
/// however much of the loop they still show.
pub proof fn law_looping_over_a_tile_is_sequential(base: u64, n: nat, rounds: nat)
    requires
        n >= 2,
        n * rounds >= 4,
        base + n <= 0x1_0000_0000_0000_0000,
    ensures
        has_pattern(
            order::newest(tile_loop(base, n, rounds), MAX_HISTORY as nat),
            AccessPattern::Sequential,
        ),
{
    let all = tile_loop(base, n, rounds);
    let offset = if all.len() > MAX_HISTORY {
        all.len() - MAX_HISTORY
    } else {
        0
    };
    assert(all.skip(0) =~= all);
    lemma_tile_window_is_sequential(
        base,
        n,
        rounds,
        order::newest(all, MAX_HISTORY as nat),
        offset,
    );
}

/// The strides as mathematical integers.
spec fn as_gaps(strides: Seq<i128>) -> Seq<int> {
    strides.map_values(|x: i128| x as int)
}

/// The gaps between consecutive addresses of the history.
fn strides_of(history: &Vec<u64>) -> (strides: Vec<i128>)
    requires
        history@.len() > 0,
    ensures
        as_gaps(strides@) == gaps(history@),
{
    let mut strides: Vec<i128> = Vec::with_capacity(history.len() - 1);
    let mut i: usize = 1;
    while i < history.len()
        invariant
            1 <= i <= history@.len(),
            strides@.len() == i - 1,
            forall|j: int| 0 <= j < i - 1 ==> #[trigger] strides@[j] == gaps(history@)[j],
        decreases history@.len() - i,
    {
        let later = history[i];
        let earlier = history[i - 1];
        assert(gaps(history@)[i - 1] == later - earlier);
        strides.push(later as i128 - earlier as i128);
        i += 1;
    }
    assert(as_gaps(strides@) =~= gaps(history@));
    strides
}

/// The number of times a tally has seen `x`.
spec fn tallied(counts: Map<i128, usize>, x: i128) -> nat {
    if counts.contains_key(x) {
        counts[x] as nat
    } else {
        0
    }
}

/// A most common stride, and how often it occurs.
fn dominant_stride(strides: &Vec<i128>) -> (dominant: (i128, usize))
    requires
        strides@.len() > 0,
    ensures
        dominant.1 == occurrences(as_gaps(strides@), dominant.0 as int),
        forall|x: int| occurrences(as_gaps(strides@), x) <= dominant.1,
{
    let mut counts: HashMap<i128, usize> = HashMap::new();
    let mut best: (i128, usize) = (0, 0);
    let mut i: usize = 0;
    proof {
        reveal(Seq::filter);
        assert(as_gaps(strides@.take(0)) =~= Seq::<int>::empty());
    }
    while i < strides.len()
        invariant
            0 <= i <= strides@.len(),
            forall|x: i128| #[trigger]
                tallied(counts@, x) == occurrences(as_gaps(strides@.take(i as int)), x as int),
            best.1 == occurrences(as_gaps(strides@.take(i as int)), best.0 as int),
            forall|x: i128| #[trigger] tallied(counts@, x) <= best.1,
        decreases strides@.len() - i,
    {
        let s = strides[i];
        let ghost before = counts@;
        let ghost seen = as_gaps(strides@.take(i as int));
        let ghost next = as_gaps(strides@.take(i + 1));
        proof {
            assert(next =~= seen.push(s as int));
            assert(tallied(before, s) <= i) by {
                lemma_occurrences_bounds(seen, s as int);
            }
        }
        let count: &mut usize = counts.entry(s).or_insert(0);
        *count += 1;
        let count_now: usize = *count;
        assert(counts@ == before.insert(s, count_now));
        assert(count_now == tallied(before, s) + 1);
        if count_now > best.1 {
            best = (s, count_now);
        }
        proof {
            assert forall|x: i128| #[trigger]
                tallied(counts@, x) == occurrences(next, x as int) by {
                lemma_occurrences_push(seen, x as int, s as int);
                assert(tallied(before, x) == occurrences(seen, x as int));
            }
            lemma_occurrences_push(seen, best.0 as int, s as int);
            assert(tallied(before, s) == occurrences(seen, s as int));
            assert forall|x: i128| #[trigger] tallied(counts@, x) <= best.1 by {
                assert(tallied(before, x) <= best.1);
            }
        }
        i += 1;
    }
    proof {
        assert(strides@.take(i as int) =~= strides@);
        let all = as_gaps(strides@);
        assert forall|x: int| occurrences(all, x) <= best.1 by {
            lemma_occurrences_bounds(all, x);
            if occurrences(all, x) > 0 {
                let k = all.index_of(x);
                assert(strides@[k] == x);
                assert(tallied(counts@, strides@[k]) <= best.1);
            }
        }
    }
    best
}

/// Classify a history by the gap that more than half of its gaps share.
pub(crate) fn classify(history: &Vec<u64>) -> (pattern: AccessPattern)
    ensures
        has_pattern(history@, pattern),
        forall|p: AccessPattern| #[trigger] has_pattern(history@, p) ==> p == pattern,
{
    let pattern = if history.len() < 4 {
        AccessPattern::Unknown
    } else {
        let strides = strides_of(history);
        let total: usize = strides.len();
        assert(as_gaps(strides@).len() == total);
        let (dominant, dominant_count): (i128, usize) = dominant_stride(&strides);
        proof {
            lemma_occurrences_bounds(gaps(history@), dominant as int);
            if is_majority(gaps(history@), dominant as int) && dominant <= 0 {
                assert forall|d: int| d > 0 implies !is_majority(gaps(history@), d) by {
                    if is_majority(gaps(history@), d) {
                        law_majority_is_unique(gaps(history@), d, dominant as int);
                    }
                }
            }
        }
        // A strict majority: one stride must make up more than half the gaps. At most
        // a single value can, so the result does not depend on how ties are resolved.
        if dominant_count > total - dominant_count && dominant == 1 {
            AccessPattern::Sequential
        } else if dominant_count > total - dominant_count && dominant > 1 {
            AccessPattern::Strided { stride: dominant as u64 }
        } else {
            AccessPattern::Random
        }
    };
    assert(has_pattern(history@, pattern));
    assert forall|p: AccessPattern| #[trigger] has_pattern(history@, p) implies p == pattern by {
        law_pattern_is_unique(history@, p, pattern);
    }
    pattern
}

} // verus!
