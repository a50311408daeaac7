//! Ranking by score: who outranks whom, and how many places each entry has
//! above it.
//!
//! Entries are ranked by score, the higher first; between equal scores the
//! earlier entry comes first. The order is strict and total, so the ranks of
//! `n` entries are the numbers `0..n`, each taken once.

use vstd::prelude::*;
use vstd::relations::injective_on;
use vstd::set_lib::{
    lemma_int_range, lemma_len_subset, lemma_map_size, lemma_set_disjoint_lens, set_int_range,
};

verus! {

/// The entry at `a` comes before the entry at `b`: its score is higher, or
/// the scores are equal and it stands earlier.
pub open spec fn outranks(scores: Seq<nat>, a: int, b: int) -> bool {
    scores[a] > scores[b] || (scores[a] == scores[b] && a < b)
}

/// How many of the first `n` entries outrank the entry at `i`.
pub open spec fn outranked_upto(scores: Seq<nat>, i: int, n: int) -> nat
    decreases n,
{
    if n <= 0 {
        0
    } else {
        outranked_upto(scores, i, n - 1) + if outranks(scores, n - 1, i) {
            1nat
        } else {
            0nat
        }
    }
}

/// The rank of the entry at `i`: the number of entries that outrank it. The
/// best entry has rank 0.
pub open spec fn rank(scores: Seq<nat>, i: int) -> nat {
    outranked_upto(scores, i, scores.len() as int)
}

/// The positions among the first `n` whose rank is below `target`.
pub open spec fn leaders(scores: Seq<nat>, target: nat, n: int) -> Set<int> {
    Set::new(|i: int| 0 <= i < n && rank(scores, i) < target)
}

/// No entry outranks itself, so among the first `n` entries at most `n - 1`
/// outrank one of them.
pub proof fn lemma_outranked_bound(scores: Seq<nat>, i: int, n: int)
    requires
        0 <= n,
    ensures
        outranked_upto(scores, i, n) <= n,
        0 <= i < n ==> outranked_upto(scores, i, n) < n,
    decreases n,
{
    if n > 0 {
        lemma_outranked_bound(scores, i, n - 1);
    }
}

/// Every rank is below the number of entries.
pub proof fn lemma_rank_bound(scores: Seq<nat>, i: int)
    requires
        0 <= i < scores.len(),
    ensures
        rank(scores, i) < scores.len(),
{
    lemma_outranked_bound(scores, i, scores.len() as int);
}

/// Whoever outranks `a` also outranks what `a` outranks.
proof fn lemma_outranked_order(scores: Seq<nat>, a: int, b: int, n: int)
    requires
        outranks(scores, a, b),
        0 <= a,
        0 <= n,
    ensures
        outranked_upto(scores, a, n) <= outranked_upto(scores, b, n),
        a < n ==> outranked_upto(scores, a, n) < outranked_upto(scores, b, n),
    decreases n,
{
    if n > 0 {
        lemma_outranked_order(scores, a, b, n - 1);
    }
}

/// An entry that outranks another has the smaller rank.
pub proof fn lemma_rank_order(scores: Seq<nat>, a: int, b: int)
    requires
        0 <= a < scores.len(),
        0 <= b < scores.len(),
        outranks(scores, a, b),
    ensures
        rank(scores, a) < rank(scores, b),
{
    lemma_outranked_order(scores, a, b, scores.len() as int);
}

/// Two different entries never share a rank.
pub proof fn lemma_rank_distinct(scores: Seq<nat>, a: int, b: int)
    requires
        0 <= a < scores.len(),
        0 <= b < scores.len(),
        a != b,
    ensures
        rank(scores, a) != rank(scores, b),
{
    if outranks(scores, a, b) {
        lemma_rank_order(scores, a, b);
    } else {
        assert(outranks(scores, b, a));
        lemma_rank_order(scores, b, a);
    }
}

/// Exactly `target` entries have a rank below `target`, as long as there are
/// that many entries.
pub proof fn lemma_leaders_count(scores: Seq<nat>, target: nat)
    requires
        target <= scores.len(),
    ensures
        leaders(scores, target, scores.len() as int).finite(),
        leaders(scores, target, scores.len() as int).len() == target,
{
    let n = scores.len() as int;
    let all = set_int_range(0, n);
    let low = leaders(scores, target, n);
    let high = Set::new(|i: int| 0 <= i < n && rank(scores, i) >= target);
    let place = |i: int| rank(scores, i) as int;
    lemma_int_range(0, n);
    lemma_int_range(0, target as int);
    lemma_int_range(target as int, n);
    lemma_len_subset(low, all);
    lemma_len_subset(high, all);
    assert(injective_on(place, low)) by {
        assert forall|x1: int, x2: int|
            low.contains(x1) && low.contains(x2) && #[trigger] place(x1) == #[trigger] place(
                x2,
            ) implies x1 == x2 by {
            if x1 != x2 {
                lemma_rank_distinct(scores, x1, x2);
            }
        }
    }
    assert(injective_on(place, high)) by {
        assert forall|x1: int, x2: int|
            high.contains(x1) && high.contains(x2) && #[trigger] place(x1) == #[trigger] place(
                x2,
            ) implies x1 == x2 by {
            if x1 != x2 {
                lemma_rank_distinct(scores, x1, x2);
            }
        }
    }
    lemma_map_size(low, low.map(place), place);
    lemma_map_size(high, high.map(place), place);
    assert(low.map(place).subset_of(set_int_range(0, target as int)));
    assert(high.map(place).subset_of(set_int_range(target as int, n))) by {
        assert forall|p: int| high.map(place).contains(p) implies set_int_range(
            target as int,
            n,
        ).contains(p) by {
            let i = choose|i: int| high.contains(i) && p == place(i);
            lemma_rank_bound(scores, i);
        }
    }
    lemma_len_subset(low.map(place), set_int_range(0, target as int));
    lemma_len_subset(high.map(place), set_int_range(target as int, n));
    lemma_set_disjoint_lens(low, high);
    assert(low.disjoint(high));
    assert(low + high =~= all);
}

/// A kept entry outranks every dropped one: whatever has a rank below
/// `target` outranks whatever has not.
pub proof fn lemma_leaders_outrank_the_rest(scores: Seq<nat>, target: nat, kept: int, dropped: int)
    requires
        0 <= kept < scores.len(),
        0 <= dropped < scores.len(),
        rank(scores, kept) < target,
        rank(scores, dropped) >= target,
    ensures
        outranks(scores, kept, dropped),
{
    if !outranks(scores, kept, dropped) {
        assert(outranks(scores, dropped, kept));
        lemma_rank_order(scores, dropped, kept);
    }
}

/// No score that is ranked lies above this.
pub const SCORE_CEILING: u16 = 200;

/// The scores as natural numbers.
pub open spec fn as_nats(scores: Seq<u16>) -> Seq<nat> {
    Seq::new(scores.len(), |i: int| scores[i] as nat)
}

/// How many of the first `n` entries have exactly the score `score`.
pub open spec fn count_equal(scores: Seq<nat>, score: nat, n: int) -> nat
    decreases n,
{
    if n <= 0 {
        0
    } else {
        count_equal(scores, score, n - 1) + if scores[n - 1] == score {
            1nat
        } else {
            0nat
        }
    }
}

/// How many of the first `n` entries have a score above `score`.
pub open spec fn count_above(scores: Seq<nat>, score: nat, n: int) -> nat
    decreases n,
{
    if n <= 0 {
        0
    } else {
        count_above(scores, score, n - 1) + if scores[n - 1] > score {
            1nat
        } else {
            0nat
        }
    }
}

/// Neither count exceeds the number of entries counted.
proof fn lemma_count_bounds(scores: Seq<nat>, score: nat, n: int)
    requires
        0 <= n,
    ensures
        count_equal(scores, score, n) <= n,
        count_above(scores, score, n) <= n,
    decreases n,
{
    if n > 0 {
        lemma_count_bounds(scores, score, n - 1);
    }
}

/// The entries above a score are those above the next score and those that
/// have the next score.
proof fn lemma_count_above_next(scores: Seq<nat>, score: nat, n: int)
    ensures
        count_above(scores, score, n) == count_above(scores, score + 1, n) + count_equal(
            scores,
            score + 1,
            n,
        ),
    decreases n,
{
    if n > 0 {
        lemma_count_above_next(scores, score, n - 1);
    }
}

/// No entry lies above a score that bounds them all.
proof fn lemma_count_above_top(scores: Seq<nat>, ceiling: nat, n: int)
    requires
        forall|j: int| 0 <= j < n ==> scores[j] <= ceiling,
    ensures
        count_above(scores, ceiling, n) == 0,
    decreases n,
{
    if n > 0 {
        lemma_count_above_top(scores, ceiling, n - 1);
    }
}

/// Those that outrank an entry are the entries with a higher score and the
/// earlier entries with the same score.
proof fn lemma_rank_split(scores: Seq<nat>, i: int, n: int)
    requires
        0 <= i < scores.len(),
        0 <= n <= scores.len(),
    ensures
        outranked_upto(scores, i, n) == count_above(scores, scores[i], n) + count_equal(
            scores,
            scores[i],
            if n < i {
                n
            } else {
                i
            },
        ),
    decreases n,
{
    if n > 0 {
        lemma_rank_split(scores, i, n - 1);
    }
}

/// For each entry, whether fewer than `target` entries outrank it.
///
/// The scores are tallied first; an entry's rank is then the number of
/// entries with a higher score and the number of entries with its own score
/// that came before it.
pub fn ranks_below(scores: &Vec<u16>, target: usize) -> (keep: Vec<bool>)
    requires
        forall|i: int| 0 <= i < scores@.len() ==> scores@[i] <= SCORE_CEILING,
    ensures
        keep@.len() == scores@.len(),
        forall|i: int| 0 <= i < keep@.len() ==> keep@[i] == (rank(as_nats(scores@), i) < target),
{
    let n: usize = scores.len();
    let ghost wanted = as_nats(scores@);
    let slots: usize = SCORE_CEILING as usize + 1;
    let mut tally: Vec<usize> = vec![0usize; slots];
    let mut p: usize = 0;
    while p < n
        invariant
            p <= n,
            n == scores@.len(),
            wanted == as_nats(scores@),
            slots == SCORE_CEILING + 1,
            tally@.len() == slots,
            forall|i: int| 0 <= i < scores@.len() ==> scores@[i] <= SCORE_CEILING,
            forall|s: int| 0 <= s < slots ==> tally@[s] == count_equal(wanted, s as nat, p as int),
        decreases n - p,
    {
        let score: usize = scores[p] as usize;
        proof {
            lemma_count_bounds(wanted, score as nat, p as int);
        }
        let so_far: usize = tally[score];
        tally.set(score, so_far + 1);
        p = p + 1;
    }
    let mut above: Vec<usize> = vec![0usize; slots];
    let mut s: usize = slots - 1;
    proof {
        lemma_count_above_top(wanted, SCORE_CEILING as nat, n as int);
    }
    while s > 0
        invariant
            s < slots,
            n == scores@.len(),
            slots == SCORE_CEILING + 1,
            tally@.len() == slots,
            above@.len() == slots,
            forall|t: int| 0 <= t < slots ==> tally@[t] == count_equal(wanted, t as nat, n as int),
            forall|t: int| s <= t < slots ==> above@[t] == count_above(wanted, t as nat, n as int),
        decreases s,
    {
        proof {
            lemma_count_above_next(wanted, (s - 1) as nat, n as int);
            lemma_count_bounds(wanted, (s - 1) as nat, n as int);
        }
        let sum: usize = above[s] + tally[s];
        above.set(s - 1, sum);
        s = s - 1;
    }
    let mut seen: Vec<usize> = vec![0usize; slots];
    let mut keep: Vec<bool> = Vec::new();
    let mut i: usize = 0;
    while i < n
        invariant
            i <= n,
            n == scores@.len(),
            wanted == as_nats(scores@),
            slots == SCORE_CEILING + 1,
            above@.len() == slots,
            seen@.len() == slots,
            keep@.len() == i,
            forall|j: int| 0 <= j < scores@.len() ==> scores@[j] <= SCORE_CEILING,
            forall|t: int| 0 <= t < slots ==> above@[t] == count_above(wanted, t as nat, n as int),
            forall|t: int| 0 <= t < slots ==> seen@[t] == count_equal(wanted, t as nat, i as int),
            forall|j: int| 0 <= j < i ==> keep@[j] == (rank(wanted, j) < target),
        decreases n - i,
    {
        let score: usize = scores[i] as usize;
        proof {
            lemma_rank_split(wanted, i as int, n as int);
            lemma_rank_bound(wanted, i as int);
            lemma_count_bounds(wanted, score as nat, i as int);
        }
        let place: usize = above[score] + seen[score];
        keep.push(place < target);
        let so_far: usize = seen[score];
        seen.set(score, so_far + 1);
        i = i + 1;
    }
    keep
}

} // verus!
