//! Sums over sequences of natural numbers.

use vstd::prelude::*;

verus! {

/// The sum of all entries.
pub open spec fn sum_of(weights: Seq<nat>) -> nat
    decreases weights.len(),
{
    if weights.len() == 0 {
        0
    } else {
        sum_of(weights.drop_last()) + weights.last()
    }
}

/// The sum of a sequence with one more entry at its end.
pub proof fn lemma_sum_push(weights: Seq<nat>, last: nat)
    ensures
        sum_of(weights.push(last)) == sum_of(weights) + last,
{
    assert(weights.push(last).drop_last() =~= weights);
}

/// The sum of two sequences laid end to end.
pub proof fn lemma_sum_concat(front: Seq<nat>, back: Seq<nat>)
    ensures
        sum_of(front + back) == sum_of(front) + sum_of(back),
    decreases back.len(),
{
    if back.len() == 0 {
        assert(front + back =~= front);
    } else {
        lemma_sum_concat(front, back.drop_last());
        assert((front + back).drop_last() =~= front + back.drop_last());
    }
}

/// Taking an entry out takes its value from the sum.
pub proof fn lemma_sum_remove(weights: Seq<nat>, at: int)
    requires
        0 <= at < weights.len(),
    ensures
        sum_of(weights.remove(at)) == sum_of(weights) - weights[at],
{
    let front = weights.subrange(0, at);
    let back = weights.subrange(at + 1, weights.len() as int);
    assert(weights =~= front.push(weights[at]) + back);
    assert(weights.remove(at) =~= front + back);
    lemma_sum_push(front, weights[at]);
    lemma_sum_concat(front.push(weights[at]), back);
    lemma_sum_concat(front, back);
}

/// Replacing an entry changes the sum by the difference of the two values.
pub proof fn lemma_sum_update(weights: Seq<nat>, at: int, value: nat)
    requires
        0 <= at < weights.len(),
    ensures
        sum_of(weights.update(at, value)) == sum_of(weights) - weights[at] + value,
{
    let front = weights.subrange(0, at);
    let back = weights.subrange(at + 1, weights.len() as int);
    assert(weights =~= front.push(weights[at]) + back);
    assert(weights.update(at, value) =~= front.push(value) + back);
    lemma_sum_push(front, weights[at]);
    lemma_sum_push(front, value);
    lemma_sum_concat(front.push(weights[at]), back);
    lemma_sum_concat(front.push(value), back);
}

/// Where every entry of one sequence is at most the entry of another at the
/// same place, so are the sums.
pub proof fn lemma_sum_pointwise(lower: Seq<nat>, upper: Seq<nat>)
    requires
        lower.len() == upper.len(),
        forall|i: int| 0 <= i < lower.len() ==> lower[i] <= upper[i],
    ensures
        sum_of(lower) <= sum_of(upper),
    decreases lower.len(),
{
    if lower.len() > 0 {
        lemma_sum_pointwise(lower.drop_last(), upper.drop_last());
    }
}

} // verus!
