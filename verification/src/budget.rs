//! Token totals over a sequence of items.

use crate::compressor::{is_compressed, DIGEST_GROWTH};
use crate::estimator::token_estimate;
use crate::item::{ItemView, ResponseItem};
use crate::text::text_contains;
use crate::sums::{
    lemma_sum_concat, lemma_sum_pointwise, lemma_sum_push, lemma_sum_remove, lemma_sum_update,
    sum_of,
};
use vstd::prelude::*;
use vstd::string::StrSliceExecFns;

verus! {

/// The token counts of the items, in order.
pub open spec fn token_counts(items: Seq<ItemView>) -> Seq<nat> {
    Seq::new(items.len(), |i: int| items[i].token_count)
}

/// The sum of the token counts of all items.
pub open spec fn total_tokens(items: Seq<ItemView>) -> nat {
    sum_of(token_counts(items))
}

/// The most tokens an item can ever weigh: its present count, or, while it is
/// not compressed, the estimate of the longest digest its text can have,
/// whichever is larger.
pub open spec fn item_peak(item: ItemView) -> nat {
    if is_compressed(item.content) {
        item.token_count
    } else {
        let digest = token_estimate(item.content.len() + DIGEST_GROWTH as nat);
        if item.token_count >= digest {
            item.token_count
        } else {
            digest
        }
    }
}

/// The estimate for the longest digest of a text of `chars` characters,
/// computed where it cannot overflow.
pub fn digest_estimate(chars: usize) -> (tokens: u128)
    ensures
        tokens == token_estimate(chars as nat + DIGEST_GROWTH as nat),
        tokens <= usize::MAX,
{
    let grown: u128 = chars as u128 + DIGEST_GROWTH as u128;
    (2 * grown + 6) / 7
}

/// Computes the peak of `item`.
pub fn peak_of(item: &ResponseItem) -> (peak: u128)
    ensures
        peak == item_peak(item@),
        peak <= usize::MAX,
{
    let content = item.content.as_str();
    if text_contains(content, "[Compressed]") {
        item.token_count as u128
    } else {
        let digest: u128 = digest_estimate(content.unicode_len());
        if item.token_count as u128 >= digest {
            item.token_count as u128
        } else {
            digest
        }
    }
}

/// The peaks of the items, in order.
pub open spec fn peaks(items: Seq<ItemView>) -> Seq<nat> {
    Seq::new(items.len(), |i: int| item_peak(items[i]))
}

/// The sum of the peaks of all items: a bound on the token total that holds
/// however the items are compressed or removed later.
pub open spec fn peak_tokens(items: Seq<ItemView>) -> nat {
    sum_of(peaks(items))
}

/// The total never exceeds the peak.
pub proof fn lemma_total_within_peak(items: Seq<ItemView>)
    ensures
        total_tokens(items) <= peak_tokens(items),
{
    lemma_sum_pointwise(token_counts(items), peaks(items));
}

/// Totals of no items.
pub proof fn lemma_totals_empty()
    ensures
        total_tokens(Seq::<ItemView>::empty()) == 0,
        peak_tokens(Seq::<ItemView>::empty()) == 0,
{
}

/// Totals after one more item has arrived.
pub proof fn lemma_totals_push(items: Seq<ItemView>, item: ItemView)
    ensures
        total_tokens(items.push(item)) == total_tokens(items) + item.token_count,
        peak_tokens(items.push(item)) == peak_tokens(items) + item_peak(item),
{
    assert(token_counts(items.push(item)) =~= token_counts(items).push(item.token_count));
    assert(peaks(items.push(item)) =~= peaks(items).push(item_peak(item)));
    lemma_sum_push(token_counts(items), item.token_count);
    lemma_sum_push(peaks(items), item_peak(item));
}

/// Totals of two runs of items laid end to end.
pub proof fn lemma_totals_concat(front: Seq<ItemView>, back: Seq<ItemView>)
    ensures
        total_tokens(front + back) == total_tokens(front) + total_tokens(back),
        peak_tokens(front + back) == peak_tokens(front) + peak_tokens(back),
{
    assert(token_counts(front + back) =~= token_counts(front) + token_counts(back));
    assert(peaks(front + back) =~= peaks(front) + peaks(back));
    lemma_sum_concat(token_counts(front), token_counts(back));
    lemma_sum_concat(peaks(front), peaks(back));
}

/// Totals after one item has been removed.
pub proof fn lemma_totals_remove(items: Seq<ItemView>, at: int)
    requires
        0 <= at < items.len(),
    ensures
        total_tokens(items.remove(at)) == total_tokens(items) - items[at].token_count,
        peak_tokens(items.remove(at)) == peak_tokens(items) - item_peak(items[at]),
{
    assert(token_counts(items.remove(at)) =~= token_counts(items).remove(at));
    assert(peaks(items.remove(at)) =~= peaks(items).remove(at));
    lemma_sum_remove(token_counts(items), at);
    lemma_sum_remove(peaks(items), at);
}

/// Totals after one item has been replaced.
pub proof fn lemma_totals_update(items: Seq<ItemView>, at: int, item: ItemView)
    requires
        0 <= at < items.len(),
    ensures
        total_tokens(items.update(at, item)) == total_tokens(items) - items[at].token_count
            + item.token_count,
        peak_tokens(items.update(at, item)) == peak_tokens(items) - item_peak(items[at])
            + item_peak(item),
{
    assert(token_counts(items.update(at, item)) =~= token_counts(items).update(
        at,
        item.token_count,
    ));
    assert(peaks(items.update(at, item)) =~= peaks(items).update(at, item_peak(item)));
    lemma_sum_update(token_counts(items), at, item.token_count);
    lemma_sum_update(peaks(items), at, item_peak(item));
}

} // verus!
