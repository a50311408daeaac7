//! The eviction pipeline, as functions on sequences of items.
//!
//! Three tiers run in turn while the token total is above the ceiling: old
//! items are compressed, disposable items are deleted, and at last the items
//! are ranked and only the best are kept. Every tier leaves the items that
//! stay in the order in which they arrived.

use crate::budget::{
    item_peak, lemma_totals_concat, lemma_totals_push, peak_tokens, peaks, total_tokens,
};
use crate::compressor::{digest_of, is_compressed, lemma_digest, COMPRESS_ABOVE, DIGEST_GROWTH};
use crate::estimator::{lemma_estimate_monotonic, token_estimate};
use crate::item::ItemView;
use crate::ranking::{leaders, lemma_leaders_count, rank};
use crate::scorer::{importance_of, is_essential};
use crate::sums::lemma_sum_pointwise;
use vstd::prelude::*;

verus! {

/// Items less important than this are compressed once they are old.
pub const COMPRESS_BELOW: u8 = 70;

/// Items less important than this are deleted unless they are essential.
pub const DISPOSABLE_BELOW: u8 = 30;

/// What an item among the newest gains when the items are ranked.
pub const RECENCY_BOOST: u16 = 100;

/// The ranking never keeps more than this many items for the ceiling's sake.
pub const TARGET_CAP: usize = 50;

/// The tokens that the ranking reckons for one item.
pub const TOKENS_PER_MESSAGE: usize = 1000;

/// The items' creation times never decrease along the sequence.
pub open spec fn chronological(items: Seq<ItemView>) -> bool {
    forall|i: int, j: int| 0 <= i <= j < items.len() ==> items[i].timestamp <= items[j].timestamp
}

/// The token count with which an item is taken in: its own, or the estimate
/// for its text where its own is zero.
pub open spec fn admitted_tokens(item: ItemView) -> nat {
    if item.token_count == 0 {
        token_estimate(item.content.len())
    } else {
        item.token_count
    }
}

/// The item as the history takes it in: a token count of zero is replaced by
/// the estimate for the text, and the importance is computed afresh.
pub open spec fn admitted(item: ItemView, now: int) -> ItemView {
    ItemView { token_count: admitted_tokens(item), importance: importance_of(item, now), ..item }
}

/// The peak of an item once it is taken in, whenever that is.
pub open spec fn admitted_peak(item: ItemView) -> nat {
    item_peak(ItemView { token_count: admitted_tokens(item), ..item })
}

// ---------------------------------------------------------------------------
// Compression of old items
// ---------------------------------------------------------------------------

/// An item that compression applies to: long, not important, and not yet
/// compressed.
pub open spec fn should_compress(item: ItemView) -> bool {
    &&& item.content.len() > COMPRESS_ABOVE
    &&& item.importance < COMPRESS_BELOW
    &&& !is_compressed(item.content)
}

/// What compression makes of an item: the text of an item it applies to
/// becomes its digest and the token count the estimate for the digest; any
/// other item stays as it is.
pub open spec fn compressed(item: ItemView) -> ItemView {
    if should_compress(item) {
        ItemView {
            content: digest_of(item.content),
            token_count: token_estimate(digest_of(item.content).len()),
            ..item
        }
    } else {
        item
    }
}

/// How many items at the front are old enough to be compressed: all but the
/// newest `full_retention_count`.
pub open spec fn old_prefix(len: nat, full_retention_count: nat) -> nat {
    if len >= full_retention_count {
        (len - full_retention_count) as nat
    } else {
        0
    }
}

/// The items after the compression tier.
pub open spec fn compress_old(items: Seq<ItemView>, full_retention_count: nat) -> Seq<ItemView> {
    Seq::new(
        items.len(),
        |i: int|
            if i < old_prefix(items.len(), full_retention_count) {
                compressed(items[i])
            } else {
                items[i]
            },
    )
}

/// Compression never raises an item's peak, and a compressed item weighs
/// exactly its peak.
pub proof fn lemma_compressed_peak(item: ItemView)
    ensures
        item_peak(compressed(item)) <= item_peak(item),
        should_compress(item) ==> item_peak(compressed(item)) == compressed(item).token_count,
{
    if should_compress(item) {
        lemma_digest(item.content);
        lemma_estimate_monotonic(
            digest_of(item.content).len(),
            item.content.len() + DIGEST_GROWTH as nat,
        );
    }
}

/// Compressing an item a second time changes nothing: the digest carries the
/// marker, and a marked item is left alone.
pub proof fn lemma_compress_twice(item: ItemView)
    ensures
        compressed(compressed(item)) == compressed(item),
{
    if should_compress(item) {
        lemma_digest(item.content);
    }
}

/// Running the compression tier a second time changes nothing.
pub proof fn lemma_compress_old_twice(items: Seq<ItemView>, full_retention_count: nat)
    ensures
        compress_old(compress_old(items, full_retention_count), full_retention_count)
            == compress_old(items, full_retention_count),
{
    let once = compress_old(items, full_retention_count);
    let twice = compress_old(once, full_retention_count);
    assert forall|i: int| 0 <= i < items.len() implies twice[i] == once[i] by {
        lemma_compress_twice(items[i]);
    }
    assert(twice =~= once);
}

/// The compression tier keeps every item in its place and changes neither
/// role, kind, importance nor creation time.
pub proof fn lemma_compress_old_shape(items: Seq<ItemView>, full_retention_count: nat)
    ensures
        compress_old(items, full_retention_count).len() == items.len(),
        forall|i: int|
            0 <= i < items.len() ==> {
                let after = #[trigger] compress_old(items, full_retention_count)[i];
                &&& after.role == items[i].role
                &&& after.message_type == items[i].message_type
                &&& after.importance == items[i].importance
                &&& after.timestamp == items[i].timestamp
            },
        chronological(items) ==> chronological(compress_old(items, full_retention_count)),
{
}

// ---------------------------------------------------------------------------
// Deletion of disposable items
// ---------------------------------------------------------------------------

/// An item that the deletion tier may remove: of low importance and not
/// essential.
pub open spec fn is_disposable(item: ItemView) -> bool {
    item.importance < DISPOSABLE_BELOW && !is_essential(item)
}

/// How many items at the front the deletion tier may look at: all but the
/// newest `min_messages`.
pub open spec fn candidates(len: nat, min_messages: nat) -> nat {
    if len >= min_messages {
        (len - min_messages) as nat
    } else {
        0
    }
}

/// One pass from the front over the first `candidates` items, which ends as
/// soon as no `excess` of tokens is left: a disposable item is dropped and its
/// tokens come off the excess, any other item stays.
pub open spec fn drop_disposable(items: Seq<ItemView>, candidates: nat, excess: int) -> Seq<
    ItemView,
>
    decreases candidates,
{
    if candidates == 0 || excess <= 0 || items.len() == 0 {
        items
    } else if is_disposable(items[0]) {
        drop_disposable(
            items.drop_first(),
            (candidates - 1) as nat,
            excess - items[0].token_count,
        )
    } else {
        seq![items[0]] + drop_disposable(items.drop_first(), (candidates - 1) as nat, excess)
    }
}

/// The items after the deletion tier.
pub open spec fn remove_low_importance(
    items: Seq<ItemView>,
    min_messages: nat,
    max_tokens: nat,
) -> Seq<ItemView> {
    drop_disposable(
        items,
        candidates(items.len(), min_messages),
        total_tokens(items) - max_tokens,
    )
}

/// The essential items of a sequence, in order.
pub open spec fn essential_items(items: Seq<ItemView>) -> Seq<ItemView>
    decreases items.len(),
{
    if items.len() == 0 {
        Seq::empty()
    } else if is_essential(items[0]) {
        seq![items[0]] + essential_items(items.drop_first())
    } else {
        essential_items(items.drop_first())
    }
}

/// The deletion pass removes no essential item, whatever its importance: the
/// essential items before and after are the same, in the same order.
pub proof fn lemma_drop_keeps_essential(items: Seq<ItemView>, candidates: nat, excess: int)
    ensures
        essential_items(drop_disposable(items, candidates, excess)) == essential_items(items),
    decreases candidates,
{
    if candidates == 0 || excess <= 0 || items.len() == 0 {
    } else if is_disposable(items[0]) {
        lemma_drop_keeps_essential(
            items.drop_first(),
            (candidates - 1) as nat,
            excess - items[0].token_count,
        );
    } else {
        let rest = drop_disposable(items.drop_first(), (candidates - 1) as nat, excess);
        lemma_drop_keeps_essential(items.drop_first(), (candidates - 1) as nat, excess);
        let out = seq![items[0]] + rest;
        assert(out[0] == items[0]);
        assert(out.drop_first() =~= rest);
    }
}

/// The deletion tier removes no essential item.
pub proof fn lemma_essential_protected(items: Seq<ItemView>, min_messages: nat, max_tokens: nat)
    ensures
        essential_items(remove_low_importance(items, min_messages, max_tokens))
            == essential_items(items),
{
    lemma_drop_keeps_essential(
        items,
        candidates(items.len(), min_messages),
        total_tokens(items) - max_tokens,
    );
}

/// The deletion pass takes away at most as many items as it may look at.
pub proof fn lemma_drop_length(items: Seq<ItemView>, candidates: nat, excess: int)
    ensures
        drop_disposable(items, candidates, excess).len() <= items.len(),
        drop_disposable(items, candidates, excess).len() + candidates >= items.len(),
    decreases candidates,
{
    if candidates == 0 || excess <= 0 || items.len() == 0 {
    } else if is_disposable(items[0]) {
        lemma_drop_length(
            items.drop_first(),
            (candidates - 1) as nat,
            excess - items[0].token_count,
        );
    } else {
        lemma_drop_length(items.drop_first(), (candidates - 1) as nat, excess);
    }
}

/// The deletion pass never raises the peak of the items.
pub proof fn lemma_drop_peak(items: Seq<ItemView>, candidates: nat, excess: int)
    ensures
        peak_tokens(drop_disposable(items, candidates, excess)) <= peak_tokens(items),
    decreases candidates,
{
    if candidates == 0 || excess <= 0 || items.len() == 0 {
    } else {
        let rest = items.drop_first();
        assert(items =~= seq![items[0]] + rest);
        lemma_totals_concat(seq![items[0]], rest);
        if is_disposable(items[0]) {
            lemma_drop_peak(rest, (candidates - 1) as nat, excess - items[0].token_count);
        } else {
            lemma_drop_peak(rest, (candidates - 1) as nat, excess);
            lemma_totals_concat(
                seq![items[0]],
                drop_disposable(rest, (candidates - 1) as nat, excess),
            );
        }
    }
}

// ---------------------------------------------------------------------------
// Ranking
// ---------------------------------------------------------------------------

/// How many items the ranking keeps: one for every thousand tokens of the
/// ceiling, at most fifty, and never fewer than `min_messages`.
pub open spec fn target_count(min_messages: nat, max_tokens: nat) -> nat {
    let by_budget = if max_tokens / (TOKENS_PER_MESSAGE as nat) < TARGET_CAP {
        max_tokens / (TOKENS_PER_MESSAGE as nat)
    } else {
        TARGET_CAP as nat
    };
    if min_messages >= by_budget {
        min_messages
    } else {
        by_budget
    }
}

/// The score by which the item at `i` is ranked: its importance, and the
/// boost if it is among the newest `min_messages`.
pub open spec fn rank_score(items: Seq<ItemView>, min_messages: nat, i: int) -> nat {
    if i >= items.len() - min_messages {
        items[i].importance + RECENCY_BOOST as nat
    } else {
        items[i].importance
    }
}

/// The scores of all items, in order.
pub open spec fn rank_scores(items: Seq<ItemView>, min_messages: nat) -> Seq<nat> {
    Seq::new(items.len(), |i: int| rank_score(items, min_messages, i))
}

/// Those of the first `n` items whose rank is below `target`, in order.
pub open spec fn keep_ranked(items: Seq<ItemView>, scores: Seq<nat>, target: nat, n: int) -> Seq<
    ItemView,
>
    decreases n,
{
    if n <= 0 {
        Seq::empty()
    } else if rank(scores, n - 1) < target {
        keep_ranked(items, scores, target, n - 1).push(items[n - 1])
    } else {
        keep_ranked(items, scores, target, n - 1)
    }
}

/// The items after the ranking tier: where there are more than the target
/// count, the items that fewer than that many others outrank.
pub open spec fn aggressive_prune(items: Seq<ItemView>, min_messages: nat, max_tokens: nat) -> Seq<
    ItemView,
> {
    let target = target_count(min_messages, max_tokens);
    if items.len() <= target {
        items
    } else {
        keep_ranked(items, rank_scores(items, min_messages), target, items.len() as int)
    }
}

/// As many items are kept as there are leaders.
pub proof fn lemma_keep_ranked_len(items: Seq<ItemView>, scores: Seq<nat>, target: nat, n: int)
    requires
        0 <= n,
    ensures
        leaders(scores, target, n).finite(),
        keep_ranked(items, scores, target, n).len() == leaders(scores, target, n).len(),
    decreases n,
{
    if n <= 0 {
        assert(leaders(scores, target, n) =~= Set::empty());
    } else {
        lemma_keep_ranked_len(items, scores, target, n - 1);
        if rank(scores, n - 1) < target {
            assert(leaders(scores, target, n) =~= leaders(scores, target, n - 1).insert(n - 1));
        } else {
            assert(leaders(scores, target, n) =~= leaders(scores, target, n - 1));
        }
    }
}

/// The ranking tier leaves exactly the target count of items, or all of them
/// where there are no more than that.
pub proof fn lemma_aggressive_len(items: Seq<ItemView>, min_messages: nat, max_tokens: nat)
    ensures
        aggressive_prune(items, min_messages, max_tokens).len() == if items.len() <= target_count(
            min_messages,
            max_tokens,
        ) {
            items.len()
        } else {
            target_count(min_messages, max_tokens)
        },
{
    let target = target_count(min_messages, max_tokens);
    if items.len() > target {
        let scores = rank_scores(items, min_messages);
        lemma_keep_ranked_len(items, scores, target, items.len() as int);
        lemma_leaders_count(scores, target);
    }
}

/// The tokens of what the ranking keeps are no more than the tokens it
/// started from.
pub proof fn lemma_keep_total(items: Seq<ItemView>, scores: Seq<nat>, target: nat, n: int)
    requires
        0 <= n <= items.len(),
    ensures
        total_tokens(keep_ranked(items, scores, target, n)) <= total_tokens(
            items.subrange(0, n),
        ),
        peak_tokens(keep_ranked(items, scores, target, n))
            <= peak_tokens(items.subrange(0, n)),
    decreases n,
{
    if n > 0 {
        lemma_keep_total(items, scores, target, n - 1);
        assert(items.subrange(0, n) =~= items.subrange(0, n - 1).push(items[n - 1]));
        lemma_totals_push(items.subrange(0, n - 1), items[n - 1]);
        lemma_totals_push(
            keep_ranked(items, scores, target, n - 1),
            items[n - 1],
        );
    } else {
        assert(items.subrange(0, n) =~= Seq::<ItemView>::empty());
    }
}

// ---------------------------------------------------------------------------
// The pipeline
// ---------------------------------------------------------------------------

/// The items after the whole pipeline: nothing happens under the ceiling;
/// above it the tiers run in turn, and the first one that brings the total
/// under the ceiling is the last to run.
pub open spec fn pruned(
    items: Seq<ItemView>,
    max_tokens: nat,
    min_messages: nat,
    full_retention_count: nat,
) -> Seq<ItemView> {
    if total_tokens(items) <= max_tokens {
        items
    } else {
        let squeezed = compress_old(items, full_retention_count);
        if total_tokens(squeezed) <= max_tokens {
            squeezed
        } else {
            let thinned = remove_low_importance(squeezed, min_messages, max_tokens);
            if total_tokens(thinned) <= max_tokens {
                thinned
            } else {
                aggressive_prune(thinned, min_messages, max_tokens)
            }
        }
    }
}

/// The pipeline never raises the peak of the items.
pub proof fn lemma_pruned_peak(
    items: Seq<ItemView>,
    max_tokens: nat,
    min_messages: nat,
    full_retention_count: nat,
)
    ensures
        peak_tokens(pruned(items, max_tokens, min_messages, full_retention_count)) <= peak_tokens(
            items,
        ),
{
    let squeezed = compress_old(items, full_retention_count);
    let thinned = remove_low_importance(squeezed, min_messages, max_tokens);
    assert forall|i: int| 0 <= i < items.len() implies peaks(squeezed)[i] <= peaks(items)[i] by {
        lemma_compressed_peak(items[i]);
    }
    lemma_sum_pointwise(peaks(squeezed), peaks(items));
    lemma_drop_peak(
        squeezed,
        candidates(squeezed.len(), min_messages),
        total_tokens(squeezed) - max_tokens,
    );
    lemma_keep_total(
        thinned,
        rank_scores(thinned, min_messages),
        target_count(min_messages, max_tokens),
        thinned.len() as int,
    );
    assert(thinned.subrange(0, thinned.len() as int) =~= thinned);
}

/// After the pipeline the total is under the ceiling, or no more items are
/// left than the target count of the ranking.
pub proof fn lemma_pruned_budget(
    items: Seq<ItemView>,
    max_tokens: nat,
    min_messages: nat,
    full_retention_count: nat,
)
    ensures
        total_tokens(pruned(items, max_tokens, min_messages, full_retention_count)) <= max_tokens
            || pruned(items, max_tokens, min_messages, full_retention_count).len() <= target_count(
            min_messages,
            max_tokens,
        ),
{
    let squeezed = compress_old(items, full_retention_count);
    let thinned = remove_low_importance(squeezed, min_messages, max_tokens);
    lemma_aggressive_len(thinned, min_messages, max_tokens);
}

/// The floor: the pipeline never leaves fewer than `min_messages` items where
/// there were that many, and removes nothing where there were fewer.
pub proof fn lemma_pruned_floor(
    items: Seq<ItemView>,
    max_tokens: nat,
    min_messages: nat,
    full_retention_count: nat,
)
    ensures
        pruned(items, max_tokens, min_messages, full_retention_count).len() <= items.len(),
        items.len() >= min_messages ==> pruned(
            items,
            max_tokens,
            min_messages,
            full_retention_count,
        ).len() >= min_messages,
        items.len() <= min_messages ==> pruned(
            items,
            max_tokens,
            min_messages,
            full_retention_count,
        ).len() == items.len(),
{
    let squeezed = compress_old(items, full_retention_count);
    let thinned = remove_low_importance(squeezed, min_messages, max_tokens);
    lemma_drop_length(
        squeezed,
        candidates(squeezed.len(), min_messages),
        total_tokens(squeezed) - max_tokens,
    );
    lemma_aggressive_len(thinned, min_messages, max_tokens);
}

/// Where the ranking's target count is the floor itself and at least that
/// many items came in, the pipeline ends under the ceiling or with exactly
/// `min_messages` items.
pub proof fn lemma_pruned_budget_or_floor(
    items: Seq<ItemView>,
    max_tokens: nat,
    min_messages: nat,
    full_retention_count: nat,
)
    requires
        target_count(min_messages, max_tokens) == min_messages,
        items.len() >= min_messages,
    ensures
        total_tokens(pruned(items, max_tokens, min_messages, full_retention_count)) <= max_tokens
            || pruned(items, max_tokens, min_messages, full_retention_count).len() == min_messages,
{
    lemma_pruned_budget(items, max_tokens, min_messages, full_retention_count);
    lemma_pruned_floor(items, max_tokens, min_messages, full_retention_count);
}

/// Strictly increasing positions in a sequence of `len` entries.
pub open spec fn picks_from(picks: Seq<int>, len: nat) -> bool {
    &&& forall|k: int| 0 <= k < picks.len() ==> 0 <= #[trigger] picks[k] < len
    &&& forall|j: int, k: int| 0 <= j < k < picks.len() ==> picks[j] < picks[k]
}

/// The items of `src` at the positions `picks`, in that order.
pub open spec fn selected(src: Seq<ItemView>, picks: Seq<int>) -> Seq<ItemView> {
    Seq::new(picks.len(), |k: int| src[picks[k]])
}

/// `out` is what is left of `src` when items are only ever removed or
/// compressed: every item of `out` is an item of `src`, as it was or
/// compressed, and the items of `out` stand in the order in which they stood
/// in `src`.
#[verifier::opaque]
pub open spec fn is_remnant(out: Seq<ItemView>, src: Seq<ItemView>) -> bool {
    exists|picks: Seq<int>| remnant_by(out, src, picks)
}

/// `out` is what is left of `src`, with `picks` as the positions that its
/// items had in `src`.
pub open spec fn remnant_by(out: Seq<ItemView>, src: Seq<ItemView>, picks: Seq<int>) -> bool {
    &&& picks_from(picks, src.len())
    &&& picks.len() == out.len()
    &&& forall|k: int|
        0 <= k < out.len() ==> (#[trigger] out[k] == src[picks[k]] || out[k] == compressed(
            src[picks[k]],
        ))
}

/// Every sequence is a remnant of itself.
pub proof fn lemma_no_change_is_remnant(items: Seq<ItemView>)
    ensures
        is_remnant(items, items),
{
    reveal(is_remnant);
    assert(remnant_by(items, items, Seq::new(items.len(), |k: int| k)));
}

/// The positions that the items left by the deletion pass had before it.
proof fn lemma_drop_picks(items: Seq<ItemView>, candidates: nat, excess: int) -> (picks: Seq<int>)
    ensures
        picks_from(picks, items.len()),
        drop_disposable(items, candidates, excess) == selected(items, picks),
    decreases candidates,
{
    if candidates == 0 || excess <= 0 || items.len() == 0 {
        let picks = Seq::new(items.len(), |k: int| k);
        assert(selected(items, picks) =~= items);
        picks
    } else {
        let rest = items.drop_first();
        if is_disposable(items[0]) {
            let inner = lemma_drop_picks(
                rest,
                (candidates - 1) as nat,
                excess - items[0].token_count,
            );
            let picks = Seq::new(inner.len(), |k: int| inner[k] + 1);
            assert(selected(items, picks) =~= selected(rest, inner));
            picks
        } else {
            let inner = lemma_drop_picks(rest, (candidates - 1) as nat, excess);
            let picks = Seq::new(inner.len() + 1, |k: int| if k == 0 { 0 } else { inner[k - 1] + 1 });
            assert(selected(items, picks) =~= seq![items[0]] + selected(rest, inner));
            picks
        }
    }
}

/// The positions that the items left by the ranking had before it.
proof fn lemma_keep_picks(items: Seq<ItemView>, scores: Seq<nat>, target: nat, n: int) -> (picks:
    Seq<int>)
    requires
        0 <= n <= items.len(),
    ensures
        picks_from(picks, n as nat),
        keep_ranked(items, scores, target, n) == selected(items, picks),
    decreases n,
{
    if n <= 0 {
        let picks = Seq::<int>::empty();
        assert(selected(items, picks) =~= Seq::<ItemView>::empty());
        picks
    } else {
        let inner = lemma_keep_picks(items, scores, target, n - 1);
        if rank(scores, n - 1) < target {
            let picks = inner.push(n - 1);
            assert(selected(items, picks) =~= selected(items, inner).push(items[n - 1]));
            picks
        } else {
            inner
        }
    }
}

/// The pipeline only removes and compresses: what it leaves is a remnant of
/// what it was given. No item is moved, and none is changed but by
/// compression.
pub proof fn lemma_pruned_is_remnant(
    items: Seq<ItemView>,
    max_tokens: nat,
    min_messages: nat,
    full_retention_count: nat,
)
    ensures
        is_remnant(pruned(items, max_tokens, min_messages, full_retention_count), items),
{
    reveal(is_remnant);
    let out = pruned(items, max_tokens, min_messages, full_retention_count);
    let squeezed = compress_old(items, full_retention_count);
    let thinned = remove_low_importance(squeezed, min_messages, max_tokens);
    let target = target_count(min_messages, max_tokens);
    let same = Seq::new(items.len(), |k: int| k);
    if total_tokens(items) <= max_tokens || total_tokens(squeezed) <= max_tokens {
        assert(remnant_by(out, items, same));
    } else {
        let dropped = lemma_drop_picks(
            squeezed,
            candidates(squeezed.len(), min_messages),
            total_tokens(squeezed) - max_tokens,
        );
        if total_tokens(thinned) <= max_tokens || thinned.len() <= target {
            assert(remnant_by(out, items, dropped));
        } else {
            let ranked = lemma_keep_picks(
                thinned,
                rank_scores(thinned, min_messages),
                target,
                thinned.len() as int,
            );
            let picks = Seq::new(ranked.len(), |k: int| dropped[ranked[k]]);
            assert forall|k: int| 0 <= k < out.len() implies (#[trigger] out[k]
                == items[picks[k]] || out[k] == compressed(items[picks[k]])) by {
                assert(out[k] == thinned[ranked[k]]);
                assert(thinned[ranked[k]] == squeezed[dropped[ranked[k]]]);
            }
            assert(remnant_by(out, items, picks));
        }
    }
}

/// A remnant of items in order of creation is in order of creation.
pub proof fn lemma_remnant_chronological(out: Seq<ItemView>, src: Seq<ItemView>)
    requires
        is_remnant(out, src),
        chronological(src),
    ensures
        chronological(out),
{
    reveal(is_remnant);
    let picks = choose|picks: Seq<int>| remnant_by(out, src, picks);
    assert forall|i: int, j: int| 0 <= i <= j < out.len() implies out[i].timestamp
        <= out[j].timestamp by {
        assert(out[i].timestamp == src[picks[i]].timestamp);
        assert(out[j].timestamp == src[picks[j]].timestamp);
        assert(picks[i] <= picks[j]);
    }
}

/// A remnant holds no item created after `latest` where what it is a remnant
/// of holds none.
pub proof fn lemma_remnant_not_after(out: Seq<ItemView>, src: Seq<ItemView>, latest: int)
    requires
        is_remnant(out, src),
        forall|i: int| 0 <= i < src.len() ==> (#[trigger] src[i]).timestamp <= latest,
    ensures
        forall|i: int| 0 <= i < out.len() ==> (#[trigger] out[i]).timestamp <= latest,
{
    reveal(is_remnant);
    let picks = choose|picks: Seq<int>| remnant_by(out, src, picks);
    assert forall|i: int| 0 <= i < out.len() implies (#[trigger] out[i]).timestamp <= latest by {
        assert(out[i].timestamp == src[picks[i]].timestamp);
    }
}

/// The pipeline keeps the order of creation.
pub proof fn lemma_pruned_chronological(
    items: Seq<ItemView>,
    max_tokens: nat,
    min_messages: nat,
    full_retention_count: nat,
)
    requires
        chronological(items),
    ensures
        chronological(pruned(items, max_tokens, min_messages, full_retention_count)),
{
    lemma_pruned_is_remnant(items, max_tokens, min_messages, full_retention_count);
    lemma_remnant_chronological(
        pruned(items, max_tokens, min_messages, full_retention_count),
        items,
    );
}

/// An item appended to a chronological sequence keeps it chronological when
/// it is no older than the last.
pub proof fn lemma_push_chronological(items: Seq<ItemView>, item: ItemView)
    requires
        chronological(items),
        items.len() > 0 ==> items[items.len() - 1].timestamp <= item.timestamp,
    ensures
        chronological(items.push(item)),
{
    let out = items.push(item);
    assert forall|i: int, j: int| 0 <= i <= j < out.len() implies out[i].timestamp
        <= out[j].timestamp by {
        if j == items.len() && i < items.len() {
            assert(items[i].timestamp <= items[items.len() - 1].timestamp);
        }
    }
}

} // verus!
