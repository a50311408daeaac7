//! The history itself: the items in arrival order, their running token total
//! and the three limits, with the pipeline that holds the total under the
//! ceiling.

use crate::budget::{
    digest_estimate, item_peak, lemma_total_within_peak, lemma_totals_concat,
    lemma_totals_empty, lemma_totals_push, lemma_totals_remove, lemma_totals_update, peak_of,
    peak_tokens, total_tokens,
};
use crate::compressor::{create_summary, summary_of, COMPRESS_ABOVE};
use crate::estimator::{estimate_chars, estimate_tokens, token_estimate};
use crate::item::{ItemView, ResponseItem};
use crate::pruning::{
    admitted, admitted_peak, aggressive_prune, chronological, compress_old, compressed,
    drop_disposable, essential_items, is_remnant, keep_ranked, lemma_aggressive_len,
    lemma_compressed_peak, lemma_essential_protected, lemma_keep_total,
    lemma_no_change_is_remnant, lemma_pruned_budget, lemma_pruned_budget_or_floor,
    lemma_pruned_chronological, lemma_pruned_floor, lemma_pruned_is_remnant, lemma_pruned_peak,
    lemma_push_chronological, old_prefix, pruned, rank_score, rank_scores,
    remove_low_importance, should_compress, target_count, COMPRESS_BELOW, DISPOSABLE_BELOW,
    RECENCY_BOOST, TARGET_CAP, TOKENS_PER_MESSAGE,
};
use crate::ranking::{as_nats, rank, ranks_below, SCORE_CEILING};
use crate::scorer::{calculate_importance, is_essential_message};
use crate::stats::{
    compressed_count, high_importance_count, lemma_counts_bounded, utilization, utilization_of,
    ConversationStats, HIGH_IMPORTANCE_ABOVE,
};
use crate::text::text_contains;
use std::collections::VecDeque;
use vstd::prelude::*;
use vstd::string::StrSliceExecFns;

verus! {

/// A history as a mathematical value.
pub struct HistoryView {
    /// The items, oldest first.
    pub items: Seq<ItemView>,
    /// The running token total.
    pub total_tokens: nat,
    /// The running total of the items' peaks.
    pub peak_tokens: nat,
    /// The ceiling for the token total.
    pub max_tokens: nat,
    /// The floor: so many of the newest items are safe from deletion.
    pub min_messages: nat,
    /// So many of the newest items are safe from compression.
    pub full_retention_count: nat,
}

/// What holds of every history: the ceiling and the floor are positive, the
/// running total is the sum of the items' token counts, the running peak is
/// the sum of their peaks, and every importance lies in `0..=100`.
pub open spec fn well_formed(history: HistoryView) -> bool {
    &&& history.max_tokens > 0
    &&& history.min_messages > 0
    &&& history.total_tokens == total_tokens(history.items)
    &&& history.peak_tokens == peak_tokens(history.items)
    &&& history.peak_tokens <= usize::MAX
    &&& forall|i: int| 0 <= i < history.items.len() ==> history.items[i].importance <= 100
}

/// Items and limits that a history can hold as they are.
pub open spec fn restorable(items: Seq<ItemView>, max_tokens: usize, min_messages: usize) -> bool {
    &&& max_tokens > 0
    &&& min_messages > 0
    &&& peak_tokens(items) <= usize::MAX
    &&& forall|i: int| 0 <= i < items.len() ==> items[i].importance <= 100
}

/// Two histories have the same three limits.
pub open spec fn same_limits(before: HistoryView, after: HistoryView) -> bool {
    &&& after.max_tokens == before.max_tokens
    &&& after.min_messages == before.min_messages
    &&& after.full_retention_count == before.full_retention_count
}

/// The views of the items of a sequence, in order.
pub open spec fn views_of(items: Seq<ResponseItem>) -> Seq<ItemView> {
    Seq::new(items.len(), |i: int| items[i]@)
}

/// Taking an item out of a sequence and putting another in its place
/// replaces its view.
proof fn lemma_views_replace(queue: Seq<ResponseItem>, at: int, item: ResponseItem)
    requires
        0 <= at < queue.len(),
    ensures
        views_of(queue.remove(at).insert(at, item)) == views_of(queue).update(at, item@),
{
    assert(views_of(queue.remove(at).insert(at, item)) =~= views_of(queue).update(at, item@));
}

/// The totals of the items from `at` on, by the item at `at` and the items
/// behind it.
proof fn lemma_peel(items: Seq<ItemView>, at: int)
    requires
        0 <= at < items.len(),
    ensures
        total_tokens(items.subrange(at, items.len() as int)) == items[at].token_count
            + total_tokens(items.subrange(at + 1, items.len() as int)),
        peak_tokens(items.subrange(at, items.len() as int)) == item_peak(items[at]) + peak_tokens(
            items.subrange(at + 1, items.len() as int),
        ),
        peak_tokens(items.subrange(at, items.len() as int)) <= peak_tokens(items),
        total_tokens(items.subrange(at, items.len() as int)) <= peak_tokens(
            items.subrange(at, items.len() as int),
        ),
{
    let n = items.len() as int;
    let back = items.subrange(at + 1, n);
    assert(items =~= items.subrange(0, at) + items.subrange(at, n));
    assert(items.subrange(at, n) =~= seq![items[at]] + back);
    assert(Seq::<ItemView>::empty().push(items[at]) =~= seq![items[at]]);
    lemma_totals_empty();
    lemma_totals_push(Seq::<ItemView>::empty(), items[at]);
    lemma_totals_concat(seq![items[at]], back);
    lemma_totals_concat(items.subrange(0, at), items.subrange(at, n));
    lemma_total_within_peak(items.subrange(at, n));
}

/// An item put in front of those that hold the views from `at + 1` on makes
/// them hold the views from `at` on.
proof fn lemma_views_front(held: Seq<ResponseItem>, item: ResponseItem, orig: Seq<ItemView>, at: int)
    requires
        0 <= at < orig.len(),
        item@ == orig[at],
        views_of(held) == orig.subrange(at + 1, orig.len() as int),
    ensures
        views_of(seq![item] + held) == orig.subrange(at, orig.len() as int),
{
    let out = views_of(seq![item] + held);
    let want = orig.subrange(at, orig.len() as int);
    assert(views_of(held).len() == held.len());
    assert(out.len() == want.len());
    assert forall|j: int| 0 <= j < out.len() implies out[j] == want[j] by {
        if j > 0 {
            assert((seq![item] + held)[j] == held[j - 1]);
            assert(views_of(held)[j - 1] == held[j - 1]@);
            assert(orig.subrange(at + 1, orig.len() as int)[j - 1] == orig[at + j]);
        }
    }
    assert(out =~= want);
}

/// What the compression of the item at `at` does to the totals.
proof fn lemma_compress_step(items: Seq<ItemView>, at: int)
    requires
        0 <= at < items.len(),
        should_compress(items[at]),
    ensures
        compressed(items[at]).content == summary_of(items[at].content),
        items[at].token_count <= total_tokens(items),
        item_peak(items[at]) <= peak_tokens(items),
        total_tokens(items.update(at, compressed(items[at]))) == total_tokens(items)
            - items[at].token_count + compressed(items[at]).token_count,
        peak_tokens(items.update(at, compressed(items[at]))) == peak_tokens(items) - item_peak(
            items[at],
        ) + compressed(items[at]).token_count,
        peak_tokens(items.update(at, compressed(items[at]))) <= peak_tokens(items),
        total_tokens(items.update(at, compressed(items[at]))) <= peak_tokens(
            items.update(at, compressed(items[at])),
        ),
{
    lemma_totals_update(items, at, compressed(items[at]));
    lemma_totals_remove(items, at);
    lemma_compressed_peak(items[at]);
    lemma_total_within_peak(items.update(at, compressed(items[at])));
}

/// A conversation history under a token ceiling.
#[derive(Debug, Clone)]
pub struct OptimizedConversationHistory {
    items: VecDeque<ResponseItem>,
    max_tokens: usize,
    current_tokens: usize,
    peak_tokens: usize,
    min_messages: usize,
    full_retention_count: usize,
}

impl View for OptimizedConversationHistory {
    type V = HistoryView;

    closed spec fn view(&self) -> HistoryView {
        HistoryView {
            items: views_of(self.items@),
            total_tokens: self.current_tokens as nat,
            peak_tokens: self.peak_tokens as nat,
            max_tokens: self.max_tokens as nat,
            min_messages: self.min_messages as nat,
            full_retention_count: self.full_retention_count as nat,
        }
    }
}

impl OptimizedConversationHistory {
    /// The history is well formed.
    pub open spec fn wf(&self) -> bool {
        well_formed(self@)
    }

    /// An empty history with the ceiling `max_tokens`, a floor of ten items
    /// and twenty items safe from compression.
    pub fn new(max_tokens: usize) -> (history: Self)
        requires
            max_tokens > 0,
        ensures
            history.wf(),
            history@ == (HistoryView {
                items: Seq::empty(),
                total_tokens: 0,
                peak_tokens: 0,
                max_tokens: max_tokens as nat,
                min_messages: 10,
                full_retention_count: 20,
            }),
    {
        Self::with_limits(max_tokens, 10, 20)
    }

    /// An empty history with the three limits as given.
    pub fn with_limits(max_tokens: usize, min_messages: usize, full_retention_count: usize) -> (history:
        Self)
        requires
            max_tokens > 0,
            min_messages > 0,
        ensures
            history.wf(),
            history@ == (HistoryView {
                items: Seq::empty(),
                total_tokens: 0,
                peak_tokens: 0,
                max_tokens: max_tokens as nat,
                min_messages: min_messages as nat,
                full_retention_count: full_retention_count as nat,
            }),
    {
        let history = OptimizedConversationHistory {
            items: VecDeque::new(),
            max_tokens,
            current_tokens: 0,
            peak_tokens: 0,
            min_messages,
            full_retention_count,
        };
        proof {
            lemma_totals_empty();
            assert(history@.items =~= Seq::<ItemView>::empty());
        }
        history
    }

    /// A history that holds `items` as they are, oldest first, under the
    /// three limits as given; nothing is scored anew and nothing is pruned.
    ///
    /// There is such a history exactly when the ceiling and the floor are
    /// positive, every importance lies in `0..=100`, and the peak of the
    /// items fits `usize`.
    pub fn restore(
        items: Vec<ResponseItem>,
        max_tokens: usize,
        min_messages: usize,
        full_retention_count: usize,
    ) -> (restored: Option<Self>)
        ensures
            restored is Some <==> restorable(views_of(items@), max_tokens, min_messages),
            restored matches Some(history) ==> {
                &&& history.wf()
                &&& history@.items == views_of(items@)
                &&& history@.max_tokens == max_tokens
                &&& history@.min_messages == min_messages
                &&& history@.full_retention_count == full_retention_count
            },
    {
        if max_tokens == 0 || min_messages == 0 {
            return None;
        }
        let ghost orig = views_of(items@);
        let mut stack = items;
        let mut queue: VecDeque<ResponseItem> = VecDeque::new();
        let mut total: usize = 0;
        let mut peak: usize = 0;
        let n: usize = stack.len();
        proof {
            lemma_totals_empty();
            assert(orig.subrange(0, n as int) =~= orig);
            assert(orig.subrange(n as int, n as int) =~= Seq::<ItemView>::empty());
            assert(views_of(queue@) =~= Seq::<ItemView>::empty());
        }
        while stack.len() > 0
            invariant
                orig == views_of(items@),
                max_tokens > 0,
                min_messages > 0,
                n == orig.len(),
                stack@.len() <= n,
                views_of(stack@) == orig.subrange(0, stack@.len() as int),
                views_of(queue@) == orig.subrange(stack@.len() as int, n as int),
                total == total_tokens(views_of(queue@)),
                peak == peak_tokens(views_of(queue@)),
                forall|j: int| stack@.len() <= j < n ==> orig[j].importance <= 100,
            decreases stack@.len(),
        {
            let ghost left = stack@;
            let ghost k = stack@.len() - 1;
            let last = stack.pop();
            match last {
                Some(item) => {
                    proof {
                        assert(views_of(left)[k] == left[k]@);
                        assert(orig.subrange(0, k + 1)[k] == orig[k]);
                        lemma_peel(orig, k);
                    }
                    if item.importance_score > 100 {
                        return None;
                    }
                    let grown: u128 = peak as u128 + peak_of(&item);
                    if grown > usize::MAX as u128 {
                        return None;
                    }
                    peak = grown as usize;
                    total = total + item.token_count;
                    let ghost held = queue@;
                    queue.push_front(item);
                    proof {
                        lemma_views_front(held, item, orig, k);
                        assert(views_of(stack@) =~= orig.subrange(0, k));
                    }
                },
                None => {},
            }
        }
        Some(
            OptimizedConversationHistory {
                items: queue,
                max_tokens,
                current_tokens: total,
                peak_tokens: peak,
                min_messages,
                full_retention_count,
            },
        )
    }

    /// The ceiling for the token total.
    pub fn max_tokens(&self) -> (limit: usize)
        ensures
            limit == self@.max_tokens,
    {
        self.max_tokens
    }

    /// The floor: so many of the newest items are safe from deletion.
    pub fn min_messages(&self) -> (floor: usize)
        ensures
            floor == self@.min_messages,
    {
        self.min_messages
    }

    /// So many of the newest items are safe from compression.
    pub fn full_retention_count(&self) -> (count: usize)
        ensures
            count == self@.full_retention_count,
    {
        self.full_retention_count
    }

    /// Whether the history can take `item` in: whether the running peak with
    /// the item's own stays within `usize`.
    pub fn can_take(&self, item: &ResponseItem) -> (fits: bool)
        requires
            self.wf(),
        ensures
            fits == (self@.peak_tokens + admitted_peak(item@) <= usize::MAX),
    {
        let content = item.content.as_str();
        let chars: usize = content.unicode_len();
        let tokens: usize = if item.token_count == 0 {
            estimate_chars(chars)
        } else {
            item.token_count
        };
        let peak: u128 = if text_contains(content, "[Compressed]") {
            tokens as u128
        } else {
            let digest: u128 = digest_estimate(chars);
            if tokens as u128 >= digest {
                tokens as u128
            } else {
                digest
            }
        };
        self.peak_tokens as u128 + peak <= usize::MAX as u128
    }

    /// Takes `item` in at the time `now` and then holds the total under the
    /// ceiling.
    ///
    /// A token count of zero is replaced by the estimate for the text, and
    /// the importance is computed afresh. The item goes to the end of the
    /// sequence; if the total is then above the ceiling, the pipeline runs.
    /// Afterwards the total is under the ceiling or no more items are left
    /// than the ranking's target count; where that count is the floor itself
    /// and the floor was reached, exactly `min_messages` items are left then.
    /// A history in order of creation stays so when the item is no older
    /// than the last one.
    pub fn add_message(&mut self, item: ResponseItem, now: i64)
        requires
            old(self).wf(),
            old(self)@.peak_tokens + admitted_peak(item@) <= usize::MAX,
        ensures
            final(self).wf(),
            same_limits(old(self)@, final(self)@),
            final(self)@.items == pruned(
                old(self)@.items.push(admitted(item@, now as int)),
                old(self)@.max_tokens,
                old(self)@.min_messages,
                old(self)@.full_retention_count,
            ),
            is_remnant(final(self)@.items, old(self)@.items.push(admitted(item@, now as int))),
            final(self)@.total_tokens <= final(self)@.max_tokens || final(self)@.items.len()
                <= target_count(final(self)@.min_messages, final(self)@.max_tokens),
            ({
                let floor = old(self)@.min_messages;
                target_count(floor, old(self)@.max_tokens) == floor && old(self)@.items.len() + 1
                    >= floor ==> final(self)@.total_tokens <= final(self)@.max_tokens || final(
                    self
                )@.items.len() == floor
            }),
            final(self)@.items.len() <= old(self)@.items.len() + 1,
            final(self)@.peak_tokens <= old(self)@.peak_tokens + admitted_peak(item@),
            old(self)@.items.len() + 1 >= old(self)@.min_messages ==> final(self)@.items.len()
                >= old(self)@.min_messages,
            old(self)@.items.len() + 1 <= old(self)@.min_messages ==> final(self)@.items.len()
                == old(self)@.items.len() + 1,
            chronological(old(self)@.items) && (old(self)@.items.len() > 0 ==> old(
                self,
            )@.items.last().timestamp <= item.timestamp) ==> chronological(final(self)@.items),
    {
        let mut item = item;
        let ghost given = item@;
        if item.token_count == 0 {
            item.token_count = estimate_tokens(item.content.as_str());
        }
        let score: u8 = calculate_importance(&item, now);
        item.importance_score = score;
        let ghost taken = item@;
        let ghost before = self@.items;
        proof {
            assert(taken == admitted(given, now as int));
            lemma_totals_push(before, taken);
            lemma_total_within_peak(before.push(taken));
            lemma_pruned_budget(
                before.push(taken),
                self@.max_tokens,
                self@.min_messages,
                self@.full_retention_count,
            );
            lemma_pruned_floor(
                before.push(taken),
                self@.max_tokens,
                self@.min_messages,
                self@.full_retention_count,
            );
            lemma_pruned_peak(
                before.push(taken),
                self@.max_tokens,
                self@.min_messages,
                self@.full_retention_count,
            );
            if target_count(self@.min_messages, self@.max_tokens) == self@.min_messages
                && before.len() + 1 >= self@.min_messages {
                lemma_pruned_budget_or_floor(
                    before.push(taken),
                    self@.max_tokens,
                    self@.min_messages,
                    self@.full_retention_count,
                );
            }
            lemma_pruned_is_remnant(
                before.push(taken),
                self@.max_tokens,
                self@.min_messages,
                self@.full_retention_count,
            );
            if chronological(before) && (before.len() > 0 ==> before.last().timestamp
                <= taken.timestamp) {
                lemma_push_chronological(before, taken);
                lemma_pruned_chronological(
                    before.push(taken),
                    self@.max_tokens,
                    self@.min_messages,
                    self@.full_retention_count,
                );
            }
        }
        let peak: u128 = peak_of(&item);
        assert(peak == admitted_peak(given));
        self.current_tokens = self.current_tokens + item.token_count;
        self.peak_tokens = (self.peak_tokens as u128 + peak) as usize;
        self.items.push_back(item);
        assert(self@.items =~= before.push(taken));
        self.intelligent_prune();
    }

    /// Takes `item` in as `add_message` does, if the history can take it;
    /// otherwise the history stays as it is. Tells which of the two happened.
    pub fn try_add_message(&mut self, item: ResponseItem, now: i64) -> (taken: bool)
        requires
            old(self).wf(),
        ensures
            final(self).wf(),
            taken == (old(self)@.peak_tokens + admitted_peak(item@) <= usize::MAX),
            !taken ==> final(self)@ == old(self)@,
            taken ==> {
                &&& same_limits(old(self)@, final(self)@)
                &&& final(self)@.items == pruned(
                    old(self)@.items.push(admitted(item@, now as int)),
                    old(self)@.max_tokens,
                    old(self)@.min_messages,
                    old(self)@.full_retention_count,
                )
            },
    {
        if self.can_take(&item) {
            self.add_message(item, now);
            true
        } else {
            false
        }
    }

    /// Sets the floor to `count` and runs the pipeline at once. A floor of
    /// zero is not taken: the history stays as it is.
    pub fn set_min_messages(&mut self, count: usize)
        requires
            old(self).wf(),
        ensures
            final(self).wf(),
            count == 0 ==> final(self)@ == old(self)@,
            count > 0 ==> {
                &&& final(self)@.min_messages == count
                &&& final(self)@.max_tokens == old(self)@.max_tokens
                &&& final(self)@.full_retention_count == old(self)@.full_retention_count
                &&& final(self)@.items == pruned(
                    old(self)@.items,
                    old(self)@.max_tokens,
                    count as nat,
                    old(self)@.full_retention_count,
                )
            },
            old(self)@.items.len() <= count ==> final(self)@.items.len() == old(
                self,
            )@.items.len(),
            is_remnant(final(self)@.items, old(self)@.items),
            chronological(old(self)@.items) ==> chronological(final(self)@.items),
    {
        if count > 0 {
            proof {
                lemma_pruned_floor(
                    self@.items,
                    self@.max_tokens,
                    count as nat,
                    self@.full_retention_count,
                );
            }
            self.min_messages = count;
            self.intelligent_prune();
        } else {
            proof {
                lemma_no_change_is_remnant(self@.items);
            }
        }
    }

    /// Runs the pipeline: nothing under the ceiling; above it compression,
    /// then deletion, then ranking, each only while the total is still above
    /// the ceiling.
    pub fn intelligent_prune(&mut self)
        requires
            old(self).wf(),
        ensures
            final(self).wf(),
            final(self)@.peak_tokens <= old(self)@.peak_tokens,
            same_limits(old(self)@, final(self)@),
            final(self)@.items == pruned(
                old(self)@.items,
                old(self)@.max_tokens,
                old(self)@.min_messages,
                old(self)@.full_retention_count,
            ),
            is_remnant(final(self)@.items, old(self)@.items),
            chronological(old(self)@.items) ==> chronological(final(self)@.items),
    {
        proof {
            lemma_pruned_is_remnant(
                self@.items,
                self@.max_tokens,
                self@.min_messages,
                self@.full_retention_count,
            );
            if chronological(self@.items) {
                lemma_pruned_chronological(
                    self@.items,
                    self@.max_tokens,
                    self@.min_messages,
                    self@.full_retention_count,
                );
            }
        }
        if self.current_tokens <= self.max_tokens {
            return ;
        }
        self.compress_old_messages();
        if self.current_tokens > self.max_tokens {
            self.remove_low_importance_messages();
        }
        if self.current_tokens > self.max_tokens {
            self.aggressive_prune();
        }
    }

    /// The compression tier: every item but the newest
    /// `full_retention_count` that is long, not important and not yet
    /// compressed gets its digest for a text and the estimate for the digest
    /// as its token count.
    pub fn compress_old_messages(&mut self)
        requires
            old(self).wf(),
        ensures
            final(self).wf(),
            final(self)@.peak_tokens <= old(self)@.peak_tokens,
            same_limits(old(self)@, final(self)@),
            final(self)@.items == compress_old(
                old(self)@.items,
                old(self)@.full_retention_count,
            ),
    {
        let ghost orig = self@.items;
        let n: usize = self.items.len();
        let threshold: usize = if n >= self.full_retention_count {
            n - self.full_retention_count
        } else {
            0
        };
        let mut i: usize = 0;
        while i < threshold
            invariant
                i <= threshold <= n,
                n == orig.len(),
                threshold == old_prefix(orig.len(), old(self)@.full_retention_count),
                self.wf(),
                same_limits(old(self)@, self@),
                self@.peak_tokens <= old(self)@.peak_tokens,
                self@.items.len() == n,
                forall|j: int|
                    0 <= j < n ==> #[trigger] self@.items[j] == if j < i {
                        compressed(orig[j])
                    } else {
                        orig[j]
                    },
            decreases threshold - i,
        {
            let long: bool = self.items[i].content.as_str().unicode_len() > COMPRESS_ABOVE;
            let minor: bool = self.items[i].importance_score < COMPRESS_BELOW;
            let marked: bool = text_contains(self.items[i].content.as_str(), "[Compressed]");
            let ghost before = self@.items;
            let ghost queue = self.items@;
            assert(before[i as int] == orig[i as int]);
            if long && minor && !marked {
                let removed = self.items.remove(i);
                match removed {
                    Some(taken) => {
                        let old_tokens: usize = taken.token_count;
                        let old_peak: u128 = peak_of(&taken);
                        let squeezed = Self::squeeze(taken);
                        let new_tokens: usize = squeezed.token_count;
                        proof {
                            assert(taken@ == before[i as int]);
                            lemma_compress_step(before, i as int);
                        }
                        self.current_tokens = self.current_tokens - old_tokens + new_tokens;
                        self.peak_tokens = self.peak_tokens - (old_peak as usize) + new_tokens;
                        self.items.insert(i, squeezed);
                        proof {
                            lemma_views_replace(queue, i as int, squeezed);
                        }
                    },
                    None => {},
                }
            }
            i = i + 1;
        }
        assert(self@.items =~= compress_old(orig, old(self)@.full_retention_count));
    }

    /// Replaces the text of `item` by its digest and the token count by the
    /// estimate for the digest.
    fn squeeze(item: ResponseItem) -> (out: ResponseItem)
        ensures
            out@ == (ItemView {
                content: summary_of(item@.content),
                token_count: token_estimate(summary_of(item@.content).len()),
                ..item@
            }),
    {
        let mut item = item;
        let summary = create_summary(item.content.as_str());
        let new_tokens: usize = estimate_tokens(summary.as_str());
        item.content = summary;
        item.token_count = new_tokens;
        item
    }

    /// The deletion tier: one pass from the front over all but the newest
    /// `min_messages` items, which ends as soon as the total is under the
    /// ceiling, and deletes every item of low importance that is not
    /// essential.
    pub fn remove_low_importance_messages(&mut self)
        requires
            old(self).wf(),
        ensures
            final(self).wf(),
            final(self)@.peak_tokens <= old(self)@.peak_tokens,
            same_limits(old(self)@, final(self)@),
            final(self)@.items == remove_low_importance(
                old(self)@.items,
                old(self)@.min_messages,
                old(self)@.max_tokens,
            ),
            essential_items(final(self)@.items) == essential_items(old(self)@.items),
    {
        let ghost orig = self@.items;
        proof {
            lemma_essential_protected(orig, self@.min_messages, self@.max_tokens);
        }
        let n: usize = self.items.len();
        let mut remaining: usize = if n >= self.min_messages {
            n - self.min_messages
        } else {
            0
        };
        let mut i: usize = 0;
        proof {
            assert(orig.subrange(0, 0) =~= Seq::<ItemView>::empty());
            assert(orig.subrange(0, orig.len() as int) =~= orig);
            assert(Seq::<ItemView>::empty() + remove_low_importance(
                orig,
                old(self)@.min_messages,
                old(self)@.max_tokens,
            ) =~= remove_low_importance(orig, old(self)@.min_messages, old(self)@.max_tokens));
        }
        while remaining > 0 && self.current_tokens > self.max_tokens
            invariant
                self.wf(),
                same_limits(old(self)@, self@),
                self@.peak_tokens <= old(self)@.peak_tokens,
                i + remaining <= self@.items.len(),
                self@.items.len() <= n,
                remove_low_importance(orig, old(self)@.min_messages, old(self)@.max_tokens)
                    == self@.items.subrange(0, i as int) + drop_disposable(
                    self@.items.subrange(i as int, self@.items.len() as int),
                    remaining as nat,
                    self@.total_tokens - self@.max_tokens,
                ),
            decreases remaining,
        {
            let ghost before = self@.items;
            let ghost rest = before.subrange(i as int, before.len() as int);
            let ghost excess = self@.total_tokens - self@.max_tokens;
            assert(rest[0] == before[i as int]);
            let minor: bool = self.items[i].importance_score < DISPOSABLE_BELOW;
            let disposable: bool = minor && !is_essential_message(&self.items[i]);
            if disposable {
                let removed = self.items.remove(i);
                match removed {
                    Some(item) => {
                        proof {
                            lemma_totals_remove(before, i as int);
                        }
                        let peak: u128 = peak_of(&item);
                        self.current_tokens = self.current_tokens - item.token_count;
                        self.peak_tokens = self.peak_tokens - (peak as usize);
                    },
                    None => {},
                }
                assert(self@.items =~= before.remove(i as int));
                assert(self@.items.subrange(0, i as int) =~= before.subrange(0, i as int));
                assert(self@.items.subrange(i as int, self@.items.len() as int)
                    =~= rest.drop_first());
            } else {
                i = i + 1;
                assert(before.subrange(0, i as int) =~= before.subrange(0, i - 1).push(
                    rest[0],
                ));
                assert(before.subrange(i as int, before.len() as int) =~= rest.drop_first());
                assert(before.subrange(0, i - 1) + (seq![rest[0]] + drop_disposable(
                    rest.drop_first(),
                    (remaining - 1) as nat,
                    excess,
                )) =~= before.subrange(0, i as int) + drop_disposable(
                    rest.drop_first(),
                    (remaining - 1) as nat,
                    excess,
                ));
            }
            remaining = remaining - 1;
        }
        assert(self@.items.subrange(0, i as int) + self@.items.subrange(
            i as int,
            self@.items.len() as int,
        ) =~= self@.items);
    }

    /// The ranking tier: where more items are left than the target count,
    /// only the items that fewer than that many others outrank are kept, in
    /// the order in which they stood. An item among the newest
    /// `min_messages` is ranked with a boost; being essential does not count.
    pub fn aggressive_prune(&mut self)
        requires
            old(self).wf(),
        ensures
            final(self).wf(),
            final(self)@.peak_tokens <= old(self)@.peak_tokens,
            same_limits(old(self)@, final(self)@),
            final(self)@.items == aggressive_prune(
                old(self)@.items,
                old(self)@.min_messages,
                old(self)@.max_tokens,
            ),
            final(self)@.items.len() == if old(self)@.items.len() <= target_count(
                old(self)@.min_messages,
                old(self)@.max_tokens,
            ) {
                old(self)@.items.len()
            } else {
                target_count(old(self)@.min_messages, old(self)@.max_tokens)
            },
    {
        proof {
            lemma_aggressive_len(self@.items, self@.min_messages, self@.max_tokens);
        }
        let by_budget: usize = if self.max_tokens / TOKENS_PER_MESSAGE < TARGET_CAP {
            self.max_tokens / TOKENS_PER_MESSAGE
        } else {
            TARGET_CAP
        };
        let target: usize = if self.min_messages >= by_budget {
            self.min_messages
        } else {
            by_budget
        };
        let n: usize = self.items.len();
        if n <= target {
            return ;
        }
        let ghost orig = self@.items;
        let ghost wanted = rank_scores(orig, self@.min_messages);
        let scores = self.rank_scores();
        let keep = ranks_below(&scores, target);
        assert(as_nats(scores@) =~= wanted);
        let mut kept: VecDeque<ResponseItem> = VecDeque::new();
        let mut idx: usize = 0;
        proof {
            lemma_totals_empty();
            assert(views_of(kept@) =~= Seq::<ItemView>::empty());
            assert(orig.subrange(0, n as int) =~= orig);
        }
        while idx < n
            invariant
                idx <= n,
                n == orig.len(),
                keep@.len() == n,
                well_formed(old(self)@),
                orig == old(self)@.items,
                same_limits(old(self)@, self@),
                views_of(self.items@) == orig.subrange(idx as int, n as int),
                views_of(kept@) == keep_ranked(orig, wanted, target as nat, idx as int),
                self.current_tokens == total_tokens(views_of(kept@)) + total_tokens(
                    orig.subrange(idx as int, n as int),
                ),
                self.peak_tokens == peak_tokens(views_of(kept@)) + peak_tokens(
                    orig.subrange(idx as int, n as int),
                ),
                self.peak_tokens <= old(self)@.peak_tokens,
                forall|j: int| 0 <= j < n ==> keep@[j] == (rank(wanted, j) < target),
                forall|j: int|
                    0 <= j < kept@.len() ==> (#[trigger] views_of(kept@)[j]).importance <= 100,
            decreases n - idx,
        {
            let ghost rest = orig.subrange(idx as int, n as int);
            let ghost kept_before = views_of(kept@);
            let ghost queue = self.items@;
            let front = self.items.pop_front();
            proof {
                assert(views_of(queue)[0] == queue[0]@);
                assert(rest[0] == orig[idx as int]);
                assert forall|k: int| 0 <= k < self.items@.len() implies views_of(self.items@)[k]
                    == orig.subrange(idx + 1, n as int)[k] by {
                    assert(self.items@[k] == queue[k + 1]);
                    assert(views_of(queue)[k + 1] == queue[k + 1]@);
                    assert(rest[k + 1] == orig[idx + 1 + k]);
                }
            }
            match front {
                Some(item) => {
                    proof {
                        assert(rest =~= seq![orig[idx as int]] + orig.subrange(
                            idx + 1,
                            n as int,
                        ));
                        lemma_totals_concat(
                            seq![orig[idx as int]],
                            orig.subrange(idx + 1, n as int),
                        );
                        lemma_totals_push(Seq::<ItemView>::empty(), orig[idx as int]);
                        assert(Seq::<ItemView>::empty().push(orig[idx as int])
                            =~= seq![orig[idx as int]]);
                        lemma_totals_push(kept_before, orig[idx as int]);
                        assert(item@ == orig[idx as int]);
                    }
                    if keep[idx] {
                        kept.push_back(item);
                        assert(views_of(kept@) =~= kept_before.push(orig[idx as int]));
                    } else {
                        let peak: u128 = peak_of(&item);
                        self.current_tokens = self.current_tokens - item.token_count;
                        self.peak_tokens = self.peak_tokens - (peak as usize);
                    }
                },
                None => {},
            }
            assert(views_of(self.items@) =~= orig.subrange(idx + 1, n as int));
            idx = idx + 1;
        }
        proof {
            lemma_keep_total(orig, wanted, target as nat, n as int);
            assert(orig.subrange(n as int, n as int) =~= Seq::<ItemView>::empty());
        }
        self.items = kept;
    }

    /// The score by which each item is ranked.
    fn rank_scores(&self) -> (scores: Vec<u16>)
        requires
            self.wf(),
        ensures
            forall|i: int| 0 <= i < scores@.len() ==> scores@[i] <= SCORE_CEILING,
            scores@.len() == self@.items.len(),
            forall|i: int|
                0 <= i < scores@.len() ==> scores@[i] as nat == rank_score(
                    self@.items,
                    self@.min_messages,
                    i,
                ),
    {
        let n: usize = self.items.len();
        let boosted_from: usize = if n >= self.min_messages {
            n - self.min_messages
        } else {
            0
        };
        let mut scores: Vec<u16> = Vec::new();
        let mut i: usize = 0;
        while i < n
            invariant
                i <= n,
                n == self.items@.len(),
                boosted_from as int == if n >= self.min_messages {
                    n - self.min_messages
                } else {
                    0
                },
                scores@.len() == i,
                self.wf(),
                forall|j: int| 0 <= j < i ==> scores@[j] <= SCORE_CEILING,
                forall|j: int|
                    0 <= j < i ==> scores@[j] as nat == rank_score(
                        self@.items,
                        self@.min_messages,
                        j,
                    ),
            decreases n - i,
        {
            assert(self@.items[i as int].importance <= 100);
            let importance: u16 = self.items[i].importance_score as u16;
            let score: u16 = if i >= boosted_from {
                importance + RECENCY_BOOST
            } else {
                importance
            };
            scores.push(score);
            i = i + 1;
        }
        scores
    }

    /// The running total of the items' peaks.
    pub fn peak_tokens(&self) -> (peak: usize)
        ensures
            peak == self@.peak_tokens,
    {
        self.peak_tokens
    }

    /// What the history reports of itself.
    pub fn get_stats(&self) -> (stats: ConversationStats)
        requires
            self.wf(),
        ensures
            stats.total_messages == self@.items.len(),
            stats.total_tokens == self@.total_tokens,
            stats.max_tokens == self@.max_tokens,
            stats.utilization_percentage == utilization_of(self@.total_tokens, self@.max_tokens),
            stats.compressed_messages == compressed_count(self@.items),
            stats.high_importance_messages == high_importance_count(self@.items),
    {
        let n: usize = self.items.len();
        let mut compressed_messages: usize = 0;
        let mut high_importance_messages: usize = 0;
        let mut i: usize = 0;
        proof {
            assert(self@.items.subrange(0, 0) =~= Seq::<ItemView>::empty());
        }
        while i < n
            invariant
                i <= n,
                n == self@.items.len(),
                compressed_messages == compressed_count(self@.items.subrange(0, i as int)),
                high_importance_messages == high_importance_count(
                    self@.items.subrange(0, i as int),
                ),
            decreases n - i,
        {
            proof {
                let upto = self@.items.subrange(0, i + 1);
                assert(upto.drop_last() =~= self@.items.subrange(0, i as int));
                assert(upto.last() == self@.items[i as int]);
                lemma_counts_bounded(upto);
            }
            if text_contains(self.items[i].content.as_str(), "[Compressed]") {
                compressed_messages = compressed_messages + 1;
            }
            if self.items[i].importance_score > HIGH_IMPORTANCE_ABOVE {
                high_importance_messages = high_importance_messages + 1;
            }
            i = i + 1;
        }
        assert(self@.items.subrange(0, n as int) =~= self@.items);
        ConversationStats {
            total_messages: n,
            total_tokens: self.current_tokens,
            max_tokens: self.max_tokens,
            utilization_percentage: utilization(self.current_tokens, self.max_tokens),
            compressed_messages,
            high_importance_messages,
        }
    }

    /// The items, oldest first.
    pub fn export_for_analysis(&self) -> (out: Vec<&ResponseItem>)
        ensures
            out@.len() == self@.items.len(),
            forall|i: int| 0 <= i < out@.len() ==> (#[trigger] out@[i])@ == self@.items[i],
    {
        let n: usize = self.items.len();
        let mut out: Vec<&ResponseItem> = Vec::new();
        let mut i: usize = 0;
        while i < n
            invariant
                i <= n,
                n == self.items@.len(),
                out@.len() == i,
                forall|j: int| 0 <= j < i ==> *(#[trigger] out@[j]) == self.items@[j],
            decreases n - i,
        {
            out.push(&self.items[i]);
            i = i + 1;
        }
        out
    }
}

} // verus!
