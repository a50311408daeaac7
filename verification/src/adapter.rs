//! The adapter between a caller's plain items, which hold a text and a role,
//! and the history.

use crate::budget::digest_estimate;
use crate::compressor::DIGEST_GROWTH;
use crate::estimator::{lemma_estimate_monotonic, token_estimate};
use crate::history::{same_limits, well_formed, HistoryView, OptimizedConversationHistory};
use crate::item::{ItemView, MessageType, ResponseItem};
use crate::pruning::{admitted, chronological, lemma_remnant_not_after, pruned};
use crate::report::{migration_report, report_text};
use crate::stats::{compressed_count, high_importance_count, utilization_of, ConversationStats};
use crate::text::{contains_text, lowercase_of, text_contains, text_lowercase};
use vstd::prelude::*;
use vstd::string::StrSliceExecFns;

verus! {

/// The ceiling of a history made without one.
pub const DEFAULT_MAX_TOKENS: usize = 800_000;

/// An item as a caller holds it: a text and the role of who wrote it.
#[derive(Debug, Clone)]
pub struct ExternalItem {
    pub content: String,
    pub role: String,
}

/// A caller's item as a mathematical value.
pub struct ExternalView {
    pub content: Seq<char>,
    pub role: Seq<char>,
}

impl View for ExternalItem {
    type V = ExternalView;

    open spec fn view(&self) -> ExternalView {
        ExternalView { content: self.content@, role: self.role@ }
    }
}

/// The views of a run of caller's items, in order.
pub open spec fn external_views(items: Seq<ExternalItem>) -> Seq<ExternalView> {
    Seq::new(items.len(), |i: int| items[i]@)
}

/// The kind of an item, from its role and what its text mentions.
///
/// A system item is a system response. A user item handles an error if it
/// mentions `error` or `help`, is an important decision if it mentions
/// `config` or `setting`, and is a query otherwise. An assistant item with a
/// code fence is a code execution, one that mentions `important` or `warning`
/// an important decision, any other a system response. Every other role
/// gives contextual information. Words are matched in lowercase.
pub open spec fn classified(content: Seq<char>, role: Seq<char>) -> MessageType {
    let lower = lowercase_of(content);
    if role == "system"@ {
        MessageType::SystemResponse
    } else if role == "user"@ {
        if contains_text(lower, "error"@) || contains_text(lower, "help"@) {
            MessageType::ErrorHandling
        } else if contains_text(lower, "config"@) || contains_text(lower, "setting"@) {
            MessageType::ImportantDecision
        } else {
            MessageType::UserQuery
        }
    } else if role == "assistant"@ {
        if contains_text(content, "```"@) {
            MessageType::CodeExecution
        } else if contains_text(lower, "important"@) || contains_text(lower, "warning"@) {
            MessageType::ImportantDecision
        } else {
            MessageType::SystemResponse
        }
    } else {
        MessageType::ContextualInfo
    }
}

/// A caller's item as the history first sees it: created at `now`, of the
/// kind that its role and text give, with token count and importance still
/// to be computed.
pub open spec fn converted(item: ExternalView, now: int) -> ItemView {
    ItemView {
        content: item.content,
        role: item.role,
        timestamp: now,
        token_count: 0,
        importance: 0,
        message_type: classified(item.content, item.role),
    }
}

/// The items of a history after it has taken in `incoming`, one by one and
/// each through the whole pipeline.
pub open spec fn recorded(
    items: Seq<ItemView>,
    incoming: Seq<ExternalView>,
    now: int,
    max_tokens: nat,
    min_messages: nat,
    full_retention_count: nat,
) -> Seq<ItemView>
    decreases incoming.len(),
{
    if incoming.len() == 0 {
        items
    } else {
        recorded(
            pruned(
                items.push(admitted(converted(incoming[0], now), now)),
                max_tokens,
                min_messages,
                full_retention_count,
            ),
            incoming.drop_first(),
            now,
            max_tokens,
            min_messages,
            full_retention_count,
        )
    }
}

/// A bound on the peak of what `incoming` becomes in a history: for each
/// item the estimate of the longest digest its text can have.
pub open spec fn incoming_peak(incoming: Seq<ExternalView>) -> nat
    decreases incoming.len(),
{
    if incoming.len() == 0 {
        0
    } else {
        token_estimate(incoming[0].content.len() + DIGEST_GROWTH as nat) + incoming_peak(
            incoming.drop_first(),
        )
    }
}

/// Whether two texts are the same.
fn same_text(left: &str, right: &str) -> (same: bool)
    ensures
        same == (left@ == right@),
{
    left.to_owned() == right.to_owned()
}

/// Finds the kind of an item from its text and its role.
pub fn classify_message_type(content: &str, role: &str) -> (kind: MessageType)
    ensures
        kind == classified(content@, role@),
{
    let lowered = text_lowercase(content);
    let lower = lowered.as_str();
    if same_text(role, "system") {
        MessageType::SystemResponse
    } else if same_text(role, "user") {
        if text_contains(lower, "error") || text_contains(lower, "help") {
            MessageType::ErrorHandling
        } else if text_contains(lower, "config") || text_contains(lower, "setting") {
            MessageType::ImportantDecision
        } else {
            MessageType::UserQuery
        }
    } else if same_text(role, "assistant") {
        if text_contains(content, "```") {
            MessageType::CodeExecution
        } else if text_contains(lower, "important") || text_contains(lower, "warning") {
            MessageType::ImportantDecision
        } else {
            MessageType::SystemResponse
        }
    } else {
        MessageType::ContextualInfo
    }
}

/// A history that takes in and gives back a caller's plain items.
#[derive(Debug, Clone)]
pub struct ConversationHistory {
    optimized: OptimizedConversationHistory,
}

impl View for ConversationHistory {
    type V = HistoryView;

    closed spec fn view(&self) -> HistoryView {
        self.optimized@
    }
}

impl ConversationHistory {
    /// The history is well formed.
    pub open spec fn wf(&self) -> bool {
        well_formed(self@)
    }

    /// An empty history with the ceiling `DEFAULT_MAX_TOKENS`.
    pub fn new() -> (history: Self)
        ensures
            history.wf(),
            history@ == (HistoryView {
                items: Seq::empty(),
                total_tokens: 0,
                peak_tokens: 0,
                max_tokens: DEFAULT_MAX_TOKENS as nat,
                min_messages: 10,
                full_retention_count: 20,
            }),
    {
        ConversationHistory { optimized: OptimizedConversationHistory::new(DEFAULT_MAX_TOKENS) }
    }

    /// An empty history with the ceiling `max_tokens`.
    pub fn with_token_limit(max_tokens: usize) -> (history: Self)
        requires
            max_tokens > 0,
        ensures
            history.wf(),
            history@ == (HistoryView {
                items: Seq::empty(),
                total_tokens: 0,
                peak_tokens: 0,
                max_tokens: max_tokens as nat,
                min_messages: 10,
                full_retention_count: 20,
            }),
    {
        ConversationHistory { optimized: OptimizedConversationHistory::new(max_tokens) }
    }

    /// Whether the history can take in all of `items`: whether the running
    /// peak with the bound for the items stays within `usize`.
    pub fn can_record(&self, items: &[ExternalItem]) -> (fits: bool)
        requires
            self.wf(),
        ensures
            fits == (self@.peak_tokens + incoming_peak(external_views(items@)) <= usize::MAX),
    {
        let ghost incoming = external_views(items@);
        let n: usize = items.len();
        let mut peak: u128 = self.optimized.peak_tokens() as u128;
        let mut i: usize = 0;
        assert(incoming.subrange(0, n as int) =~= incoming);
        while i < n
            invariant
                i <= n,
                n == items@.len(),
                incoming == external_views(items@),
                peak <= usize::MAX,
                peak + incoming_peak(incoming.subrange(i as int, n as int)) == self@.peak_tokens
                    + incoming_peak(incoming),
            decreases n - i,
        {
            proof {
                let rest = incoming.subrange(i as int, n as int);
                assert(rest[0] == incoming[i as int]);
                assert(rest.drop_first() =~= incoming.subrange(i + 1, n as int));
            }
            peak = peak + digest_estimate(items[i].content.as_str().unicode_len());
            if peak > usize::MAX as u128 {
                return false;
            }
            i = i + 1;
        }
        true
    }

    /// Takes in `items` in order, each created at `now` and each through the
    /// whole pipeline before the next.
    pub fn record_items(&mut self, items: &[ExternalItem], now: i64)
        requires
            old(self).wf(),
            old(self)@.peak_tokens + incoming_peak(external_views(items@)) <= usize::MAX,
        ensures
            final(self).wf(),
            same_limits(old(self)@, final(self)@),
            final(self)@.items == recorded(
                old(self)@.items,
                external_views(items@),
                now as int,
                old(self)@.max_tokens,
                old(self)@.min_messages,
                old(self)@.full_retention_count,
            ),
            final(self)@.peak_tokens <= old(self)@.peak_tokens + incoming_peak(
                external_views(items@),
            ),
            chronological(old(self)@.items) && (old(self)@.items.len() > 0 ==> old(
                self,
            )@.items.last().timestamp <= now) ==> chronological(final(self)@.items),
    {
        let ghost incoming = external_views(items@);
        let ghost ordered = chronological(self@.items) && (self@.items.len() > 0
            ==> self@.items.last().timestamp <= now);
        let n: usize = items.len();
        let mut i: usize = 0;
        assert(incoming.subrange(0, n as int) =~= incoming);
        while i < n
            invariant
                i <= n,
                n == items@.len(),
                incoming == external_views(items@),
                self.wf(),
                same_limits(old(self)@, self@),
                self@.peak_tokens + incoming_peak(incoming.subrange(i as int, n as int)) <= old(
                    self,
                )@.peak_tokens + incoming_peak(incoming),
                old(self)@.peak_tokens + incoming_peak(incoming) <= usize::MAX,
                ordered ==> chronological(self@.items),
                ordered ==> forall|k: int|
                    0 <= k < self@.items.len() ==> (#[trigger] self@.items[k]).timestamp <= now,
                recorded(
                    old(self)@.items,
                    incoming,
                    now as int,
                    old(self)@.max_tokens,
                    old(self)@.min_messages,
                    old(self)@.full_retention_count,
                ) == recorded(
                    self@.items,
                    incoming.subrange(i as int, n as int),
                    now as int,
                    old(self)@.max_tokens,
                    old(self)@.min_messages,
                    old(self)@.full_retention_count,
                ),
            decreases n - i,
        {
            let content = items[i].content.clone();
            let role = items[i].role.clone();
            let message_type = classify_message_type(content.as_str(), role.as_str());
            let item = ResponseItem {
                content,
                role,
                timestamp: now,
                token_count: 0,
                importance_score: 0,
                message_type,
            };
            proof {
                let rest = incoming.subrange(i as int, n as int);
                assert(rest[0] == incoming[i as int]);
                assert(rest.drop_first() =~= incoming.subrange(i + 1, n as int));
                assert(item@ == converted(incoming[i as int], now as int));
                lemma_estimate_monotonic(
                    item@.content.len(),
                    item@.content.len() + DIGEST_GROWTH as nat,
                );
            }
            let ghost before = self@.items;
            self.optimized.add_message(item, now);
            proof {
                if ordered {
                    lemma_remnant_not_after(
                        self@.items,
                        before.push(admitted(item@, now as int)),
                        now as int,
                    );
                }
            }
            i = i + 1;
        }
    }

    /// Takes in `items` as `record_items` does, if the history can take them
    /// all; otherwise the history stays as it is. Tells which of the two
    /// happened.
    pub fn try_record_items(&mut self, items: &[ExternalItem], now: i64) -> (taken: bool)
        requires
            old(self).wf(),
        ensures
            final(self).wf(),
            taken == (old(self)@.peak_tokens + incoming_peak(external_views(items@))
                <= usize::MAX),
            !taken ==> final(self)@ == old(self)@,
            taken ==> {
                &&& same_limits(old(self)@, final(self)@)
                &&& final(self)@.items == recorded(
                    old(self)@.items,
                    external_views(items@),
                    now as int,
                    old(self)@.max_tokens,
                    old(self)@.min_messages,
                    old(self)@.full_retention_count,
                )
            },
    {
        if self.can_record(items) {
            self.record_items(items, now);
            true
        } else {
            false
        }
    }

    /// Sets the floor to `count` and runs the pipeline at once. A floor of
    /// zero is not taken: the history stays as it is.
    pub fn keep_last_messages(&mut self, count: usize)
        requires
            old(self).wf(),
        ensures
            final(self).wf(),
            count == 0 ==> final(self)@ == old(self)@,
            count > 0 ==> {
                &&& final(self)@.min_messages == count
                &&& final(self)@.max_tokens == old(self)@.max_tokens
                &&& final(self)@.full_retention_count == old(self)@.full_retention_count
                &&& final(self)@.items == pruned(
                    old(self)@.items,
                    old(self)@.max_tokens,
                    count as nat,
                    old(self)@.full_retention_count,
                )
            },
            old(self)@.items.len() <= count ==> final(self)@.items.len() == old(
                self,
            )@.items.len(),
            chronological(old(self)@.items) ==> chronological(final(self)@.items),
    {
        self.optimized.set_min_messages(count);
    }

    /// The items, oldest first, each as its text and its role.
    pub fn items(&self) -> (out: Vec<ExternalItem>)
        ensures
            out@.len() == self@.items.len(),
            forall|i: int|
                0 <= i < out@.len() ==> (#[trigger] out@[i])@ == (ExternalView {
                    content: self@.items[i].content,
                    role: self@.items[i].role,
                }),
    {
        let held = self.optimized.export_for_analysis();
        let n: usize = held.len();
        let mut out: Vec<ExternalItem> = Vec::new();
        let mut i: usize = 0;
        while i < n
            invariant
                i <= n,
                n == held@.len(),
                n == self@.items.len(),
                out@.len() == i,
                forall|j: int| 0 <= j < n ==> (#[trigger] held@[j])@ == self@.items[j],
                forall|j: int|
                    0 <= j < i ==> (#[trigger] out@[j])@ == (ExternalView {
                        content: self@.items[j].content,
                        role: self@.items[j].role,
                    }),
            decreases n - i,
        {
            let item = held[i];
            out.push(ExternalItem { content: item.content.clone(), role: item.role.clone() });
            i = i + 1;
        }
        out
    }

    /// What the history reports of itself.
    pub fn get_optimization_stats(&self) -> (stats: ConversationStats)
        requires
            self.wf(),
        ensures
            stats.total_messages == self@.items.len(),
            stats.total_tokens == self@.total_tokens,
            stats.max_tokens == self@.max_tokens,
            stats.utilization_percentage == utilization_of(self@.total_tokens, self@.max_tokens),
            stats.compressed_messages == compressed_count(self@.items),
            stats.high_importance_messages == high_importance_count(self@.items),
    {
        self.optimized.get_stats()
    }

    /// A history with the default limits that has taken in `old_items`, each
    /// created at `now`.
    pub fn migrate_from_old(old_items: Vec<ExternalItem>, now: i64) -> (history: Self)
        requires
            incoming_peak(external_views(old_items@)) <= usize::MAX,
        ensures
            history.wf(),
            history@.max_tokens == DEFAULT_MAX_TOKENS,
            history@.min_messages == 10,
            history@.full_retention_count == 20,
            history@.items == recorded(
                Seq::empty(),
                external_views(old_items@),
                now as int,
                DEFAULT_MAX_TOKENS as nat,
                10,
                20,
            ),
    {
        let mut history = Self::new();
        history.record_items(old_items.as_slice(), now);
        history
    }

    /// The report of the history in words.
    pub fn get_migration_report(&self) -> (report: String)
        requires
            self.wf(),
        ensures
            report@ == report_text(
                self@.items.len(),
                self@.total_tokens,
                utilization_of(self@.total_tokens, self@.max_tokens),
                compressed_count(self@.items),
                high_importance_count(self@.items),
            ),
    {
        let stats = self.get_optimization_stats();
        migration_report(&stats)
    }
}

/// The limits that a caller may start from.
///
/// `compression_threshold` is an importance in hundredths.
#[derive(Debug, Clone)]
pub struct OptimizationConfig {
    pub max_tokens: usize,
    pub min_messages: usize,
    pub compression_threshold: u8,
    pub enable_aggressive_pruning: bool,
}

impl Default for OptimizationConfig {
    fn default() -> (config: Self)
        ensures
            config.max_tokens == 800_000,
            config.min_messages == 15,
            config.compression_threshold == 70,
            config.enable_aggressive_pruning,
    {
        OptimizationConfig {
            max_tokens: 800_000,
            min_messages: 15,
            compression_threshold: 70,
            enable_aggressive_pruning: true,
        }
    }
}

} // verus!
