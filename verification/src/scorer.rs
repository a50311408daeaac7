//! The scorer: how important an item is, and whether it is essential.
//!
//! Importance is counted in hundredths. It starts at 50, moves with the
//! item's kind, with what its text mentions, with its length and its age, and
//! is then clamped into `0..=100`.

use crate::item::{ItemView, MessageType, ResponseItem};
use crate::recency::{created_recently, is_recent};
use crate::text::{contains_text, lowercase_of, starts_with_text, text_contains, text_lowercase, text_starts_with};
use vstd::prelude::*;
use vstd::string::StrSliceExecFns;

verus! {

/// Texts longer than this many characters count as verbose.
pub const VERBOSE_ABOVE: usize = 2000;

/// What an item's kind adds to its importance.
pub open spec fn kind_bonus(kind: MessageType) -> int {
    match kind {
        MessageType::ImportantDecision => 40,
        MessageType::ErrorHandling => 30,
        MessageType::UserQuery => 20,
        MessageType::CodeExecution => 10,
        MessageType::SystemResponse => 0,
        MessageType::ContextualInfo => -10,
    }
}

/// What the words of a text add: 20 for a problem, 20 for urgency, 15 for a
/// remedy. The text is matched in lowercase, and every group that matches
/// counts.
pub open spec fn keyword_bonus(content: Seq<char>) -> int {
    let lower = lowercase_of(content);
    (if contains_text(lower, "error"@) || contains_text(lower, "bug"@) {
        20int
    } else {
        0int
    }) + (if contains_text(lower, "important"@) || contains_text(lower, "critical"@) {
        20int
    } else {
        0int
    }) + (if contains_text(lower, "solution"@) || contains_text(lower, "fix"@) {
        15int
    } else {
        0int
    })
}

/// The text holds a code fence or the start of a function definition.
pub open spec fn looks_like_code(content: Seq<char>) -> bool {
    contains_text(content, "```"@) || contains_text(content, "fn "@)
}

/// The importance before clamping.
pub open spec fn raw_importance(item: ItemView, now: int) -> int {
    50 + kind_bonus(item.message_type) + keyword_bonus(item.content) + (if looks_like_code(
        item.content,
    ) {
        10int
    } else {
        0int
    }) - (if item.content.len() > VERBOSE_ABOVE {
        10int
    } else {
        0int
    }) + (if is_recent(now, item.timestamp) {
        10int
    } else {
        0int
    })
}

/// The importance of `item` at `now`, in hundredths.
pub open spec fn importance_of(item: ItemView, now: int) -> nat {
    let raw = raw_importance(item, now);
    if raw < 0 {
        0
    } else if raw > 100 {
        100
    } else {
        raw as nat
    }
}

/// An essential item: its text, in lowercase, begins with `system:`, or
/// mentions `error:`, `exception`, `config` or `setting`.
pub open spec fn is_essential(item: ItemView) -> bool {
    let lower = lowercase_of(item.content);
    ||| starts_with_text(lower, "system:"@)
    ||| contains_text(lower, "error:"@)
    ||| contains_text(lower, "exception"@)
    ||| contains_text(lower, "config"@)
    ||| contains_text(lower, "setting"@)
}

/// Computes the importance of `item` at `now`, in hundredths. Neither the
/// item's stored score nor its token count plays a part.
pub fn calculate_importance(item: &ResponseItem, now: i64) -> (score: u8)
    ensures
        score == importance_of(item@, now as int),
        score <= 100,
{
    let mut score: i32 = 50;
    match item.message_type {
        MessageType::ImportantDecision => {
            score = score + 40;
        },
        MessageType::ErrorHandling => {
            score = score + 30;
        },
        MessageType::UserQuery => {
            score = score + 20;
        },
        MessageType::CodeExecution => {
            score = score + 10;
        },
        MessageType::SystemResponse => {},
        MessageType::ContextualInfo => {
            score = score - 10;
        },
    }
    let content = item.content.as_str();
    let lowered = text_lowercase(content);
    let lower = lowered.as_str();
    if text_contains(lower, "error") || text_contains(lower, "bug") {
        score = score + 20;
    }
    if text_contains(lower, "important") || text_contains(lower, "critical") {
        score = score + 20;
    }
    if text_contains(lower, "solution") || text_contains(lower, "fix") {
        score = score + 15;
    }
    if text_contains(content, "```") || text_contains(content, "fn ") {
        score = score + 10;
    }
    if content.unicode_len() > VERBOSE_ABOVE {
        score = score - 10;
    }
    if created_recently(now, item.timestamp) {
        score = score + 10;
    }
    if score < 0 {
        0
    } else if score > 100 {
        100
    } else {
        score as u8
    }
}

/// Whether `item` is essential. Its importance plays no part.
pub fn is_essential_message(item: &ResponseItem) -> (essential: bool)
    ensures
        essential == is_essential(item@),
{
    let lowered = text_lowercase(item.content.as_str());
    let lower = lowered.as_str();
    text_starts_with(lower, "system:") || text_contains(lower, "error:") || text_contains(
        lower,
        "exception",
    ) || text_contains(lower, "config") || text_contains(lower, "setting")
}

} // verus!
