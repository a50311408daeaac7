//! Summary counters over the items of a history.

use crate::compressor::is_compressed;
use crate::item::ItemView;
use vstd::prelude::*;

verus! {

/// Items more important than this count as highly important.
pub const HIGH_IMPORTANCE_ABOVE: u8 = 70;

/// What a history reports of itself.
#[derive(Debug, Clone, Copy, PartialEq, Eq)]
pub struct ConversationStats {
    pub total_messages: usize,
    pub total_tokens: usize,
    pub max_tokens: usize,
    pub utilization_percentage: u32,
    pub compressed_messages: usize,
    pub high_importance_messages: usize,
}

/// How many of the items carry the compression marker.
pub open spec fn compressed_count(items: Seq<ItemView>) -> nat
    decreases items.len(),
{
    if items.len() == 0 {
        0
    } else {
        compressed_count(items.drop_last()) + if is_compressed(items.last().content) {
            1nat
        } else {
            0nat
        }
    }
}

/// How many of the items are more important than `HIGH_IMPORTANCE_ABOVE`.
pub open spec fn high_importance_count(items: Seq<ItemView>) -> nat
    decreases items.len(),
{
    if items.len() == 0 {
        0
    } else {
        high_importance_count(items.drop_last()) + if items.last().importance
            > HIGH_IMPORTANCE_ABOVE {
            1nat
        } else {
            0nat
        }
    }
}

/// The share of the ceiling in use, in whole percent; what does not fit the
/// field is reported as `u32::MAX`.
pub open spec fn utilization_of(total_tokens: nat, max_tokens: nat) -> nat {
    let percent = total_tokens * 100 / max_tokens;
    if percent > u32::MAX {
        u32::MAX as nat
    } else {
        percent
    }
}

/// Neither counter exceeds the number of items.
pub proof fn lemma_counts_bounded(items: Seq<ItemView>)
    ensures
        compressed_count(items) <= items.len(),
        high_importance_count(items) <= items.len(),
    decreases items.len(),
{
    if items.len() > 0 {
        lemma_counts_bounded(items.drop_last());
    }
}

/// Computes the share of the ceiling in use.
pub fn utilization(total_tokens: usize, max_tokens: usize) -> (percent: u32)
    requires
        max_tokens > 0,
    ensures
        percent == utilization_of(total_tokens as nat, max_tokens as nat),
{
    let scaled: u128 = total_tokens as u128 * 100;
    let percent: u128 = scaled / (max_tokens as u128);
    if percent > u32::MAX as u128 {
        u32::MAX
    } else {
        percent as u32
    }
}

} // verus!
