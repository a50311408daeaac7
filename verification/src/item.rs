//! The conversational turn that the history stores, and its mathematical view.

use vstd::prelude::*;

verus! {

/// What kind of turn an item is; the scorer gives each kind its own weight.
#[derive(Debug, Clone, Copy, PartialEq, Eq, Structural)]
pub enum MessageType {
    UserQuery,
    SystemResponse,
    CodeExecution,
    ImportantDecision,
    ErrorHandling,
    ContextualInfo,
}

/// One conversational turn.
///
/// `timestamp` is the moment of creation in milliseconds since the Unix epoch.
/// `importance_score` is in hundredths, so 70 stands for 0.7; the history
/// recomputes it on arrival and it then lies in `0..=100`.
#[derive(Debug, Clone)]
pub struct ResponseItem {
    pub content: String,
    pub role: String,
    pub timestamp: i64,
    pub token_count: usize,
    pub importance_score: u8,
    pub message_type: MessageType,
}

/// An item as a mathematical value.
pub struct ItemView {
    pub content: Seq<char>,
    pub role: Seq<char>,
    pub timestamp: int,
    pub token_count: nat,
    pub importance: nat,
    pub message_type: MessageType,
}

impl View for ResponseItem {
    type V = ItemView;

    open spec fn view(&self) -> ItemView {
        ItemView {
            content: self.content@,
            role: self.role@,
            timestamp: self.timestamp as int,
            token_count: self.token_count as nat,
            importance: self.importance_score as nat,
            message_type: self.message_type,
        }
    }
}

} // verus!
