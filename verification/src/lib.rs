//! A token-budgeted conversation history.
//!
//! The history keeps conversational turns in arrival order and holds their
//! estimated token total under a fixed ceiling. When the ceiling is passed it
//! first shortens old turns, then deletes unimportant ones, and only then
//! ranks what is left and keeps the best. Items are only ever removed or
//! compressed, never moved.
//!
//! The modules, from the leaves up:
//!
//! - [`text`]: texts as sequences of characters, and the string operations of
//!   the standard library that the crate relies on;
//! - [`estimator`], [`recency`], [`scorer`], [`compressor`]: the pure
//!   functions that give an item its token count, its age, its importance and
//!   its digest;
//! - [`sums`], [`budget`], [`ranking`]: sums of token counts, and ranks by
//!   score;
//! - [`pruning`]: the three tiers and the whole pipeline as functions on
//!   sequences of items, with the laws that hold of them;
//! - [`history`]: the history itself, whose every operation is stated
//!   through [`pruning`];
//! - [`stats`], [`report`]: what a history reports of itself, in numbers and
//!   in words;
//! - [`adapter`]: a history for callers that hold only a text and a role.
//!
//! Importance is counted in hundredths, time in milliseconds since the Unix
//! epoch, and the length of a text in characters. Token counts are `usize`;
//! beside the running total a history keeps a running peak, the most that its
//! items can ever weigh together, and takes an item in only while that peak
//! fits `usize`, so that no total can overflow on the way.

pub mod adapter;
pub mod budget;
pub mod compressor;
pub mod estimator;
pub mod history;
pub mod item;
pub mod pruning;
pub mod ranking;
pub mod recency;
pub mod report;
pub mod scorer;
pub mod stats;
pub mod sums;
pub mod text;
