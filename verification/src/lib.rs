//! Watermark-based relay of syndication feeds: per-source bookkeeping of the
//! newest entry already announced, selection of the entries that are newer,
//! and the polling cycle that decides what to fetch, what to post and when
//! to sleep.
//!
//! The library does no input or output of its own. A host fetches the feed
//! documents, posts the entries and sleeps; [`poll::Scheduler`] tells it
//! which of these is due, and takes what came of it.
//!
//! - [`date_time`]: instants and their order.
//! - [`order`]: arranging instants oldest first or newest first.
//! - [`rss`]: entries, how a feed document becomes entries, and the store
//!   of watermarks.
//! - [`dedup`]: the entries that are newer than a watermark.
//! - [`poll`]: the polling cycle as a state machine.
//! - [`guarantees`]: what holds of every step and every run of the machine.
//! - [`settings`]: what the relay is set up with.
//! - [`text`]: texts as sequences of characters.

pub mod date_time;
pub mod dedup;
pub mod guarantees;
pub mod order;
pub mod poll;
pub mod rss;
pub mod settings;
pub mod text;
