//! Change detection for a code-hosting poller: dedup state, diffing of
//! freshly fetched collections, and the notification events that follow.

pub mod models;
pub mod table;
pub mod text;
pub mod engine;
pub mod events;
pub mod schedule;
pub mod laws;
