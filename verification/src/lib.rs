//! Notification of camera motion activity.
//!
//! The library collects unsent motion events from a pluggable event store,
//! aggregates them into push events under a debounce-window batching policy,
//! delivers each push event through a pluggable sink, and marks delivered
//! events as sent so they are never re-notified.

pub mod push_events;
