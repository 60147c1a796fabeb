//! Session tracking for a focused-window activity feed.
//!
//! A reporter streams "focus changed" events; the library turns them into
//! non-overlapping time segments, decides what is closed, stored and
//! broadcast for each event, and rebuilds the snapshot a viewer receives
//! when it connects. All times are microseconds since the Unix epoch.

pub mod clock;
pub mod model;
pub mod session;
pub mod store;
pub mod ingest;
pub mod history;
