//! Statistics-aggregation engine for a live access-log dashboard.
//!
//! The engine keeps a bounded, chronologically ordered sliding window of
//! parsed log records together with aggregate counters that are maintained
//! incrementally, plus an optional one-level partition of the window by a
//! configurable group key.  Eviction follows either a count policy or an
//! age policy.  Everything here is verified; reading log sources, parsing
//! log lines and terminal rendering live outside this crate.

pub mod grouped_stats;
pub mod options;
pub mod pipeline;
pub mod request;
pub mod ring_buffer;
pub mod stats;
mod strutil;
