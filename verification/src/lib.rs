//! Point-in-time snapshot of a developer's working environment, rendered as a
//! tiered text report.
//!
//! The library holds the policy and edge-case logic of the snapshot engine:
//! bounded-depth repository discovery, git-status classification, history-log
//! filtering, the work-state recovery codec, and the three-tier renderer.
//! File and process I/O stays outside; callers hand the collected raw text in
//! and take plain values back.

pub mod context;
pub mod history;
pub mod render;
pub mod repo;
pub mod scan;
pub mod setup;
pub mod text;
pub mod workstate;
