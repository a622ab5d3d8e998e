//! git-redundancy: the verified core of a multi-repo backup tool.
//!
//! Pure value types and the decisions that say what a status table shows,
//! whether a push is safe, and what a sync does — each with a contract that
//! Verus checks.

pub mod model;
pub mod args;
pub mod text;
pub mod classify;
pub mod sync;
pub mod onboard;
pub mod collapse;
pub mod presence;
pub mod status;
pub mod render;
pub mod statusjson;
pub mod timefmt;
pub mod config;
pub mod audit;
pub mod git;
pub mod inventory;
pub mod server;
pub mod paths;
pub mod report;
pub mod push;
pub mod reconcile;
pub mod lifecycle;
pub mod statusview;
pub mod review;
