//! Verified core of a small directory-listing tool: a depth-bounded,
//! hidden-entry-aware walk planner plus the formatting of size, timestamp and
//! name columns.

pub mod config;
pub mod entry;
pub mod errors;
pub mod paint;
pub mod render;
pub mod walker;
