//! A line-addressed file mutation engine and its command/result contract.
//!
//! The library models a repository's file tree as a store of path/content
//! pairs, interprets edit requests (insert or replace over 1-based line
//! ranges), applies them to a file's line sequence, and reports the full
//! before/after content. A dispatcher maps each decoded operation to
//! exactly one typed result.

pub mod dispatch;
pub mod error;
pub mod lines;
pub mod modify;
pub mod report;
pub mod store;
