//! Core logic of a small dotfile-tracking tool.
//!
//! The crate keeps the mapping from an original file path to its copied
//! (tracked) path, aggregates a diff stream into per-file change
//! counters, and builds the commit message and commit plan that a
//! version-control layer executes. All file, repository and clock access
//! lives outside this crate; these modules hold the logic itself, with
//! contracts.

pub mod changelog;
pub mod database;
pub mod errors;
pub mod git;
