//! Materialises a managed file tree onto the local filesystem.
//!
//! The library holds the parts with invariants: the content tree model and
//! its parser, the orchestrator that turns a tree into staged writes, and
//! the two-phase commit that diffs, confirms and applies those writes.
pub mod paths;
pub mod globs;
pub mod contents;
pub mod hooks;
pub mod fs_access;
pub mod templating;
pub mod config;
pub mod helpers;
