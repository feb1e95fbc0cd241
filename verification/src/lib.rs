//! Verified core of an intent auditor for version-control changes: parsing of
//! unified diffs and commit messages, extraction of changed code entities,
//! impact indices, and the deterministic parts of change scoring.
pub mod text;
pub mod git;
pub mod ast;
pub mod cache;
pub mod config;
pub mod scorer;
pub mod report;
