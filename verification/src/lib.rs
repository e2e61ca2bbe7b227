//! Verified extraction of mining statistics from game session logs.
//!
//! The library scans a catalog of session log files, decides which files
//! belong to the requested session, extracts mining events from their
//! marked-up text, and merges the per-file results into per-character and
//! per-ore totals with overall statistics and a resolved date range.
pub mod analysis;
pub mod catalog;
pub mod patterns;
pub mod scope;
pub mod tables;
pub mod extract;
pub mod merge;
pub mod text;
pub mod timefmt;
pub mod types;
