//! A verified metrics exporter core for a storage stack's per-filesystem,
//! per-device allocation statistics.
//!
//! The library walks a snapshot of a two-level virtual hierarchy
//! (filesystem instances, then block devices), parses the semi-structured
//! allocation tables, converts storage units to bytes, and encodes the
//! measurements in the text exposition format. All I/O stays outside: the
//! callers hand in directory listings and file contents as plain values.

pub mod collect;
pub mod discover;
pub mod errors;
pub mod escape;
pub mod extract;
pub mod metric;
pub mod numbers;
pub mod outside;
pub mod table;
pub mod text;
pub mod units;
