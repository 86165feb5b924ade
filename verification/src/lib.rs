//! A verified engine for a plain-text work-hours log.
//!
//! The log is an append-only text file of records — timed intervals and
//! `#` annotations — one per line. This crate holds the verified core:
//! the timestamp codec and record parser, the byte-level log store with
//! its tail reads and last-record patches, the calendar partitioner, and
//! the aggregation reports. File and terminal handling stay outside; the
//! library works on the log's bytes and on plain values.

pub mod dates;
pub mod entry;
pub mod extents;
pub mod filter;
pub mod iter;
pub mod parser;
pub mod query;
pub mod report;
pub mod store;
pub mod text;
pub mod timesource;
