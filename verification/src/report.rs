//! Report engines over partitioned intervals.

pub mod all;
pub mod days;
pub mod pto;
