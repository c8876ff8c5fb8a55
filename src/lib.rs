//! Disk usage grouped by file extension: classification of file names,
//! aggregation of per-extension totals, ranking and the text of the report.

pub mod classify;
pub mod stats;
pub mod tally;
pub mod aggregate;
pub mod rank;
pub mod render;
pub mod analysis;
