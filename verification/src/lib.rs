//! Bulk generation of synthetic tabular records.
//!
//! The pipeline partitions a total record count across a number of split
//! files, produces each file's records in bounded-size chunks through a
//! sink, groups the finished files into contiguous archive batches, and
//! compresses each batch into one zip archive.

pub mod archive;
pub mod batch;
pub mod errors;
pub mod job;
pub mod names;
pub mod options;
pub mod partition;
pub mod producer;
pub mod schema;
pub mod sinks;
pub mod value;
