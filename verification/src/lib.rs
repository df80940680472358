//! Compaction of columnar source-code metadata into newline-delimited JSON shards.
//!
//! Rows are materialized from typed column batches, joined with the decoded text
//! of the blob each row refers to, serialized one JSON record per line, and packed
//! chunk by chunk into compressed artifacts.

pub mod columns;
pub mod compactor;
pub mod container;
pub mod crc32;
pub mod encoding;
pub mod json;
pub mod locations;
pub mod partition;
pub mod run;
pub mod text;
