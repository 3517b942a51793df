//! Metadata-indexing core of a distributed file system's namenode.
//!
//! The crate records, per storage block, which geohash cells and which time
//! range the block's bytes cover, and serves combined snapshots of that index.

pub mod datanode;
pub mod error;
pub mod index;
pub mod laws;
pub mod message;
pub mod protocol;
pub mod report;
pub mod snapshot;
pub mod text;
