use vstd::prelude::*;

verus! {

/// Why one entry of an index report could not be ingested.
///
/// `entry` is the position of the entry in the report's list of block
/// identifiers; `pair` is the position of a geohash in that entry's spatial
/// section.
#[derive(Debug, Clone, Copy, PartialEq, Eq, Structural)]
pub enum IndexError {
    /// The report names a block at `entry` but carries no index for it.
    MissingBlockIndex { entry: usize },
    /// The geohash at `pair` has no start index or no end index beside it.
    MissingRange { entry: usize, pair: usize },
    /// The geohash at `pair` has an end index below its start index.
    InvertedRange { entry: usize, pair: usize },
}

/// A failure of a request handler.
#[derive(Debug, Clone, Copy, PartialEq, Eq, Structural)]
pub enum NahFSError {
    /// No storage policy is registered under the identifier.
    NotFound { id: u32 },
    /// Ingestion of an index report stopped at a malformed entry.
    Index(IndexError),
}

} // verus!
