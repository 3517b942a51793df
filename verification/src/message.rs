//! Requests and responses of the index protocol, as plain values.

use vstd::prelude::*;
use std::collections::HashMap;

verus! {

/// The geohash cells of one block, as three parallel lists: the cell at
/// position `j` covers the bytes from `start_indices[j]` up to
/// `end_indices[j]`.
#[derive(Debug, Clone, PartialEq, Eq)]
pub struct SpatialIndex {
    pub geohashes: Vec<String>,
    pub start_indices: Vec<u32>,
    pub end_indices: Vec<u32>,
}

/// The time range that one block covers.
#[derive(Debug, Clone, Copy, PartialEq, Eq)]
pub struct TemporalIndex {
    pub start_timestamp: u64,
    pub end_timestamp: u64,
}

/// What is reported about one block: its cells, its time range, both or
/// neither.
#[derive(Debug, Clone, PartialEq, Eq)]
pub struct BlockIndex {
    pub spatial_index: Option<SpatialIndex>,
    pub temporal_index: Option<TemporalIndex>,
}

/// Asks for the name of the storage policy registered under `id`.
#[derive(Debug, Clone, Copy, PartialEq, Eq)]
pub struct GetStoragePolicyRequest {
    pub id: u32,
}

#[derive(Debug, Clone, PartialEq, Eq)]
pub struct GetStoragePolicyResponse {
    pub storage_policy: String,
}

/// A batch of facts about blocks: `block_indices[i]` belongs to
/// `block_ids[i]`.
#[derive(Debug, Clone, PartialEq, Eq)]
pub struct IndexReportRequest {
    pub block_ids: Vec<u64>,
    pub block_indices: Vec<BlockIndex>,
}

/// The empty acknowledgment of an index report.
#[derive(Debug, Clone, Copy, PartialEq, Eq)]
pub struct IndexReportResponse {}

#[derive(Debug, Clone, Copy, PartialEq, Eq)]
pub struct IndexViewRequest {}

/// The whole index, block by block.
#[derive(Debug, Clone, PartialEq, Eq)]
pub struct IndexViewResponse {
    pub blocks: HashMap<u64, BlockIndex>,
}

#[derive(Debug, Clone, Copy, PartialEq, Eq)]
pub struct InodePersistRequest {}

/// The empty acknowledgment of a persisted snapshot.
#[derive(Debug, Clone, Copy, PartialEq, Eq)]
pub struct InodePersistResponse {}

/// The text of each string of `strings`, in order.
pub open spec fn texts(strings: Seq<String>) -> Seq<Seq<char>> {
    Seq::new(strings.len(), |i: int| strings[i]@)
}

/// A [`SpatialIndex`] as mathematical sequences.
pub struct SpatialIndexView {
    pub geohashes: Seq<Seq<char>>,
    pub start_indices: Seq<u32>,
    pub end_indices: Seq<u32>,
}

impl SpatialIndexView {
    /// Whether the geohash at position `pair` comes with a byte range that
    /// has a length: both indices are there and the end is not below the
    /// start.
    pub open spec fn has_range(self, pair: int) -> bool {
        &&& 0 <= pair < self.start_indices.len()
        &&& pair < self.end_indices.len()
        &&& self.start_indices[pair] <= self.end_indices[pair]
    }

    /// The number of bytes between the start and the end index at `pair`.
    pub open spec fn length(self, pair: int) -> u32
        recommends
            self.has_range(pair),
    {
        (self.end_indices[pair] - self.start_indices[pair]) as u32
    }

    /// Whether `geohash` is listed from index 0 up to `length`.
    pub open spec fn has_cell(self, geohash: Seq<char>, length: u32) -> bool {
        exists|k: int|
            {
                &&& 0 <= k < self.geohashes.len()
                &&& #[trigger] self.geohashes[k] == geohash
                &&& self.start_indices[k] == 0
                &&& self.end_indices[k] == length
            }
    }

    /// Whether this is a listing of `cells`: every cell exactly once, each
    /// from index 0 up to the cell's length.
    pub open spec fn lists(self, cells: Map<Seq<char>, u32>) -> bool {
        &&& self.start_indices.len() == self.geohashes.len()
        &&& self.end_indices.len() == self.geohashes.len()
        &&& self.geohashes.no_duplicates()
        &&& forall|j: int|
            0 <= j < self.geohashes.len() ==> {
                &&& cells.contains_key(#[trigger] self.geohashes[j])
                &&& self.start_indices[j] == 0
                &&& self.end_indices[j] == cells[self.geohashes[j]]
            }
        &&& forall|g: Seq<char>| cells.contains_key(g) ==> self.geohashes.contains(g)
    }
}

impl View for SpatialIndex {
    type V = SpatialIndexView;

    open spec fn view(&self) -> SpatialIndexView {
        SpatialIndexView {
            geohashes: texts(self.geohashes@),
            start_indices: self.start_indices@,
            end_indices: self.end_indices@,
        }
    }
}

/// A [`BlockIndex`] as mathematical values; the time range is the pair of
/// its start and its end.
pub struct BlockIndexView {
    pub spatial: Option<SpatialIndexView>,
    pub temporal: Option<(u64, u64)>,
}

impl View for BlockIndex {
    type V = BlockIndexView;

    open spec fn view(&self) -> BlockIndexView {
        BlockIndexView {
            spatial: match self.spatial_index {
                Some(spatial) => Some(spatial@),
                None => None,
            },
            temporal: match self.temporal_index {
                Some(temporal) => Some((temporal.start_timestamp, temporal.end_timestamp)),
                None => None,
            },
        }
    }
}

/// An [`IndexReportRequest`] as mathematical sequences.
pub struct ReportView {
    pub block_ids: Seq<u64>,
    pub block_indices: Seq<BlockIndexView>,
}

impl ReportView {
    /// This report cut down to its first `count` entries.
    pub open spec fn first_entries(self, count: int) -> ReportView {
        ReportView { block_ids: self.block_ids.take(count), block_indices: self.block_indices }
    }
}

impl View for IndexReportRequest {
    type V = ReportView;

    open spec fn view(&self) -> ReportView {
        ReportView {
            block_ids: self.block_ids@,
            block_indices: Seq::new(
                self.block_indices@.len(),
                |i: int| self.block_indices@[i]@,
            ),
        }
    }
}

impl View for IndexViewResponse {
    type V = Map<u64, BlockIndexView>;

    open spec fn view(&self) -> Map<u64, BlockIndexView> {
        Map::new(|b: u64| self.blocks@.contains_key(b), |b: u64| self.blocks@[b]@)
    }
}

} // verus!
