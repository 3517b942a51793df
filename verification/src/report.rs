//! What an index report does to the index.
//!
//! A report is ingested entry by entry, in the order given, and within an
//! entry geohash by geohash, then the time range. Ingestion stops at the
//! first malformed entry; what was ingested before it stays.

use vstd::prelude::*;
use crate::error::IndexError;
use crate::index::IndexState;
use crate::message::{ReportView, SpatialIndexView};

verus! {

/// The index after a report, and the fault that stopped ingestion, if any.
pub struct Outcome {
    pub state: IndexState,
    pub error: Option<IndexError>,
}

/// Ingests the geohashes of `spatial` from position `from` on into
/// `block_id`. Each takes the length between its start and its end index.
/// Ingestion stops at the first geohash without such a length.
pub open spec fn ingest_pairs(
    state: IndexState,
    entry: int,
    block_id: u64,
    spatial: SpatialIndexView,
    from: int,
) -> Outcome
    decreases spatial.geohashes.len() - from,
{
    if from < 0 || from >= spatial.geohashes.len() {
        Outcome { state, error: None }
    } else if from >= spatial.start_indices.len() || from >= spatial.end_indices.len() {
        Outcome {
            state,
            error: Some(IndexError::MissingRange { entry: entry as usize, pair: from as usize }),
        }
    } else if spatial.start_indices[from] > spatial.end_indices[from] {
        Outcome {
            state,
            error: Some(IndexError::InvertedRange { entry: entry as usize, pair: from as usize }),
        }
    } else {
        ingest_pairs(
            state.add_spatial(block_id, spatial.geohashes[from], spatial.length(from)),
            entry,
            block_id,
            spatial,
            from + 1,
        )
    }
}

/// Ingests the entry at position `entry` of `report`: first its geohashes,
/// then its time range.
pub open spec fn ingest_entry(state: IndexState, report: ReportView, entry: int) -> Outcome
    recommends
        0 <= entry < report.block_ids.len(),
{
    if entry >= report.block_indices.len() {
        Outcome { state, error: Some(IndexError::MissingBlockIndex { entry: entry as usize }) }
    } else {
        let block_id = report.block_ids[entry];
        let block_index = report.block_indices[entry];
        let spatial = match block_index.spatial {
            Some(spatial) => ingest_pairs(state, entry, block_id, spatial, 0),
            None => Outcome { state, error: None },
        };
        match (spatial.error, block_index.temporal) {
            (None, Some((start, end))) => Outcome {
                state: spatial.state.add_temporal(block_id, start, end),
                error: None,
            },
            _ => spatial,
        }
    }
}

/// Ingests the entries of `report` from position `from` on, and stops at the
/// first that fails.
pub open spec fn ingest_entries(state: IndexState, report: ReportView, from: int) -> Outcome
    decreases report.block_ids.len() - from,
{
    if from < 0 || from >= report.block_ids.len() {
        Outcome { state, error: None }
    } else {
        let first = ingest_entry(state, report, from);
        if first.error is Some {
            first
        } else {
            ingest_entries(first.state, report, from + 1)
        }
    }
}

/// Ingests the whole of `report`.
pub open spec fn ingest_report(state: IndexState, report: ReportView) -> Outcome {
    ingest_entries(state, report, 0)
}

} // verus!
