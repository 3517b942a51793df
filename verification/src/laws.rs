//! What holds of the index whatever is ingested: later facts replace
//! earlier ones, snapshots show what was ingested, and reports on different
//! blocks do not disturb each other.

use vstd::prelude::*;
use crate::index::IndexState;
use crate::message::{BlockIndexView, ReportView, SpatialIndexView};
use crate::protocol::Method;
use crate::report::{ingest_entries, ingest_entry, ingest_pairs, ingest_report, Outcome};
use crate::snapshot::shows;

verus! {

/// A snapshot shows exactly what the index holds: a block has a cell from 0
/// up to a length where the index records that length for the geohash, and
/// has the time range that the index records for it, if any.
pub proof fn lemma_snapshot_is_faithful(blocks: Map<u64, BlockIndexView>, state: IndexState)
    requires
        shows(blocks, state),
    ensures
        forall|block_id: u64, geohash: Seq<char>, length: u32|
            state.length(block_id, geohash) == Some(length) <==> {
                &&& blocks.contains_key(block_id)
                &&& blocks[block_id].spatial is Some
                &&& #[trigger] blocks[block_id].spatial->0.has_cell(geohash, length)
            },
        forall|block_id: u64|
            #[trigger] state.range(block_id) == if blocks.contains_key(block_id) {
                blocks[block_id].temporal
            } else {
                None
            },
{
    assert forall|block_id: u64, geohash: Seq<char>, length: u32|
        state.length(block_id, geohash) == Some(length) <==> {
            &&& blocks.contains_key(block_id)
            &&& blocks[block_id].spatial is Some
            &&& #[trigger] blocks[block_id].spatial->0.has_cell(geohash, length)
        } by {
        if state.length(block_id, geohash) == Some(length) {
            let listing = blocks[block_id].spatial->0;
            assert(listing.geohashes.contains(geohash));
            let k = choose|k: int| 0 <= k < listing.geohashes.len() && listing.geohashes[k] == geohash;
            assert(listing.geohashes[k] == geohash);
        }
    }
}

/// A length set for a block and geohash replaces the length set before:
/// the index is as if only the later one had been set, and a snapshot has
/// the geohash with the later length and with no other. The lengths are not
/// added up.
pub proof fn lemma_spatial_overwrite(
    state: IndexState,
    block_id: u64,
    geohash: Seq<char>,
    earlier: u32,
    later: u32,
    blocks: Map<u64, BlockIndexView>,
)
    requires
        shows(
            blocks,
            state.add_spatial(block_id, geohash, earlier).add_spatial(block_id, geohash, later),
        ),
    ensures
        state.add_spatial(block_id, geohash, earlier).add_spatial(block_id, geohash, later)
            == state.add_spatial(block_id, geohash, later),
        blocks.contains_key(block_id),
        blocks[block_id].spatial is Some,
        forall|length: u32|
            #[trigger] blocks[block_id].spatial->0.has_cell(geohash, length) <==> length == later,
{
    let twice = state.add_spatial(block_id, geohash, earlier).add_spatial(block_id, geohash, later);
    let once = state.add_spatial(block_id, geohash, later);
    assert(twice.spatial[block_id] =~= once.spatial[block_id]);
    assert(twice.spatial =~= once.spatial);
    lemma_snapshot_is_faithful(blocks, twice);
    assert(twice.length(block_id, geohash) == Some(later));
    assert forall|length: u32| #[trigger]
        blocks[block_id].spatial->0.has_cell(geohash, length) <==> length == later by {
        assert(twice.length(block_id, geohash) == Some(length) <==> length == later);
    }
}

/// A time range set for a block replaces the range set before: the index is
/// as if only the later one had been set, and a snapshot has the later range
/// for the block. The ranges are not merged.
pub proof fn lemma_temporal_overwrite(
    state: IndexState,
    block_id: u64,
    earlier: (u64, u64),
    later: (u64, u64),
    blocks: Map<u64, BlockIndexView>,
)
    requires
        shows(
            blocks,
            state.add_temporal(block_id, earlier.0, earlier.1).add_temporal(
                block_id,
                later.0,
                later.1,
            ),
        ),
    ensures
        state.add_temporal(block_id, earlier.0, earlier.1).add_temporal(block_id, later.0, later.1)
            == state.add_temporal(block_id, later.0, later.1),
        blocks.contains_key(block_id),
        blocks[block_id].temporal == Some(later),
{
    let twice = state.add_temporal(block_id, earlier.0, earlier.1).add_temporal(
        block_id,
        later.0,
        later.1,
    );
    let once = state.add_temporal(block_id, later.0, later.1);
    assert(twice.temporal =~= once.temporal);
    lemma_snapshot_is_faithful(blocks, twice);
    assert(twice.range(block_id) == Some(later));
}

/// The snapshot of an index that knows no block has no block.
pub proof fn lemma_snapshot_of_empty(blocks: Map<u64, BlockIndexView>)
    requires
        shows(blocks, IndexState::empty()),
    ensures
        blocks == Map::<u64, BlockIndexView>::empty(),
{
    assert(blocks =~= Map::<u64, BlockIndexView>::empty());
}

/// A report that names no block succeeds and leaves the index as it was.
pub proof fn lemma_empty_report(state: IndexState, report: ReportView)
    requires
        report.block_ids.len() == 0,
    ensures
        ingest_report(state, report) == (Outcome { state, error: None }),
{
}

/// Whether the entry at `entry` of `report` sets a length for `geohash` in
/// `block_id` with the geohash at position `pair` of its spatial section.
pub open spec fn writes(
    report: ReportView,
    entry: int,
    pair: int,
    block_id: u64,
    geohash: Seq<char>,
) -> bool {
    &&& 0 <= entry < report.block_ids.len()
    &&& entry < report.block_indices.len()
    &&& report.block_ids[entry] == block_id
    &&& report.block_indices[entry].spatial is Some
    &&& 0 <= pair < report.block_indices[entry].spatial->0.geohashes.len()
    &&& report.block_indices[entry].spatial->0.geohashes[pair] == geohash
}

/// The length that the geohash at `pair` of the entry at `entry` is given.
pub open spec fn written_length(report: ReportView, entry: int, pair: int) -> u32 {
    report.block_indices[entry].spatial->0.length(pair)
}

/// Whether `report` has the last word on a block and geohash at `pair` of
/// the entry at `entry`: nothing that it ingests later sets a length for
/// them.
pub open spec fn last_word(report: ReportView, entry: int, pair: int) -> bool {
    forall|later: int, at: int|
        (later > entry || (later == entry && at > pair)) ==> !#[trigger] writes(
            report,
            later,
            at,
            report.block_ids[entry],
            report.block_indices[entry].spatial->0.geohashes[pair],
        )
}

/// Ingesting geohashes keeps the length of every other block and geohash.
proof fn lemma_pairs_keep(
    state: IndexState,
    entry: int,
    target: u64,
    spatial: SpatialIndexView,
    from: int,
    block_id: u64,
    geohash: Seq<char>,
)
    requires
        0 <= from,
        forall|at: int|
            from <= at < spatial.geohashes.len() && target == block_id ==> #[trigger] spatial.geohashes[at]
                != geohash,
    ensures
        ingest_pairs(state, entry, target, spatial, from).state.length(block_id, geohash)
            == state.length(block_id, geohash),
    decreases spatial.geohashes.len() - from,
{
    if from < spatial.geohashes.len() && spatial.has_range(from) {
        let next = state.add_spatial(target, spatial.geohashes[from], spatial.length(from));
        assert(next.length(block_id, geohash) == state.length(block_id, geohash)) by {
            if target == block_id {
                assert(spatial.geohashes[from] != geohash);
            }
        }
        lemma_pairs_keep(next, entry, target, spatial, from + 1, block_id, geohash);
    }
}

/// Ingesting entries keeps the length of every block and geohash that they
/// set no length for.
proof fn lemma_entries_keep(
    state: IndexState,
    report: ReportView,
    from: int,
    block_id: u64,
    geohash: Seq<char>,
)
    requires
        0 <= from,
        forall|later: int, at: int|
            later >= from ==> !#[trigger] writes(report, later, at, block_id, geohash),
    ensures
        ingest_entries(state, report, from).state.length(block_id, geohash) == state.length(
            block_id,
            geohash,
        ),
    decreases report.block_ids.len() - from,
{
    if from < report.block_ids.len() {
        let first = ingest_entry(state, report, from);
        assert(first.state.length(block_id, geohash) == state.length(block_id, geohash)) by {
            if from < report.block_indices.len() {
                let target = report.block_ids[from];
                if report.block_indices[from].spatial is Some {
                    let spatial = report.block_indices[from].spatial->0;
                    assert forall|at: int|
                        0 <= at < spatial.geohashes.len() && target
                            == block_id implies #[trigger] spatial.geohashes[at] != geohash by {
                        assert(!writes(report, from, at, block_id, geohash));
                    }
                    lemma_pairs_keep(state, from, target, spatial, 0, block_id, geohash);
                }
            }
        }
        if first.error is None {
            lemma_entries_keep(first.state, report, from + 1, block_id, geohash);
        }
    }
}

/// Where the geohashes from `from` on are all ingested, the one at `pair`
/// has its length afterwards if the same geohash does not come again.
proof fn lemma_pairs_set(
    state: IndexState,
    entry: int,
    block_id: u64,
    spatial: SpatialIndexView,
    from: int,
    pair: int,
)
    requires
        0 <= from <= pair < spatial.geohashes.len(),
        ingest_pairs(state, entry, block_id, spatial, from).error is None,
        forall|at: int|
            pair < at < spatial.geohashes.len() ==> #[trigger] spatial.geohashes[at]
                != spatial.geohashes[pair],
    ensures
        spatial.has_range(pair),
        ingest_pairs(state, entry, block_id, spatial, from).state.length(
            block_id,
            spatial.geohashes[pair],
        ) == Some(spatial.length(pair)),
    decreases pair - from,
{
    let next = state.add_spatial(block_id, spatial.geohashes[from], spatial.length(from));
    if from < pair {
        lemma_pairs_set(next, entry, block_id, spatial, from + 1, pair);
    } else {
        assert(next.length(block_id, spatial.geohashes[pair]) == Some(spatial.length(pair)));
        lemma_pairs_keep(
            next,
            entry,
            block_id,
            spatial,
            pair + 1,
            block_id,
            spatial.geohashes[pair],
        );
    }
}

/// Where the entries from `from` on are all ingested, the geohash at `pair`
/// of the entry at `entry` has its length afterwards if the report has its
/// last word on it there.
proof fn lemma_entries_set(state: IndexState, report: ReportView, from: int, entry: int, pair: int)
    requires
        0 <= from <= entry,
        ingest_entries(state, report, from).error is None,
        writes(
            report,
            entry,
            pair,
            report.block_ids[entry],
            report.block_indices[entry].spatial->0.geohashes[pair],
        ),
        last_word(report, entry, pair),
    ensures
        report.block_indices[entry].spatial->0.has_range(pair),
        ingest_entries(state, report, from).state.length(
            report.block_ids[entry],
            report.block_indices[entry].spatial->0.geohashes[pair],
        ) == Some(written_length(report, entry, pair)),
    decreases entry - from,
{
    let block_id = report.block_ids[entry];
    let spatial = report.block_indices[entry].spatial->0;
    let geohash = spatial.geohashes[pair];
    let first = ingest_entry(state, report, from);
    if from < entry {
        lemma_entries_set(first.state, report, from + 1, entry, pair);
    } else {
        assert forall|at: int| pair < at < spatial.geohashes.len() implies #[trigger] spatial.geohashes[at]
            != geohash by {
            assert(!writes(report, entry, at, block_id, geohash));
        }
        lemma_pairs_set(state, entry, block_id, spatial, 0, pair);
        lemma_entries_keep(first.state, report, entry + 1, block_id, geohash);
    }
}

/// After a report that was ingested whole, a snapshot has each block that
/// the report gave a cell, with that cell from index 0 up to its length: the
/// end index less the start index that the report gave.
///
/// The cell is the geohash at `pair` of the entry at `entry`. A report may
/// set a length for the same block and geohash more than once; `last` and
/// `at` say where it does so for the last time. What the snapshot has is
/// the length given there, so the cell's length is required to be the same.
pub proof fn lemma_report_is_visible(
    state: IndexState,
    report: ReportView,
    entry: int,
    pair: int,
    last: int,
    at: int,
    blocks: Map<u64, BlockIndexView>,
)
    requires
        ingest_report(state, report).error is None,
        shows(blocks, ingest_report(state, report).state),
        writes(
            report,
            entry,
            pair,
            report.block_ids[entry],
            report.block_indices[entry].spatial->0.geohashes[pair],
        ),
        writes(
            report,
            last,
            at,
            report.block_ids[entry],
            report.block_indices[entry].spatial->0.geohashes[pair],
        ),
        last_word(report, last, at),
        written_length(report, last, at) == written_length(report, entry, pair),
    ensures
        report.block_indices[entry].spatial->0.has_range(pair),
        blocks.contains_key(report.block_ids[entry]),
        blocks[report.block_ids[entry]].spatial is Some,
        blocks[report.block_ids[entry]].spatial->0.has_cell(
            report.block_indices[entry].spatial->0.geohashes[pair],
            written_length(report, entry, pair),
        ),
{
    lemma_entries_set(state, report, 0, last, at);
    lemma_snapshot_is_faithful(blocks, ingest_report(state, report).state);
    lemma_ranges_are_there(state, report, 0, entry, pair);
}

/// Where the entries from `from` on are all ingested, every geohash of
/// theirs has a start and an end index, the end not below the start.
proof fn lemma_ranges_are_there(state: IndexState, report: ReportView, from: int, entry: int, pair: int)
    requires
        0 <= from <= entry < report.block_ids.len(),
        ingest_entries(state, report, from).error is None,
        entry < report.block_indices.len(),
        report.block_indices[entry].spatial is Some,
        0 <= pair < report.block_indices[entry].spatial->0.geohashes.len(),
    ensures
        report.block_indices[entry].spatial->0.has_range(pair),
    decreases entry - from,
{
    let first = ingest_entry(state, report, from);
    if from < entry {
        lemma_ranges_are_there(first.state, report, from + 1, entry, pair);
    } else {
        lemma_pair_ranges_are_there(
            state,
            entry,
            report.block_ids[entry],
            report.block_indices[entry].spatial->0,
            0,
            pair,
        );
    }
}

/// Where the geohashes from `from` on are all ingested, each has a start
/// and an end index, the end not below the start.
proof fn lemma_pair_ranges_are_there(
    state: IndexState,
    entry: int,
    block_id: u64,
    spatial: SpatialIndexView,
    from: int,
    pair: int,
)
    requires
        0 <= from <= pair < spatial.geohashes.len(),
        ingest_pairs(state, entry, block_id, spatial, from).error is None,
    ensures
        spatial.has_range(pair),
    decreases pair - from,
{
    if from < pair {
        lemma_pair_ranges_are_there(
            state.add_spatial(block_id, spatial.geohashes[from], spatial.length(from)),
            entry,
            block_id,
            spatial,
            from + 1,
            pair,
        );
    }
}

/// Whether the entry at `entry` of `report` sets a time range for
/// `block_id`.
pub open spec fn dates(report: ReportView, entry: int, block_id: u64) -> bool {
    &&& 0 <= entry < report.block_ids.len()
    &&& entry < report.block_indices.len()
    &&& report.block_ids[entry] == block_id
    &&& report.block_indices[entry].temporal is Some
}

/// Whether `report` has the last word on a block's time range at `entry`:
/// no later entry sets a time range for the block.
pub open spec fn last_date(report: ReportView, entry: int) -> bool {
    forall|later: int| later > entry ==> !#[trigger] dates(report, later, report.block_ids[entry])
}

/// Ingesting geohashes changes no time range.
proof fn lemma_pairs_keep_ranges(
    state: IndexState,
    entry: int,
    block_id: u64,
    spatial: SpatialIndexView,
    from: int,
)
    requires
        0 <= from,
    ensures
        ingest_pairs(state, entry, block_id, spatial, from).state.temporal == state.temporal,
    decreases spatial.geohashes.len() - from,
{
    if from < spatial.geohashes.len() && spatial.has_range(from) {
        lemma_pairs_keep_ranges(
            state.add_spatial(block_id, spatial.geohashes[from], spatial.length(from)),
            entry,
            block_id,
            spatial,
            from + 1,
        );
    }
}

/// Ingesting entries keeps the time range of every block that they set no
/// time range for.
proof fn lemma_entries_keep_range(state: IndexState, report: ReportView, from: int, block_id: u64)
    requires
        0 <= from,
        forall|later: int| later >= from ==> !#[trigger] dates(report, later, block_id),
    ensures
        ingest_entries(state, report, from).state.range(block_id) == state.range(block_id),
    decreases report.block_ids.len() - from,
{
    if from < report.block_ids.len() {
        let first = ingest_entry(state, report, from);
        assert(first.state.range(block_id) == state.range(block_id)) by {
            assert(!dates(report, from, block_id));
            if from < report.block_indices.len() && report.block_indices[from].spatial is Some {
                lemma_pairs_keep_ranges(
                    state,
                    from,
                    report.block_ids[from],
                    report.block_indices[from].spatial->0,
                    0,
                );
            }
        }
        if first.error is None {
            lemma_entries_keep_range(first.state, report, from + 1, block_id);
        }
    }
}

/// Where the entries from `from` on are all ingested, the block of the
/// entry at `entry` has that entry's time range afterwards if the report
/// has its last word on it there.
proof fn lemma_entries_set_range(state: IndexState, report: ReportView, from: int, entry: int)
    requires
        0 <= from <= entry,
        ingest_entries(state, report, from).error is None,
        dates(report, entry, report.block_ids[entry]),
        last_date(report, entry),
    ensures
        ingest_entries(state, report, from).state.range(report.block_ids[entry])
            == report.block_indices[entry].temporal,
    decreases entry - from,
{
    let first = ingest_entry(state, report, from);
    if from < entry {
        lemma_entries_set_range(first.state, report, from + 1, entry);
    } else {
        lemma_entries_keep_range(first.state, report, entry + 1, report.block_ids[entry]);
    }
}

/// After a report that was ingested whole, a snapshot has each block that
/// the report gave a time range, with that range.
///
/// The range is that of the entry at `entry`. A report may set a time range
/// for the same block more than once; `last` says where it does so for the
/// last time. What the snapshot has is the range given there, so the
/// entry's range is required to be the same.
pub proof fn lemma_report_range_is_visible(
    state: IndexState,
    report: ReportView,
    entry: int,
    last: int,
    blocks: Map<u64, BlockIndexView>,
)
    requires
        ingest_report(state, report).error is None,
        shows(blocks, ingest_report(state, report).state),
        dates(report, entry, report.block_ids[entry]),
        dates(report, last, report.block_ids[entry]),
        last_date(report, last),
        report.block_indices[last].temporal == report.block_indices[entry].temporal,
    ensures
        blocks.contains_key(report.block_ids[entry]),
        blocks[report.block_ids[entry]].temporal == report.block_indices[entry].temporal,
{
    lemma_entries_set_range(state, report, 0, last);
    lemma_snapshot_is_faithful(blocks, ingest_report(state, report).state);
    assert(ingest_report(state, report).state.range(report.block_ids[entry]) is Some);
}

/// Whether `report` names `block_id`.
pub open spec fn mentions(report: ReportView, block_id: u64) -> bool {
    exists|entry: int| 0 <= entry < report.block_ids.len() && #[trigger] report.block_ids[entry] == block_id
}

/// Whether `left` and `right` hold the same about `block_id`: the same cells
/// or none, and the same time range or none.
pub open spec fn same_at(left: IndexState, right: IndexState, block_id: u64) -> bool {
    &&& left.spatial.contains_key(block_id) == right.spatial.contains_key(block_id)
    &&& left.spatial.contains_key(block_id) ==> left.spatial[block_id] == right.spatial[block_id]
    &&& left.range(block_id) == right.range(block_id)
}

/// Indexes that hold the same about every block are the same index.
proof fn lemma_same_everywhere(left: IndexState, right: IndexState)
    requires
        forall|block_id: u64| same_at(left, right, block_id),
    ensures
        left == right,
{
    assert forall|block_id: u64| #[trigger]
        left.spatial.dom().contains(block_id) == right.spatial.dom().contains(block_id) && (
        left.spatial.dom().contains(block_id) ==> left.spatial[block_id]
            == right.spatial[block_id]) by {
        assert(same_at(left, right, block_id));
    }
    assert(left.spatial =~= right.spatial);
    assert forall|block_id: u64| #[trigger]
        left.temporal.dom().contains(block_id) == right.temporal.dom().contains(block_id) && (
        left.temporal.dom().contains(block_id) ==> left.temporal[block_id]
            == right.temporal[block_id]) by {
        assert(same_at(left, right, block_id));
    }
    assert(left.temporal =~= right.temporal);
}

/// What ingesting geohashes does to a block depends on nothing but what the
/// index held about that block, and whether it fails does not depend on the
/// index at all. Blocks other than the one ingested into are left alone.
proof fn lemma_pairs_are_local(
    left: IndexState,
    right: IndexState,
    entry: int,
    target: u64,
    spatial: SpatialIndexView,
    from: int,
    block_id: u64,
)
    requires
        0 <= from,
    ensures
        ingest_pairs(left, entry, target, spatial, from).error == ingest_pairs(
            right,
            entry,
            target,
            spatial,
            from,
        ).error,
        same_at(left, right, block_id) ==> same_at(
            ingest_pairs(left, entry, target, spatial, from).state,
            ingest_pairs(right, entry, target, spatial, from).state,
            block_id,
        ),
        target != block_id ==> same_at(
            ingest_pairs(left, entry, target, spatial, from).state,
            left,
            block_id,
        ),
    decreases spatial.geohashes.len() - from,
{
    if from < spatial.geohashes.len() && spatial.has_range(from) {
        let geohash = spatial.geohashes[from];
        let length = spatial.length(from);
        lemma_pairs_are_local(
            left.add_spatial(target, geohash, length),
            right.add_spatial(target, geohash, length),
            entry,
            target,
            spatial,
            from + 1,
            block_id,
        );
    }
}

/// What ingesting an entry does to a block depends on nothing but what the
/// index held about that block, and whether it fails does not depend on the
/// index at all. Blocks other than the entry's are left alone.
proof fn lemma_entry_is_local(
    left: IndexState,
    right: IndexState,
    report: ReportView,
    entry: int,
    block_id: u64,
)
    requires
        0 <= entry < report.block_ids.len(),
    ensures
        ingest_entry(left, report, entry).error == ingest_entry(right, report, entry).error,
        same_at(left, right, block_id) ==> same_at(
            ingest_entry(left, report, entry).state,
            ingest_entry(right, report, entry).state,
            block_id,
        ),
        report.block_ids[entry] != block_id ==> same_at(
            ingest_entry(left, report, entry).state,
            left,
            block_id,
        ),
{
    if entry < report.block_indices.len() {
        if report.block_indices[entry].spatial is Some {
            lemma_pairs_are_local(
                left,
                right,
                entry,
                report.block_ids[entry],
                report.block_indices[entry].spatial->0,
                0,
                block_id,
            );
        }
    }
}

/// What ingesting entries does to a block depends on nothing but what the
/// index held about that block, and whether and where it fails does not
/// depend on the index at all.
proof fn lemma_entries_are_local(
    left: IndexState,
    right: IndexState,
    report: ReportView,
    from: int,
    block_id: u64,
)
    requires
        0 <= from,
    ensures
        ingest_entries(left, report, from).error == ingest_entries(right, report, from).error,
        same_at(left, right, block_id) ==> same_at(
            ingest_entries(left, report, from).state,
            ingest_entries(right, report, from).state,
            block_id,
        ),
    decreases report.block_ids.len() - from,
{
    if from < report.block_ids.len() {
        lemma_entry_is_local(left, right, report, from, block_id);
        lemma_entries_are_local(
            ingest_entry(left, report, from).state,
            ingest_entry(right, report, from).state,
            report,
            from + 1,
            block_id,
        );
    }
}

/// Ingesting entries leaves alone every block that none of them names.
proof fn lemma_entries_leave_others(state: IndexState, report: ReportView, from: int, block_id: u64)
    requires
        0 <= from,
        !mentions(report, block_id),
    ensures
        same_at(ingest_entries(state, report, from).state, state, block_id),
    decreases report.block_ids.len() - from,
{
    if from < report.block_ids.len() {
        assert(report.block_ids[from] != block_id);
        lemma_entry_is_local(state, state, report, from, block_id);
        lemma_entries_leave_others(ingest_entry(state, report, from).state, report, from + 1, block_id);
    }
}

/// Whether a report fails, and at which entry, is a matter of the report
/// alone, not of the index that it is ingested into.
pub proof fn lemma_failure_is_the_reports(left: IndexState, right: IndexState, report: ReportView)
    ensures
        ingest_report(left, report).error == ingest_report(right, report).error,
{
    lemma_entries_are_local(left, right, report, 0, 0);
}

/// A report changes nothing about a block that it does not name.
pub proof fn lemma_report_leaves_others(state: IndexState, report: ReportView, block_id: u64)
    requires
        !mentions(report, block_id),
    ensures
        same_at(ingest_report(state, report).state, state, block_id),
{
    lemma_entries_leave_others(state, report, 0, block_id);
}

/// Two reports that name no block in common can be ingested in either
/// order. The index is the same afterwards, each report succeeds or fails
/// as it would alone, and each block holds what its own report alone would
/// have left in it: neither report undoes anything of the other.
pub proof fn lemma_disjoint_reports_commute(state: IndexState, first: ReportView, second: ReportView)
    requires
        forall|block_id: u64| !(mentions(first, block_id) && mentions(second, block_id)),
    ensures
        ingest_report(ingest_report(state, first).state, second).state == ingest_report(
            ingest_report(state, second).state,
            first,
        ).state,
        ingest_report(ingest_report(state, first).state, second).error == ingest_report(
            state,
            second,
        ).error,
        ingest_report(ingest_report(state, second).state, first).error == ingest_report(
            state,
            first,
        ).error,
        forall|block_id: u64|
            mentions(first, block_id) ==> same_at(
                ingest_report(ingest_report(state, first).state, second).state,
                ingest_report(state, first).state,
                block_id,
            ),
        forall|block_id: u64|
            mentions(second, block_id) ==> same_at(
                ingest_report(ingest_report(state, first).state, second).state,
                ingest_report(state, second).state,
                block_id,
            ),
{
    let after_first = ingest_report(state, first).state;
    let after_second = ingest_report(state, second).state;
    let one_way = ingest_report(after_first, second).state;
    let other_way = ingest_report(after_second, first).state;
    lemma_failure_is_the_reports(after_first, state, second);
    lemma_failure_is_the_reports(after_second, state, first);
    assert forall|block_id: u64| #[trigger]
        same_at(one_way, other_way, block_id) && (mentions(first, block_id)
        ==> same_at(one_way, after_first, block_id)) && (mentions(second, block_id) ==> same_at(
        one_way,
        after_second,
        block_id,
    )) by {
        if !mentions(second, block_id) {
            lemma_entries_leave_others(after_first, second, 0, block_id);
            lemma_entries_leave_others(state, second, 0, block_id);
            lemma_entries_are_local(after_second, state, first, 0, block_id);
        }
        if !mentions(first, block_id) {
            lemma_entries_leave_others(after_second, first, 0, block_id);
            lemma_entries_leave_others(state, first, 0, block_id);
            lemma_entries_are_local(after_first, state, second, 0, block_id);
        }
    }
    lemma_same_everywhere(one_way, other_way);
    assert forall|block_id: u64| mentions(first, block_id) implies same_at(
        one_way,
        after_first,
        block_id,
    ) by {
        assert(same_at(one_way, other_way, block_id));
    }
    assert forall|block_id: u64| mentions(second, block_id) implies same_at(
        one_way,
        after_second,
        block_id,
    ) by {
        assert(same_at(one_way, other_way, block_id));
    }
}

/// Ingesting up to an entry and then going on from it is ingesting all.
proof fn lemma_entries_split(state: IndexState, report: ReportView, from: int, stop: int)
    requires
        0 <= from <= stop <= report.block_ids.len(),
        ingest_entries(state, report.first_entries(stop), from).error is None,
    ensures
        ingest_entries(state, report, from) == ingest_entries(
            ingest_entries(state, report.first_entries(stop), from).state,
            report,
            stop,
        ),
    decreases stop - from,
{
    let head = report.first_entries(stop);
    if from < stop {
        assert(head.block_ids[from] == report.block_ids[from]);
        assert(ingest_entry(state, head, from) == ingest_entry(state, report, from));
        lemma_entries_split(ingest_entry(state, report, from).state, report, from + 1, stop);
    }
}

/// A batch is not atomic. Where the entries before `entry` are ingested
/// whole and the one at `entry` fails, the report ends there: its error is
/// that entry's, and the index keeps what the entries before it and the
/// geohashes before the faulty one have put in. Nothing is rolled back and
/// nothing after it is ingested.
pub proof fn lemma_batch_stops_at_first_failure(state: IndexState, report: ReportView, entry: int)
    requires
        0 <= entry < report.block_ids.len(),
        ingest_report(state, report.first_entries(entry)).error is None,
        ingest_entry(ingest_report(state, report.first_entries(entry)).state, report, entry).error
            is Some,
    ensures
        ingest_report(state, report) == ingest_entry(
            ingest_report(state, report.first_entries(entry)).state,
            report,
            entry,
        ),
{
    lemma_entries_split(state, report, 0, entry);
}

/// A report that is ingested whole is ingested entry by entry: cut down to
/// any number of its entries it is ingested whole too, and what is left
/// goes on from there.
pub proof fn lemma_report_goes_entry_by_entry(state: IndexState, report: ReportView, count: int)
    requires
        0 <= count <= report.block_ids.len(),
        ingest_report(state, report).error is None,
    ensures
        ingest_report(state, report.first_entries(count)).error is None,
        ingest_report(state, report) == ingest_entries(
            ingest_report(state, report.first_entries(count)).state,
            report,
            count,
        ),
{
    lemma_head_succeeds(state, report, 0, count);
    lemma_entries_split(state, report, 0, count);
}

/// Where the entries from `from` on are all ingested, so are those up to
/// `stop`.
proof fn lemma_head_succeeds(state: IndexState, report: ReportView, from: int, stop: int)
    requires
        0 <= from <= stop <= report.block_ids.len(),
        ingest_entries(state, report, from).error is None,
    ensures
        ingest_entries(state, report.first_entries(stop), from).error is None,
    decreases stop - from,
{
    let head = report.first_entries(stop);
    if from < stop {
        assert(head.block_ids[from] == report.block_ids[from]);
        assert(ingest_entry(state, head, from) == ingest_entry(state, report, from));
        lemma_head_succeeds(ingest_entry(state, report, from).state, report, from + 1, stop);
    }
}

/// Setting a length in what is laid over an index is setting it in the
/// whole.
proof fn lemma_overlay_add_spatial(
    under: IndexState,
    over: IndexState,
    block_id: u64,
    geohash: Seq<char>,
    length: u32,
)
    ensures
        under.overlaid(over).add_spatial(block_id, geohash, length) == under.overlaid(
            over.add_spatial(block_id, geohash, length),
        ),
{
    let left = under.overlaid(over).add_spatial(block_id, geohash, length);
    let right = under.overlaid(over.add_spatial(block_id, geohash, length));
    assert(under.overlaid(over).cells(block_id) =~= under.cells(block_id).union_prefer_right(
        over.cells(block_id),
    ));
    assert forall|b: u64| #[trigger]
        left.spatial.dom().contains(b) == right.spatial.dom().contains(b) && (
        left.spatial.dom().contains(b) ==> left.spatial[b] == right.spatial[b]) by {
        if left.spatial.dom().contains(b) {
            assert(left.spatial[b] =~= right.spatial[b]);
        }
    }
    assert(left.spatial =~= right.spatial);
}

/// Setting a time range in what is laid over an index is setting it in the
/// whole.
proof fn lemma_overlay_add_temporal(
    under: IndexState,
    over: IndexState,
    block_id: u64,
    start: u64,
    end: u64,
)
    ensures
        under.overlaid(over).add_temporal(block_id, start, end) == under.overlaid(
            over.add_temporal(block_id, start, end),
        ),
{
    let left = under.overlaid(over).add_temporal(block_id, start, end);
    let right = under.overlaid(over.add_temporal(block_id, start, end));
    assert(left.temporal =~= right.temporal);
    assert(left.spatial =~= right.spatial);
}

/// Ingesting geohashes into what is laid over an index is ingesting them
/// into the whole.
proof fn lemma_pairs_lay_over(
    under: IndexState,
    over: IndexState,
    entry: int,
    block_id: u64,
    spatial: SpatialIndexView,
    from: int,
)
    requires
        0 <= from,
    ensures
        ingest_pairs(under.overlaid(over), entry, block_id, spatial, from).state == under.overlaid(
            ingest_pairs(over, entry, block_id, spatial, from).state,
        ),
        ingest_pairs(under.overlaid(over), entry, block_id, spatial, from).error == ingest_pairs(
            over,
            entry,
            block_id,
            spatial,
            from,
        ).error,
    decreases spatial.geohashes.len() - from,
{
    if from < spatial.geohashes.len() && spatial.has_range(from) {
        let geohash = spatial.geohashes[from];
        let length = spatial.length(from);
        lemma_overlay_add_spatial(under, over, block_id, geohash, length);
        lemma_pairs_lay_over(
            under,
            over.add_spatial(block_id, geohash, length),
            entry,
            block_id,
            spatial,
            from + 1,
        );
    }
}

/// Ingesting entries into what is laid over an index is ingesting them into
/// the whole.
proof fn lemma_entries_lay_over(under: IndexState, over: IndexState, report: ReportView, from: int)
    requires
        0 <= from,
    ensures
        ingest_entries(under.overlaid(over), report, from).state == under.overlaid(
            ingest_entries(over, report, from).state,
        ),
        ingest_entries(under.overlaid(over), report, from).error == ingest_entries(
            over,
            report,
            from,
        ).error,
    decreases report.block_ids.len() - from,
{
    if from < report.block_ids.len() {
        let whole = ingest_entry(under.overlaid(over), report, from);
        let part = ingest_entry(over, report, from);
        assert(whole.state == under.overlaid(part.state) && whole.error == part.error) by {
            if from < report.block_indices.len() {
                let block_id = report.block_ids[from];
                let block_index = report.block_indices[from];
                let cells = match block_index.spatial {
                    Some(spatial) => ingest_pairs(over, from, block_id, spatial, 0),
                    None => Outcome { state: over, error: None },
                };
                if block_index.spatial is Some {
                    lemma_pairs_lay_over(under, over, from, block_id, block_index.spatial->0, 0);
                }
                if cells.error is None && block_index.temporal is Some {
                    let range = block_index.temporal->0;
                    lemma_overlay_add_temporal(under, cells.state, block_id, range.0, range.1);
                }
            }
        }
        if part.error is None {
            lemma_entries_lay_over(under, part.state, report, from + 1);
        }
    }
}

/// What a report does to an index is the same whatever the index holds: the
/// index afterwards is the index before with the report's own content laid
/// over it, which is what the report would leave in an empty index. Nothing
/// in a report adds to, merges with or depends on what was there.
pub proof fn lemma_report_lays_over(state: IndexState, report: ReportView)
    ensures
        ingest_report(state, report).state == state.overlaid(
            ingest_report(IndexState::empty(), report).state,
        ),
        ingest_report(state, report).error == ingest_report(IndexState::empty(), report).error,
{
    let nothing = IndexState::empty();
    assert(state.overlaid(nothing) == state) by {
        let laid = state.overlaid(nothing);
        assert forall|b: u64| #[trigger]
            laid.spatial.dom().contains(b) == state.spatial.dom().contains(b) && (
            laid.spatial.dom().contains(b) ==> laid.spatial[b] == state.spatial[b]) by {
            if laid.spatial.dom().contains(b) {
                assert(laid.spatial[b] =~= state.spatial[b]);
            }
        }
        assert(laid.spatial =~= state.spatial);
        assert(laid.temporal =~= state.temporal);
    }
    lemma_entries_lay_over(state, nothing, report, 0);
}

/// A report can be sent again: ingesting it a second time fails or
/// succeeds as the first time and leaves the index as the first time left
/// it, also where the report fails part of the way.
pub proof fn lemma_retry_changes_nothing(state: IndexState, report: ReportView)
    ensures
        ingest_report(ingest_report(state, report).state, report) == ingest_report(state, report),
{
    let own = ingest_report(IndexState::empty(), report).state;
    let once = ingest_report(state, report).state;
    lemma_report_lays_over(state, report);
    lemma_report_lays_over(once, report);
    let twice = once.overlaid(own);
    assert(twice == once) by {
        assert forall|b: u64| #[trigger]
            twice.spatial.dom().contains(b) == once.spatial.dom().contains(b) && (
            twice.spatial.dom().contains(b) ==> twice.spatial[b] == once.spatial[b]) by {
            if twice.spatial.dom().contains(b) {
                assert(twice.spatial[b] =~= once.spatial[b]);
            }
        }
        assert(twice.spatial =~= once.spatial);
        assert(twice.temporal =~= once.temporal);
    }
}

/// Every method is found under its own name, so no two methods share one.
pub proof fn lemma_methods_have_their_names(method: Method)
    ensures
        Method::named(method.wire_name()) == Some(method),
{
    reveal_strlit("getStoragePolicy");
    reveal_strlit("indexReport");
    reveal_strlit("indexView");
    reveal_strlit("inodePersist");
    assert("getStoragePolicy"@.len() == 16);
    assert("indexReport"@.len() == 11);
    assert("indexView"@.len() == 9);
    assert("inodePersist"@.len() == 12);
}

} // verus!
