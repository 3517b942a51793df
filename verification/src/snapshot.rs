//! What a combined snapshot of the index has to show.

use vstd::prelude::*;
use crate::index::IndexState;
use crate::message::BlockIndexView;

verus! {

/// Whether `block` shows what `state` holds about `block_id`: a listing of
/// its cells if it has any, and its time range if it has one.
pub open spec fn block_shows(block: BlockIndexView, state: IndexState, block_id: u64) -> bool {
    &&& match block.spatial {
        Some(spatial) => state.spatial.contains_key(block_id) && spatial.lists(
            state.spatial[block_id],
        ),
        None => !state.spatial.contains_key(block_id),
    }
    &&& block.temporal == state.range(block_id)
}

/// Whether `blocks` is a snapshot of `state`: it has the blocks that `state`
/// holds cells or a time range for, no others, and shows each of them. The
/// order of a block's geohashes is left open.
pub open spec fn shows(blocks: Map<u64, BlockIndexView>, state: IndexState) -> bool {
    &&& forall|block_id: u64|
        blocks.contains_key(block_id) <==> state.spatial.contains_key(block_id)
            || state.temporal.contains_key(block_id)
    &&& forall|block_id: u64|
        blocks.contains_key(block_id) ==> block_shows(#[trigger] blocks[block_id], state, block_id)
}

} // verus!
