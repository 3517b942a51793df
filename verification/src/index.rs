//! The in-memory index: which geohash cells and which time range each block
//! covers.

use vstd::prelude::*;
use std::collections::HashMap;
use crate::error::IndexError;
use crate::message::SpatialIndex;
use crate::text::same_text;

verus! {

broadcast use vstd::std_specs::hash::group_hash_axioms;

/// The content of an [`Index`]: per block, the length recorded for each
/// geohash, and per block, one time range. A block may be in neither map, in
/// one, or in both.
#[verifier::ext_equal]
pub struct IndexState {
    pub spatial: Map<u64, Map<Seq<char>, u32>>,
    pub temporal: Map<u64, (u64, u64)>,
}

impl IndexState {
    /// The index that knows no block.
    pub open spec fn empty() -> IndexState {
        IndexState { spatial: Map::empty(), temporal: Map::empty() }
    }

    /// The cells recorded for `block_id`; none if the block is unknown.
    pub open spec fn cells(self, block_id: u64) -> Map<Seq<char>, u32> {
        if self.spatial.contains_key(block_id) {
            self.spatial[block_id]
        } else {
            Map::empty()
        }
    }

    /// The length recorded for `geohash` in `block_id`, if any.
    pub open spec fn length(self, block_id: u64, geohash: Seq<char>) -> Option<u32> {
        if self.cells(block_id).contains_key(geohash) {
            Some(self.cells(block_id)[geohash])
        } else {
            None
        }
    }

    /// The time range recorded for `block_id`, if any.
    pub open spec fn range(self, block_id: u64) -> Option<(u64, u64)> {
        if self.temporal.contains_key(block_id) {
            Some(self.temporal[block_id])
        } else {
            None
        }
    }

    /// This index with `over` laid over it: what `over` holds stands, and
    /// what it is silent about is as in this index.
    pub open spec fn overlaid(self, over: IndexState) -> IndexState {
        IndexState {
            spatial: Map::new(
                |b: u64| self.spatial.contains_key(b) || over.spatial.contains_key(b),
                |b: u64| self.cells(b).union_prefer_right(over.cells(b)),
            ),
            temporal: self.temporal.union_prefer_right(over.temporal),
        }
    }

    /// Sets the length of `geohash` in `block_id`, whatever it was before.
    pub open spec fn add_spatial(self, block_id: u64, geohash: Seq<char>, length: u32) -> IndexState {
        IndexState {
            spatial: self.spatial.insert(block_id, self.cells(block_id).insert(geohash, length)),
            temporal: self.temporal,
        }
    }

    /// Sets the time range of `block_id`, whatever it was before.
    pub open spec fn add_temporal(self, block_id: u64, start: u64, end: u64) -> IndexState {
        IndexState { spatial: self.spatial, temporal: self.temporal.insert(block_id, (start, end)) }
    }
}

struct Cell {
    geohash: String,
    length: u32,
}

/// Whether no geohash is held twice in `cells`.
spec fn distinct(cells: Seq<Cell>) -> bool {
    forall|i: int, j: int| 0 <= i < j < cells.len() ==> cells[i].geohash@ != cells[j].geohash@
}

/// Whether `geohash` is held at position `i` of `cells`.
spec fn held_at(cells: Seq<Cell>, geohash: Seq<char>, i: int) -> bool {
    0 <= i < cells.len() && cells[i].geohash@ == geohash
}

/// The map from each geohash held in `cells` to the length beside it.
spec fn content(cells: Seq<Cell>) -> Map<Seq<char>, u32> {
    Map::new(
        |g: Seq<char>| exists|i: int| held_at(cells, g, i),
        |g: Seq<char>| cells[choose|i: int| held_at(cells, g, i)].length,
    )
}

/// Where no geohash is held twice, the content has each cell's length under
/// the cell's geohash.
proof fn lemma_content_at(cells: Seq<Cell>, i: int)
    requires
        distinct(cells),
        0 <= i < cells.len(),
    ensures
        content(cells).contains_key(cells[i].geohash@),
        content(cells)[cells[i].geohash@] == cells[i].length,
{
    let g = cells[i].geohash@;
    assert(held_at(cells, g, i));
    let k = choose|k: int| held_at(cells, g, k);
    assert(held_at(cells, g, k));
    assert(k == i);
}

/// Overwriting the length at position `i` keeps the geohashes distinct and
/// puts `length` under that position's geohash.
proof fn lemma_content_overwrite(before: Seq<Cell>, after: Seq<Cell>, i: int, length: u32)
    requires
        distinct(before),
        0 <= i < before.len(),
        after.len() == before.len(),
        after[i].geohash@ == before[i].geohash@,
        after[i].length == length,
        forall|k: int| 0 <= k < before.len() && k != i ==> after[k] == before[k],
    ensures
        distinct(after),
        content(after) == content(before).insert(before[i].geohash@, length),
{
    let geohash = before[i].geohash@;
    assert forall|k: int| 0 <= k < after.len() implies after[k].geohash@ == before[k].geohash@ by {}
    let wanted = content(before).insert(geohash, length);
    assert forall|g: Seq<char>| content(after).contains_key(g) <==> wanted.contains_key(g) by {
        if content(after).contains_key(g) {
            let k = choose|k: int| held_at(after, g, k);
            assert(held_at(before, g, k));
        }
        if content(before).contains_key(g) {
            let k = choose|k: int| held_at(before, g, k);
            assert(held_at(after, g, k));
        }
        if g == geohash {
            assert(held_at(after, g, i));
        }
    }
    assert forall|g: Seq<char>| content(after).contains_key(g) implies content(after)[g]
        == wanted[g] by {
        let k = choose|k: int| held_at(after, g, k);
        lemma_content_at(after, k);
        lemma_content_at(before, k);
    }
    assert(content(after) =~= wanted);
}

/// Appending a geohash that is not held keeps the geohashes distinct and
/// puts `length` under it.
proof fn lemma_content_append(before: Seq<Cell>, after: Seq<Cell>, geohash: Seq<char>, length: u32)
    requires
        distinct(before),
        forall|k: int| 0 <= k < before.len() ==> before[k].geohash@ != geohash,
        after.len() == before.len() + 1,
        after[before.len() as int].geohash@ == geohash,
        after[before.len() as int].length == length,
        forall|k: int| 0 <= k < before.len() ==> after[k] == before[k],
    ensures
        distinct(after),
        content(after) == content(before).insert(geohash, length),
{
    let last = before.len() as int;
    let wanted = content(before).insert(geohash, length);
    assert forall|g: Seq<char>| content(after).contains_key(g) <==> wanted.contains_key(g) by {
        if content(after).contains_key(g) {
            let k = choose|k: int| held_at(after, g, k);
            if k < last {
                assert(held_at(before, g, k));
            }
        }
        if content(before).contains_key(g) {
            let k = choose|k: int| held_at(before, g, k);
            assert(held_at(after, g, k));
        }
        if g == geohash {
            assert(held_at(after, g, last));
        }
    }
    assert forall|g: Seq<char>| content(after).contains_key(g) implies content(after)[g]
        == wanted[g] by {
        let k = choose|k: int| held_at(after, g, k);
        lemma_content_at(after, k);
        if k < last {
            lemma_content_at(before, k);
        }
    }
    assert(content(after) =~= wanted);
}

/// The cells of one block: a length for each of its geohashes.
pub struct SpatialEntry {
    cells: Vec<Cell>,
}

impl View for SpatialEntry {
    type V = Map<Seq<char>, u32>;

    closed spec fn view(&self) -> Map<Seq<char>, u32> {
        content(self.cells@)
    }
}

impl SpatialEntry {
    #[verifier::type_invariant]
    spec fn well_formed(self) -> bool {
        distinct(self.cells@)
    }

    /// An entry without cells.
    pub fn new() -> (entry: SpatialEntry)
        ensures
            entry@ == Map::<Seq<char>, u32>::empty(),
    {
        let entry = SpatialEntry { cells: Vec::new() };
        assert forall|g: Seq<char>| !entry@.contains_key(g) by {
            assert forall|i: int| !held_at(entry.cells@, g, i) by {}
        }
        assert(entry@ =~= Map::<Seq<char>, u32>::empty());
        entry
    }

    /// The position of `geohash` among the cells.
    fn position(&self, geohash: &str) -> (found: Option<usize>)
        ensures
            match found {
                Some(i) => i < self.cells@.len() && self.cells@[i as int].geohash@ == geohash@,
                None => forall|k: int| 0 <= k < self.cells@.len() ==> self.cells@[k].geohash@ != geohash@,
            },
    {
        let mut i: usize = 0;
        while i < self.cells.len()
            invariant
                i <= self.cells@.len(),
                forall|k: int| 0 <= k < i ==> self.cells@[k].geohash@ != geohash@,
            decreases self.cells@.len() - i,
        {
            if same_text(self.cells[i].geohash.as_str(), geohash) {
                return Some(i);
            }
            i += 1;
        }
        None
    }

    /// The length recorded for `geohash`, if any.
    pub fn get(&self, geohash: &str) -> (length: Option<u32>)
        ensures
            length == (if self@.contains_key(geohash@) {
                Some(self@[geohash@])
            } else {
                None
            }),
    {
        proof {
            use_type_invariant(self);
        }
        match self.position(geohash) {
            Some(i) => {
                proof {
                    lemma_content_at(self.cells@, i as int);
                }
                Some(self.cells[i].length)
            },
            None => {
                assert forall|k: int| !held_at(self.cells@, geohash@, k) by {}
                None
            },
        }
    }

    /// This entry with `length` recorded for `geohash`, in place of what was
    /// recorded for it.
    pub fn with_cell(self, geohash: &str, length: u32) -> (entry: SpatialEntry)
        ensures
            entry@ == self@.insert(geohash@, length),
    {
        proof {
            use_type_invariant(&self);
        }
        let found = self.position(geohash);
        let ghost before = self.cells@;
        let mut cells = self.cells;
        match found {
            Some(i) => {
                cells[i].length = length;
                proof {
                    lemma_content_overwrite(before, cells@, i as int, length);
                }
            },
            None => {
                cells.push(Cell { geohash: geohash.to_owned(), length });
                proof {
                    lemma_content_append(before, cells@, geohash@, length);
                }
            },
        }
        SpatialEntry { cells }
    }

    /// A listing of the cells: every geohash once, from index 0 up to its
    /// length.
    pub fn listing(&self) -> (listing: SpatialIndex)
        ensures
            listing@.lists(self@),
    {
        proof {
            use_type_invariant(self);
        }
        let mut geohashes: Vec<String> = Vec::new();
        let mut start_indices: Vec<u32> = Vec::new();
        let mut end_indices: Vec<u32> = Vec::new();
        let mut i: usize = 0;
        while i < self.cells.len()
            invariant
                i <= self.cells@.len(),
                geohashes@.len() == i,
                start_indices@.len() == i,
                end_indices@.len() == i,
                forall|k: int|
                    #![trigger self.cells@[k]]
                    0 <= k < i ==> {
                        &&& geohashes@[k]@ == self.cells@[k].geohash@
                        &&& start_indices@[k] == 0
                        &&& end_indices@[k] == self.cells@[k].length
                    },
            decreases self.cells@.len() - i,
        {
            geohashes.push(self.cells[i].geohash.clone());
            start_indices.push(0);
            end_indices.push(self.cells[i].length);
            i += 1;
        }
        let listing = SpatialIndex { geohashes, start_indices, end_indices };
        proof {
            let cells = self.cells@;
            let listed = listing@.geohashes;
            assert forall|j: int| 0 <= j < listed.len() implies {
                &&& self@.contains_key(#[trigger] listed[j])
                &&& listing@.start_indices[j] == 0
                &&& listing@.end_indices[j] == self@[listed[j]]
            } by {
                assert(listed[j] == cells[j].geohash@);
                lemma_content_at(cells, j);
            }
            assert forall|j: int, k: int| 0 <= j < k < listed.len() implies listed[j] != listed[k] by {
                assert(listed[j] == cells[j].geohash@);
                assert(listed[k] == cells[k].geohash@);
            }
            assert forall|g: Seq<char>| self@.contains_key(g) implies listed.contains(g) by {
                let k = choose|k: int| held_at(cells, g, k);
                assert(listed[k] == g);
            }
        }
        listing
    }
}

/// The index store: the cells and the time range of each block.
pub struct Index {
    spatial_map: HashMap<u64, SpatialEntry>,
    temporal_map: HashMap<u64, (u64, u64)>,
}

/// The cells of each block of `entries`.
pub open spec fn spatial_content(entries: Map<u64, SpatialEntry>) -> Map<u64, Map<Seq<char>, u32>> {
    Map::new(|b: u64| entries.contains_key(b), |b: u64| entries[b]@)
}

impl View for Index {
    type V = IndexState;

    closed spec fn view(&self) -> IndexState {
        IndexState { spatial: spatial_content(self.spatial_map@), temporal: self.temporal_map@ }
    }
}

impl Index {
    /// An index that knows no block.
    pub fn new() -> (index: Index)
        ensures
            index@ == IndexState::empty(),
    {
        let index = Index { spatial_map: HashMap::new(), temporal_map: HashMap::new() };
        assert(index@ =~= IndexState::empty());
        index
    }

    /// Sets the length of `geohash` in `block_id`. A length set earlier for
    /// the same block and geohash is replaced, not added to. Every input is
    /// accepted.
    pub fn add_spatial_index(&mut self, block_id: u64, geohash: &str, length: u32) -> (result: Result<
        (),
        IndexError,
    >)
        ensures
            result is Ok,
            final(self)@ == old(self)@.add_spatial(block_id, geohash@, length),
    {
        let entry = match self.spatial_map.remove(&block_id) {
            Some(entry) => entry,
            None => SpatialEntry::new(),
        };
        self.spatial_map.insert(block_id, entry.with_cell(geohash, length));
        assert(self@ =~= old(self)@.add_spatial(block_id, geohash@, length));
        Ok(())
    }

    /// Sets the time range of `block_id`. A range set earlier for the block
    /// is discarded, not merged. Every input is accepted; `start_timestamp`
    /// may lie after `end_timestamp`.
    pub fn add_temporal_index(
        &mut self,
        block_id: u64,
        start_timestamp: u64,
        end_timestamp: u64,
    ) -> (result: Result<(), IndexError>)
        ensures
            result is Ok,
            final(self)@ == old(self)@.add_temporal(block_id, start_timestamp, end_timestamp),
    {
        self.temporal_map.insert(block_id, (start_timestamp, end_timestamp));
        assert(self@ =~= old(self)@.add_temporal(block_id, start_timestamp, end_timestamp));
        Ok(())
    }

    /// The cells of every block that has any.
    pub fn get_spatial_index(&self) -> (spatial_map: &HashMap<u64, SpatialEntry>)
        ensures
            spatial_content(spatial_map@) == self@.spatial,
    {
        &self.spatial_map
    }

    /// The time range of every block that has one.
    pub fn get_temporal_index(&self) -> (temporal_map: &HashMap<u64, (u64, u64)>)
        ensures
            temporal_map@ == self@.temporal,
    {
        &self.temporal_map
    }
}

} // verus!
