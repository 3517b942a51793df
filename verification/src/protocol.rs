//! The request handlers of the index protocol.
//!
//! A handler works on decoded requests and on the store that its caller has
//! locked for it, and hands back the response to encode. The caller owns the
//! locks, the wire format and the file system.

use vstd::prelude::*;
use std::collections::HashMap;
use vstd::std_specs::iter::IteratorSpec;
use crate::error::{IndexError, NahFSError};
use crate::index::{spatial_content, Index};
use crate::message::{
    BlockIndex, GetStoragePolicyRequest, GetStoragePolicyResponse, IndexReportRequest,
    IndexReportResponse, IndexViewRequest, IndexViewResponse, InodePersistRequest, SpatialIndex,
    TemporalIndex,
};
use crate::report::{ingest_entries, ingest_pairs, ingest_report};
use crate::snapshot::{block_shows, shows};
use crate::text::same_text;

verus! {

broadcast use vstd::std_specs::hash::group_hash_axioms;

/// A request that the protocol answers.
#[derive(Debug, Clone, Copy, PartialEq, Eq, Structural)]
pub enum Method {
    GetStoragePolicy,
    IndexReport,
    IndexView,
    InodePersist,
}

/// One of the two stores behind the protocol. Each has a lock of its own.
#[derive(Debug, Clone, Copy, PartialEq, Eq, Structural)]
pub enum Store {
    /// The inode table and the registry of storage policies.
    Metadata,
    /// The spatial and temporal index.
    Index,
}

/// How a request holds the lock of its store.
#[derive(Debug, Clone, Copy, PartialEq, Eq, Structural)]
pub enum Access {
    /// Together with other readers.
    Shared,
    /// Alone.
    Exclusive,
}

impl Method {
    /// The method that goes by `name` on the wire, if there is one.
    pub open spec fn named(name: Seq<char>) -> Option<Method> {
        if name == "getStoragePolicy"@ {
            Some(Method::GetStoragePolicy)
        } else if name == "indexReport"@ {
            Some(Method::IndexReport)
        } else if name == "indexView"@ {
            Some(Method::IndexView)
        } else if name == "inodePersist"@ {
            Some(Method::InodePersist)
        } else {
            None
        }
    }

    /// The name of this method on the wire.
    pub open spec fn wire_name(self) -> Seq<char> {
        match self {
            Method::GetStoragePolicy => "getStoragePolicy"@,
            Method::IndexReport => "indexReport"@,
            Method::IndexView => "indexView"@,
            Method::InodePersist => "inodePersist"@,
        }
    }

    /// The store that this method works on. No method works on both.
    pub open spec fn spec_store(self) -> Store {
        match self {
            Method::GetStoragePolicy | Method::InodePersist => Store::Metadata,
            Method::IndexReport | Method::IndexView => Store::Index,
        }
    }

    /// How this method holds the lock of its store: alone only where it
    /// changes the store.
    pub open spec fn spec_access(self) -> Access {
        match self {
            Method::IndexReport => Access::Exclusive,
            _ => Access::Shared,
        }
    }

    /// Finds the method that a request names. A name that belongs to no
    /// method gives `None`: such a request is answered with nothing, neither
    /// a response nor an error.
    pub fn from_name(name: &str) -> (method: Option<Method>)
        ensures
            method == Method::named(name@),
    {
        if same_text(name, "getStoragePolicy") {
            Some(Method::GetStoragePolicy)
        } else if same_text(name, "indexReport") {
            Some(Method::IndexReport)
        } else if same_text(name, "indexView") {
            Some(Method::IndexView)
        } else if same_text(name, "inodePersist") {
            Some(Method::InodePersist)
        } else {
            None
        }
    }

    /// The name of this method on the wire.
    pub fn name(self) -> (name: &'static str)
        ensures
            name@ == self.wire_name(),
    {
        match self {
            Method::GetStoragePolicy => "getStoragePolicy",
            Method::IndexReport => "indexReport",
            Method::IndexView => "indexView",
            Method::InodePersist => "inodePersist",
        }
    }

    /// The store that this method works on.
    #[verifier::when_used_as_spec(spec_store)]
    pub fn store(self) -> (store: Store)
        ensures
            store == self.spec_store(),
    {
        match self {
            Method::GetStoragePolicy | Method::InodePersist => Store::Metadata,
            Method::IndexReport | Method::IndexView => Store::Index,
        }
    }

    /// How this method holds the lock of its store.
    #[verifier::when_used_as_spec(spec_access)]
    pub fn access(self) -> (access: Access)
        ensures
            access == self.spec_access(),
    {
        match self {
            Method::IndexReport => Access::Exclusive,
            _ => Access::Shared,
        }
    }
}

/// The one write that persisting a snapshot asks for: `contents` become the
/// whole of the file at `path`, in place of what the file held.
#[derive(Debug, Clone, PartialEq, Eq)]
pub struct PersistWrite {
    pub path: String,
    pub contents: Vec<u8>,
}

/// The handler of the index protocol's requests.
pub struct NahFSProtocol {
    persist_path: String,
}

/// Ingests the geohashes of `spatial` into `block_id`, in order, up to the
/// first that has no length.
fn ingest_spatial(index: &mut Index, entry: usize, block_id: u64, spatial: &SpatialIndex) -> (result:
    Result<(), NahFSError>)
    ensures
        final(index)@ == ingest_pairs(old(index)@, entry as int, block_id, spatial@, 0).state,
        match ingest_pairs(old(index)@, entry as int, block_id, spatial@, 0).error {
            None => result is Ok,
            Some(fault) => result == Err::<(), NahFSError>(NahFSError::Index(fault)),
        },
{
    let mut j: usize = 0;
    while j < spatial.geohashes.len()
        invariant
            j <= spatial.geohashes@.len(),
            ingest_pairs(index@, entry as int, block_id, spatial@, j as int) == ingest_pairs(
                old(index)@,
                entry as int,
                block_id,
                spatial@,
                0,
            ),
        decreases spatial.geohashes@.len() - j,
    {
        if j >= spatial.start_indices.len() || j >= spatial.end_indices.len() {
            return Err(NahFSError::Index(IndexError::MissingRange { entry, pair: j }));
        }
        let start = spatial.start_indices[j];
        let end = spatial.end_indices[j];
        if start > end {
            return Err(NahFSError::Index(IndexError::InvertedRange { entry, pair: j }));
        }
        match index.add_spatial_index(block_id, spatial.geohashes[j].as_str(), end - start) {
            Ok(()) => {},
            Err(fault) => {
                return Err(NahFSError::Index(fault));
            },
        }
        j += 1;
    }
    Ok(())
}

impl NahFSProtocol {
    /// The file that snapshots of the metadata store are written to.
    pub closed spec fn path(&self) -> Seq<char> {
        self.persist_path@
    }

    /// A handler that persists snapshots to the file at `persist_path`.
    pub fn new(persist_path: &str) -> (protocol: NahFSProtocol)
        ensures
            protocol.path() == persist_path@,
    {
        NahFSProtocol { persist_path: persist_path.to_owned() }
    }

    /// The file that snapshots of the metadata store are written to.
    pub fn persist_path(&self) -> (path: &str)
        ensures
            path@ == self.path(),
    {
        self.persist_path.as_str()
    }

    /// Answers with the name of the storage policy that `request` asks for.
    /// `policy` is what the metadata store holds under `request.id`; where it
    /// holds nothing, the request fails and there is no response.
    pub fn get_storage_policy(&self, request: &GetStoragePolicyRequest, policy: Option<&str>) -> (result:
        Result<GetStoragePolicyResponse, NahFSError>)
        ensures
            match policy {
                Some(name) => result is Ok && result->Ok_0.storage_policy@ == name@,
                None => result == Err::<GetStoragePolicyResponse, NahFSError>(
                    NahFSError::NotFound { id: request.id },
                ),
            },
    {
        match policy {
            Some(name) => Ok(GetStoragePolicyResponse { storage_policy: name.to_owned() }),
            None => Err(NahFSError::NotFound { id: request.id }),
        }
    }

    /// Says where `snapshot`, the serialised metadata store, is to be
    /// written: the whole of it to the configured file, as a full rewrite.
    pub fn inode_persist(&self, request: &InodePersistRequest, snapshot: Vec<u8>) -> (write:
        PersistWrite)
        ensures
            write.path@ == self.path(),
            write.contents@ == snapshot@,
    {
        PersistWrite { path: self.persist_path.clone(), contents: snapshot }
    }

    /// Ingests `request` into `index`, entry by entry in the order given.
    /// The first malformed entry stops the batch and is the error; what was
    /// ingested before it stays in `index`.
    pub fn index_report(&self, index: &mut Index, request: &IndexReportRequest) -> (result: Result<
        IndexReportResponse,
        NahFSError,
    >)
        ensures
            final(index)@ == ingest_report(old(index)@, request@).state,
            match ingest_report(old(index)@, request@).error {
                None => result is Ok,
                Some(fault) => result == Err::<IndexReportResponse, NahFSError>(
                    NahFSError::Index(fault),
                ),
            },
    {
        let mut i: usize = 0;
        while i < request.block_ids.len()
            invariant
                i <= request.block_ids@.len(),
                ingest_entries(index@, request@, i as int) == ingest_report(old(index)@, request@),
            decreases request.block_ids@.len() - i,
        {
            if i >= request.block_indices.len() {
                return Err(NahFSError::Index(IndexError::MissingBlockIndex { entry: i }));
            }
            let block_id = request.block_ids[i];
            let block_index = &request.block_indices[i];
            if let Some(spatial) = &block_index.spatial_index {
                match ingest_spatial(index, i, block_id, spatial) {
                    Ok(()) => {},
                    Err(error) => {
                        return Err(error);
                    },
                }
            }
            if let Some(temporal) = &block_index.temporal_index {
                match index.add_temporal_index(
                    block_id,
                    temporal.start_timestamp,
                    temporal.end_timestamp,
                ) {
                    Ok(()) => {},
                    Err(fault) => {
                        return Err(NahFSError::Index(fault));
                    },
                }
            }
            i += 1;
        }
        Ok(IndexReportResponse {  })
    }

    /// A combined snapshot of `index`: first the blocks that have cells,
    /// each with a listing of them, then the time ranges, each joined to its
    /// block's entry or given an entry of its own.
    pub fn index_view(&self, index: &Index, request: &IndexViewRequest) -> (response:
        IndexViewResponse)
        ensures
            shows(response@, index@),
    {
        let spatial_map = index.get_spatial_index();
        let temporal_map = index.get_temporal_index();
        let mut blocks: HashMap<u64, BlockIndex> = HashMap::new();

        for pair in it: spatial_map.iter()
            invariant
                spatial_content(spatial_map@) == index@.spatial,
                it.seq() == spatial_map.iter().remaining(),
                forall|b: u64| blocks@.contains_key(b) <==> visited(it.seq(), it.index(), b),
                forall|b: u64|
                    blocks@.contains_key(b) ==> {
                        &&& (#[trigger] blocks@[b])@.temporal is None
                        &&& blocks@[b]@.spatial is Some
                        &&& blocks@[b]@.spatial->0.lists(index@.spatial[b])
                    },
        {
            let (block_id, entry) = pair;
            proof {
                lemma_visited_step(it.seq(), it.index());
                lemma_pairs_are_entries(spatial_map, it.index());
            }
            let block = BlockIndex { spatial_index: Some(entry.listing()), temporal_index: None };
            blocks.insert(*block_id, block);
        }

        proof {
            lemma_visited_all(spatial_map);
        }
        for pair in it: temporal_map.iter()
            invariant
                temporal_map@ == index@.temporal,
                it.seq() == temporal_map.iter().remaining(),
                forall|b: u64|
                    blocks@.contains_key(b) <==> index@.spatial.contains_key(b) || visited(
                        it.seq(),
                        it.index(),
                        b,
                    ),
                forall|b: u64|
                    blocks@.contains_key(b) ==> {
                        &&& match (#[trigger] blocks@[b])@.spatial {
                            Some(spatial) => index@.spatial.contains_key(b) && spatial.lists(
                                index@.spatial[b],
                            ),
                            None => !index@.spatial.contains_key(b),
                        }
                        &&& blocks@[b]@.temporal == if visited(it.seq(), it.index(), b) {
                            Some(index@.temporal[b])
                        } else {
                            None
                        }
                    },
        {
            let (block_id, range) = pair;
            proof {
                lemma_visited_step(it.seq(), it.index());
                lemma_pairs_are_entries(temporal_map, it.index());
            }
            let mut block = match blocks.remove(block_id) {
                Some(block) => block,
                None => BlockIndex { spatial_index: None, temporal_index: None },
            };
            block.temporal_index = Some(
                TemporalIndex { start_timestamp: range.0, end_timestamp: range.1 },
            );
            blocks.insert(*block_id, block);
        }

        let response = IndexViewResponse { blocks };
        proof {
            lemma_visited_all(temporal_map);
            assert forall|b: u64| response@.contains_key(b) implies block_shows(
                #[trigger] response@[b],
                index@,
                b,
            ) by {
                assert(blocks@.contains_key(b));
            }
        }
        response
    }
}

/// Whether `block_id` is the key of one of the first `upto` pairs.
spec fn visited<V>(pairs: Seq<(&u64, &V)>, upto: int, block_id: u64) -> bool {
    exists|k: int| 0 <= k < upto && *(#[trigger] pairs[k]).0 == block_id
}

/// One pair more visits that pair's key and what was visited before.
proof fn lemma_visited_step<V>(pairs: Seq<(&u64, &V)>, upto: int)
    requires
        0 <= upto < pairs.len(),
    ensures
        forall|b: u64|
            visited(pairs, upto + 1, b) <==> visited(pairs, upto, b) || *pairs[upto].0 == b,
{
    assert forall|b: u64|
        visited(pairs, upto + 1, b) <==> visited(pairs, upto, b) || *pairs[upto].0 == b by {
        if visited(pairs, upto + 1, b) {
            let k = choose|k: int| 0 <= k < upto + 1 && *(#[trigger] pairs[k]).0 == b;
            if k < upto {
                assert(visited(pairs, upto, b));
            }
        }
        if visited(pairs, upto, b) {
            let k = choose|k: int| 0 <= k < upto && *(#[trigger] pairs[k]).0 == b;
            assert(0 <= k < upto + 1 && *pairs[k].0 == b);
        }
        if *pairs[upto].0 == b {
            assert(0 <= upto < upto + 1 && *pairs[upto].0 == b);
        }
    }
}

/// Each pair that a walk over `map` yields is an entry of `map`.
proof fn lemma_pairs_are_entries<V>(map: &HashMap<u64, V>, at: int)
    requires
        0 <= at < map.iter().remaining().len(),
    ensures
        map@.contains_key(*map.iter().remaining()[at].0),
        map@[*map.iter().remaining()[at].0] == *map.iter().remaining()[at].1,
{
    let pairs = map.iter().remaining();
    assert(map@.contains_key(*pairs[at].0));
}

/// A walk over `map` visits the keys of `map` and nothing else.
proof fn lemma_visited_all<V>(map: &HashMap<u64, V>)
    ensures
        forall|b: u64|
            visited(map.iter().remaining(), map.iter().remaining().len() as int, b)
                <==> map@.contains_key(b),
{
    let pairs = map.iter().remaining();
    assert forall|b: u64| visited(pairs, pairs.len() as int, b) <==> map@.contains_key(b) by {
        if map@.contains_key(b) {
            assert(pairs.contains((&b, &map@[b])));
            let k = choose|k: int| 0 <= k < pairs.len() && pairs[k] == (&b, &map@[b]);
            assert(*pairs[k].0 == b);
        }
        if visited(pairs, pairs.len() as int, b) {
            let k = choose|k: int| 0 <= k < pairs.len() && *(#[trigger] pairs[k]).0 == b;
            assert(map@.contains_key(*pairs[k].0));
        }
    }
}

} // verus!
