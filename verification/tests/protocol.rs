use namenode::datanode::{DatanodeMethod, DatanodeProtocol};
use namenode::error::{IndexError, NahFSError};
use namenode::index::Index;
use namenode::message::{
    BlockIndex, GetStoragePolicyRequest, GetStoragePolicyResponse, IndexReportRequest,
    IndexReportResponse, IndexViewRequest, IndexViewResponse, InodePersistRequest, SpatialIndex,
    TemporalIndex,
};
use namenode::protocol::{Access, Method, NahFSProtocol, PersistWrite, Store};
use std::collections::HashMap;

fn spatial(cells: &[(&str, u32, u32)]) -> SpatialIndex {
    SpatialIndex {
        geohashes: cells.iter().map(|c| c.0.to_string()).collect(),
        start_indices: cells.iter().map(|c| c.1).collect(),
        end_indices: cells.iter().map(|c| c.2).collect(),
    }
}

fn temporal(start: u64, end: u64) -> TemporalIndex {
    TemporalIndex { start_timestamp: start, end_timestamp: end }
}

fn report(entries: Vec<(u64, Option<SpatialIndex>, Option<TemporalIndex>)>) -> IndexReportRequest {
    let mut block_ids = Vec::new();
    let mut block_indices = Vec::new();
    for (block_id, spatial_index, temporal_index) in entries {
        block_ids.push(block_id);
        block_indices.push(BlockIndex { spatial_index, temporal_index });
    }
    IndexReportRequest { block_ids, block_indices }
}

fn view(protocol: &NahFSProtocol, index: &Index) -> IndexViewResponse {
    protocol.index_view(index, &IndexViewRequest {})
}

fn cells_of(block: &BlockIndex) -> Vec<(String, u32, u32)> {
    let listing = block.spatial_index.as_ref().unwrap();
    assert_eq!(listing.start_indices.len(), listing.geohashes.len());
    assert_eq!(listing.end_indices.len(), listing.geohashes.len());
    let mut cells: Vec<(String, u32, u32)> = Vec::new();
    for j in 0..listing.geohashes.len() {
        cells.push((listing.geohashes[j].clone(), listing.start_indices[j], listing.end_indices[j]));
    }
    cells.sort();
    cells
}

#[test]
fn report_then_view_end_to_end() {
    let protocol = NahFSProtocol::new("/var/lib/namenode/inodes.bin");
    let mut index = Index::new();
    let request = IndexReportRequest {
        block_ids: vec![7],
        block_indices: vec![BlockIndex {
            spatial_index: Some(SpatialIndex {
                geohashes: vec!["9q8yy".to_string()],
                start_indices: vec![0],
                end_indices: vec![128],
            }),
            temporal_index: Some(TemporalIndex { start_timestamp: 1000, end_timestamp: 2000 }),
        }],
    };
    assert_eq!(protocol.index_report(&mut index, &request), Ok(IndexReportResponse {}));

    let mut blocks = HashMap::new();
    blocks.insert(
        7,
        BlockIndex {
            spatial_index: Some(SpatialIndex {
                geohashes: vec!["9q8yy".to_string()],
                start_indices: vec![0],
                end_indices: vec![128],
            }),
            temporal_index: Some(TemporalIndex { start_timestamp: 1000, end_timestamp: 2000 }),
        },
    );
    assert_eq!(view(&protocol, &index), IndexViewResponse { blocks });
}

#[test]
fn empty_report_succeeds_and_changes_nothing() {
    let protocol = NahFSProtocol::new("p");
    let mut index = Index::new();
    index.add_spatial_index(1, "9q8yy", 5).unwrap();
    index.add_temporal_index(2, 3, 4).unwrap();
    let before = view(&protocol, &index);
    let request = IndexReportRequest { block_ids: vec![], block_indices: vec![] };
    assert_eq!(protocol.index_report(&mut index, &request), Ok(IndexReportResponse {}));
    assert_eq!(view(&protocol, &index), before);
}

#[test]
fn empty_report_on_fresh_index_leaves_it_empty() {
    let protocol = NahFSProtocol::new("p");
    let mut index = Index::new();
    let request = IndexReportRequest { block_ids: vec![], block_indices: vec![] };
    assert_eq!(protocol.index_report(&mut index, &request), Ok(IndexReportResponse {}));
    assert!(view(&protocol, &index).blocks.is_empty());
}

#[test]
fn report_without_block_ids_ignores_its_block_indices() {
    let protocol = NahFSProtocol::new("p");
    let mut index = Index::new();
    let request = IndexReportRequest {
        block_ids: vec![],
        block_indices: vec![BlockIndex { spatial_index: None, temporal_index: Some(temporal(1, 2)) }],
    };
    assert_eq!(protocol.index_report(&mut index, &request), Ok(IndexReportResponse {}));
    assert!(view(&protocol, &index).blocks.is_empty());
}

#[test]
fn view_of_fresh_index_is_empty() {
    let protocol = NahFSProtocol::new("p");
    let index = Index::new();
    assert_eq!(view(&protocol, &index), IndexViewResponse { blocks: HashMap::new() });
}

#[test]
fn length_is_end_less_start_and_view_starts_at_zero() {
    let protocol = NahFSProtocol::new("p");
    let mut index = Index::new();
    let request = report(vec![(11, Some(spatial(&[("9q8yy", 100, 228), ("9q8yz", 4096, 4096)])), None)]);
    assert_eq!(protocol.index_report(&mut index, &request), Ok(IndexReportResponse {}));
    let response = view(&protocol, &index);
    assert_eq!(response.blocks.len(), 1);
    let block = response.blocks.get(&11).unwrap();
    assert_eq!(block.temporal_index, None);
    assert_eq!(
        cells_of(block),
        vec![("9q8yy".to_string(), 0, 128), ("9q8yz".to_string(), 0, 0)]
    );
}

#[test]
fn full_width_range_keeps_its_length() {
    let protocol = NahFSProtocol::new("p");
    let mut index = Index::new();
    let request = report(vec![(1, Some(spatial(&[("a", 0, u32::MAX), ("b", u32::MAX, u32::MAX)])), None)]);
    assert_eq!(protocol.index_report(&mut index, &request), Ok(IndexReportResponse {}));
    let response = view(&protocol, &index);
    assert_eq!(
        cells_of(response.blocks.get(&1).unwrap()),
        vec![("a".to_string(), 0, u32::MAX), ("b".to_string(), 0, 0)]
    );
}

#[test]
fn later_report_replaces_length() {
    let protocol = NahFSProtocol::new("p");
    let mut index = Index::new();
    protocol.index_report(&mut index, &report(vec![(7, Some(spatial(&[("9q8yy", 0, 128)])), None)])).unwrap();
    protocol.index_report(&mut index, &report(vec![(7, Some(spatial(&[("9q8yy", 10, 40)])), None)])).unwrap();
    let response = view(&protocol, &index);
    assert_eq!(cells_of(response.blocks.get(&7).unwrap()), vec![("9q8yy".to_string(), 0, 30)]);
}

#[test]
fn lengths_are_not_summed() {
    let protocol = NahFSProtocol::new("p");
    let mut index = Index::new();
    protocol.index_report(&mut index, &report(vec![(7, Some(spatial(&[("9q8yy", 0, 100)])), None)])).unwrap();
    protocol.index_report(&mut index, &report(vec![(7, Some(spatial(&[("9q8yy", 0, 20)])), None)])).unwrap();
    let response = view(&protocol, &index);
    let cells = cells_of(response.blocks.get(&7).unwrap());
    assert_ne!(cells, vec![("9q8yy".to_string(), 0, 120)]);
    assert_eq!(cells, vec![("9q8yy".to_string(), 0, 20)]);
}

#[test]
fn later_pair_of_one_report_replaces_earlier_pair() {
    let protocol = NahFSProtocol::new("p");
    let mut index = Index::new();
    let request = report(vec![
        (7, Some(spatial(&[("9q8yy", 0, 128), ("9q8yy", 0, 64)])), None),
        (8, Some(spatial(&[("9q8yy", 0, 1)])), None),
        (7, Some(spatial(&[("9q8yz", 0, 2)])), None),
    ]);
    assert_eq!(protocol.index_report(&mut index, &request), Ok(IndexReportResponse {}));
    let response = view(&protocol, &index);
    assert_eq!(
        cells_of(response.blocks.get(&7).unwrap()),
        vec![("9q8yy".to_string(), 0, 64), ("9q8yz".to_string(), 0, 2)]
    );
    assert_eq!(cells_of(response.blocks.get(&8).unwrap()), vec![("9q8yy".to_string(), 0, 1)]);
}

#[test]
fn later_report_replaces_range() {
    let protocol = NahFSProtocol::new("p");
    let mut index = Index::new();
    protocol.index_report(&mut index, &report(vec![(7, None, Some(temporal(1000, 2000)))])).unwrap();
    protocol.index_report(&mut index, &report(vec![(7, None, Some(temporal(1500, 1600)))])).unwrap();
    let response = view(&protocol, &index);
    assert_eq!(
        response.blocks.get(&7),
        Some(&BlockIndex { spatial_index: None, temporal_index: Some(temporal(1500, 1600)) })
    );
}

#[test]
fn later_entry_of_one_report_replaces_range() {
    let protocol = NahFSProtocol::new("p");
    let mut index = Index::new();
    let request = report(vec![(7, None, Some(temporal(1, 9))), (7, None, Some(temporal(4, 5)))]);
    assert_eq!(protocol.index_report(&mut index, &request), Ok(IndexReportResponse {}));
    assert_eq!(view(&protocol, &index).blocks.get(&7).unwrap().temporal_index, Some(temporal(4, 5)));
}

#[test]
fn block_with_only_a_range_is_in_the_view() {
    let protocol = NahFSProtocol::new("p");
    let mut index = Index::new();
    protocol.index_report(&mut index, &report(vec![(5, None, Some(temporal(10, 20)))])).unwrap();
    let mut blocks = HashMap::new();
    blocks.insert(5, BlockIndex { spatial_index: None, temporal_index: Some(temporal(10, 20)) });
    assert_eq!(view(&protocol, &index), IndexViewResponse { blocks });
}

#[test]
fn block_with_only_cells_is_in_the_view() {
    let protocol = NahFSProtocol::new("p");
    let mut index = Index::new();
    protocol.index_report(&mut index, &report(vec![(5, Some(spatial(&[("u4pru", 2, 9)])), None)])).unwrap();
    let mut blocks = HashMap::new();
    blocks.insert(5, BlockIndex { spatial_index: Some(spatial(&[("u4pru", 0, 7)])), temporal_index: None });
    assert_eq!(view(&protocol, &index), IndexViewResponse { blocks });
}

#[test]
fn cells_and_range_of_one_block_share_an_entry() {
    let protocol = NahFSProtocol::new("p");
    let mut index = Index::new();
    protocol.index_report(&mut index, &report(vec![(5, Some(spatial(&[("u4pru", 2, 9)])), None)])).unwrap();
    protocol.index_report(&mut index, &report(vec![(5, None, Some(temporal(10, 20)))])).unwrap();
    protocol.index_report(&mut index, &report(vec![(6, None, Some(temporal(30, 40)))])).unwrap();
    let mut blocks = HashMap::new();
    blocks.insert(
        5,
        BlockIndex { spatial_index: Some(spatial(&[("u4pru", 0, 7)])), temporal_index: Some(temporal(10, 20)) },
    );
    blocks.insert(6, BlockIndex { spatial_index: None, temporal_index: Some(temporal(30, 40)) });
    assert_eq!(view(&protocol, &index), IndexViewResponse { blocks });
}

#[test]
fn entry_with_neither_section_adds_no_block() {
    let protocol = NahFSProtocol::new("p");
    let mut index = Index::new();
    assert_eq!(
        protocol.index_report(&mut index, &report(vec![(5, None, None)])),
        Ok(IndexReportResponse {})
    );
    assert!(view(&protocol, &index).blocks.is_empty());
}

#[test]
fn entry_with_empty_spatial_section_adds_no_block() {
    let protocol = NahFSProtocol::new("p");
    let mut index = Index::new();
    assert_eq!(
        protocol.index_report(&mut index, &report(vec![(5, Some(spatial(&[])), None)])),
        Ok(IndexReportResponse {})
    );
    assert!(view(&protocol, &index).blocks.is_empty());
}

#[test]
fn view_does_not_change_the_index() {
    let protocol = NahFSProtocol::new("p");
    let mut index = Index::new();
    protocol
        .index_report(&mut index, &report(vec![(5, Some(spatial(&[("u4pru", 2, 9)])), Some(temporal(1, 2)))]))
        .unwrap();
    let first = view(&protocol, &index);
    let second = view(&protocol, &index);
    assert_eq!(first, second);
}

#[test]
fn reports_on_different_blocks_apply_in_either_order() {
    let protocol = NahFSProtocol::new("p");
    let left = report(vec![
        (1, Some(spatial(&[("9q8yy", 0, 10), ("9q8yz", 5, 6)])), Some(temporal(100, 200))),
        (2, None, Some(temporal(300, 400))),
    ]);
    let right = report(vec![
        (3, Some(spatial(&[("9q8yy", 0, 77)])), None),
        (4, Some(spatial(&[("dr5ru", 1, 3)])), Some(temporal(500, 600))),
    ]);

    let mut one_way = Index::new();
    protocol.index_report(&mut one_way, &left).unwrap();
    protocol.index_report(&mut one_way, &right).unwrap();
    let mut other_way = Index::new();
    protocol.index_report(&mut other_way, &right).unwrap();
    protocol.index_report(&mut other_way, &left).unwrap();

    let response = view(&protocol, &one_way);
    assert_eq!(response.blocks.len(), 4);
    assert_eq!(
        cells_of(response.blocks.get(&1).unwrap()),
        vec![("9q8yy".to_string(), 0, 10), ("9q8yz".to_string(), 0, 1)]
    );
    assert_eq!(response.blocks.get(&1).unwrap().temporal_index, Some(temporal(100, 200)));
    assert_eq!(
        response.blocks.get(&2),
        Some(&BlockIndex { spatial_index: None, temporal_index: Some(temporal(300, 400)) })
    );
    assert_eq!(cells_of(response.blocks.get(&3).unwrap()), vec![("9q8yy".to_string(), 0, 77)]);
    assert_eq!(response.blocks.get(&3).unwrap().temporal_index, None);
    assert_eq!(cells_of(response.blocks.get(&4).unwrap()), vec![("dr5ru".to_string(), 0, 2)]);
    assert_eq!(response.blocks.get(&4).unwrap().temporal_index, Some(temporal(500, 600)));

    let again = view(&protocol, &other_way);
    assert_eq!(again.blocks.len(), 4);
    for block_id in [1u64, 2, 3, 4] {
        let here = response.blocks.get(&block_id).unwrap();
        let there = again.blocks.get(&block_id).unwrap();
        assert_eq!(here.temporal_index, there.temporal_index);
        assert_eq!(here.spatial_index.is_some(), there.spatial_index.is_some());
        if here.spatial_index.is_some() {
            assert_eq!(cells_of(here), cells_of(there));
        }
    }
}

#[test]
fn missing_block_index_stops_the_batch() {
    let protocol = NahFSProtocol::new("p");
    let mut index = Index::new();
    let request = IndexReportRequest {
        block_ids: vec![1, 2, 3],
        block_indices: vec![BlockIndex { spatial_index: None, temporal_index: Some(temporal(1, 2)) }],
    };
    assert_eq!(
        protocol.index_report(&mut index, &request),
        Err(NahFSError::Index(IndexError::MissingBlockIndex { entry: 1 }))
    );
    let mut blocks = HashMap::new();
    blocks.insert(1, BlockIndex { spatial_index: None, temporal_index: Some(temporal(1, 2)) });
    assert_eq!(view(&protocol, &index), IndexViewResponse { blocks });
}

#[test]
fn missing_start_index_stops_the_batch() {
    let protocol = NahFSProtocol::new("p");
    let mut index = Index::new();
    let request = report(vec![(
        1,
        Some(SpatialIndex {
            geohashes: vec!["a".to_string(), "b".to_string()],
            start_indices: vec![0],
            end_indices: vec![5, 6],
        }),
        Some(temporal(1, 2)),
    )]);
    assert_eq!(
        protocol.index_report(&mut index, &request),
        Err(NahFSError::Index(IndexError::MissingRange { entry: 0, pair: 1 }))
    );
    let mut blocks = HashMap::new();
    blocks.insert(1, BlockIndex { spatial_index: Some(spatial(&[("a", 0, 5)])), temporal_index: None });
    assert_eq!(view(&protocol, &index), IndexViewResponse { blocks });
}

#[test]
fn missing_end_index_stops_the_batch() {
    let protocol = NahFSProtocol::new("p");
    let mut index = Index::new();
    let request = report(vec![(
        1,
        Some(SpatialIndex { geohashes: vec!["a".to_string()], start_indices: vec![0], end_indices: vec![] }),
        None,
    )]);
    assert_eq!(
        protocol.index_report(&mut index, &request),
        Err(NahFSError::Index(IndexError::MissingRange { entry: 0, pair: 0 }))
    );
    assert!(view(&protocol, &index).blocks.is_empty());
}

#[test]
fn end_below_start_stops_the_batch() {
    let protocol = NahFSProtocol::new("p");
    let mut index = Index::new();
    let request = report(vec![
        (1, Some(spatial(&[("a", 0, 5)])), Some(temporal(1, 2))),
        (2, Some(spatial(&[("b", 0, 6), ("c", 9, 8), ("d", 0, 7)])), Some(temporal(3, 4))),
        (3, Some(spatial(&[("e", 0, 1)])), Some(temporal(5, 6))),
    ]);
    assert_eq!(
        protocol.index_report(&mut index, &request),
        Err(NahFSError::Index(IndexError::InvertedRange { entry: 1, pair: 1 }))
    );
    let mut blocks = HashMap::new();
    blocks.insert(
        1,
        BlockIndex { spatial_index: Some(spatial(&[("a", 0, 5)])), temporal_index: Some(temporal(1, 2)) },
    );
    blocks.insert(2, BlockIndex { spatial_index: Some(spatial(&[("b", 0, 6)])), temporal_index: None });
    assert_eq!(view(&protocol, &index), IndexViewResponse { blocks });
}

#[test]
fn failed_batch_can_be_sent_again_once_mended() {
    let protocol = NahFSProtocol::new("p");
    let mut index = Index::new();
    let broken = report(vec![(1, Some(spatial(&[("a", 0, 5), ("b", 3, 2)])), Some(temporal(1, 2)))]);
    assert!(protocol.index_report(&mut index, &broken).is_err());
    let mended = report(vec![(1, Some(spatial(&[("a", 0, 5), ("b", 2, 3)])), Some(temporal(1, 2)))]);
    assert_eq!(protocol.index_report(&mut index, &mended), Ok(IndexReportResponse {}));

    let mut fresh = Index::new();
    protocol.index_report(&mut fresh, &mended).unwrap();
    let here = view(&protocol, &index);
    let there = view(&protocol, &fresh);
    assert_eq!(cells_of(here.blocks.get(&1).unwrap()), cells_of(there.blocks.get(&1).unwrap()));
    assert_eq!(here.blocks.get(&1).unwrap().temporal_index, Some(temporal(1, 2)));
}

#[test]
fn same_report_twice_is_as_once() {
    let protocol = NahFSProtocol::new("p");
    let request = report(vec![
        (1, Some(spatial(&[("a", 0, 5), ("a", 0, 6)])), Some(temporal(1, 2))),
        (2, Some(spatial(&[("b", 1, 2)])), None),
    ]);
    let mut once = Index::new();
    protocol.index_report(&mut once, &request).unwrap();
    let mut twice = Index::new();
    protocol.index_report(&mut twice, &request).unwrap();
    protocol.index_report(&mut twice, &request).unwrap();
    assert_eq!(view(&protocol, &once), view(&protocol, &twice));
}

#[test]
fn unknown_storage_policy_is_not_found() {
    let protocol = NahFSProtocol::new("p");
    let request = GetStoragePolicyRequest { id: 42 };
    assert_eq!(protocol.get_storage_policy(&request, None), Err(NahFSError::NotFound { id: 42 }));
}

#[test]
fn known_storage_policy_is_named() {
    let protocol = NahFSProtocol::new("p");
    let request = GetStoragePolicyRequest { id: 7 };
    assert_eq!(
        protocol.get_storage_policy(&request, Some("HOT")),
        Ok(GetStoragePolicyResponse { storage_policy: "HOT".to_string() })
    );
    assert_eq!(
        protocol.get_storage_policy(&request, Some("")),
        Ok(GetStoragePolicyResponse { storage_policy: String::new() })
    );
}

#[test]
fn persist_writes_the_whole_snapshot_to_the_configured_file() {
    let protocol = NahFSProtocol::new("/var/lib/namenode/inodes.bin");
    assert_eq!(protocol.persist_path(), "/var/lib/namenode/inodes.bin");
    let write = protocol.inode_persist(&InodePersistRequest {}, vec![1, 2, 3, 255]);
    assert_eq!(
        write,
        PersistWrite { path: "/var/lib/namenode/inodes.bin".to_string(), contents: vec![1, 2, 3, 255] }
    );
    let empty = protocol.inode_persist(&InodePersistRequest {}, vec![]);
    assert_eq!(empty.path, "/var/lib/namenode/inodes.bin");
    assert!(empty.contents.is_empty());
}

#[test]
fn methods_are_found_by_name() {
    assert_eq!(Method::from_name("getStoragePolicy"), Some(Method::GetStoragePolicy));
    assert_eq!(Method::from_name("indexReport"), Some(Method::IndexReport));
    assert_eq!(Method::from_name("indexView"), Some(Method::IndexView));
    assert_eq!(Method::from_name("inodePersist"), Some(Method::InodePersist));
}

#[test]
fn other_names_are_no_methods() {
    assert_eq!(Method::from_name(""), None);
    assert_eq!(Method::from_name("indexview"), None);
    assert_eq!(Method::from_name("indexView "), None);
    assert_eq!(Method::from_name("registerDatanode"), None);
    assert_eq!(Method::from_name("getStoragePolicies"), None);
}

#[test]
fn method_names_lead_back_to_their_methods() {
    for method in [Method::GetStoragePolicy, Method::IndexReport, Method::IndexView, Method::InodePersist] {
        assert_eq!(Method::from_name(method.name()), Some(method));
    }
    assert_eq!(Method::IndexReport.name(), "indexReport");
}

#[test]
fn each_method_holds_one_store() {
    assert_eq!(Method::GetStoragePolicy.store(), Store::Metadata);
    assert_eq!(Method::InodePersist.store(), Store::Metadata);
    assert_eq!(Method::IndexReport.store(), Store::Index);
    assert_eq!(Method::IndexView.store(), Store::Index);
}

#[test]
fn only_the_report_holds_its_store_alone() {
    assert_eq!(Method::IndexReport.access(), Access::Exclusive);
    assert_eq!(Method::IndexView.access(), Access::Shared);
    assert_eq!(Method::GetStoragePolicy.access(), Access::Shared);
    assert_eq!(Method::InodePersist.access(), Access::Shared);
}

#[test]
fn datanode_protocol_knows_registration_only() {
    let protocol = DatanodeProtocol::new();
    assert_eq!(protocol, DatanodeProtocol {});
    assert_eq!(protocol.method("registerDatanode"), Some(DatanodeMethod::RegisterDatanode));
    assert_eq!(protocol.method("indexView"), None);
    assert_eq!(protocol.method(""), None);
}

#[test]
fn failed_report_sent_again_fails_alike_and_changes_nothing() {
    let protocol = NahFSProtocol::new("p");
    let mut index = Index::new();
    index.add_spatial_index(1, "a", 9).unwrap();
    let broken = report(vec![
        (1, Some(spatial(&[("a", 0, 5), ("b", 0, 6)])), Some(temporal(1, 2))),
        (2, Some(spatial(&[("c", 0, 7), ("d", 3, 2)])), Some(temporal(3, 4))),
    ]);
    let first = protocol.index_report(&mut index, &broken);
    assert_eq!(first, Err(NahFSError::Index(IndexError::InvertedRange { entry: 1, pair: 1 })));
    let after_first = view(&protocol, &index);
    let second = protocol.index_report(&mut index, &broken);
    assert_eq!(second, first);
    assert_eq!(view(&protocol, &index), after_first);
    assert_eq!(
        cells_of(after_first.blocks.get(&1).unwrap()),
        vec![("a".to_string(), 0, 5), ("b".to_string(), 0, 6)]
    );
    assert_eq!(cells_of(after_first.blocks.get(&2).unwrap()), vec![("c".to_string(), 0, 7)]);
    assert_eq!(after_first.blocks.get(&2).unwrap().temporal_index, None);
}

#[test]
fn report_leaves_unnamed_blocks_alone() {
    let protocol = NahFSProtocol::new("p");
    let mut index = Index::new();
    protocol
        .index_report(&mut index, &report(vec![(1, Some(spatial(&[("a", 0, 5)])), Some(temporal(1, 2)))]))
        .unwrap();
    let before = view(&protocol, &index);
    protocol
        .index_report(&mut index, &report(vec![(2, Some(spatial(&[("a", 0, 8)])), Some(temporal(3, 4)))]))
        .unwrap();
    let after = view(&protocol, &index);
    assert_eq!(after.blocks.get(&1), before.blocks.get(&1));
    assert_eq!(after.blocks.len(), 2);
}

#[test]
fn report_is_laid_over_what_the_index_holds() {
    let protocol = NahFSProtocol::new("p");
    let request = report(vec![(1, Some(spatial(&[("b", 0, 6)])), None), (3, None, Some(temporal(7, 8)))]);

    let mut index = Index::new();
    index.add_spatial_index(1, "a", 5).unwrap();
    index.add_spatial_index(1, "b", 50).unwrap();
    index.add_temporal_index(1, 1, 2).unwrap();
    index.add_temporal_index(3, 70, 80).unwrap();
    protocol.index_report(&mut index, &request).unwrap();

    let response = view(&protocol, &index);
    assert_eq!(
        cells_of(response.blocks.get(&1).unwrap()),
        vec![("a".to_string(), 0, 5), ("b".to_string(), 0, 6)]
    );
    assert_eq!(response.blocks.get(&1).unwrap().temporal_index, Some(temporal(1, 2)));
    assert_eq!(
        response.blocks.get(&3),
        Some(&BlockIndex { spatial_index: None, temporal_index: Some(temporal(7, 8)) })
    );
}

#[test]
fn every_reported_cell_is_in_the_view() {
    let protocol = NahFSProtocol::new("p");
    let mut index = Index::new();
    let mut entries = Vec::new();
    for block_id in 0..20u64 {
        let names: Vec<String> = (0..5u32).map(|k| format!("g{}x{}", block_id, k)).collect();
        let cells: Vec<(&str, u32, u32)> =
            names.iter().enumerate().map(|(k, n)| (n.as_str(), k as u32, 3 * k as u32 + block_id as u32)).collect();
        entries.push((block_id, Some(spatial(&cells)), None));
    }
    let request = report(entries);
    assert_eq!(protocol.index_report(&mut index, &request), Ok(IndexReportResponse {}));
    let response = view(&protocol, &index);
    assert_eq!(response.blocks.len(), 20);
    for block_id in 0..20u64 {
        let cells = cells_of(response.blocks.get(&block_id).unwrap());
        assert_eq!(cells.len(), 5);
        for k in 0..5u32 {
            assert!(cells.contains(&(format!("g{}x{}", block_id, k), 0, 2 * k + block_id as u32)));
        }
    }
}
