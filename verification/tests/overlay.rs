//! The staging overlays of a transaction.
use nodedb_data::ids::{DatabaseId, TenantId};
use nodedb_data::overlay::graph_staged::GraphTxnOverlay;
use nodedb_data::overlay::merge::merge_overlay_into_scan;
use nodedb_data::overlay::staged::{Staged, StagedTtl, TxnOverlay};

fn key(coll: &str) -> (DatabaseId, TenantId, String) {
    (DatabaseId::new(1), TenantId::new(1), coll.to_string())
}

#[test]
fn stage_edge_put_then_visible_for_src() {
    let mut overlay = GraphTxnOverlay::new();
    overlay.stage_edge_put(key("g"), "a", "knows", "b", vec![1, 2]);
    let out: Vec<_> = overlay.edges_for_src(&key("g"), "a").into_iter().collect();
    assert_eq!(out, vec![("knows", "b", &[1u8, 2u8][..])]);
    assert!(!overlay.is_edge_tombstoned(&key("g"), "a", "knows", "b"));
}

#[test]
fn stage_edge_delete_tombstones_and_clears_put() {
    let mut overlay = GraphTxnOverlay::new();
    overlay.stage_edge_put(key("g"), "a", "knows", "b", vec![1]);
    overlay.stage_edge_delete(key("g"), "a", "knows", "b");
    assert!(overlay.is_edge_tombstoned(&key("g"), "a", "knows", "b"));
    assert_eq!(overlay.edges_for_src(&key("g"), "a").len(), 0);
}

#[test]
fn stage_put_after_delete_clears_tombstone() {
    let mut overlay = GraphTxnOverlay::new();
    overlay.stage_edge_delete(key("g"), "a", "knows", "b");
    overlay.stage_edge_put(key("g"), "a", "knows", "b", vec![9]);
    assert!(!overlay.is_edge_tombstoned(&key("g"), "a", "knows", "b"));
    assert_eq!(overlay.edges_for_src(&key("g"), "a").len(), 1);
}

#[test]
fn edges_for_dst_returns_in_edges() {
    let mut overlay = GraphTxnOverlay::new();
    overlay.stage_edge_put(key("g"), "a", "knows", "b", vec![]);
    let out: Vec<_> = overlay.edges_for_dst(&key("g"), "b").into_iter().collect();
    assert_eq!(out, vec![("knows", "a", &[][..])]);
}

#[test]
fn node_label_set_then_remove_resolves_last_writer() {
    let mut overlay = GraphTxnOverlay::new();
    overlay.stage_node_labels_set(key("g"), "n1", &["Person".to_string()]);
    overlay.stage_node_labels_remove(key("g"), "n1", &["Person".to_string()]);
    let delta = overlay.labels_delta(&key("g"), "n1").unwrap();
    assert!(delta.added.is_empty());
    assert!(delta.removed.contains("Person"));
}

#[test]
fn labels_are_found_in_any_collection() {
    let mut overlay = GraphTxnOverlay::new();
    overlay.stage_node_labels_set(key("g"), "n1", &["Person".to_string()]);
    let (db, tid) = (DatabaseId::new(1), TenantId::new(1));
    let delta = overlay.labels_delta_any_collection(db, tid, "n1").unwrap();
    assert!(delta.added.contains("Person"));
    assert!(overlay.labels_delta_any_collection(db, tid, "n2").is_none());
    assert!(overlay.labels_delta(&key("h"), "n1").is_none());
}

#[test]
fn memory_size_estimate_counts_bytes() {
    let mut overlay = GraphTxnOverlay::new();
    assert_eq!(overlay.memory_size_estimate(), 0);
    overlay.stage_edge_put(key("g"), "a", "l", "b", vec![1, 2, 3]);
    assert!(overlay.memory_size_estimate() > 0);
}

#[test]
fn a_staged_edge_counts_its_names_and_properties() {
    let mut overlay = GraphTxnOverlay::new();
    overlay.stage_edge_put(key("g"), "ab", "l", "cde", vec![1, 2, 3, 4]);
    assert_eq!(overlay.memory_size_estimate(), 2 + 1 + 3 + 4);
}

#[test]
fn edges_are_found_in_any_collection() {
    let mut overlay = GraphTxnOverlay::new();
    overlay.stage_edge_put(key("g"), "a", "l", "b", vec![1]);
    overlay.stage_edge_put(key("h"), "a", "m", "c", vec![2]);
    let (db, tid) = (DatabaseId::new(1), TenantId::new(1));
    assert_eq!(overlay.edges_for_src_any_collection(db, tid, "a").len(), 2);
    assert_eq!(
        overlay.edges_for_dst_any_collection(db, tid, "c"),
        vec![("m".to_string(), "a".to_string(), vec![2u8])]
    );
    overlay.stage_edge_delete(key("h"), "a", "m", "c");
    assert!(overlay.is_edge_tombstoned_any_collection(db, tid, "a", "m", "c"));
    assert!(!overlay.is_edge_tombstoned_any_collection(db, tid, "a", "l", "b"));
    assert_eq!(overlay.all_staged_edges(db, tid).len(), 1);
    assert_eq!(overlay.all_tombstones(db, tid).len(), 1);
}

#[test]
fn what_is_staged_is_read_and_what_is_deleted_is_not() {
    let (db, tid) = (DatabaseId::new(1), TenantId::new(1));
    let other = (db, TenantId::new(2), "g".to_string());
    let mut overlay = GraphTxnOverlay::new();
    overlay.stage_edge_put(key("g"), "a", "l", "b", vec![1, 2, 3]);
    assert_eq!(overlay.memory_size_estimate(), 6);
    overlay.stage_edge_put(key("h"), "a", "l", "b", vec![4]);
    overlay.stage_edge_put(other, "a", "l", "b", vec![5]);
    let mut read = overlay.edges_for_src_any_collection(db, tid, "a");
    read.sort();
    let edge = |p: Vec<u8>| ("l".to_string(), "b".to_string(), p);
    assert_eq!(read, vec![edge(vec![1, 2, 3]), edge(vec![4])]);

    let before = overlay.memory_size_estimate();
    overlay.stage_edge_delete(key("g"), "a", "l", "b");
    assert_eq!(overlay.memory_size_estimate(), before - 3);
    assert_eq!(overlay.edges_for_src_any_collection(db, tid, "a"), vec![edge(vec![4])]);
    assert_eq!(overlay.all_tombstones(db, tid).len(), 1);
    assert!(overlay.is_edge_tombstoned_any_collection(db, tid, "a", "l", "b"));
    overlay.stage_edge_delete(key("h"), "a", "l", "b");
    assert_eq!(overlay.all_tombstones(db, tid).len(), 2, "one for each collection");
    assert_eq!(overlay.all_tombstones(db, TenantId::new(2)).len(), 0);

    overlay.stage_edge_put(key("g"), "a", "l", "b", vec![1, 2, 3]);
    overlay.stage_edge_put(key("h"), "a", "l", "b", vec![4]);
    assert_eq!(overlay.memory_size_estimate(), before);
    assert!(!overlay.is_edge_tombstoned_any_collection(db, tid, "a", "l", "b"));
}

#[test]
fn empty_overlay_has_no_entries() {
    let overlay = TxnOverlay::new();
    assert!(overlay.is_empty());
    assert_eq!(overlay.len(), 0);
    assert_eq!(overlay.memory_size_estimate(), 0);
    assert!(overlay.get(&key("users"), 1).is_none());
    assert!(overlay.get_by_doc_id(&key("users"), "abc").is_none());
    assert_eq!(overlay.iter_for_collection(&key("users")).len(), 0);
}

#[test]
fn insert_put_and_lookup() {
    let mut overlay = TxnOverlay::new();
    overlay.insert_put(key("users"), 7, "doc-1", vec![1, 2, 3]);

    assert!(!overlay.is_empty());
    assert_eq!(overlay.len(), 1);
    assert_eq!(overlay.memory_size_estimate(), 3);
    assert_eq!(
        overlay.get(&key("users"), 7),
        Some(&Staged::Put(vec![1, 2, 3]))
    );
    assert_eq!(
        overlay.get_by_doc_id(&key("users"), "doc-1"),
        Some(&Staged::Put(vec![1, 2, 3]))
    );
    let collected: Vec<_> = overlay.iter_for_collection(&key("users"));
    assert_eq!(collected.len(), 1);
}

#[test]
fn a_collection_shows_what_is_staged_in_it() {
    let mut overlay = TxnOverlay::new();
    overlay.insert_put(key("users"), 7, "doc-1", vec![1]);
    overlay.insert_put(key("other"), 8, "doc-2", vec![2]);
    let users = overlay.collection(&key("users"));
    assert_eq!(users.by_surrogate, vec![(7, &Staged::Put(vec![1]))]);
    assert_eq!(users.doc_id_to_surrogate, vec![("doc-1".to_string(), 7)]);
}

#[test]
fn insert_tombstone_and_lookup() {
    let mut overlay = TxnOverlay::new();
    overlay.insert_tombstone(key("users"), 9, "doc-2");

    assert_eq!(overlay.get(&key("users"), 9), Some(&Staged::Tombstone));
    assert_eq!(overlay.memory_size_estimate(), 0);
}

#[test]
fn an_overwrite_counts_the_newer_body_alone() {
    let mut overlay = TxnOverlay::new();
    overlay.insert_put(key("users"), 7, "doc-1", vec![0; 10]);
    overlay.insert_put(key("users"), 7, "doc-1", vec![0; 4]);
    assert_eq!(overlay.len(), 1);
    assert_eq!(overlay.memory_size_estimate(), 4);
    overlay.insert_tombstone(key("users"), 7, "doc-1");
    assert_eq!(overlay.memory_size_estimate(), 0);
}

#[test]
fn a_staged_expiry_leaves_the_row_alone() {
    let mut overlay = TxnOverlay::new();
    overlay.set_ttl(key("s"), 3, "ab", StagedTtl::ExpireAt(99));
    assert_eq!(overlay.ttl_of(&key("s"), 3), Some(StagedTtl::ExpireAt(99)));
    assert_eq!(overlay.ttl_of(&key("s"), 4), None);
    assert!(overlay.get(&key("s"), 3).is_none());
    assert_eq!(overlay.surrogate_for_doc_id(&key("s"), "ab"), Some(3));
    assert_eq!(overlay.doc_ids_for_collection(&key("s")), vec![("ab".to_string(), 3)]);
}

#[test]
fn a_scan_sees_the_writes_of_its_transaction() {
    let mut overlay = TxnOverlay::new();
    overlay.insert_put(key("c"), 1, "00000001", vec![10]);
    overlay.insert_tombstone(key("c"), 2, "00000002");
    overlay.insert_put(key("c"), 3, "00000003", vec![30]);
    overlay.insert_put(key("c"), 4, "00000004", vec![0]);
    let mut rows = vec![
        ("00000001".to_string(), vec![1u8]),
        ("00000002".to_string(), vec![2u8]),
        ("00000005".to_string(), vec![5u8]),
        ("not-a-row".to_string(), vec![6u8]),
    ];
    merge_overlay_into_scan(Some(&overlay), &key("c"), &mut rows, |b: &Vec<u8>| b[0] != 0);
    assert_eq!(
        rows,
        vec![
            ("00000001".to_string(), vec![10u8]),
            ("00000005".to_string(), vec![5u8]),
            ("not-a-row".to_string(), vec![6u8]),
            ("00000003".to_string(), vec![30u8]),
        ]
    );
}

#[test]
fn a_scan_without_an_overlay_stays_as_it_is() {
    let mut rows = vec![("00000001".to_string(), vec![1u8])];
    merge_overlay_into_scan(None, &key("c"), &mut rows, |_: &Vec<u8>| false);
    assert_eq!(rows, vec![("00000001".to_string(), vec![1u8])]);
}
