//! Taking back the writes of a transaction.
use nodedb_data::core_loop::CoreLoop;
use nodedb_data::spatial::{BoundingBox, SpatialKey};
use nodedb_data::transaction::undo::{
    apply_undo_stats, undo_stats_op, undo_storage_op, StatsOp, StorageOp, StorageOutcome,
    UndoEntry, VersionStage,
};
use std::collections::BTreeMap;
use std::collections::HashMap;

const DB: u64 = 0;
const TID: u64 = 1;

/// A store of rows, of versions and of versioned index entries.
struct Store {
    rows: HashMap<(String, String), Vec<u8>>,
    /// Body by system time; none for a tombstone.
    versions: HashMap<(String, String), BTreeMap<i64, Option<Vec<u8>>>>,
    /// Whether an index entry is live, by field, value, document and system time.
    index: BTreeMap<(String, String, String, i64), bool>,
}

impl Store {
    fn new() -> Store {
        Store { rows: HashMap::new(), versions: HashMap::new(), index: BTreeMap::new() }
    }

    fn apply(&mut self, op: StorageOp) {
        match op {
            StorageOp::PutRow { collection, document_id, value } => {
                self.rows.insert((collection, document_id), value);
            }
            StorageOp::DeleteRow { collection, document_id } => {
                self.rows.remove(&(collection, document_id));
            }
            StorageOp::RemoveVersion { collection, document_id, sys_from_ms, index_tuples } => {
                if let Some(v) = self.versions.get_mut(&(collection, document_id.clone())) {
                    v.remove(&sys_from_ms);
                }
                for (field, value) in index_tuples {
                    self.index.remove(&(field, value, document_id.clone(), sys_from_ms));
                }
            }
        }
    }

    fn put_version(&mut self, doc: &str, t: i64, body: Option<&[u8]>) {
        self.versions
            .entry(("c".to_string(), doc.to_string()))
            .or_default()
            .insert(t, body.map(|b| b.to_vec()));
    }

    fn put_index(&mut self, doc: &str, t: i64, live: bool) {
        self.index.insert(("status".into(), "active".into(), doc.into(), t), live);
    }

    fn current(&self, doc: &str) -> Option<Vec<u8>> {
        let v = self.versions.get(&("c".to_string(), doc.to_string()))?;
        v.iter().next_back().and_then(|(_, b)| b.clone())
    }

    fn lookup(&self) -> Vec<String> {
        let mut last: BTreeMap<String, bool> = BTreeMap::new();
        for ((_, _, doc, _), live) in &self.index {
            last.insert(doc.clone(), *live);
        }
        last.into_iter().filter(|(_, live)| *live).map(|(d, _)| d).collect()
    }
}

fn put_entry(doc: &str) -> UndoEntry {
    put_with(doc, None, None, Vec::new(), None)
}

fn put_with(
    doc: &str,
    old_value: Option<Vec<u8>>,
    sys: Option<i64>,
    tuples: Vec<(String, String)>,
    prior: Option<Option<String>>,
) -> UndoEntry {
    UndoEntry::PutDocument {
        collection: "c".into(),
        document_id: doc.into(),
        surrogate: 0,
        old_value,
        bitemporal_sys_from_ms: sys,
        bitemporal_index_tuples: tuples,
        secondary_index_added: Vec::new(),
        secondary_index_removed: Vec::new(),
        chain_hash_prior: prior,
    }
}

fn delete_with(
    doc: &str,
    old_value: &[u8],
    sys: Option<i64>,
    tuples: Vec<(String, String)>,
) -> UndoEntry {
    UndoEntry::DeleteDocument {
        collection: "c".into(),
        document_id: doc.into(),
        surrogate: 0,
        old_value: old_value.to_vec(),
        bitemporal_sys_from_ms: sys,
        bitemporal_index_tuples: tuples,
        secondary_index_tuples: Vec::new(),
        chain_hash_prior: None,
    }
}

fn active() -> Vec<(String, String)> {
    vec![("status".into(), "active".into())]
}

fn undo(core: &mut CoreLoop, store: &mut Store, index: usize, entry: UndoEntry) {
    store.apply(undo_storage_op(&entry));
    assert!(core.apply_undo_document(DB, TID, index, entry, StorageOutcome::Done).is_ok());
}

#[test]
fn bitemporal_put_undo_removes_version_and_index() {
    let mut core = CoreLoop::new(0);
    let mut store = Store::new();
    let t = 1_000;
    store.put_version("d1", t, Some(b"v1"));
    store.put_index("d1", t, true);
    assert!(store.current("d1").is_some());
    assert_eq!(store.lookup(), vec!["d1".to_string()]);

    undo(&mut core, &mut store, 0, put_with("d1", None, Some(t), active(), None));

    assert!(store.current("d1").is_none(), "version row must be physically gone");
    assert!(store.lookup().is_empty(), "index entry must be gone");
}

#[test]
fn bitemporal_delete_undo_restores_prior_live_version() {
    let mut core = CoreLoop::new(0);
    let mut store = Store::new();
    store.put_version("d1", 1_000, Some(b"v1"));
    store.put_index("d1", 1_000, true);
    store.put_version("d1", 2_000, None);
    store.put_index("d1", 2_000, false);
    assert!(store.current("d1").is_none());

    undo(&mut core, &mut store, 0, delete_with("d1", b"v1", Some(2_000), active()));

    assert_eq!(store.current("d1"), Some(b"v1".to_vec()));
    assert_eq!(store.lookup(), vec!["d1".to_string()]);
}

#[test]
fn chain_hash_undo_restores_prior_and_removes_genesis() {
    let mut core = CoreLoop::new(0);
    let mut store = Store::new();
    core.chains.set_head(DB, TID, "c", "h1".to_string());
    let restore = put_with("nonexistent", None, None, Vec::new(), Some(Some("h0".into())));
    undo(&mut core, &mut store, 0, restore);
    assert_eq!(core.chains.head(DB, TID, "c").as_deref(), Some("h0"));

    let genesis = put_with("nonexistent", None, None, Vec::new(), Some(None));
    undo(&mut core, &mut store, 0, genesis);
    assert!(core.chains.head(DB, TID, "c").is_none());
}

#[test]
fn rollback_undo_log_restores_pre_txn_state_for_bitemporal_put_then_delete() {
    let mut core = CoreLoop::new(0);
    let mut store = Store::new();
    assert!(store.current("d1").is_none());
    store.put_version("d1", 1_000, Some(b"v1"));
    store.put_index("d1", 1_000, true);
    store.put_version("d1", 2_000, None);
    store.put_index("d1", 2_000, false);
    assert!(store.current("d1").is_none());

    let log = vec![
        put_with("d1", None, Some(1_000), active(), None),
        delete_with("d1", b"v1", Some(2_000), active()),
    ];
    for (index, entry) in log.into_iter().enumerate().rev() {
        undo(&mut core, &mut store, index, entry);
    }

    assert!(
        store.current("d1").is_none(),
        "aborted bitemporal put+delete must leave no current version behind"
    );
    assert!(
        store.lookup().is_empty(),
        "aborted bitemporal put+delete must leave no index entry behind"
    );
}

#[test]
fn plain_put_undo_backward_compatible() {
    let mut core = CoreLoop::new(0);
    let mut store = Store::new();
    store.rows.insert(("c".into(), "d1".into()), b"new".to_vec());
    undo(&mut core, &mut store, 0, put_with("d1", Some(b"old".to_vec()), None, Vec::new(), None));
    assert_eq!(store.rows.get(&("c".into(), "d1".into())), Some(&b"old".to_vec()));

    store.rows.insert(("c".into(), "d2".into()), b"inserted".to_vec());
    undo(&mut core, &mut store, 0, put_entry("d2"));
    assert!(store.rows.get(&("c".into(), "d2".into())).is_none());
}

#[test]
fn plain_delete_undo_backward_compatible() {
    let mut core = CoreLoop::new(0);
    let mut store = Store::new();
    undo(&mut core, &mut store, 0, delete_with("d1", b"prior", None, Vec::new()));
    assert_eq!(store.rows.get(&("c".into(), "d1".into())), Some(&b"prior".to_vec()));
}

fn spatial_key() -> SpatialKey {
    SpatialKey { db: DB, tid: TID, coll: "c".to_string(), field: "geom".to_string() }
}

fn bbox(a: f64, b: f64, c: f64, d: f64) -> BoundingBox {
    BoundingBox {
        min_lng: a.to_bits(),
        min_lat: b.to_bits(),
        max_lng: c.to_bits(),
        max_lat: d.to_bits(),
    }
}

fn insert_undo() {
    let mut core = CoreLoop::new(0);
    let entry_id: u64 = 42;
    core.spatial.insert_entry(spatial_key(), entry_id, bbox(0.0, 0.0, 1.0, 1.0), "d1".to_string());
    assert!(core.spatial.extent_of(&spatial_key(), entry_id).is_some());

    core.apply_undo_spatial(UndoEntry::SpatialInsert { key: spatial_key(), entry_id });

    assert!(
        core.spatial.extent_of(&spatial_key(), entry_id).is_none(),
        "R-tree entry must be removed"
    );
    assert!(
        core.spatial.document_of(&spatial_key(), entry_id).is_none(),
        "reverse map record must be removed"
    );
}

fn delete_undo() {
    let mut core = CoreLoop::new(0);
    let entry_id: u64 = 7;
    let extent = bbox(10.0, 20.0, 30.0, 40.0);
    assert!(core.spatial.extent_of(&spatial_key(), entry_id).is_none());

    core.apply_undo_spatial(UndoEntry::SpatialDelete {
        key: spatial_key(),
        entry_id,
        bbox: extent,
        document_id: "d1".to_string(),
    });

    let restored = core.spatial.extent_of(&spatial_key(), entry_id);
    assert_eq!(restored, Some(extent), "restored bbox must match captured bbox");
    assert_eq!(
        core.spatial.document_of(&spatial_key(), entry_id).as_deref(),
        Some("d1"),
        "reverse map record must be restored"
    );
}

#[test]
fn tests_spatial_insert_undo_removes_entry_and_reverse_map() {
    insert_undo();
}

#[test]
fn spatial_spatial_insert_undo_removes_entry_and_reverse_map() {
    insert_undo();
}

#[test]
fn tests_spatial_delete_undo_reinserts_entry_with_bbox() {
    delete_undo();
}

#[test]
fn spatial_spatial_delete_undo_reinserts_entry_with_bbox() {
    delete_undo();
}

#[test]
fn a_failed_undo_names_its_entry_and_keeps_the_chain() {
    let mut core = CoreLoop::new(0);
    core.chains.set_head(DB, TID, "c", "h1".to_string());
    let entry = put_with("d1", None, None, Vec::new(), Some(Some("h0".into())));
    let r = core.apply_undo_document(DB, TID, 3, entry, StorageOutcome::RowFault("disk".into()));
    let Err((index, detail)) = r else {
        panic!("a fault must be reported");
    };
    assert_eq!(index, 3);
    assert!(detail.contains("document restore"), "{detail}");
    assert!(detail.contains("disk"), "{detail}");
    assert_eq!(core.chains.head(DB, TID, "c").as_deref(), Some("h1"));

    let entry = delete_with("d1", b"x", Some(5), Vec::new());
    let outcome = StorageOutcome::VersionFault(VersionStage::Commit, "full".into());
    let Err((index, detail)) = core.apply_undo_document(DB, TID, 4, entry, outcome) else {
        panic!("a fault must be reported");
    };
    assert_eq!(index, 4);
    assert!(detail.contains("bitemporal"), "{detail}");
}

#[test]
fn a_failed_stats_restore_names_its_key() {
    assert!(apply_undo_stats(0, "0:1:c:name", None).is_ok());
    assert_eq!(
        apply_undo_stats(2, "0:1:c:name", Some("disk".to_string())),
        Err((2, "stats restore 0:1:c:name: disk".to_string()))
    );
}

/// Counts and bounds of the values seen: rows, non-null rows, least and greatest.
type Stats = (u64, u64, Option<String>, Option<String>);

fn stats_key() -> String {
    format!("{DB}:{TID}:c:name")
}

fn make_stats(values: &[&str]) -> (Stats, Vec<u8>) {
    let n = values.len() as u64;
    let least = values.iter().min().map(|v| v.to_string());
    let greatest = values.iter().max().map(|v| v.to_string());
    let stats = (n, n, least, greatest);
    let bytes = zerompk::to_msgpack_vec(&stats).unwrap();
    (stats, bytes)
}

fn restore(store: &mut HashMap<String, Vec<u8>>, entry: UndoEntry) {
    match undo_stats_op(&entry) {
        StatsOp::Write { key, value } => {
            store.insert(key, value);
        }
        StatsOp::Remove { key } => {
            store.remove(&key);
        }
    }
    apply_undo_stats(0, &stats_key(), None).unwrap();
}

fn rewrites_prior_image() {
    let mut store: HashMap<String, Vec<u8>> = HashMap::new();
    let (original, original_bytes) = make_stats(&["alice"]);
    store.insert(stats_key(), original_bytes.clone());
    let (_, mutated) = make_stats(&["alice", "bob"]);
    store.insert(stats_key(), mutated);
    let seen: Stats = zerompk::from_msgpack(&store[&stats_key()]).unwrap();
    assert_eq!(seen.0, 2, "mutated stats must be observed before undo");

    restore(
        &mut store,
        UndoEntry::StatsRestore { key: stats_key(), prior: Some(original_bytes) },
    );

    let restored: Stats = zerompk::from_msgpack(&store[&stats_key()]).unwrap();
    assert_eq!(restored.0, original.0, "row_count must match pre-image");
    assert_eq!(restored.1, 1, "non_null_count must match pre-image");
    assert_eq!(restored.2.as_deref(), Some("alice"));
    assert_eq!(restored.3.as_deref(), Some("alice"), "'bob' merge must be reversed");
}

fn removes_key_when_no_prior() {
    let mut store: HashMap<String, Vec<u8>> = HashMap::new();
    let (_, created) = make_stats(&["carol"]);
    store.insert(stats_key(), created);
    assert!(store.contains_key(&stats_key()));

    restore(&mut store, UndoEntry::StatsRestore { key: stats_key(), prior: None });

    assert!(
        !store.contains_key(&stats_key()),
        "key with no prior image must be removed on undo"
    );
}

#[test]
fn stats_stats_restore_undo_rewrites_prior_image() {
    rewrites_prior_image();
}

#[test]
fn tests_stats_restore_undo_rewrites_prior_image() {
    rewrites_prior_image();
}

#[test]
fn stats_stats_restore_undo_removes_key_when_no_prior() {
    removes_key_when_no_prior();
}

#[test]
fn tests_stats_restore_undo_removes_key_when_no_prior() {
    removes_key_when_no_prior();
}
