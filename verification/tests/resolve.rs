//! From the overlay of a transaction to the record that redoes it.
use nodedb_data::core_loop::CoreLoop;
use nodedb_data::error::Error;
use nodedb_data::ids::{DatabaseId, TenantId};
use nodedb_data::maps::VecMap;
use nodedb_data::overlay::graph_staged::GraphTxnOverlay;
use nodedb_data::overlay::staged::{Staged, StagedTtl, TxnOverlay};
use nodedb_data::replay::kv::{
    kv_replay_counts, next_delta, DeltaNext, DeltaReplay, KvReplayStep,
};
use nodedb_data::transaction::plan::{
    ColumnarOp, DocumentOp, GraphOp, KvOp, PhysicalPlan, PointRow, SpatialOp, VectorOp,
};
use nodedb_data::transaction::resolve::entry::execute_resolve_txn;
use nodedb_data::transaction::resolve::graph::{
    read_edge_record, serialize_graph_collection, EdgeIdentity, EdgeRecord, EndSurrogates,
};
use nodedb_data::transaction::resolve::record::{RedoRecord, RedoSubRecord};
use nodedb_data::transaction::resolve::vector::serialize_vector_op;
use nodedb_data::transaction::stage_kv::{hex_key, resolve_kv_current, stage_kv_put, unhex_key};
use nodedb_data::transaction::stage_write::StageCtx;
use nodedb_data::wal::{RecordType, TombstoneSet, WalRecord};

const DB: u64 = 0;
const TID: u64 = 1;

fn coll_key(coll: &str) -> (DatabaseId, TenantId, String) {
    (DatabaseId::default_id(), TenantId::new(TID), coll.to_string())
}

fn resolve(overlay: Option<&TxnOverlay>, plans: Vec<PhysicalPlan>) -> RedoRecord {
    execute_resolve_txn(overlay, DB, TID, &plans).expect("resolve must succeed")
}

fn kv_write_plan(collection: &str) -> PhysicalPlan {
    PhysicalPlan::Kv(KvOp::Put {
        collection: collection.to_string(),
        key: Vec::new(),
        value: Vec::new(),
        surrogate: 0,
    })
}

fn decode_kv_put6(payload: &[u8]) -> (String, Vec<u8>, Vec<u8>, u64, u64) {
    let (disc, collection, key, value, ttl_ms, expire_at_ms) =
        zerompk::from_msgpack::<(String, String, Vec<u8>, Vec<u8>, u64, u64)>(payload)
            .expect("decode 6-element kv_put");
    assert_eq!(disc, "kv_put");
    (collection, key, value, ttl_ms, expire_at_ms)
}

fn decode_kv_put5(payload: &[u8]) -> (String, Vec<u8>, Vec<u8>, u64) {
    let (disc, collection, key, value, ttl_ms) =
        zerompk::from_msgpack::<(String, String, Vec<u8>, Vec<u8>, u64)>(payload)
            .expect("decode 5-element kv_put");
    assert_eq!(disc, "kv_put");
    (collection, key, value, ttl_ms)
}

#[test]
fn incr_resolves_to_absolute_value_not_delta() {
    let mut overlay = TxnOverlay::new();
    let ctx = StageCtx::new(DB, TID, "counters", &hex_key(b"c"), 0);
    for delta in [40i64, 2] {
        let current = resolve_kv_current(&overlay, &ctx, &None);
        let value = current.map_or(0i64, |v| zerompk::from_msgpack(&v).expect("i64"));
        let value = zerompk::to_msgpack_vec(&(value + delta)).expect("encode");
        assert!(stage_kv_put(&mut overlay, &ctx, &value, 1 << 20).is_ok(), "stage incr");
    }
    let overlay_bytes = match overlay
        .get_by_doc_id(&coll_key("counters"), &hex_key(b"c"))
        .expect("staged incr present")
    {
        Staged::Put(v) => v.clone(),
        Staged::Tombstone => panic!("incr must stage a value"),
    };

    let plan = PhysicalPlan::Kv(KvOp::Incr { collection: "counters".to_string() });
    let redo = resolve(Some(&overlay), vec![plan]);
    assert_eq!(redo.ops.len(), 1, "one staged KV row -> one sub-record");
    assert_eq!(redo.ops[0].record_type, RecordType::Put);

    let (collection, key, value, _ttl) = decode_kv_put5(&redo.ops[0].payload);
    assert_eq!(collection, "counters");
    assert_eq!(key, b"c");
    assert_eq!(value, overlay_bytes);
    assert_eq!(
        zerompk::from_msgpack::<i64>(&value).expect("i64"),
        42,
        "resolve carries the absolute resolved value, not a delta"
    );
}

#[test]
fn put_with_ttl_resolves_to_six_element_absolute_expiry() {
    let expire_at = 1_700_000_000_000u64;
    let mut overlay = TxnOverlay::new();
    overlay.insert_put(coll_key("sessions"), 7, &hex_key(b"s1"), b"v1".to_vec());
    overlay.set_ttl(coll_key("sessions"), 7, &hex_key(b"s1"), StagedTtl::ExpireAt(expire_at));

    let redo = resolve(Some(&overlay), vec![kv_write_plan("sessions")]);
    assert_eq!(redo.ops.len(), 1);
    assert_eq!(redo.ops[0].record_type, RecordType::Put);

    let (collection, key, value, ttl_ms, got_expire) = decode_kv_put6(&redo.ops[0].payload);
    assert_eq!(collection, "sessions");
    assert_eq!(key, b"s1");
    assert_eq!(value, b"v1");
    assert_eq!(ttl_ms, 0, "relative ttl_ms is vestigial and set to 0");
    assert_eq!(got_expire, expire_at, "absolute expiry carried verbatim");
}

#[test]
fn put_without_ttl_resolves_to_five_element_form() {
    let mut overlay = TxnOverlay::new();
    overlay.insert_put(coll_key("kvc"), 9, &hex_key(b"k9"), b"body".to_vec());

    let redo = resolve(Some(&overlay), vec![kv_write_plan("kvc")]);
    assert_eq!(redo.ops.len(), 1);
    assert!(
        zerompk::from_msgpack::<(String, String, Vec<u8>, Vec<u8>, u64, u64)>(
            &redo.ops[0].payload
        )
        .is_err(),
        "no-TTL put must emit the five-element form"
    );
    let (collection, key, value, ttl_ms) = decode_kv_put5(&redo.ops[0].payload);
    assert_eq!(collection, "kvc");
    assert_eq!(key, b"k9");
    assert_eq!(value, b"body");
    assert_eq!(ttl_ms, 0);
}

#[test]
fn tombstone_resolves_to_kv_delete_shape() {
    let mut overlay = TxnOverlay::new();
    overlay.insert_tombstone(coll_key("kvc"), 11, &hex_key(b"gone"));

    let redo = resolve(
        Some(&overlay),
        vec![PhysicalPlan::Kv(KvOp::Delete {
            collection: "kvc".to_string(),
            keys: vec![b"gone".to_vec()],
        })],
    );
    assert_eq!(redo.ops.len(), 1);
    assert_eq!(redo.ops[0].record_type, RecordType::Delete);

    let (disc, collection, keys) =
        zerompk::from_msgpack::<(String, String, Vec<Vec<u8>>)>(&redo.ops[0].payload)
            .expect("decode kv_delete");
    assert_eq!(disc, "kv_delete");
    assert_eq!(collection, "kvc");
    assert_eq!(keys, vec![b"gone".to_vec()]);
}

#[test]
fn resolve_does_not_mutate_base() {
    let base = Some(b"base".to_vec());
    let ctx = StageCtx::new(DB, TID, "kvc", &hex_key(b"k"), 1);
    let mut overlay = TxnOverlay::new();
    overlay.insert_put(coll_key("kvc"), 1, &hex_key(b"k"), b"staged".to_vec());
    resolve(Some(&overlay), vec![kv_write_plan("kvc")]);
    assert_eq!(resolve_kv_current(&TxnOverlay::new(), &ctx, &base), base, "outside");
    assert_eq!(resolve_kv_current(&overlay, &ctx, &base), Some(b"staged".to_vec()), "inside");
    assert_eq!(overlay.len(), 1);
    assert_eq!(overlay.get(&coll_key("kvc"), 1), Some(&Staged::Put(b"staged".to_vec())));
}

#[test]
fn document_write_plan_yields_typed_error() {
    let plans = vec![PhysicalPlan::Document(DocumentOp::PointPut {
        row: PointRow {
            collection: "docs".to_string(),
            document_id: "d1".to_string(),
            surrogate: 0,
        },
    })];
    let r = execute_resolve_txn(Some(&TxnOverlay::new()), DB, TID, &plans);
    assert!(
        r.is_err(),
        "a not-yet-supported writing op must raise a typed error, not be dropped"
    );
}

#[test]
fn resolved_bytes_replay_into_fresh_engine() {
    let expire_at = 3_600_000u64;
    let mut overlay = TxnOverlay::new();
    overlay.insert_put(coll_key("kvc"), 1, &hex_key(b"live"), b"V".to_vec());
    overlay.set_ttl(coll_key("kvc"), 1, &hex_key(b"live"), StagedTtl::ExpireAt(expire_at));
    overlay.insert_put(coll_key("kvc"), 2, &hex_key(b"plain"), b"P".to_vec());
    overlay.insert_tombstone(coll_key("kvc"), 3, &hex_key(b"zap"));

    let redo = resolve(Some(&overlay), vec![kv_write_plan("kvc")]);
    assert_eq!(redo.ops.len(), 3, "each staged row has its sub-record");

    let records: Vec<WalRecord> = redo
        .ops
        .into_iter()
        .map(|op| WalRecord {
            record_type: op.record_type,
            lsn: 1,
            tenant_id: TID,
            database_id: DB,
            vshard_id: 0,
            payload: op.payload,
        })
        .collect();
    let fresh = CoreLoop::new(0);
    let steps = fresh.replay_kv_wal(&records, 1, &TombstoneSet::new());
    let mut puts = Vec::new();
    let mut deletes = Vec::new();
    for step in steps {
        match step {
            KvReplayStep::Put { database_id, tenant_id, collection, key, value, expire_at_ms, .. } => {
                assert_eq!((database_id, tenant_id, collection.as_str()), (DB, TID, "kvc"));
                puts.push((key, value, expire_at_ms));
            }
            KvReplayStep::Delete { keys, .. } => deletes.push(keys),
            _ => panic!("only puts and deletes were resolved"),
        }
    }
    assert_eq!(
        puts,
        vec![
            (b"live".to_vec(), b"V".to_vec(), Some(expire_at)),
            (b"plain".to_vec(), b"P".to_vec(), None),
        ]
    );
    assert_eq!(deletes, vec![vec![b"zap".to_vec()]]);
}

#[test]
fn read_only_and_crdt_and_text_plans_emit_nothing() {
    let plans = vec![
        PhysicalPlan::Kv(KvOp::Get),
        PhysicalPlan::Crdt,
        PhysicalPlan::Text,
        PhysicalPlan::Query,
        PhysicalPlan::Meta,
    ];
    let redo = resolve(None, plans);
    assert!(redo.ops.is_empty(), "read-only plan emits no sub-record");
}

#[test]
fn empty_overlay_resolves_to_empty_record() {
    let redo = resolve(None, Vec::new());
    assert_eq!(redo.version, 1);
    assert!(redo.ops.is_empty());
    assert!(redo.calvin_stamp.is_none());
}

#[test]
fn sub_records_carry_the_kv_record_types() {
    let sub = RedoSubRecord { record_type: RecordType::Put, payload: Vec::new() };
    assert_eq!(sub.record_type, RecordType::Put);
}

#[test]
fn each_unsupported_write_is_an_error() {
    for plan in [
        PhysicalPlan::Columnar(ColumnarOp::Insert),
        PhysicalPlan::Spatial(SpatialOp::Insert),
        PhysicalPlan::Graph(GraphOp::EdgePut),
        PhysicalPlan::Vector(VectorOp::Insert),
        PhysicalPlan::Timeseries,
        PhysicalPlan::Array,
        PhysicalPlan::ClusterArray,
        PhysicalPlan::Kv(KvOp::Truncate),
    ] {
        assert!(execute_resolve_txn(None, DB, TID, &vec![plan]).is_err());
    }
}

#[test]
fn a_malformed_key_is_an_error() {
    let mut overlay = TxnOverlay::new();
    overlay.insert_put(coll_key("kvc"), 1, "not hex", b"x".to_vec());
    let r = execute_resolve_txn(Some(&overlay), DB, TID, &vec![kv_write_plan("kvc")]);
    assert!(matches!(r, Err(Error::Internal { .. })));
}

#[test]
fn rows_resolve_in_the_order_of_their_keys() {
    let mut overlay = TxnOverlay::new();
    for (s, key) in [(1u32, b"c"), (2, b"a"), (3, b"b")] {
        overlay.insert_put(coll_key("kvc"), s, &hex_key(key), key.to_vec());
    }
    let redo = resolve(Some(&overlay), vec![kv_write_plan("kvc"), kv_write_plan("kvc")]);
    let keys: Vec<Vec<u8>> = redo.ops.iter().map(|op| decode_kv_put5(&op.payload).1).collect();
    assert_eq!(keys, vec![b"a".to_vec(), b"b".to_vec(), b"c".to_vec()]);
}

#[test]
fn a_key_is_written_in_hexadecimal() {
    assert_eq!(hex_key(&[0x00, 0xAB]), "00ab");
    assert_eq!(unhex_key("00ab"), Some(vec![0x00, 0xAB]));
    assert_eq!(unhex_key("0"), None);
    assert_eq!(unhex_key("zz"), None);
}

fn kv_record(record_type: RecordType, vshard_id: u32, payload: Vec<u8>) -> WalRecord {
    WalRecord { record_type, lsn: 4, tenant_id: TID, database_id: DB, vshard_id, payload }
}

#[test]
fn each_kv_record_has_its_step() {
    let text = |s: &str| s.to_string();
    let core = CoreLoop::new(0);
    let entries = vec![(b"k".to_vec(), b"v".to_vec())];
    let records = vec![
        kv_record(
            RecordType::Put,
            0,
            zerompk::to_msgpack_vec(&(text("kv_batch_put"), text("c"), entries.clone(), 5u64)).unwrap(),
        ),
        kv_record(
            RecordType::Put,
            0,
            zerompk::to_msgpack_vec(&(text("kv_batch_put"), text("c"), entries, 5u64, 9u64))
                .unwrap(),
        ),
        kv_record(
            RecordType::Put,
            0,
            zerompk::to_msgpack_vec(&(text("kv_put"), text("c"), b"k".to_vec(), b"v".to_vec(), 3u64))
                .unwrap(),
        ),
        kv_record(RecordType::Delete, 0, zerompk::to_msgpack_vec(&(text("kv_truncate"), text("c"))).unwrap()),
        kv_record(RecordType::Put, 1, vec![]),
        kv_record(RecordType::Put, 0, vec![0xC1]),
    ];
    let steps = core.replay_kv_wal(&records, 2, &TombstoneSet::new());
    assert!(matches!(&steps[0], KvReplayStep::BatchPut { ttl_ms: 5, expire_at_ms: None, .. }));
    assert!(matches!(&steps[1], KvReplayStep::BatchPut { expire_at_ms: Some(9), .. }));
    assert!(matches!(&steps[2], KvReplayStep::Put { ttl_ms: 3, expire_at_ms: None, .. }));
    assert!(matches!(&steps[3], KvReplayStep::Truncate { collection, .. } if collection == "c"));
    assert!(matches!(&steps[4], KvReplayStep::Ignore));
    assert!(matches!(&steps[5], KvReplayStep::Deltas { lsn: 4, .. }));

    let mut purged = TombstoneSet::new();
    purged.note_purge(TID, "c", 5);
    let steps = core.replay_kv_wal(&records, 2, &purged);
    assert!(matches!(&steps[2], KvReplayStep::Purged));
    let counted: Vec<(KvReplayStep, (usize, usize))> =
        steps.into_iter().map(|s| (s, (0, 0))).collect();
    assert_eq!(kv_replay_counts(&counted), (0, 0));
}

fn identity(src: &str, label: &str, dst: &str) -> EdgeIdentity {
    EdgeIdentity {
        collection: "g".to_string(),
        src: src.to_string(),
        label: label.to_string(),
        dst: dst.to_string(),
    }
}

type EdgeTuple = (String, String, String, String, Vec<u8>, u32, u32);

#[test]
fn edge_put_emits_seven_element_tuple_with_surrogates() {
    let mut overlay = GraphTxnOverlay::new();
    overlay.stage_edge_put(coll_key("g"), "a", "knows", "b", vec![1, 2, 3]);
    let mut surrogates = VecMap::new();
    surrogates.insert(identity("a", "knows", "b"), EndSurrogates { src: 10, dst: 20 });

    let mut ops = Vec::new();
    serialize_graph_collection(&overlay, &coll_key("g"), "g", &surrogates, &mut ops)
        .expect("serialize edge put");
    assert_eq!(ops.len(), 1);
    assert_eq!(ops[0].record_type, RecordType::Put);

    let (collection, src, label, dst, properties, src_sur, dst_sur) =
        zerompk::from_msgpack::<EdgeTuple>(&ops[0].payload).expect("decode edge put tuple");
    assert_eq!(collection, "g");
    assert_eq!(src, "a");
    assert_eq!(label, "knows");
    assert_eq!(dst, "b");
    assert_eq!(properties, vec![1, 2, 3]);
    assert_eq!(src_sur, 10);
    assert_eq!(dst_sur, 20);
}

#[test]
fn edge_put_without_bound_surrogates_is_typed_error() {
    let mut overlay = GraphTxnOverlay::new();
    overlay.stage_edge_put(coll_key("g"), "a", "knows", "b", vec![]);
    let surrogates = VecMap::new();
    let mut ops = Vec::new();
    let result = serialize_graph_collection(&overlay, &coll_key("g"), "g", &surrogates, &mut ops);
    assert!(
        result.is_err(),
        "a staged put with no matching plan-carried surrogates must error, not invent one"
    );
}

#[test]
fn edge_delete_emits_four_element_tuple() {
    let mut overlay = GraphTxnOverlay::new();
    overlay.stage_edge_delete(coll_key("g"), "a", "knows", "b");
    let surrogates = VecMap::new();
    let mut ops = Vec::new();
    serialize_graph_collection(&overlay, &coll_key("g"), "g", &surrogates, &mut ops)
        .expect("serialize edge delete");
    assert_eq!(ops.len(), 1);
    assert_eq!(ops[0].record_type, RecordType::Delete);

    let (collection, src, label, dst) =
        zerompk::from_msgpack::<(String, String, String, String)>(&ops[0].payload)
            .expect("decode edge delete tuple");
    assert_eq!(collection, "g");
    assert_eq!(src, "a");
    assert_eq!(label, "knows");
    assert_eq!(dst, "b");
}

#[test]
fn entries_emit_in_deterministic_edge_identity_order() {
    let mut overlay = GraphTxnOverlay::new();
    overlay.stage_edge_put(coll_key("g"), "c", "l", "z", vec![]);
    overlay.stage_edge_put(coll_key("g"), "a", "l", "x", vec![]);
    overlay.stage_edge_put(coll_key("g"), "b", "l", "y", vec![]);

    let mut surrogates = VecMap::new();
    for (s, d) in [("a", "x"), ("b", "y"), ("c", "z")] {
        surrogates.insert(identity(s, "l", d), EndSurrogates { src: 1, dst: 2 });
    }

    let mut ops = Vec::new();
    serialize_graph_collection(&overlay, &coll_key("g"), "g", &surrogates, &mut ops)
        .expect("serialize");
    let srcs: Vec<String> = ops
        .iter()
        .map(|op| zerompk::from_msgpack::<EdgeTuple>(&op.payload).expect("decode").1)
        .collect();
    assert_eq!(srcs, vec!["a", "b", "c"], "src-id ascending order");
}

#[test]
fn resolved_edges_read_back() {
    let mut overlay = GraphTxnOverlay::new();
    overlay.stage_edge_put(coll_key("g"), "a", "knows", "b", vec![1, 2, 3]);
    overlay.stage_edge_delete(coll_key("g"), "c", "knows", "d");
    let mut surrogates = VecMap::new();
    surrogates.insert(identity("a", "knows", "b"), EndSurrogates { src: 10, dst: 20 });
    let mut ops = Vec::new();
    serialize_graph_collection(&overlay, &coll_key("g"), "g", &surrogates, &mut ops)
        .expect("serialize");
    assert!(matches!(
        read_edge_record(&ops[0]),
        Some(EdgeRecord::Put { collection, edge })
            if collection == "g"
                && (edge.src.as_str(), edge.label.as_str(), edge.dst.as_str()) == ("a", "knows", "b")
                && edge.properties == [1, 2, 3]
                && (edge.src_surrogate, edge.dst_surrogate) == (10, 20)
    ));
    assert!(matches!(
        read_edge_record(&ops[1]),
        Some(EdgeRecord::Delete { collection, src, label, dst })
            if (collection.as_str(), src.as_str(), label.as_str(), dst.as_str())
                == ("g", "c", "knows", "d")
    ));
    ops[0].record_type = RecordType::Delete;
    assert!(read_edge_record(&ops[0]).is_none());
    ops[0].record_type = RecordType::VectorPut;
    assert!(read_edge_record(&ops[0]).is_none());
}

#[test]
fn a_change_is_offered_to_one_replay_after_the_other() {
    let order = [
        DeltaReplay::Transfer,
        DeltaReplay::TransferItem,
        DeltaReplay::Atomic,
        DeltaReplay::FieldSet,
        DeltaReplay::Index,
        DeltaReplay::RegisterSortedIndex,
    ];
    for (i, replay) in order.iter().enumerate() {
        let mut answers = vec![None; i];
        assert_eq!(next_delta(&answers), DeltaNext::Offer(*replay));
        answers.push(Some((2, 1)));
        let deletes = if *replay == DeltaReplay::TransferItem { 1 } else { 0 };
        assert_eq!(next_delta(&answers), DeltaNext::Done { puts: 2, deletes });
    }
    assert_eq!(next_delta(&vec![None; 6]), DeltaNext::Done { puts: 0, deletes: 0 });
}

#[test]
fn a_vector_write_is_recorded_or_refused() {
    let mut ops: Vec<RedoSubRecord> = Vec::new();
    assert!(serialize_vector_op(&VectorOp::Insert, Ok(vec![1]), &mut ops).is_ok());
    assert!(serialize_vector_op(&VectorOp::DeleteBySurrogate, Ok(vec![2]), &mut ops).is_ok());
    assert!(serialize_vector_op(&VectorOp::Search, Ok(vec![3]), &mut ops).is_ok());
    assert_eq!(ops.len(), 2);
    assert_eq!(ops[0].record_type, RecordType::VectorPut);
    assert_eq!(ops[1].record_type, RecordType::VectorDelete);
    assert_eq!(ops[1].payload, vec![2]);
    assert!(serialize_vector_op(&VectorOp::SetParams, Ok(vec![4]), &mut ops).is_err());
    let failed = Err(Error::Internal { detail: "no".to_string() });
    assert!(serialize_vector_op(&VectorOp::Insert, failed, &mut ops).is_err());
    assert_eq!(ops.len(), 2);
}
