//! Snapshots, checkpoints, purges and the updates of joined rows.
use nodedb_data::checkpoint::files::{file_pair, file_stem, live_manifest, Manifest};
use nodedb_data::checkpoint::spatial::{
    checkpoint_spatial_indexes, checkpoint_stem, load_spatial_checkpoints, spatial_doc_map,
    SpatialDump, SpatialFile,
};
use nodedb_data::checkpoint::sparse_vector::{
    checkpoint_sparse_vector_indexes, sparse_vector_file, SparseDump,
};
use nodedb_data::checkpoint::vector::{
    checkpoint_vector_indexes, load_vector_checkpoints, vector_ckpt_dir, BuildComplete, VectorDump,
    VectorFile,
};
use nodedb_data::core_loop::CoreLoop;
use nodedb_data::error::{Error, ErrorCode};
use nodedb_data::held::{HeldKey, HeldKind};
use nodedb_data::hex::{doc_id_to_surrogate, surrogate_to_doc_id};
use nodedb_data::ids::{DatabaseId, Surrogate, TenantId};
use nodedb_data::join_update::{
    collect_update_from_join_rows, scan_target_doc_ids, Document, Encoded, Fields, ScanFailure,
    ScannedEntry, TargetDoc, TargetRow,
};
use nodedb_data::maps::{TextKey, VecMap};
use nodedb_data::purge::{
    execute_estimate_count, retry_reclaim, ColumnStats, EngineReclaims,
    ReclaimStats, Removal, Retry,
};
use nodedb_data::row_format::{
    encode_stored_row, sparse_body_format, DocConfig, Encoder, EncoderAnswer, SparseBodyFormat,
    StorageMode,
};
use nodedb_data::snapshot::create::{
    capture_flushed_ts_segments, execute_create_tenant_snapshot, DirEntry, Exported, ExportedTable,
    PartitionDump, RegistryDump, TenantExport,
};
use nodedb_data::snapshot::keys::{
    database_id_from_qualified, parse_timeseries_snapshot_key, parse_vector_snapshot_key,
    snapshot_key,
};
use nodedb_data::snapshot::restore::{
    decode_kv_tables, restore_crdt_constraints, restore_index_configs, restore_kv_table,
    restore_sparse, restore_timeseries, restore_vector_collection, restore_vector_params,
    TimeseriesAnswers,
};
use nodedb_data::snapshot::segments::{
    restore_flushed_ts_segments, CollectionBlob, ColumnarBlob, ColumnarState, DirState,
    PartitionBlob, PartitionMeta,
};
use nodedb_data::snapshot::tenant::{
    needs_rebuild, ClearPart, RestoreRequest, SeriesSection, SnapshotParts, VectorSection,
};
use nodedb_data::spatial::{BoundingBox, SpatialKey, SpatialState};
use nodedb_data::timeseries::state::{MemtableSpan, TsState, WrittenPartition};
use nodedb_data::transaction::chain::CollKey;
use nodedb_data::vectors::registry::{
    vector_index_key, DistanceMetric, ElementType, HnswParams, IndexType, VectorRegistry,
};

#[test]
fn a_row_key_names_its_surrogate() {
    assert_eq!(surrogate_to_doc_id(Surrogate::new(0xAB)), "000000ab");
    assert_eq!(doc_id_to_surrogate("000000ab").map(|s| s.as_u32()), Some(0xAB));
    assert!(doc_id_to_surrogate("not a row").is_none());
}

#[test]
fn a_snapshot_key_parses_back() {
    let k = snapshot_key(3, 9, "a:b");
    assert_eq!(parse_timeseries_snapshot_key(&k), (3, 9, "a:b".to_string()));
    assert_eq!(parse_vector_snapshot_key(&k, 9), (3, "a:b".to_string()));
    assert_eq!(database_id_from_qualified("12/docs"), 12);
    assert_eq!(database_id_from_qualified("docs"), 0);
}

fn export() -> TenantExport {
    let part = |tid: u64, name: &str, bytes: Option<Vec<u8>>| Exported {
        db: 0,
        tid,
        name: name.to_string(),
        bytes,
    };
    let table = |hash: u64, tid: Option<u64>, collection: Option<&str>| ExportedTable {
        hash,
        tid,
        collection: collection.map(String::from),
        entries: vec![(vec![1], vec![2], hash)],
    };
    TenantExport {
        documents: Ok(vec![("k".to_string(), vec![1])]),
        indexes: Ok(Vec::new()),
        edges: Err("graph".to_string()),
        vectors: vec![part(7, "docs", Some(vec![2])), part(8, "other", Some(vec![3]))],
        kv_tables: vec![table(5, Some(7), Some("kv")), table(6, Some(7), None), table(7, None, None)],
        crdt: Some(Some(vec![9])),
        timeseries: vec![part(7, "cpu", None)],
        registries: Vec::new(),
    }
}

#[test]
fn a_snapshot_holds_what_is_the_tenants() {
    let s = execute_create_tenant_snapshot(export(), 0, 7).expect("snapshot");
    assert_eq!(s.documents.len(), 1);
    assert!(s.edges.is_empty(), "edges that cannot be read are left out");
    assert_eq!(s.vectors, vec![(snapshot_key(0, 7, "docs"), vec![2])]);
    let tables = decode_kv_tables(&s.kv_tables);
    assert_eq!(tables.len(), 2, "a table without a tenant is left out");
    assert_eq!(tables[0].collection, "kv");
    assert_eq!(tables[0].entries, Some(vec![(vec![1], vec![2], 5)]));
    assert_eq!(tables[1].collection, "6");
    assert_eq!(tables[1].entries, Some(vec![(vec![1], vec![2], 6)]));
    assert_eq!(s.crdt_state, vec![("7".to_string(), vec![9])]);
    assert!(s.timeseries.is_empty());
    let mut broken = export();
    broken.indexes = Err("io".to_string());
    assert!(matches!(
        execute_create_tenant_snapshot(broken, 0, 7),
        Err(ErrorCode::Internal { detail }) if detail == "snapshot: sparse index scan failed: io"
    ));
    let on_disk = |entries: Result<Vec<DirEntry>, String>| RegistryDump {
        db: 0,
        tid: 7,
        collection: "cpu".to_string(),
        partitions: vec![PartitionDump { dir_name: "p".to_string(), meta: Ok(vec![4]), entries }],
    };
    let mut flushed = export();
    flushed.registries = vec![on_disk(Ok(Vec::new()))];
    let s = execute_create_tenant_snapshot(flushed, 0, 7).expect("snapshot");
    assert_eq!(s.flushed_ts_segments[0].name, snapshot_key(0, 7, "cpu"));
    let mut broken = export();
    broken.registries = vec![on_disk(Err("gone".to_string()))];
    assert!(matches!(
        execute_create_tenant_snapshot(broken, 0, 7),
        Err(ErrorCode::Internal { detail })
            if detail.starts_with("snapshot: flushed ts segment capture failed: ")
    ));
}

#[test]
fn flushed_segments_are_captured_in_order() {
    let entry = |name: Option<&str>, is_file: bool| DirEntry {
        name: name.map(String::from),
        is_file,
        bytes: vec![1],
    };
    let dump = |tid: u64, name: &str, entries: Vec<DirEntry>| RegistryDump {
        db: 0,
        tid,
        collection: name.to_string(),
        partitions: vec![PartitionDump {
            dir_name: "p".to_string(),
            meta: Ok(vec![4]),
            entries: Ok(entries),
        }],
    };
    let dumps = vec![
        dump(1, "mem", vec![]),
        dump(2, "net", vec![]),
        dump(
            1,
            "cpu",
            vec![entry(Some("b"), true), entry(Some("a"), true), entry(Some("d"), false), entry(None, true)],
        ),
    ];
    let captured = capture_flushed_ts_segments(dumps, 0, 1).expect("capture");
    let names: Vec<&str> = captured.iter().map(|c| c.name.as_str()).collect();
    assert_eq!(names, vec![snapshot_key(0, 1, "cpu"), snapshot_key(0, 1, "mem")]);
    let files: Vec<&str> = captured[0].item[0].files.iter().map(|f| f.name.as_str()).collect();
    assert_eq!(files, vec!["a", "b"]);
    let mut broken = dump(1, "cpu", vec![]);
    broken.partitions[0].entries = Err("gone".to_string());
    assert!(matches!(
        capture_flushed_ts_segments(vec![broken], 0, 1),
        Err(Error::Io { detail }) if detail == "gone"
    ));
}

#[test]
fn restored_vectors_keep_their_surrogates() {
    let mut reg = VectorRegistry::new();
    let r = restore_vector_collection(
        &mut reg,
        0,
        1,
        "docs",
        &vec![(3, Some(8)), (3, None)],
        false,
    )
    .expect("there are vectors");
    assert!(r.fresh);
    assert_eq!(r.dim, 3);
    assert_eq!(r.surrogates, vec![8, 0]);
    assert!(restore_vector_collection(&mut reg, 0, 1, "x", &vec![], false).is_none());

    let params = HnswParams { m: 4, m0: 8, ef_construction: 10, metric: DistanceMetric::L2, dtype: ElementType::F32 };
    let key = snapshot_key(0, 1, "docs");
    restore_vector_params(&mut reg, 1, &vec![(key.clone(), Some(params)), ("x".into(), None)]);
    restore_index_configs(&mut reg, 1, &vec![(key, Some(IndexType::IvfPq))]);
    let at = vector_index_key(0, 1, "docs", "");
    assert_eq!(reg.params_of(&at).map(|p| p.m), Some(4));
    assert!(reg.is_ivf(&at));
}

#[test]
fn restored_entries_keep_what_is_left_of_their_lifetime() {
    let entries: Vec<(Vec<u8>, Vec<u8>, u64)> = vec![
        (b"a".to_vec(), b"1".to_vec(), 0),
        (b"b".to_vec(), b"2".to_vec(), 150),
        (b"c".to_vec(), b"3".to_vec(), 99),
    ];
    let bytes = zerompk::to_msgpack_vec(&entries).expect("encode");
    let tables =
        decode_kv_tables(&vec![("5/kv".to_string(), bytes), ("kv".to_string(), vec![0xC1])]);
    assert!(tables[1].entries.is_none());
    assert_eq!(tables[0].collection, "5/kv");
    let decoded = tables.into_iter().next().and_then(|t| t.entries).expect("decode");
    assert_eq!(decoded, entries);
    let (db, puts) = restore_kv_table("5/kv", decoded, 100);
    assert_eq!(db, 5);
    let kept: Vec<(Vec<u8>, u64)> = puts.into_iter().map(|p| (p.key, p.ttl_ms)).collect();
    assert_eq!(kept, vec![(b"a".to_vec(), 0), (b"b".to_vec(), 50)]);
}

fn reclaimed() -> EngineReclaims {
    EngineReclaims {
        sparse: None,
        inverted: None,
        edges: None,
        memtable: false,
        spatial_indexes: 0,
        kv: 0,
        crdt_rows: None,
        l1: ReclaimStats { files_unlinked: 0, bytes_freed: 0 },
    }
}

fn series_answers() -> TimeseriesAnswers {
    TimeseriesAnswers {
        decode_failed: None,
        build_failed: None,
        memtable: Some(MemtableSpan { rows: 1, min_ts: 10, max_ts: 20 }),
        written: Ok(WrittenPartition { row_count: 1, last_flushed_wal_lsn: 0 }),
        drained: Some((10, 20)),
    }
}

const PARAMS: HnswParams =
    HnswParams { m: 4, m0: 8, ef_construction: 10, metric: DistanceMetric::L2, dtype: ElementType::F32 };

fn parts() -> SnapshotParts {
    let entries: Vec<(Vec<u8>, Vec<u8>, u64)> =
        vec![(b"a".to_vec(), b"1".to_vec(), 0), (b"b".to_vec(), b"2".to_vec(), 50)];
    let bytes = zerompk::to_msgpack_vec(&entries).expect("encode");
    SnapshotParts {
        documents: vec![true, false],
        indexes: vec![true],
        edges: vec![true],
        tenant_edges: vec![true],
        rebuild_failed: None,
        vector_params: vec![(snapshot_key(0, 1, "docs"), Some(PARAMS))],
        index_configs: vec![(snapshot_key(0, 1, "docs"), Some(IndexType::Hnsw))],
        vectors: vec![
            VectorSection {
                key: snapshot_key(0, 1, "docs"),
                vectors: Some(vec![(3, Some(8)), (3, None), (3, None)]),
            },
            VectorSection { key: snapshot_key(0, 1, "torn"), vectors: None },
        ],
        kv_tables: decode_kv_tables(&vec![
            ("5/kv".to_string(), bytes),
            ("torn".to_string(), vec![0xC1]),
        ]),
        crdt: vec![true],
        crdt_constraints: vec![
            Ok(vec![None]),
            Ok(vec![None, Some("x".into())]),
            Err("no engine".into()),
        ],
        timeseries: vec![SeriesSection {
            key: snapshot_key(0, 1, "mem"),
            answers: series_answers(),
        }],
        segments: blobs(2, DirState::Missing),
        columnar: vec![ColumnarBlob {
            collection_key: snapshot_key(2, 1, "ev"),
            decode_failed: None,
            built: Ok(true),
        }],
    }
}

fn restore_request(snapshot: Result<SnapshotParts, String>) -> RestoreRequest {
    RestoreRequest {
        tenant_id: 1,
        replace_mode: false,
        now_ms: 100,
        clears: vec![ClearPart {
            tid: 1,
            collection: "docs".into(),
            reclaimed: Ok(reclaimed()),
        }],
        snapshot,
    }
}

#[test]
fn a_restore_installs_every_engine() {
    let mut core = CoreLoop::new(0);
    core.vectors.set_dim(vector_index_key(0, 1, "docs", "old"), 9);
    let run = core.execute_restore_tenant_snapshot(restore_request(Ok(parts())));
    let c = run.answer.expect("restore");
    assert_eq!((c.documents, c.indexes, c.edges), (1, 1, 2));
    assert_eq!((c.vectors, c.kv_entries, c.crdt), (3, 2, 1));
    assert_eq!((c.crdt_constraints, c.timeseries, c.columnar_engines), (1, 1, 1));

    assert_eq!(core.vectors.dim_of(&vector_index_key(0, 1, "docs", "old")), None);
    assert_eq!(core.vectors.dim_of(&vector_index_key(0, 1, "docs", "")), Some(3));
    assert_eq!(run.vectors.len(), 1);
    assert!(run.vectors[0].fresh);
    assert_eq!(run.vectors[0].params, Some(PARAMS));
    assert_eq!(run.vectors[0].surrogates, vec![8, 0, 0]);
    assert_eq!(run.kv.len(), 1);
    assert_eq!((run.kv[0].database_id, run.kv[0].collection.as_str()), (5, "5/kv"));
    assert_eq!(run.kv[0].puts.len(), 1);
    assert!(core.timeseries.partition(0, 1, "mem", 10).is_some());
    assert!(core.timeseries.partition(0, 1, "cpu", 1).is_some());

    assert!(needs_rebuild(&vec![false], &vec![true]));
    assert!(!needs_rebuild(&vec![false], &vec![]));
    assert_eq!(restore_sparse(&vec![true, true], &vec![false]), (2, 0));
    assert!(restore_crdt_constraints(&vec![None, None]).is_ok());
    assert!(restore_crdt_constraints(&vec![None, Some("x".into())]).is_err());
}

#[test]
fn a_restore_keeps_the_definition_of_a_cleared_collection() {
    let mut core = CoreLoop::new(0);
    core.held.hold(held(HeldKind::DocumentConfig, "docs", ""));
    core.held.hold(held(HeldKind::CachedDocument, "docs", "00000001"));
    core.held.hold(held(HeldKind::CachedAggregate, "docs", "count"));
    let run = core.execute_restore_tenant_snapshot(restore_request(Ok(parts())));
    assert!(run.answer.is_ok());
    assert!(core.held.holds(&held(HeldKind::DocumentConfig, "docs", "")));
    assert!(!core.held.holds(&held(HeldKind::CachedDocument, "docs", "00000001")));
    assert!(!core.held.holds(&held(HeldKind::CachedAggregate, "docs", "count")));
    core.execute_unregister_collection(0, 1, "docs", 5, &reclaimed());
    assert!(!core.held.holds(&held(HeldKind::DocumentConfig, "docs", "")));
}

fn fails(req: RestoreRequest, start: &str) -> (CoreLoop, usize) {
    let mut core = CoreLoop::new(0);
    let run = core.execute_restore_tenant_snapshot(req);
    match run.answer {
        Err(ErrorCode::Internal { detail }) => assert!(detail.starts_with(start), "{detail}"),
        _ => panic!("{start}"),
    }
    (core, run.vectors.len())
}

#[test]
fn nothing_is_installed_over_stale_state() {
    let mut req = restore_request(Ok(parts()));
    req.clears[0].reclaimed = Err("x".into());
    let (core, installs) = fails(req, "clear-then-install purge failed for 'docs': x");
    assert_eq!(installs, 0);
    assert_eq!(core.vectors.dim_of(&vector_index_key(0, 1, "docs", "")), None);
    let (_, installs) = fails(restore_request(Err("x".into())), "malformed tenant snapshot: x");
    assert_eq!(installs, 0);
}

#[test]
fn each_failed_part_fails_a_restore() {
    let mut s = parts();
    s.rebuild_failed = Some("x".into());
    let (_, installs) = fails(
        restore_request(Ok(s)),
        "restore: CSR rebuild after edge install failed: x",
    );
    assert_eq!(installs, 0);

    let mut s = parts();
    s.timeseries[0].answers.decode_failed = Some("x".into());
    let (core, installs) = fails(
        restore_request(Ok(s)),
        "restore: timeseries collection 0:1:mem failed: ",
    );
    assert_eq!(installs, 1);
    assert!(core.timeseries.partition(0, 1, "cpu", 1).is_none());

    let mut s = parts();
    s.segments = blobs(2, DirState::Occupied);
    let (core, _) = fails(
        restore_request(Ok(s)),
        "restore: flushed ts segment restore failed: ",
    );
    assert!(core.timeseries.partition(0, 1, "mem", 10).is_some());

    let mut s = parts();
    s.columnar[0].built = Err("x".into());
    fails(restore_request(Ok(s)), "restore: columnar engine restore failed: ");
}

#[test]
fn a_restored_series_is_flushed() {
    let mut ts = TsState::new();
    let key = snapshot_key(0, 1, "cpu");
    assert!(restore_timeseries(&mut ts, &key, series_answers()).is_ok());
    assert!(ts.partition(0, 1, "cpu", 10).is_some());
    let mut broken = series_answers();
    broken.decode_failed = Some("x".into());
    assert!(restore_timeseries(&mut ts, &snapshot_key(0, 1, "mem"), broken).is_err());
}

fn blobs(rows: u64, dir: DirState) -> Vec<CollectionBlob> {
    vec![CollectionBlob {
        collection_key: snapshot_key(0, 1, "cpu"),
        partitions: vec![PartitionBlob {
            dir_name: "p".into(),
            meta: Ok(PartitionMeta {
                min_ts: 1,
                max_ts: 5,
                row_count: rows,
                last_flushed_wal_lsn: 3,
                sealed: true,
            }),
            dir,
            write_failed: None,
        }],
    }]
}

#[test]
fn restoring_segments_twice_is_restoring_them_once() {
    let mut ts = TsState::new();
    assert!(restore_flushed_ts_segments(&mut ts, &blobs(2, DirState::Missing)).is_ok());
    assert!(restore_flushed_ts_segments(&mut ts, &blobs(2, DirState::Occupied)).is_ok());
    assert_eq!(ts.partition(0, 1, "cpu", 1).map(|p| p.row_count), Some(2));
    let Err(Error::Storage { detail, .. }) =
        restore_flushed_ts_segments(&mut ts, &blobs(4, DirState::Missing))
    else {
        panic!("live data stays");
    };
    assert_eq!(
        detail,
        "restore: partition collision for collection 'cpu' min_ts=1: existing (rows=2, lsn=3) \
         differs from snapshot (rows=4, lsn=3); refusing to overwrite live data"
    );
    let mut empty = TsState::new();
    assert!(restore_flushed_ts_segments(&mut empty, &blobs(2, DirState::Occupied)).is_err());
    assert!(matches!(
        restore_flushed_ts_segments(&mut empty, &blobs(2, DirState::Unreadable("x".into()))),
        Err(Error::Io { .. })
    ));
}

#[test]
fn a_restored_engine_overwrites_none() {
    let mut state = ColumnarState::new();
    let blob = || ColumnarBlob {
        collection_key: snapshot_key(2, 1, "ev"),
        decode_failed: None,
        built: Ok(true),
    };
    assert!(state.restore_columnar_engines(&vec![blob()]).is_ok());
    let Err(Error::Storage { detail, .. }) = state.restore_columnar_engines(&vec![blob()]) else {
        panic!("live data stays");
    };
    assert_eq!(
        detail,
        "restore: columnar engine already exists for collection 'ev' (db=2, tenant=1); \
         refusing to overwrite live data"
    );
    let mut fresh = ColumnarState::new();
    let mut broken = blob();
    broken.decode_failed = Some("x".into());
    assert!(matches!(
        fresh.restore_columnar_engines(&vec![broken]),
        Err(Error::Serialization { .. })
    ));
    let mut unbuilt = blob();
    unbuilt.built = Err("x".into());
    assert!(matches!(fresh.restore_columnar_engines(&vec![unbuilt]), Err(Error::Storage { .. })));
}

fn spatial_key(coll: &str) -> SpatialKey {
    SpatialKey { db: 0, tid: 1, coll: coll.into(), field: "g".into() }
}

const BOX: BoundingBox = BoundingBox { min_lng: 1, min_lat: 2, max_lng: 3, max_lat: 4 };

fn held(kind: HeldKind, coll: &str, part: &str) -> HeldKey {
    HeldKey { kind, db: 0, tid: 1, coll: coll.to_string(), part: part.to_string() }
}

#[test]
fn a_cleared_collection_is_gone_and_the_others_stay() {
    let mut core = CoreLoop::new(0);
    for coll in ["docs", "docs2"] {
        core.vectors.set_dim(vector_index_key(0, 1, coll, "emb"), 3);
        core.chains.set_head(0, 1, coll, "h".to_string());
        core.spatial.insert_entry(spatial_key(coll), 1, BOX, "d".to_string());
        core.timeseries.note_ingested(0, 1, coll, 5);
        core.held.hold(held(HeldKind::SparseVectorIndex, coll, "emb"));
        core.held.hold(held(HeldKind::DocumentConfig, coll, ""));
        core.held.hold(held(HeldKind::FlushedSurrogates, coll, ""));
    }
    let reclaims = EngineReclaims {
        sparse: Some((4, 2)),
        inverted: None,
        edges: Some(1),
        memtable: true,
        spatial_indexes: 1,
        kv: 3,
        crdt_rows: Some(2),
        l1: ReclaimStats { files_unlinked: 1, bytes_freed: 10 },
    };
    let summary = core.execute_unregister_collection(0, 1, "docs", 77, &reclaims);
    assert_eq!((summary.tenant_id, summary.collection.as_str(), summary.purge_lsn), (1, "docs", 77));
    assert_eq!((summary.stats.docs_removed, summary.stats.idxs_removed), (4, 2));
    assert_eq!((summary.stats.inv_removed, summary.stats.vec_removed), (0, 1));
    assert!(core.vectors.dim_of(&vector_index_key(0, 1, "docs", "emb")).is_none());
    assert!(core.chains.head(0, 1, "docs").is_none());
    assert!(core.spatial.extent_of(&spatial_key("docs"), 1).is_none());
    assert_eq!(core.timeseries.max_ingested_lsn(0, 1, "docs"), 0);
    assert!(!core.held.holds(&held(HeldKind::SparseVectorIndex, "docs", "emb")));
    assert!(!core.held.holds(&held(HeldKind::DocumentConfig, "docs", "")));
    assert!(!core.held.holds(&held(HeldKind::FlushedSurrogates, "docs", "")));
    assert!(core.held.holds(&held(HeldKind::SparseVectorIndex, "docs2", "emb")));
    assert!(core.held.holds(&held(HeldKind::DocumentConfig, "docs2", "")));
    assert!(core.vectors.dim_of(&vector_index_key(0, 1, "docs2", "emb")).is_some());
    assert!(core.chains.head(0, 1, "docs2").is_some());
    assert!(core.spatial.extent_of(&spatial_key("docs2"), 1).is_some());
    assert_eq!(core.timeseries.max_ingested_lsn(0, 1, "docs2"), 5);
    let again = core.clear_collection_all_engines(0, 1, "docs", false, &reclaims);
    assert_eq!(again.vec_removed, 0);
}

#[test]
fn a_reclaim_is_tried_three_times() {
    let failed: Result<u8, &str> = Err("busy");
    assert!(matches!(retry_reclaim(1, failed), Retry::Again(_)));
    assert!(matches!(retry_reclaim(2, failed), Retry::Again(_)));
    assert!(matches!(retry_reclaim(3, failed), Retry::GiveUp));
    assert!(matches!(retry_reclaim(3, Ok::<u8, &str>(9)), Retry::Done(9)));
}

#[test]
fn a_truncate_counts_what_it_removed() {
    let removal = |doc_id: &str, deleted: Option<u8>, converted: Option<u8>, edges: usize| Removal {
        doc_id: doc_id.to_string(),
        deleted: deleted.map(|b| vec![b]),
        converted: converted.map(|b| vec![b]),
        edges,
    };
    let removals = vec![
        removal("0000000a", Some(1), Some(2), 2),
        removal("0000000b", None, None, 1),
        removal("x", Some(3), None, 0),
    ];
    let mut core = CoreLoop::new(0);
    for id in ["0000000a", "0000000b", "x"] {
        core.held.hold(held(HeldKind::CachedDocument, "docs", id));
    }
    for coll in ["docs", "docs2"] {
        core.held.hold(held(HeldKind::CachedAggregate, coll, "count"));
    }
    core.held.hold(held(HeldKind::DocumentConfig, "docs", ""));
    assert!(matches!(
        core.execute_truncate(0, 1, "docs", Err("io".to_string())),
        Err(ErrorCode::Internal { detail }) if detail == "scan for truncate: io"
    ));
    assert!(core.held.holds(&held(HeldKind::CachedAggregate, "docs", "count")));
    let (cascades, n) = core.execute_truncate(0, 1, "docs", Ok(removals)).expect("truncate");
    assert!(!core.held.holds(&held(HeldKind::CachedDocument, "docs", "0000000a")));
    assert!(core.held.holds(&held(HeldKind::CachedDocument, "docs", "0000000b")));
    assert!(!core.held.holds(&held(HeldKind::CachedDocument, "docs", "x")));
    assert!(!core.held.holds(&held(HeldKind::CachedAggregate, "docs", "count")));
    assert!(core.held.holds(&held(HeldKind::CachedAggregate, "docs2", "count")));
    assert!(core.held.holds(&held(HeldKind::DocumentConfig, "docs", "")));
    assert_eq!(n, 2);
    let first = cascades[0].as_ref().expect("deleted");
    assert_eq!((first.inverted, first.edges), (Some(10), true));
    assert_eq!(first.event_old, vec![2]);
    assert!(cascades[1].is_none());
    let last = cascades[2].as_ref().expect("deleted");
    assert_eq!((last.inverted, last.edges), (None, false));
    assert_eq!(last.event_old, vec![3]);
}

#[test]
fn a_count_is_estimated_from_the_statistics() {
    let stats = ColumnStats { distinct_count: 7, row_count: 20, null_count: 3 };
    let c = execute_estimate_count("docs", "name", Ok(Some(stats))).expect("estimate");
    assert_eq!((c.estimate, c.row_count, c.null_count), (7, 20, 3));
    let c = execute_estimate_count("docs", "name", Ok(None)).expect("estimate");
    assert_eq!((c.estimate, c.row_count, c.null_count), (0, 0, 0));
    assert!(execute_estimate_count("docs", "name", Err("io".to_string())).is_err());
}

fn document(pairs: &[(&str, &str)]) -> Document {
    let mut f: Fields = VecMap::new();
    for (k, v) in pairs {
        f.insert(TextKey(k.to_string()), v.to_string());
    }
    Some(f)
}

fn field(d: &Document, name: &str) -> Option<String> {
    d.as_ref().and_then(|f| f.get(&TextKey(name.to_string())).cloned())
}

#[test]
fn a_joined_row_is_updated_from_its_source() {
    let row = |doc_id: &str, join: Option<&str>| TargetRow {
        doc_id: doc_id.to_string(),
        doc: Some(TargetDoc {
            fields: document(&[("qty", "1"), ("keep", "k")]),
            join_text: join.map(String::from),
        }),
    };
    let rows = vec![
        row("00000001", Some("a")),
        row("00000002", Some("b")),
        TargetRow { doc_id: "00000003".into(), doc: None },
        row("00000004", None),
    ];
    let mut sources: VecMap<TextKey, Document> = VecMap::new();
    sources.insert(TextKey("a".to_string()), document(&[("qty", "9")]));
    let updates = vec!["qty".to_string(), "x".to_string()];
    let evaluate = |d: &Document, i: usize| if i == 0 { field(d, "s.qty") } else { None };
    let encode = |d: &Document| {
        let qty = field(d, "qty")?;
        Some(Encoded { doc: document(&[("qty", &qty)]), body: qty.into_bytes() })
    };
    let out = collect_update_from_join_rows(&rows, &sources, "s", &updates, evaluate, encode);
    assert_eq!(out.len(), 1);
    assert_eq!(out[0].doc_id, "00000001");
    assert_eq!(out[0].surrogate, Some(1));
    assert_eq!(out[0].body, b"9");
}

#[test]
fn a_target_scan_lists_the_rows_that_pass() {
    let entry = |key: &str, matches: bool| ScannedEntry { key: key.to_string(), matches };
    let entries = vec![entry("1:c:d1", true), entry("1:c:d2", false), entry("1:x:d3", true)];
    assert_eq!(scan_target_doc_ids("1:c:", Ok(&entries)).expect("scan"), vec!["d1".to_string()]);
    assert!(matches!(
        scan_target_doc_ids("1:c:", Err(ScanFailure::ReadTxn("x".into()))),
        Err(Error::Storage { detail, .. }) if detail == "read txn: x"
    ));
    assert!(matches!(
        scan_target_doc_ids("1:c:", Err(ScanFailure::OpenTable("x".into()))),
        Err(Error::Storage { detail, .. }) if detail == "open table: x"
    ));
}

#[test]
fn a_row_is_encoded_as_its_collection_stores_it() {
    let mut configs: VecMap<CollKey, DocConfig> = VecMap::new();
    configs.insert(
        CollKey::at(0, 1, "strict"),
        DocConfig { vector_primary: false, storage_mode: StorageMode::Strict { schema: 4 } },
    );
    configs.insert(
        CollKey::at(0, 1, "vec"),
        DocConfig { vector_primary: true, storage_mode: StorageMode::Strict { schema: 4 } },
    );
    let format = |coll: &str| sparse_body_format(&configs, 0, 1, coll);
    assert!(format("strict") == SparseBodyFormat::Strict { schema: 4 });
    assert!(format("vec") == SparseBodyFormat::VectorSidecar);
    assert!(format("plain") == SparseBodyFormat::Document);
    let named = |e: Encoder| {
        EncoderAnswer::Bytes(match e {
            Encoder::Document => b"doc".to_vec(),
            Encoder::Tuple { schema } => vec![schema as u8],
            Encoder::Sidecar => b"side".to_vec(),
        })
    };
    assert_eq!(encode_stored_row(format("strict"), named).expect("encode"), vec![4]);
    assert_eq!(encode_stored_row(format("vec"), named).expect("encode"), b"side");
    assert_eq!(encode_stored_row(format("plain"), named).expect("encode"), b"doc");
    assert!(matches!(
        encode_stored_row(format("vec"), |_: Encoder| EncoderAnswer::NotAnObject),
        Err(Error::Serialization { .. })
    ));
    assert!(matches!(
        encode_stored_row(format("vec"), |_: Encoder| EncoderAnswer::SidecarFailed("x".into())),
        Err(Error::Serialization { detail, .. }) if detail.ends_with(": x")
    ));
}

#[test]
fn a_manifest_counts_only_in_its_format() {
    let m = || Some(Manifest { format_version: 2, generation: 5 });
    assert_eq!(live_manifest(true, m(), 2).map(|m| m.generation), Some(5));
    assert!(live_manifest(true, m(), 3).is_none());
    assert!(live_manifest(true, None, 2).is_none());
    assert!(live_manifest(false, m(), 2).is_none());
    assert_eq!(file_stem("a.b.ckpt", "ckpt").as_deref(), Some("a.b"));
    assert!(file_stem("a.tmp", "ckpt").is_none());
    let pair = file_pair("/d", "s", ".ckpt");
    assert_ne!(pair.tmp, pair.path);
    assert!(pair.path.ends_with("/s.ckpt"));
}

#[test]
fn a_vector_checkpoint_loads_the_dimensions_back() {
    let dump = |name: &str, len: usize, failed: Option<&str>| VectorDump {
        key: vector_index_key(0, 1, name, ""),
        len,
        encode_failed: None,
        write_failed: failed.map(String::from),
    };
    let dumps = vec![dump("docs", 3, None), dump("empty", 0, None)];
    let done = checkpoint_vector_indexes("/data", 0, 44, &None, &dumps).expect("checkpoint");
    assert_eq!((done.durable_lsn, done.files_written), (44, 1));
    let failed = vec![dump("docs", 3, Some("full"))];
    assert!(checkpoint_vector_indexes("/data", 0, 44, &None, &failed).is_err());
    assert!(checkpoint_vector_indexes("/data", 0, 44, &Some("ro".into()), &dumps).is_err());

    let mut reg = VectorRegistry::new();
    let dir = vector_ckpt_dir("/data", 0);
    let files = vec![
        VectorFile { name: Some("0:1:docs.ckpt".into()), loaded: Ok(3) },
        VectorFile { name: Some("junk.tmp".into()), loaded: Ok(9) },
        VectorFile { name: None, loaded: Ok(9) },
    ];
    assert!(load_vector_checkpoints(&mut reg, &dir, true, Ok(files)).is_ok());
    assert_eq!(reg.dim_of(&vector_index_key(0, 1, "docs", "")), Some(3));
    let broken = vec![VectorFile {
        name: Some("0:1:docs.ckpt".into()),
        loaded: Err(Error::Internal { detail: "corrupt".into() }),
    }];
    assert!(load_vector_checkpoints(&mut reg, &dir, true, Ok(broken)).is_err());
    assert!(load_vector_checkpoints(&mut reg, &dir, true, Err("io".into())).is_err());
    assert!(load_vector_checkpoints(&mut reg, &dir, false, Err("io".into())).is_ok());

    let mut core = CoreLoop::new(0);
    core.vectors.set_dim(vector_index_key(0, 1, "docs", "emb"), 3);
    let builds = vec![
        BuildComplete { key: "0:1:docs:emb".into(), segment_id: 6 },
        BuildComplete { key: "0:1:gone".into(), segment_id: 7 },
        BuildComplete { key: "bad".into(), segment_id: 8 },
    ];
    let promoted = core.poll_build_completions(&builds);
    assert_eq!(promoted.len(), 1);
    assert_eq!((promoted[0].index.name.as_str(), promoted[0].segment_id), ("docs:emb", 6));
}

#[test]
fn a_spatial_checkpoint_loads_its_documents_back() {
    let mut state = SpatialState::new();
    state.insert_entry(spatial_key("c"), 7, BOX, "d7".to_string());
    let map = spatial_doc_map(&state, &spatial_key("c")).expect("encode");
    let dump = |publish: Option<&str>| SpatialDump {
        key: spatial_key("c"),
        encoded: Ok(true),
        publish_failed: publish.map(String::from),
        map_publish_failed: None,
    };
    let done = checkpoint_spatial_indexes(&state, "/data", 0, 9, &None, &vec![dump(None)])
        .expect("checkpoint");
    assert_eq!((done.durable_lsn, done.files_written), (9, 2));
    assert!(checkpoint_spatial_indexes(&state, "/data", 0, 9, &None, &vec![dump(Some("x"))]).is_err());

    let stem = checkpoint_stem(DatabaseId::new(0), TenantId::new(1), "c", "g");
    let mut fresh = SpatialState::new();
    let files = vec![SpatialFile {
        name: Some(format!("{stem}.ckpt")),
        tree: Some(vec![(7, BOX)]),
        map_bytes: map,
    }];
    assert_eq!(load_spatial_checkpoints(&mut fresh, &files), 1);
    assert_eq!(fresh.extent_of(&spatial_key("c"), 7), Some(BOX));
    assert_eq!(fresh.document_of(&spatial_key("c"), 7).as_deref(), Some("d7"));
}

#[test]
fn only_indexes_with_something_in_them_are_written() {
    let dump = |is_empty: bool, bytes: usize, written: bool| SparseDump {
        db: 0,
        tid: 1,
        coll: "c".into(),
        field: "f".into(),
        is_empty,
        bytes,
        written,
    };
    assert!(sparse_vector_file("/d", &dump(true, 4, true)).is_none());
    assert!(sparse_vector_file("/d", &dump(false, 4, true)).is_some());
    let dumps = vec![dump(false, 4, true), dump(true, 4, true), dump(false, 4, false)];
    assert_eq!(checkpoint_sparse_vector_indexes(true, &dumps), 1);
    assert_eq!(checkpoint_sparse_vector_indexes(false, &dumps), 0);
}
