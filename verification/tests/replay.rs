//! What a starting core does with the records of the log.
use nodedb_data::core_loop::CoreLoop;
use nodedb_data::error::Error;
use nodedb_data::replay::all::{
    refuses_start, replay_wal_and_rebuild_indexes, RecoveryStage, ReplayPass,
};
use nodedb_data::replay::array::{
    array_outcome, ensure_array_open_for_replay, ArrayOpening, ArrayPayload, ArrayRecord,
    ArrayReplayStep,
};
use nodedb_data::replay::crdt::{replayed_count, CrdtPayload, CrdtRecord, CrdtReplayStep};
use nodedb_data::replay::vector::{
    vector_step_counts, BatchPut, NamedPut, PlainPut, SyncedPut, VectorRecord, VectorReplayStep,
};
use nodedb_data::vectors::handlers::{
    DeleteTarget, SyncAdmit, SyncProvenance, VectorAction, VectorReply,
};
use nodedb_data::vectors::registry::{vector_index_key, DistanceMetric, ElementType};
use nodedb_data::wal::{is_routed_to, RecordType, TombstoneSet, WalRecord};

fn record(record_type: RecordType, tenant_id: u64, vshard_id: u32) -> WalRecord {
    WalRecord { record_type, lsn: 1, tenant_id, database_id: 0, vshard_id, payload: Vec::new() }
}

fn crdt_record(tenant_id: u64, vshard_id: u32, collection: &str) -> CrdtRecord {
    CrdtRecord {
        record: record(RecordType::CrdtDelta, tenant_id, vshard_id),
        payload: Some(CrdtPayload {
            bytes: b"row1".to_vec(),
            collection: Some(collection.to_string()),
        }),
    }
}

#[test]
fn replay_crdt_wal_restores_state() {
    let core = CoreLoop::new(0);
    let steps = core.replay_crdt_wal(&vec![crdt_record(7, 0, "notes")], 1);
    assert_eq!(steps.len(), 1);
    match &steps[0] {
        CrdtReplayStep::Import { tenant_id, collection, bytes } => {
            assert_eq!(*tenant_id, 7);
            assert_eq!(collection, "notes");
            assert_eq!(bytes, b"row1", "CRDT row must be restored from WAL replay");
        }
        _ => panic!("CRDT row must be restored from WAL replay"),
    }
}

#[test]
fn replay_crdt_wal_skips_other_cores() {
    let core = CoreLoop::new(0);
    let steps = core.replay_crdt_wal(&vec![crdt_record(9, 1, "notes")], 2);
    assert!(
        matches!(steps[0], CrdtReplayStep::Ignore),
        "core 0 must not replay a record routed to core 1"
    );
}

#[test]
fn a_delta_without_a_collection_is_left_out() {
    let core = CoreLoop::new(0);
    let mut bare = crdt_record(7, 0, "notes");
    bare.payload = Some(CrdtPayload { bytes: Vec::new(), collection: None });
    let mut broken = crdt_record(7, 0, "notes");
    broken.payload = None;
    let mut other = crdt_record(7, 0, "notes");
    other.record.record_type = RecordType::Put;
    let steps = core.replay_crdt_wal(&vec![bare, broken, other], 1);
    assert!(matches!(steps[0], CrdtReplayStep::NoCollection));
    assert!(matches!(steps[1], CrdtReplayStep::Undecodable));
    assert!(matches!(steps[2], CrdtReplayStep::Ignore));
    assert_eq!(replayed_count(&vec![true, false, true]), 2);
}

#[test]
fn one_core_replays_a_record() {
    assert!(is_routed_to(5, 4, 1));
    assert!(!is_routed_to(5, 4, 0));
    assert!(is_routed_to(5, 0, 0), "without a count of cores the first one replays");
}

#[test]
fn a_purge_covers_what_was_before_it() {
    let mut t = TombstoneSet::new();
    t.note_purge(1, "c", 10);
    t.note_purge(1, "c", 8);
    assert!(t.is_tombstoned(1, "c", 9));
    assert!(!t.is_tombstoned(1, "c", 10));
    assert!(!t.is_tombstoned(2, "c", 9));
    assert!(!t.is_tombstoned(1, "d", 9));
}

#[test]
fn the_passes_run_in_their_order() {
    let core = CoreLoop::new(0);
    assert!(core.replay_all_wal(0).is_empty());
    let passes = core.replay_all_wal(1);
    assert_eq!(passes.len(), 12);
    assert_eq!(passes[0], ReplayPass::Vector);
    assert_eq!(passes[10], ReplayPass::TransactionRedo);
    assert_eq!(passes[11], ReplayPass::SyncHwm);
    assert!(refuses_start(ReplayPass::TransactionRedo, true));
    assert!(refuses_start(ReplayPass::SyncHwm, true));
    assert!(!refuses_start(ReplayPass::Kv, true));
    assert!(!refuses_start(ReplayPass::SyncHwm, false));
    assert_eq!(replay_wal_and_rebuild_indexes()[0], RecoveryStage::ReplayLog);
}

const WRITER: SyncProvenance = SyncProvenance { producer_id: 1, epoch: 2, stream_id: 3, seq: 4 };

fn array_record(record_type: RecordType, vshard_id: u32) -> ArrayRecord<u8> {
    ArrayRecord {
        record: record(record_type, 1, vshard_id),
        payload: Some(ArrayPayload {
            array: "a".to_string(),
            cells: vec![7, 8, 9],
            provenance: Some(WRITER),
        }),
    }
}

#[test]
fn array_records_are_replayed_on_their_core() {
    let core = CoreLoop::new(0);
    let mut broken = array_record(RecordType::ArrayPut, 0);
    broken.payload = None;
    let steps = core.replay_array_wal(
        vec![
            array_record(RecordType::ArrayPut, 0),
            array_record(RecordType::ArrayDelete, 0),
            array_record(RecordType::ArrayPut, 1),
            broken,
        ],
        2,
        &TombstoneSet::new(),
    );
    let lsn = array_record(RecordType::ArrayPut, 0).record.lsn;
    assert!(matches!(
        &steps[0],
        ArrayReplayStep::Put { payload, lsn: at }
            if payload.array == "a" && payload.cells == [7, 8, 9] && *at == lsn
    ));
    assert!(matches!(
        &steps[1],
        ArrayReplayStep::Delete { payload, lsn: at } if payload.cells.len() == 3 && *at == lsn
    ));
    assert!(matches!(&steps[2], ArrayReplayStep::Ignore));
    assert!(matches!(&steps[3], ArrayReplayStep::Undecodable));
    let mut purged = TombstoneSet::new();
    purged.note_purge(1, "a", 2);
    let record = vec![array_record(RecordType::ArrayPut, 0)];
    assert!(matches!(core.replay_array_wal(record, 2, &purged)[0], ArrayReplayStep::Purged));

    let done = array_outcome(&steps[0], true, true);
    assert_eq!((done.puts, done.deletes), (3, 0));
    assert!(done.commit == Some(WRITER));
    let done = array_outcome(&steps[1], true, true);
    assert_eq!((done.puts, done.deletes), (0, 3));
    let refused = array_outcome(&steps[0], true, false);
    assert_eq!((refused.puts, refused.deletes), (0, 0));
    assert!(refused.commit.is_none());
    assert!(array_outcome(&steps[1], false, true).commit.is_none());
}

#[test]
fn an_array_that_does_not_open_says_why() {
    let text = |o: ArrayOpening| ensure_array_open_for_replay("a", o).unwrap_err().text();
    assert!(text(ArrayOpening::CatalogLocked).contains("array catalog lock poisoned"));
    assert!(text(ArrayOpening::Missing).contains("array 'a' missing from catalog"));
    assert!(text(ArrayOpening::Refused("no".into())).contains("array open during WAL replay: no"));
    assert!(matches!(
        ensure_array_open_for_replay("a", ArrayOpening::BadSchema("x".into())),
        Err(Error::Serialization { .. })
    ));
    assert!(ensure_array_open_for_replay("a", ArrayOpening::Opened).is_ok());
}

fn vector_record(record_type: RecordType) -> VectorRecord {
    VectorRecord {
        record: record(record_type, 1, 0),
        synced_put: None,
        named_put: None,
        plain_put: None,
        batch_put: None,
    }
}

fn synced_put(dim: usize, provenance: Option<SyncProvenance>) -> VectorRecord {
    let mut r = vector_record(RecordType::VectorPut);
    r.synced_put = Some(SyncedPut {
        collection: "docs".to_string(),
        vector_len: 3,
        dim,
        field_name: "emb".to_string(),
        surrogate: 9,
        provenance,
    });
    r
}

fn replay(core: &mut CoreLoop, rec: &VectorRecord, verdict: SyncAdmit) -> VectorReplayStep {
    core.replay_vector_record(rec, 1, &TombstoneSet::new(), verdict)
}

#[test]
fn each_shape_of_a_vector_put_is_replayed() {
    let mut core = CoreLoop::new(0);
    let step = replay(&mut core, &synced_put(3, None), SyncAdmit::Gap);
    assert!(
        matches!(
            step,
            VectorReplayStep::Handled {
                reply: VectorReply::Done,
                action: VectorAction::Hnsw { create: true, .. }
            }
        ),
        "a local write is not held back"
    );
    let step = replay(&mut core, &synced_put(3, Some(WRITER)), SyncAdmit::Apply);
    assert!(matches!(step, VectorReplayStep::Handled { reply: VectorReply::Applied, .. }));
    let step = replay(&mut core, &synced_put(3, Some(WRITER)), SyncAdmit::Duplicate);
    assert!(matches!(
        step,
        VectorReplayStep::Handled { reply: VectorReply::Held(SyncAdmit::Duplicate), .. }
    ));
    assert!(matches!(
        replay(&mut core, &synced_put(4, None), SyncAdmit::Apply),
        VectorReplayStep::Unusable
    ));

    let mut named = vector_record(RecordType::VectorPut);
    named.named_put = Some(NamedPut {
        collection: "docs".into(),
        vector_len: 2,
        dim: 2,
        field_name: "emb".into(),
    });
    assert!(
        matches!(replay(&mut core, &named, SyncAdmit::Apply), VectorReplayStep::Unusable),
        "the index has another dimension"
    );

    let mut plain = vector_record(RecordType::VectorPut);
    plain.plain_put = Some(PlainPut { collection: "docs".into(), vector_len: 2, dim: 2 });
    assert!(matches!(
        replay(&mut core, &plain, SyncAdmit::Apply),
        VectorReplayStep::Insert { create: true, .. }
    ));
    let mut batch = vector_record(RecordType::VectorPut);
    batch.batch_put = Some(BatchPut { collection: "docs".into(), dim: 2 });
    assert!(matches!(
        replay(&mut core, &batch, SyncAdmit::Apply),
        VectorReplayStep::Insert { create: false, .. }
    ));
    assert!(matches!(
        replay(&mut core, &vector_record(RecordType::VectorPut), SyncAdmit::Apply),
        VectorReplayStep::Unusable
    ));
}

#[test]
fn declared_parameters_reach_the_index() {
    let mut core = CoreLoop::new(0);
    let text = |s: &str| s.to_string();
    let mut params = vector_record(RecordType::VectorParams);
    params.record.payload =
        zerompk::to_msgpack_vec(&(text("docs"), 8usize, 100usize, text("l2"))).unwrap();
    assert!(matches!(replay(&mut core, &params, SyncAdmit::Apply), VectorReplayStep::Params));
    let p = core.vectors.params_of(&vector_index_key(0, 1, "docs", "")).expect("declared");
    assert_eq!((p.m, p.m0, p.ef_construction), (8, 16, 100));
    assert_eq!(p.metric, DistanceMetric::L2);

    params.record.payload = zerompk::to_msgpack_vec(&(
        text("docs"),
        4usize,
        50usize,
        text("dot"),
        text("hnsw"),
        0usize,
        0usize,
        0usize,
        text("emb"),
    ))
    .unwrap();
    assert!(matches!(replay(&mut core, &params, SyncAdmit::Apply), VectorReplayStep::Params));
    let p = core.vectors.params_of(&vector_index_key(0, 1, "docs", "emb")).expect("declared");
    assert_eq!((p.m, p.m0), (4, 8));
    assert_eq!(p.metric, DistanceMetric::InnerProduct);
    assert_eq!(p.dtype, ElementType::F32);

    let short = Some((text("docs"), 3u64, 9u64, text("l1")));
    let step =
        core.replay_declared_params(&params.record, None, short, &TombstoneSet::new());
    assert!(matches!(step, VectorReplayStep::Params));
    let p = core.vectors.params_of(&vector_index_key(0, 1, "docs", "")).expect("declared");
    assert_eq!((p.m, p.m0, p.ef_construction), (3, 6, 9));
    assert_eq!(p.metric, DistanceMetric::Manhattan);

    params.record.payload = vec![0xC1];
    assert!(matches!(replay(&mut core, &params, SyncAdmit::Apply), VectorReplayStep::Unusable));
    params.record.vshard_id = 1;
    assert!(matches!(
        core.replay_vector_record(&params, 2, &TombstoneSet::new(), SyncAdmit::Apply),
        VectorReplayStep::OtherCore
    ));
}

#[test]
fn vector_deletes_find_their_index() {
    let mut core = CoreLoop::new(0);
    let mut by_node = vector_record(RecordType::VectorDelete);
    by_node.record.payload = zerompk::to_msgpack_vec(&("docs".to_string(), 5u32)).unwrap();
    assert!(matches!(replay(&mut core, &by_node, SyncAdmit::Apply), VectorReplayStep::NoIndex));

    let mut by_surrogate = vector_record(RecordType::VectorDelete);
    let writer = Some((WRITER.producer_id, WRITER.epoch, WRITER.stream_id, WRITER.seq));
    by_surrogate.record.payload =
        zerompk::to_msgpack_vec(&("docs".to_string(), 9u32, "emb".to_string(), writer)).unwrap();
    assert!(matches!(
        replay(&mut core, &by_surrogate, SyncAdmit::Apply),
        VectorReplayStep::Delete { target: Ok(DeleteTarget::Absent), surrogate: 9 }
    ));
    core.vectors.set_dim(vector_index_key(0, 1, "docs", ""), 3);
    assert!(matches!(
        replay(&mut core, &by_surrogate, SyncAdmit::Apply),
        VectorReplayStep::Delete { target: Ok(DeleteTarget::Index(k)), .. } if k.name == "docs"
    ));
    assert!(matches!(
        replay(&mut core, &by_surrogate, SyncAdmit::Fenced),
        VectorReplayStep::Delete { target: Err(VectorReply::Held(SyncAdmit::Fenced)), .. }
    ));
    assert!(matches!(
        replay(&mut core, &by_node, SyncAdmit::Apply),
        VectorReplayStep::DeleteNode { node: 5, .. }
    ));
    let mut by_writer = vector_record(RecordType::VectorDelete);
    by_writer.record.payload =
        zerompk::to_msgpack_vec(&("docs".to_string(), 6u32, writer)).unwrap();
    assert!(matches!(
        replay(&mut core, &by_writer, SyncAdmit::Apply),
        VectorReplayStep::DeleteNode { node: 6, .. }
    ));

    let mut purged = TombstoneSet::new();
    purged.note_purge(1, "docs", 2);
    assert!(matches!(
        core.replay_vector_record(&by_node, 1, &purged, SyncAdmit::Apply),
        VectorReplayStep::Purged
    ));
    let steps = core
        .replay_vector_wal(
            &vec![synced_put(3, None), by_node],
            1,
            &TombstoneSet::new(),
            |_: &Vec<SyncProvenance>, _: SyncProvenance| SyncAdmit::Apply,
            |_: usize| true,
        )
        .steps;
    assert_eq!(steps.len(), 2);
    assert_eq!(vector_step_counts(&steps[0], None), (1, 0, 0));
    assert_eq!(vector_step_counts(&steps[1], Some(true)), (0, 1, 0));
}

#[test]
fn the_guard_sees_what_the_records_before_committed() {
    let writer = |seq: u64| SyncProvenance { producer_id: 1, epoch: 2, stream_id: 3, seq };
    let delete = |seq: u64| {
        let mut r = vector_record(RecordType::VectorDelete);
        r.record.payload = zerompk::to_msgpack_vec(&(
            "docs".to_string(),
            9u32,
            "emb".to_string(),
            Some((1u64, 2u64, 3u64, seq)),
        ))
        .unwrap();
        r
    };
    let guard = |places: &Vec<SyncProvenance>, w: SyncProvenance| {
        let next = places.last().map_or(1, |p| p.seq + 1);
        if w.seq < next {
            SyncAdmit::Duplicate
        } else if w.seq == next {
            SyncAdmit::Apply
        } else {
            SyncAdmit::Gap
        }
    };
    let records = vec![
        synced_put(3, Some(writer(1))),
        synced_put(3, Some(writer(1))),
        synced_put(3, Some(writer(3))),
        delete(2),
        delete(3),
    ];
    let replay = CoreLoop::new(0).replay_vector_wal(
        &records,
        1,
        &TombstoneSet::new(),
        guard,
        |i: usize| i == 3,
    );
    let held = |i: usize, verdict: SyncAdmit| {
        matches!(
            &replay.steps[i],
            VectorReplayStep::Handled { reply: VectorReply::Held(v), .. } if *v == verdict
        )
    };
    assert!(matches!(
        &replay.steps[0],
        VectorReplayStep::Handled { reply: VectorReply::Applied, .. }
    ));
    assert!(held(1, SyncAdmit::Duplicate));
    assert!(held(2, SyncAdmit::Gap));
    assert!(matches!(&replay.steps[3], VectorReplayStep::Delete { target: Ok(_), .. }));
    let places: Vec<u64> = replay.committed.iter().map(|p| p.seq).collect();
    assert_eq!(places, vec![1, 2], "a delete that the engine refuses commits nothing");
}
