//! Writes that a transaction stages, and puts and deletes that it carries out.
use nodedb_data::core_loop::CoreLoop;
use nodedb_data::held::{HeldKey, HeldKind};
use nodedb_data::error::{Error, ErrorCode};
use nodedb_data::ids::{DatabaseId, TenantId};
use nodedb_data::overlay::staged::{Staged, TxnOverlay};
use nodedb_data::spatial::{BoundingBox, SpatialKey};
use nodedb_data::transaction::plan::{
    DocumentOp, GraphOp, KvOp, PhysicalPlan, PointRow, SpatialOp,
};
use nodedb_data::transaction::point_delete::{
    delete_request, tx_point_delete, DeleteAnswers, DeleteOutcome, EdgeDelete, SpatialDelete, TxPointDelete,
};
use nodedb_data::transaction::point_put::{
    call_request, next_call, ChainedRow, ImageKind, PutAnswers, PutCall, PutOutcome, PutRequest,
    TxPointPut,
};
use nodedb_data::transaction::stage_dispatch::{
    execute_stage_write, EngineStage, StageAnswers, StageRun,
};
use nodedb_data::transaction::stage_insert_select::{stage_insert_select, SourceScan};
use nodedb_data::transaction::stage_kv::{
    execute_stage_kv, hex_key, resolve_kv_current, stage_kv_delete, stage_kv_insert,
    stage_kv_insert_if_absent, stage_kv_insert_on_conflict_update, stage_kv_put, KvReply, KvRouted,
    KvStored, MergeFailure,
};
use nodedb_data::transaction::stage_timeseries::{stage_timeseries_insert, TsPayload, TsRow};
use nodedb_data::transaction::stage_write::{
    stage_check_unique, stage_current_body, stage_overlay_pk, stage_point_delete,
    stage_point_insert, stage_point_put, stage_point_update, OverlayPk, PutSteps, StageCtx,
    StageError,
};
use nodedb_data::transaction::undo::{undo_storage_op, StorageOp, UndoEntry};

const DB: u64 = 0;
const TID: u64 = 1;
const LIMIT: usize = 100;

fn key(coll: &str) -> (DatabaseId, TenantId, String) {
    (DatabaseId::new(DB), TenantId::new(TID), coll.to_string())
}

fn ctx(doc: &str, surrogate: u32) -> StageCtx {
    StageCtx::new(DB, TID, "c", doc, surrogate)
}

type Others = Vec<(u32, Vec<u8>)>;

fn unchecked(_: &Others) -> Result<(), Error> {
    Err(failure("nothing is to be checked"))
}

fn steps(body: &[u8]) -> PutSteps<fn(&Others) -> Result<(), Error>> {
    PutSteps { unique: None, decodes: true, check: unchecked, encoded: Ok(body.to_vec()) }
}

fn failure(detail: &str) -> Error {
    Error::Internal { detail: detail.to_string() }
}

fn stage_answers() -> StageAnswers<fn(&Others) -> Result<(), Error>> {
    StageAnswers {
        present: Ok(false),
        steps: steps(b"one"),
        readonly: Ok(()),
        body: Ok(Some(b"stored".to_vec())),
        kv: KvStored { value: None, surrogates: vec![Some(7)] },
        scan: SourceScan::Rows(vec![("00000009".to_string(), b"copy".to_vec())]),
    }
}

fn stage(o: &mut TxnOverlay, txn: Option<u64>, plan: PhysicalPlan) -> StageRun {
    execute_stage_write(
        o,
        txn,
        DB,
        TID,
        &plan,
        stage_answers(),
        |b: &Vec<u8>| {
            let mut next = b.clone();
            next.push(b'!');
            Ok(next)
        },
        |_: &Vec<u8>, v: &[u8]| Ok::<Vec<u8>, MergeFailure>(v.to_vec()),
        |_: &Vec<u8>| true,
        LIMIT,
    )
}

fn row() -> PointRow {
    PointRow { collection: "c".to_string(), document_id: "d".to_string(), surrogate: 1 }
}

#[test]
fn point_writes_are_staged_for_their_row() {
    let mut o = TxnOverlay::new();
    let insert = || PhysicalPlan::Document(DocumentOp::PointInsert { row: row(), if_absent: true });
    assert!(matches!(stage(&mut o, Some(1), insert()), StageRun::Point(Ok(1))));
    assert!(matches!(o.get(&key("c"), 1), Some(Staged::Put(b)) if b == b"one"));
    assert!(matches!(stage(&mut o, Some(1), insert()), StageRun::Point(Ok(0))));
    let update = PhysicalPlan::Document(DocumentOp::PointUpdate { row: row() });
    assert!(matches!(stage(&mut o, Some(1), update), StageRun::Point(Ok(1))));
    assert!(matches!(o.get(&key("c"), 1), Some(Staged::Put(b)) if b == b"one!"));
    let put = PhysicalPlan::Document(DocumentOp::PointPut { row: row() });
    assert!(matches!(stage(&mut o, Some(1), put), StageRun::Point(Ok(1))));
    assert!(matches!(o.get(&key("c"), 1), Some(Staged::Put(b)) if b == b"one"));
    let delete = PhysicalPlan::Document(DocumentOp::PointDelete { row: row() });
    assert!(matches!(stage(&mut o, Some(1), delete), StageRun::Point(Ok(1))));
    assert!(matches!(o.get(&key("c"), 1), Some(Staged::Tombstone)));
    let copy = PhysicalPlan::Document(DocumentOp::InsertSelect {
        target_collection: "t".to_string(),
        source_collection: "s".to_string(),
        source_limit: 10,
    });
    assert!(matches!(stage(&mut o, Some(1), copy), StageRun::Copied(Ok(1))));
    assert!(matches!(o.get(&key("t"), 9), Some(Staged::Put(b)) if b == b"copy"));
    let gone = PhysicalPlan::Kv(KvOp::Delete {
        collection: "kv".to_string(),
        keys: vec![b"k".to_vec()],
    });
    assert!(matches!(
        stage(&mut o, Some(1), gone),
        StageRun::Kv(KvRouted::Staged(Ok(KvReply::Affected(1))))
    ));
    assert!(matches!(o.get(&key("kv"), 7), Some(Staged::Tombstone)));
}

#[test]
fn each_write_has_its_route() {
    let route = |plan: PhysicalPlan| stage(&mut TxnOverlay::new(), Some(1), plan);
    assert!(matches!(
        route(PhysicalPlan::Spatial(SpatialOp::Delete)),
        StageRun::Engine(EngineStage::SpatialDelete)
    ));
    assert!(matches!(
        route(PhysicalPlan::Graph(GraphOp::SetNodeLabels)),
        StageRun::Engine(EngineStage::Graph)
    ));
    assert!(matches!(
        route(PhysicalPlan::Document(DocumentOp::BulkUpdate { returning: false })),
        StageRun::Engine(EngineStage::BulkUpdate)
    ));
    for refused in [
        PhysicalPlan::Document(DocumentOp::BulkUpdate { returning: true }),
        PhysicalPlan::Document(DocumentOp::Scan),
        PhysicalPlan::Graph(GraphOp::Hop),
        PhysicalPlan::Spatial(SpatialOp::Scan),
        PhysicalPlan::Query,
    ] {
        assert!(matches!(route(refused), StageRun::Refused(ErrorCode::Internal { .. })));
    }
    let mut o = TxnOverlay::new();
    let put = PhysicalPlan::Document(DocumentOp::PointPut { row: row() });
    assert!(matches!(
        stage(&mut o, None, put),
        StageRun::Refused(ErrorCode::Internal { detail })
            if detail == "StageWrite dispatched without a txn_id"
    ));
    assert!(o.is_empty());
}

#[test]
fn a_transaction_reads_its_own_writes() {
    let mut o = TxnOverlay::new();
    assert_eq!(stage_overlay_pk(&o, &ctx("d", 1)), OverlayPk::Unstaged);
    assert!(matches!(stage_point_put(&mut o, &ctx("d", 1), steps(b"one"), LIMIT), Ok(1)));
    assert_eq!(stage_overlay_pk(&o, &ctx("d", 1)), OverlayPk::Present);
    let stored = || Ok(Some(b"stored".to_vec()));
    assert!(matches!(stage_current_body(&o, &ctx("d", 1), stored()), Ok(Some(b)) if b == b"one"));
    assert!(matches!(stage_current_body(&o, &ctx("e", 2), stored()), Ok(Some(b)) if b == b"stored"));
    assert_eq!(stage_point_delete(&mut o, &ctx("d", 1)), 1);
    assert_eq!(stage_overlay_pk(&o, &ctx("d", 1)), OverlayPk::Absent);
    assert!(matches!(stage_current_body(&o, &ctx("d", 1), stored()), Ok(None)));
}

#[test]
fn a_put_hands_on_what_failed_before_it() {
    let mut o = TxnOverlay::new();
    let unique = |body: &[u8]| PutSteps {
        unique: Some(vec![false, true]),
        decodes: true,
        check: |others: &Others| match others.iter().any(|(_, b)| b == b"same") {
            true => Err(failure("taken")),
            false => Ok(()),
        },
        encoded: Ok(body.to_vec()),
    };
    assert!(matches!(stage_point_put(&mut o, &ctx("e", 2), unique(b"same"), LIMIT), Ok(1)));
    assert!(matches!(
        stage_point_put(&mut o, &ctx("e", 2), unique(b"same"), LIMIT),
        Ok(1)
    ), "a row does not clash with itself");
    assert!(matches!(
        stage_point_put(&mut o, &ctx("d", 1), unique(b"same"), LIMIT),
        Err(Error::Internal { detail }) if detail == "taken"
    ));
    let mut lax = unique(b"same");
    lax.decodes = false;
    assert!(matches!(stage_point_put(&mut o, &ctx("d", 1), lax, LIMIT), Ok(1)));
    let mut o = TxnOverlay::new();
    let mut encoded = steps(b"");
    encoded.encoded = Err(failure("shape"));
    assert!(matches!(
        stage_point_put(&mut o, &ctx("d", 1), encoded, LIMIT),
        Err(Error::Internal { detail }) if detail == "shape"
    ));
    assert!(o.is_empty());
}

#[test]
fn the_overlay_stays_within_its_limit() {
    let mut o = TxnOverlay::new();
    assert!(stage_point_put(&mut o, &ctx("d", 1), steps(&[0; 60]), LIMIT).is_ok());
    assert!(matches!(
        stage_point_put(&mut o, &ctx("e", 2), steps(&[0; 41]), LIMIT),
        Err(Error::TxnOverlayMemoryExceeded { limit: LIMIT })
    ));
    assert!(stage_point_put(&mut o, &ctx("e", 2), steps(&[0; 40]), LIMIT).is_ok());
    assert_eq!(o.memory_size_estimate(), 100);
}

#[test]
fn an_insert_minds_what_is_there() {
    let mut o = TxnOverlay::new();
    let insert = |o: &mut TxnOverlay, if_absent: bool, stored: Result<bool, Error>| {
        stage_point_insert(o, &ctx("d", 1), if_absent, stored, steps(b"x"), LIMIT)
    };
    assert!(matches!(insert(&mut o, false, Err(failure("io"))), Err(Error::Internal { .. })));
    assert!(matches!(insert(&mut o, true, Ok(true)), Ok(0)));
    let Err(Error::RejectedConstraint { collection, constraint, detail }) =
        insert(&mut o, false, Ok(true))
    else {
        panic!("a duplicate is refused");
    };
    assert_eq!((collection.as_str(), constraint.as_str()), ("c", "unique"));
    assert_eq!(detail, "duplicate key value 'd' violates primary-key uniqueness on 'c'");
    assert!(matches!(insert(&mut o, false, Ok(false)), Ok(1)));
    assert!(insert(&mut o, false, Ok(false)).is_err(), "the staged row counts");
    stage_point_delete(&mut o, &ctx("d", 1));
    assert!(matches!(insert(&mut o, false, Ok(true)), Ok(1)), "the staged deletion counts");
}

#[test]
fn an_update_starts_from_the_current_body() {
    let mut o = TxnOverlay::new();
    let grow = |b: &Vec<u8>| {
        let mut b = b.clone();
        b.push(b'!');
        Ok(b)
    };
    let stored = || Ok(Some(b"s".to_vec()));
    let c = ctx("d", 1);
    assert!(matches!(stage_point_update(&mut o, &c, Ok(()), Ok(None), grow, LIMIT), Ok(0)));
    assert!(matches!(stage_point_update(&mut o, &c, Ok(()), stored(), grow, LIMIT), Ok(1)));
    assert!(matches!(stage_point_update(&mut o, &c, Ok(()), stored(), grow, LIMIT), Ok(1)));
    assert_eq!(o.get(&key("c"), 1), Some(&Staged::Put(b"s!!".to_vec())));
    let frozen = Err(failure("generated column"));
    assert!(stage_point_update(&mut o, &c, frozen, stored(), grow, LIMIT).is_err());
    let broken = |_: &Vec<u8>| Err(failure("decode"));
    assert!(stage_point_update(&mut o, &c, Ok(()), stored(), broken, LIMIT).is_err());
}

#[test]
fn a_unique_check_sees_the_other_staged_rows() {
    let mut o = TxnOverlay::new();
    o.insert_put(key("c"), 1, "d", b"mine".to_vec());
    o.insert_put(key("c"), 2, "e", b"other".to_vec());
    o.insert_tombstone(key("c"), 3, "f");
    let unique = vec![false, true];
    let others = stage_check_unique(&o, &ctx("d", 1), Some(&unique), true).expect("a check");
    assert_eq!(others, vec![(2, b"other".to_vec())]);
    assert!(stage_check_unique(&o, &ctx("d", 1), None, true).is_none());
    assert!(stage_check_unique(&o, &ctx("d", 1), Some(&vec![false]), true).is_none());
}

#[test]
fn a_key_is_inserted_once() {
    let mut o = TxnOverlay::new();
    let c = ctx(&hex_key(b"k"), 1);
    let none: Option<Vec<u8>> = None;
    assert!(matches!(
        stage_kv_insert(&mut o, &c, b"k", b"v", &none, LIMIT),
        Ok(KvReply::Affected(1))
    ));
    let Err(StageError::Refused(Error::RejectedConstraint { detail, .. })) =
        stage_kv_insert(&mut o, &c, &[b'k', 0xFF], b"w", &none, LIMIT)
    else {
        panic!("a duplicate is refused");
    };
    assert_eq!(
        detail,
        "duplicate key value 'k\u{FFFD}' violates primary-key uniqueness on 'c'"
    );
    assert!(matches!(
        stage_kv_insert_if_absent(&mut o, &c, b"w", &none, LIMIT),
        Ok(KvReply::Affected(0))
    ));
    assert_eq!(resolve_kv_current(&o, &c, &none), Some(b"v".to_vec()));
}

#[test]
fn a_conflicting_key_is_merged() {
    let mut o = TxnOverlay::new();
    let c = ctx(&hex_key(b"k"), 1);
    let join = |a: &Vec<u8>, b: &[u8]| Ok([a.as_slice(), b].concat());
    let r = stage_kv_insert_on_conflict_update(&mut o, &c, b"1", &None, join, LIMIT);
    assert!(matches!(r, Ok(KvReply::Upserted { updated: false })));
    let r = stage_kv_insert_on_conflict_update(&mut o, &c, b"2", &None, join, LIMIT);
    assert!(matches!(r, Ok(KvReply::Upserted { updated: true })));
    assert_eq!(resolve_kv_current(&o, &c, &None), Some(b"12".to_vec()));
    for f in [MergeFailure::Existing, MergeFailure::Incoming, MergeFailure::Encode] {
        let fail = move |_: &Vec<u8>, _: &[u8]| Err(f);
        let r = stage_kv_insert_on_conflict_update(&mut o, &c, b"3", &None, fail, LIMIT);
        assert!(matches!(r, Err(StageError::Failed(ErrorCode::Internal { .. }))));
    }
    assert_eq!(resolve_kv_current(&o, &c, &None), Some(b"12".to_vec()));
}

#[test]
fn a_key_is_deleted_once() {
    let mut o = TxnOverlay::new();
    stage_kv_put(&mut o, &ctx(&hex_key(b"a"), 1), b"v", LIMIT).expect("stage");
    let keys = vec![b"a".to_vec(), b"b".to_vec(), b"x".to_vec(), b"a".to_vec()];
    let stored = vec![None, Some(2), None, None];
    assert_eq!(stage_kv_delete(&mut o, DB, TID, "c", &keys, &stored), 2);
    assert_eq!(o.get(&key("c"), 1), Some(&Staged::Tombstone));
    assert_eq!(o.get(&key("c"), 2), Some(&Staged::Tombstone));
    assert_eq!(stage_kv_delete(&mut o, DB, TID, "c", &keys, &stored), 0);
}

#[test]
fn a_kv_operation_is_staged_or_left_to_the_engine() {
    let mut o = TxnOverlay::new();
    let keep = |a: &Vec<u8>, _: &[u8]| Ok(a.clone());
    let empty = KvStored { value: None, surrogates: Vec::new() };
    let put = KvOp::Put {
        collection: "c".into(),
        key: b"k".to_vec(),
        value: b"v".to_vec(),
        surrogate: 4,
    };
    assert!(matches!(
        execute_stage_kv(&mut o, DB, TID, &put, &empty, keep, LIMIT),
        KvRouted::Staged(Ok(KvReply::Affected(1)))
    ));
    assert_eq!(o.get_by_doc_id(&key("c"), &hex_key(b"k")), Some(&Staged::Put(b"v".to_vec())));
    let delete = KvOp::Delete { collection: "c".into(), keys: vec![b"k".to_vec()] };
    let found = KvStored { value: None, surrogates: vec![None] };
    assert!(matches!(
        execute_stage_kv(&mut o, DB, TID, &delete, &found, keep, LIMIT),
        KvRouted::Staged(Ok(KvReply::Affected(1)))
    ));
    let incr = KvOp::Incr { collection: "c".into() };
    assert!(matches!(
        execute_stage_kv(&mut o, DB, TID, &incr, &empty, keep, LIMIT),
        KvRouted::Atomic
    ));
}

#[test]
fn a_selected_row_is_copied_under_its_surrogate() {
    let mut o = TxnOverlay::new();
    o.insert_put(key("src"), 2, "00000002", b"staged".to_vec());
    let rows = vec![
        ("00000001".to_string(), b"one".to_vec()),
        ("00000002".to_string(), b"two".to_vec()),
        ("no-row".to_string(), b"x".to_vec()),
    ];
    let all = |_: &Vec<u8>| true;
    let r = stage_insert_select(&mut o, DB, TID, "dst", "src", SourceScan::Rows(rows), all, 10, LIMIT);
    assert!(matches!(r, Ok(2)));
    assert_eq!(o.get(&key("dst"), 1), Some(&Staged::Put(b"one".to_vec())));
    assert_eq!(o.get(&key("dst"), 2), Some(&Staged::Put(b"staged".to_vec())));
    let r = stage_insert_select(
        &mut o,
        DB,
        TID,
        "dst",
        "src",
        SourceScan::BadFilters("nope".into()),
        all,
        10,
        LIMIT,
    );
    assert!(matches!(r, Err(StageError::Failed(_))));
    let rows = vec![("00000009".to_string(), vec![0; 101])];
    let r = stage_insert_select(&mut o, DB, TID, "dst", "src", SourceScan::Rows(rows), all, 10, LIMIT);
    assert!(matches!(r, Err(StageError::Refused(Error::TxnOverlayMemoryExceeded { .. }))));
}

#[test]
fn every_row_of_a_batch_is_staged() {
    let mut o = TxnOverlay::new();
    let row = |b: &[u8]| TsRow::Fields(Ok(b.to_vec()));
    let list = TsPayload::List(vec![row(b"1"), row(b"2")]);
    assert!(matches!(
        stage_timeseries_insert(&mut o, DB, TID, "c", list, &vec![7, 8], LIMIT),
        Ok(2)
    ));
    assert_eq!(o.get(&key("c"), 8), Some(&Staged::Put(b"2".to_vec())));
    let single = TsPayload::Single(row(b"3"));
    assert!(matches!(
        stage_timeseries_insert(&mut o, DB, TID, "c", single, &vec![9], LIMIT),
        Ok(1)
    ));
    let short = TsPayload::List(vec![row(b"4"), row(b"5")]);
    assert!(matches!(
        stage_timeseries_insert(&mut o, DB, TID, "c", short, &vec![10], LIMIT),
        Err(StageError::Failed(ErrorCode::Internal { .. }))
    ));
    let broken = TsPayload::List(vec![TsRow::Fields(Err("bad".into()))]);
    assert!(stage_timeseries_insert(&mut o, DB, TID, "c", broken, &vec![11], LIMIT).is_err());
    let invalid = TsPayload::Invalid("not msgpack".into());
    assert!(stage_timeseries_insert(&mut o, DB, TID, "c", invalid, &vec![], LIMIT).is_err());
    assert!(stage_timeseries_insert(&mut o, DB, TID, "c", TsPayload::Neither, &vec![], LIMIT).is_err());
}

fn put_plan(hash_chain: bool) -> TxPointPut {
    TxPointPut {
        database_id: DB,
        tid: TID,
        collection: "c".into(),
        document_id: "d".into(),
        surrogate: 5,
        value: b"new".to_vec(),
        user_roles: vec!["writer".to_string()],
        wal_lsn: 11,
        resolved_sum_targets: vec![("k".to_string(), 8)],
        insert_if_absent: None,
        prior: None,
        bitemporal: false,
        hash_chain,
        folds_images: false,
    }
}

fn no_answers() -> PutAnswers {
    PutAnswers {
        chained: None,
        begun: None,
        exists: None,
        applied: None,
        head_persisted: None,
        prior_decoded: None,
        new_decoded: None,
        enforced: None,
        committed: None,
    }
}

fn put_outcome() -> PutOutcome {
    PutOutcome {
        prior_value: Some(b"old".to_vec()),
        bitemporal_sys_from_ms: None,
        bitemporal_index_tuples: Vec::new(),
        secondary_index_added: Vec::new(),
        secondary_index_removed: Vec::new(),
        vector_inserts: Vec::new(),
        spatial_inserts: Vec::new(),
        stats_prior: vec![("0:1:c:f".to_string(), None)],
    }
}

fn chained_row() -> ChainedRow {
    ChainedRow { head: "h1".to_string(), body: b"chained".to_vec() }
}

/// Answer the calls of a put until none is due, and carry it out.
fn run_put(
    core: &mut CoreLoop,
    plan: TxPointPut,
    fail_at: Option<PutCall>,
    log: &mut Vec<UndoEntry>,
) -> (Vec<PutCall>, bool) {
    let mut a = no_answers();
    let mut calls = Vec::new();
    while let Some(call) = next_call(&plan, &a) {
        calls.push(call);
        let fails = fail_at == Some(call);
        let code = || ErrorCode::Internal { detail: "failed".to_string() };
        match call {
            PutCall::AdvanceChain => {
                a.chained = Some(if fails { Err("failed".into()) } else { Ok(Some(chained_row())) })
            }
            PutCall::BeginWrite => {
                a.begun = Some(if fails { Err("failed".into()) } else { Ok(()) })
            }
            PutCall::ProbeKey => a.exists = Some(if fails { Err(code()) } else { Ok(false) }),
            PutCall::ApplyPut => {
                a.applied = Some(if fails { Err(code()) } else { Ok(put_outcome()) })
            }
            PutCall::PersistHead => {
                a.head_persisted = Some(if fails { Err(code()) } else { Ok(()) })
            }
            PutCall::DecodePrior => a.prior_decoded = Some(if fails { Err(code()) } else { Ok(()) }),
            PutCall::DecodeNew => a.new_decoded = Some(!fails),
            PutCall::Enforce(_) => {
                a.enforced = Some(if fails { Err(code()) } else { Ok(Vec::new()) })
            }
            PutCall::Commit => a.committed = Some(if fails { Err("failed".into()) } else { Ok(()) }),
        }
    }
    let r = core.tx_point_put(plan, a, log);
    (calls, r.answer.is_ok())
}

#[test]
fn a_put_asks_what_it_needs_and_leaves_its_entries() {
    let mut core = CoreLoop::new(0);
    let mut log = Vec::new();
    let mut plan = put_plan(false);
    plan.folds_images = true;
    plan.prior = Some(b"old".to_vec());
    let (calls, done) = run_put(&mut core, plan, None, &mut log);
    assert!(done);
    assert_eq!(calls.first(), Some(&PutCall::BeginWrite));
    assert_eq!(calls.last(), Some(&PutCall::Commit));
    assert!(calls.contains(&PutCall::Enforce(ImageKind::Update)));
    assert_eq!(log.len(), 2);
    assert!(matches!(
        undo_storage_op(&log[0]),
        StorageOp::PutRow { value, .. } if value == b"old"
    ));
    assert!(matches!(&log[1], UndoEntry::StatsRestore { key, prior: None } if key == "0:1:c:f"));
}

#[test]
fn a_put_moves_the_chain_and_an_aborted_one_puts_it_back() {
    let mut core = CoreLoop::new(0);
    core.chains.set_head(DB, TID, "c", "h0".to_string());
    let mut log = Vec::new();
    for fault in [
        PutCall::AdvanceChain,
        PutCall::BeginWrite,
        PutCall::ApplyPut,
        PutCall::PersistHead,
        PutCall::Commit,
    ] {
        let (_, done) = run_put(&mut core, put_plan(true), Some(fault), &mut log);
        assert!(!done);
        assert!(log.is_empty());
        assert_eq!(core.chains.head(DB, TID, "c").as_deref(), Some("h0"), "after {fault:?}");
    }
    let (calls, done) = run_put(&mut core, put_plan(true), None, &mut log);
    assert!(done);
    assert_eq!(calls[0], PutCall::AdvanceChain);
    assert_eq!(core.chains.head(DB, TID, "c").as_deref(), Some("h1"));
    assert!(matches!(
        &log[0],
        UndoEntry::PutDocument { chain_hash_prior: Some(Some(h)), .. } if h == "h0"
    ));
}

#[test]
fn each_call_of_a_put_is_handed_its_row() {
    let mut plan = put_plan(true);
    plan.insert_if_absent = Some(false);
    plan.bitemporal = true;
    plan.folds_images = true;
    let mut a = no_answers();
    assert!(matches!(
        call_request(&plan, &a),
        Some(PutRequest::AdvanceChain { document_id: "d", row: b"new", enabled: true })
    ));
    a.chained = Some(Ok(Some(chained_row())));
    assert!(matches!(call_request(&plan, &a), Some(PutRequest::BeginWrite)));
    a.begun = Some(Ok(()));
    assert!(matches!(
        call_request(&plan, &a),
        Some(PutRequest::ProbeKey { row_key, versioned: true }) if row_key == "00000005"
    ));
    a.exists = Some(Ok(false));
    assert!(matches!(
        call_request(&plan, &a),
        Some(PutRequest::ApplyPut {
            row_key, surrogate: 5, row: b"chained", index_text: true, enforce: true, wal_lsn: 11, ..
        }) if row_key == "00000005"
    ));
    a.applied = Some(Ok(put_outcome()));
    assert!(matches!(call_request(&plan, &a), Some(PutRequest::PersistHead { head: "h1" })));
    a.head_persisted = Some(Ok(()));
    assert!(matches!(call_request(&plan, &a), Some(PutRequest::DecodeNew { row: b"new" })));
    a.new_decoded = Some(true);
    assert!(matches!(
        call_request(&plan, &a),
        Some(PutRequest::Enforce { images: ImageKind::Insert, resolved_targets, wal_lsn: 11 })
            if resolved_targets == &plan.resolved_sum_targets
    ));
    a.enforced = Some(Ok(Vec::new()));
    assert!(matches!(call_request(&plan, &a), Some(PutRequest::Commit)));
    a.committed = Some(Ok(()));
    assert!(call_request(&plan, &a).is_none());

    let mut update = put_plan(false);
    update.prior = Some(b"old".to_vec());
    update.folds_images = true;
    let mut a = no_answers();
    a.begun = Some(Ok(()));
    assert!(matches!(call_request(&update, &a), Some(PutRequest::ApplyPut { row: b"new", .. })));
    a.applied = Some(Ok(put_outcome()));
    assert!(matches!(call_request(&update, &a), Some(PutRequest::DecodePrior { row: b"old" })));
    a.prior_decoded = Some(Ok(()));
    a.new_decoded = Some(false);
    a.committed = Some(Err("failed".to_string()));
    let mut core = CoreLoop::new(0);
    let cached = || HeldKey {
        kind: HeldKind::CachedDocument,
        db: DB,
        tid: TID,
        coll: "c".to_string(),
        part: "00000005".to_string(),
    };
    core.held.hold(cached());
    let r = core.tx_point_put(update, a, &mut Vec::new());
    assert!(!core.held.holds(&cached()));
    assert!(r.answer.is_err());
    assert!(r.drop_cached_row, "the cached row was never stored");
    assert_eq!(r.dirty, 0);
}

#[test]
fn an_insert_of_a_row_that_is_there_is_skipped_or_refused() {
    for (if_absent, accepted) in [(true, true), (false, false)] {
        let mut plan = put_plan(false);
        plan.insert_if_absent = Some(if_absent);
        let mut a = no_answers();
        a.chained = Some(Ok(None));
        a.begun = Some(Ok(()));
        a.exists = Some(Ok(true));
        assert!(next_call(&plan, &a).is_none());
        let mut log = Vec::new();
        let r = CoreLoop::new(0).tx_point_put(plan, a, &mut log);
        assert_eq!(r.answer.is_ok(), accepted);
        assert!(log.is_empty());
    }
}

#[test]
fn a_delete_leaves_an_entry_for_each_thing_it_took() {
    let plan = || TxPointDelete {
        database_id: DB,
        tid: TID,
        collection: "c".into(),
        document_id: "d".into(),
        surrogate: 5,
        user_roles: vec!["writer".to_string()],
    };
    let p = plan();
    let request = delete_request(&p);
    assert_eq!((request.document_id, request.surrogate, request.enforce), ("d", 5, true));
    assert_eq!(request.user_roles, &vec!["writer".to_string()]);
    let spatial = || SpatialDelete {
        key: SpatialKey { db: DB, tid: TID, coll: "c".into(), field: "g".into() },
        entry_id: 3,
        bbox: BoundingBox { min_lng: 0, min_lat: 0, max_lng: 0, max_lat: 0 },
        document_id: "d".into(),
    };
    let outcome = |prior: Option<Vec<u8>>| DeleteOutcome {
        prior_value: prior,
        bitemporal_sys_from_ms: None,
        bitemporal_index_tuples: Vec::new(),
        secondary_index_tuples: Vec::new(),
        vector_deletes: Vec::new(),
        spatial_deletes: vec![spatial()],
        mark_node_deleted: Some("d".into()),
        edge_deletes: vec![EdgeDelete {
            collection: "c".into(),
            src_id: "d".into(),
            label: "l".into(),
            dst_id: "e".into(),
            old_properties: vec![1],
        }],
    };
    let mut log = Vec::new();
    let done = DeleteAnswers::Committed(outcome(Some(b"old".to_vec())));
    let r = tx_point_delete(plan(), done, &mut log);
    assert!(r.answer.is_ok());
    assert_eq!(r.dirty, 1);
    assert!(matches!(&log[0], UndoEntry::DeleteDocument { old_value, .. } if old_value == b"old"));
    assert_eq!(log.iter().filter(|e| matches!(e, UndoEntry::SpatialDelete { .. })).count(), 1);
    assert_eq!(log.iter().filter(|e| matches!(e, UndoEntry::MarkNodeDeleted { .. })).count(), 1);
    assert_eq!(log.iter().filter(|e| matches!(e, UndoEntry::DeleteEdge { .. })).count(), 1);

    for failed in [
        DeleteAnswers::BeginFault("x".into()),
        DeleteAnswers::ApplyFault(ErrorCode::NotFound),
        DeleteAnswers::CommitFault("x".into()),
    ] {
        let mut log = Vec::new();
        let r = tx_point_delete(plan(), failed, &mut log);
        assert!(r.answer.is_err());
        assert_eq!(r.dirty, 0);
        assert!(log.is_empty());
    }
}
