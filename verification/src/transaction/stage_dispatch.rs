//! The entry of a transaction's writes: point writes, key-value operations and
//! copies are staged here, and what the other engines stage themselves is handed
//! to them. Anything else is refused.
use crate::error::{Error, ErrorCode, ErrorCodeView};
use crate::overlay::merge;
use crate::overlay::staged::{Staged, TxnOverlay};
use crate::transaction::plan::{
    ColumnarOp, DocumentOp, GraphOp, KvOp, PhysicalPlan, PointRow, SpatialOp,
};
use crate::transaction::stage_insert_select;
use crate::transaction::stage_insert_select::SourceScan;
use crate::transaction::stage_kv;
use crate::transaction::stage_kv::{KvRouted, KvStored, MergeFailure};
use crate::transaction::stage_write;
use crate::transaction::stage_write::{PutSteps, StageCtx, StageError};
use vstd::prelude::*;
use vstd::string::*;

verus! {

/// Which engine stages a write.
#[derive(Clone, Copy, Debug, PartialEq, Eq, Structural)]
pub enum EngineStage {
    BulkUpdate,
    BulkDelete,
    Upsert,
    ColumnarInsert,
    SpatialInsert,
    SpatialDelete,
    Graph,
}

/// The engine that a plan is handed to; none for one that is staged here or not
/// at all. A bulk write that returns its rows is not staged.
pub open spec fn engine_of(plan: PhysicalPlan) -> Option<EngineStage> {
    match plan {
        PhysicalPlan::Document(op) => match op {
            DocumentOp::BulkUpdate { returning } => if returning {
                None
            } else {
                Some(EngineStage::BulkUpdate)
            },
            DocumentOp::BulkDelete { returning } => if returning {
                None
            } else {
                Some(EngineStage::BulkDelete)
            },
            DocumentOp::Upsert => Some(EngineStage::Upsert),
            _ => None,
        },
        PhysicalPlan::Columnar(op) => match op {
            ColumnarOp::Insert => Some(EngineStage::ColumnarInsert),
            _ => None,
        },
        PhysicalPlan::Spatial(op) => match op {
            SpatialOp::Insert => Some(EngineStage::SpatialInsert),
            SpatialOp::Delete => Some(EngineStage::SpatialDelete),
            SpatialOp::Scan => None,
        },
        PhysicalPlan::Graph(op) => match op {
            GraphOp::EdgePut | GraphOp::EdgeDelete | GraphOp::EdgePutBatch | GraphOp::EdgeDeleteBatch
            | GraphOp::SetNodeLabels | GraphOp::RemoveNodeLabels => Some(EngineStage::Graph),
            _ => None,
        },
        _ => None,
    }
}

fn find_engine(plan: &PhysicalPlan) -> (r: Option<EngineStage>)
    ensures
        r == engine_of(*plan),
{
    match plan {
        PhysicalPlan::Document(op) => match op {
            DocumentOp::BulkUpdate { returning } => if *returning {
                None
            } else {
                Some(EngineStage::BulkUpdate)
            },
            DocumentOp::BulkDelete { returning } => if *returning {
                None
            } else {
                Some(EngineStage::BulkDelete)
            },
            DocumentOp::Upsert => Some(EngineStage::Upsert),
            _ => None,
        },
        PhysicalPlan::Columnar(op) => match op {
            ColumnarOp::Insert => Some(EngineStage::ColumnarInsert),
            _ => None,
        },
        PhysicalPlan::Spatial(op) => match op {
            SpatialOp::Insert => Some(EngineStage::SpatialInsert),
            SpatialOp::Delete => Some(EngineStage::SpatialDelete),
            SpatialOp::Scan => None,
        },
        PhysicalPlan::Graph(op) => match op {
            GraphOp::EdgePut => Some(EngineStage::Graph),
            GraphOp::EdgeDelete => Some(EngineStage::Graph),
            GraphOp::EdgePutBatch => Some(EngineStage::Graph),
            GraphOp::EdgeDeleteBatch => Some(EngineStage::Graph),
            GraphOp::SetNodeLabels => Some(EngineStage::Graph),
            GraphOp::RemoveNodeLabels => Some(EngineStage::Graph),
            _ => None,
        },
        _ => None,
    }
}

/// What the stores answer for a write. What its plan does not ask is not read.
pub struct StageAnswers<U> {
    /// Whether the row of an insert is stored.
    pub present: Result<bool, Error>,
    /// The steps before a put or an insert.
    pub steps: PutSteps<U>,
    /// Whether every column of an update may be updated.
    pub readonly: Result<(), Error>,
    /// The stored body of the row of an update.
    pub body: Result<Option<Vec<u8>>, Error>,
    pub kv: KvStored,
    /// The source of a copy.
    pub scan: SourceScan,
}

/// What came of a write.
pub enum StageRun {
    /// It was refused.
    Refused(ErrorCode),
    /// A point write, and how many rows it affected.
    Point(Result<usize, Error>),
    Kv(KvRouted),
    /// A copy, and how many rows it copied.
    Copied(Result<u64, StageError>),
    /// An engine stages it.
    Engine(EngineStage),
}

/// Whether `ctx` is about the row of a plan.
pub open spec fn is_row_ctx(ctx: StageCtx, database_id: u64, tid: u64, row: PointRow) -> bool {
    &&& stage_write::row_of(ctx) == ((database_id, tid, row.collection@), row.surrogate)
    &&& ctx.document_id@ == row.document_id@
    &&& ctx.collection@ == row.collection@
}

fn row_ctx(database_id: u64, tid: u64, row: &PointRow) -> (r: StageCtx)
    ensures
        is_row_ctx(r, database_id, tid, *row),
{
    StageCtx::new(
        database_id,
        tid,
        row.collection.as_str(),
        row.document_id.as_str(),
        row.surrogate,
    )
}

/// What a point write comes to.
pub open spec fn point_outcome<
    F: Fn(&Vec<u8>) -> Result<Vec<u8>, Error>,
    U: Fn(&Vec<(u32, Vec<u8>)>) -> Result<(), Error>,
>(
    before: TxnOverlay,
    after: TxnOverlay,
    ctx: StageCtx,
    op: DocumentOp,
    a: StageAnswers<U>,
    apply: F,
    limit: usize,
    r: Result<usize, Error>,
) -> bool {
    match op {
        DocumentOp::PointInsert { row, if_absent } => stage_write::insert_outcome(
            before,
            after,
            ctx,
            if_absent,
            a.present,
            a.steps,
            limit,
            r,
        ),
        DocumentOp::PointPut { row } => stage_write::checked_put(
            before,
            after,
            ctx,
            a.steps,
            limit,
            r,
        ),
        DocumentOp::PointDelete { row } => r == Ok::<usize, Error>(1) && stage_write::staged_row(
            before,
            after,
            ctx,
            Staged::Tombstone,
        ),
        DocumentOp::PointUpdate { row } => stage_write::point_updated(
            before,
            after,
            ctx,
            a.readonly,
            a.body,
            apply,
            limit,
            r,
        ),
        _ => false,
    }
}

/// The row of a point write.
pub open spec fn point_row(op: DocumentOp) -> Option<PointRow> {
    match op {
        DocumentOp::PointInsert { row, if_absent } => Some(row),
        DocumentOp::PointPut { row } => Some(row),
        DocumentOp::PointDelete { row } => Some(row),
        DocumentOp::PointUpdate { row } => Some(row),
        _ => None,
    }
}

/// Whether a point write was staged for its row.
pub open spec fn point_staged<
    F: Fn(&Vec<u8>) -> Result<Vec<u8>, Error>,
    U: Fn(&Vec<(u32, Vec<u8>)>) -> Result<(), Error>,
>(
    before: TxnOverlay,
    after: TxnOverlay,
    database_id: u64,
    tid: u64,
    row: PointRow,
    op: DocumentOp,
    a: StageAnswers<U>,
    apply: F,
    limit: usize,
    r: Result<usize, Error>,
) -> bool {
    exists|ctx: StageCtx|
        is_row_ctx(ctx, database_id, tid, row) && #[trigger] point_outcome(
            before,
            after,
            ctx,
            op,
            a,
            apply,
            limit,
            r,
        )
}

/// Whether a write was refused with `e` and nothing was staged.
pub open spec fn refused_with(
    before: TxnOverlay,
    after: TxnOverlay,
    e: ErrorCodeView,
    r: StageRun,
) -> bool {
    stage_write::same_overlay(before, after) && (r matches StageRun::Refused(x) && x@ == e)
}

/// What a write within a transaction comes to.
pub open spec fn stage_outcome<
    F: Fn(&Vec<u8>) -> Result<Vec<u8>, Error>,
    G: Fn(&Vec<u8>, &[u8]) -> Result<Vec<u8>, MergeFailure>,
    H: Fn(&Vec<u8>) -> bool,
    U: Fn(&Vec<(u32, Vec<u8>)>) -> Result<(), Error>,
>(
    before: TxnOverlay,
    after: TxnOverlay,
    database_id: u64,
    tid: u64,
    plan: PhysicalPlan,
    a: StageAnswers<U>,
    apply: F,
    merge_values: G,
    matches: H,
    limit: usize,
    r: StageRun,
) -> bool {
    match plan {
        PhysicalPlan::Document(op) if point_row(op) is Some => r matches StageRun::Point(x)
            && point_staged(
            before,
            after,
            database_id,
            tid,
            point_row(op)->0,
            op,
            a,
            apply,
            limit,
            x,
        ),
        PhysicalPlan::Document(
            DocumentOp::InsertSelect { target_collection, source_collection, source_limit },
        ) => r matches StageRun::Copied(x) && stage_insert_select::select_outcome(
            before,
            after,
            (database_id, tid, source_collection@),
            (database_id, tid, target_collection@),
            a.scan,
            matches,
            source_limit,
            limit,
            x,
        ),
        PhysicalPlan::Kv(op) => r matches StageRun::Kv(x) && stage_kv::kv_routed(
            before,
            after,
            database_id,
            tid,
            op,
            a.kv,
            merge_values,
            limit,
            x,
        ),
        _ => match engine_of(plan) {
            Some(engine) => r == StageRun::Engine(engine) && stage_write::same_overlay(
                before,
                after,
            ),
            None => refused_with(before, after, stage_write::not_point_write(), r),
        },
    }
}

pub open spec fn no_transaction() -> ErrorCodeView {
    ErrorCodeView::Internal { detail: "StageWrite dispatched without a txn_id"@ }
}

/// Stage a write in the overlay of its transaction. `apply` makes the new body
/// of the one that an update starts from, `merge_values` the new value of a key
/// that is there, and `matches` says which rows of the transaction the source of
/// a copy shows.
pub fn execute_stage_write<
    F: Fn(&Vec<u8>) -> Result<Vec<u8>, Error>,
    G: Fn(&Vec<u8>, &[u8]) -> Result<Vec<u8>, MergeFailure>,
    H: Fn(&Vec<u8>) -> bool,
    U: Fn(&Vec<(u32, Vec<u8>)>) -> Result<(), Error>,
>(
    o: &mut TxnOverlay,
    txn_id: Option<u64>,
    database_id: u64,
    tid: u64,
    plan: &PhysicalPlan,
    a: StageAnswers<U>,
    apply: F,
    merge_values: G,
    matches: H,
    limit: usize,
) -> (r: StageRun)
    requires
        old(o).put_bytes() <= usize::MAX,
        forall|b: &Vec<u8>| #[trigger] apply.requires((b,)),
        forall|l: &Vec<(u32, Vec<u8>)>| #[trigger] a.steps.check.requires((l,)),
        forall|x: &Vec<u8>, y: &[u8]| #[trigger] merge_values.requires((x, y)),
        merge::decides(matches),
        *plan matches PhysicalPlan::Kv(KvOp::Delete { collection, keys })
            ==> a.kv.surrogates@.len() == keys@.len(),
    ensures
        match txn_id {
            None => refused_with(*old(o), *final(o), no_transaction(), r),
            Some(_) => stage_outcome(
                *old(o),
                *final(o),
                database_id,
                tid,
                *plan,
                a,
                apply,
                merge_values,
                matches,
                limit,
                r,
            ),
        },
{
    if txn_id.is_none() {
        return StageRun::Refused(
            ErrorCode::Internal { detail: "StageWrite dispatched without a txn_id".to_owned() },
        );
    }
    let ghost given = a;
    match plan {
        PhysicalPlan::Document(op) => match op {
            DocumentOp::PointInsert { row, if_absent } => {
                let ctx = row_ctx(database_id, tid, row);
                let r = stage_write::stage_point_insert(
                    o,
                    &ctx,
                    *if_absent,
                    a.present,
                    a.steps,
                    limit,
                );
                proof {
                    assert(point_outcome(*old(o), *o, ctx, *op, given, apply, limit, r));
                }
                StageRun::Point(r)
            },
            DocumentOp::PointPut { row } => {
                let ctx = row_ctx(database_id, tid, row);
                let r = stage_write::stage_point_put(o, &ctx, a.steps, limit);
                proof {
                    assert(point_outcome(*old(o), *o, ctx, *op, given, apply, limit, r));
                }
                StageRun::Point(r)
            },
            DocumentOp::PointDelete { row } => {
                let ctx = row_ctx(database_id, tid, row);
                let r = Ok(stage_write::stage_point_delete(o, &ctx));
                proof {
                    assert(point_outcome(*old(o), *o, ctx, *op, given, apply, limit, r));
                }
                StageRun::Point(r)
            },
            DocumentOp::PointUpdate { row } => {
                let ctx = row_ctx(database_id, tid, row);
                let r = stage_write::stage_point_update(
                    o,
                    &ctx,
                    a.readonly,
                    a.body,
                    apply,
                    limit,
                );
                proof {
                    assert(point_outcome(*old(o), *o, ctx, *op, given, apply, limit, r));
                }
                StageRun::Point(r)
            },
            DocumentOp::InsertSelect { target_collection, source_collection, source_limit } => {
                StageRun::Copied(
                    stage_insert_select::stage_insert_select(
                        o,
                        database_id,
                        tid,
                        target_collection.as_str(),
                        source_collection.as_str(),
                        a.scan,
                        matches,
                        *source_limit,
                        limit,
                    ),
                )
            },
            _ => hand_on(plan),
        },
        PhysicalPlan::Kv(op) => StageRun::Kv(
            stage_kv::execute_stage_kv(o, database_id, tid, op, &a.kv, merge_values, limit),
        ),
        _ => hand_on(plan),
    }
}

fn hand_on(plan: &PhysicalPlan) -> (r: StageRun)
    ensures
        match engine_of(*plan) {
            Some(engine) => r == StageRun::Engine(engine),
            None => r matches StageRun::Refused(x) && x@ == stage_write::not_point_write(),
        },
{
    match find_engine(plan) {
        Some(engine) => StageRun::Engine(engine),
        None => StageRun::Refused(stage_write::stage_not_point_write()),
    }
}

/// A plan that only reads is refused, and nothing is staged for it.
pub proof fn law_a_read_is_never_staged<
    F: Fn(&Vec<u8>) -> Result<Vec<u8>, Error>,
    G: Fn(&Vec<u8>, &[u8]) -> Result<Vec<u8>, MergeFailure>,
    H: Fn(&Vec<u8>) -> bool,
    U: Fn(&Vec<(u32, Vec<u8>)>) -> Result<(), Error>,
>(
    before: TxnOverlay,
    after: TxnOverlay,
    database_id: u64,
    tid: u64,
    plan: PhysicalPlan,
    a: StageAnswers<U>,
    apply: F,
    merge_values: G,
    matches: H,
    limit: usize,
    r: StageRun,
)
    requires
        plan matches PhysicalPlan::Document(op) && (op is PointGet || op is Scan || op is RangeScan
            || op is IndexLookup || op is IndexedFetch || op is EstimateCount
            || op is MaterializeScan),
        stage_outcome(
            before,
            after,
            database_id,
            tid,
            plan,
            a,
            apply,
            merge_values,
            matches,
            limit,
            r,
        ),
    ensures
        r is Refused,
        stage_write::same_overlay(before, after),
{
}

/// Each engine stages its own writes and nothing else; a bulk write whose rows are
/// to be returned is staged by none.
pub proof fn law_each_engine_stages_its_own_writes(plan: PhysicalPlan)
    ensures
        engine_of(plan) == Some(EngineStage::BulkUpdate) <==> plan == PhysicalPlan::Document(
            DocumentOp::BulkUpdate { returning: false },
        ),
        engine_of(plan) == Some(EngineStage::BulkDelete) <==> plan == PhysicalPlan::Document(
            DocumentOp::BulkDelete { returning: false },
        ),
        engine_of(plan) == Some(EngineStage::Upsert) <==> plan == PhysicalPlan::Document(
            DocumentOp::Upsert,
        ),
        engine_of(plan) == Some(EngineStage::ColumnarInsert) <==> plan == PhysicalPlan::Columnar(
            ColumnarOp::Insert,
        ),
        engine_of(plan) == Some(EngineStage::SpatialInsert) <==> plan == PhysicalPlan::Spatial(
            SpatialOp::Insert,
        ),
        engine_of(plan) == Some(EngineStage::SpatialDelete) <==> plan == PhysicalPlan::Spatial(
            SpatialOp::Delete,
        ),
        engine_of(plan) == Some(EngineStage::Graph) <==> (plan matches PhysicalPlan::Graph(op) && (
        op is EdgePut || op is EdgeDelete || op is EdgePutBatch || op is EdgeDeleteBatch
            || op is SetNodeLabels || op is RemoveNodeLabels)),
{
}

/// A point write changes its own row alone: where it fails nothing changes, where
/// it is a delete the row is deleted in the transaction, and where it is a put the
/// row holds the encoded body.
pub proof fn law_a_point_write_changes_its_own_row<
    F: Fn(&Vec<u8>) -> Result<Vec<u8>, Error>,
    G: Fn(&Vec<u8>, &[u8]) -> Result<Vec<u8>, MergeFailure>,
    H: Fn(&Vec<u8>) -> bool,
    U: Fn(&Vec<(u32, Vec<u8>)>) -> Result<(), Error>,
>(
    before: TxnOverlay,
    after: TxnOverlay,
    database_id: u64,
    tid: u64,
    op: DocumentOp,
    row: PointRow,
    a: StageAnswers<U>,
    apply: F,
    merge_values: G,
    matches: H,
    limit: usize,
    r: StageRun,
    other: ((u64, u64, Seq<char>), u32),
)
    requires
        match op {
            DocumentOp::PointInsert { row: x, .. } => x == row,
            DocumentOp::PointPut { row: x } => x == row,
            DocumentOp::PointDelete { row: x } => x == row,
            DocumentOp::PointUpdate { row: x } => x == row,
            _ => false,
        },
        stage_outcome(
            before,
            after,
            database_id,
            tid,
            PhysicalPlan::Document(op),
            a,
            apply,
            merge_values,
            matches,
            limit,
            r,
        ),
    ensures
        r is Point,
        ({
            let own = ((database_id, tid, row.collection@), row.surrogate);
            let x = r->Point_0;
            &&& other != own ==> after.rows().contains_key(other) == before.rows().contains_key(
                other,
            ) && (before.rows().contains_key(other) ==> after.rows()[other]
                == before.rows()[other])
            &&& x is Err ==> after.rows() == before.rows() && after.ids() == before.ids()
            &&& op is PointDelete ==> x == Ok::<usize, Error>(1) && after.rows().contains_key(own)
                && after.rows()[own] is Tombstone && after.ids().contains_key(
                (own.0, row.document_id@),
            ) && after.ids()[(own.0, row.document_id@)] == row.surrogate
            &&& op is PointPut && x is Ok ==> a.steps.encoded is Ok && after.rows().contains_key(
                own,
            ) && after.rows()[own] == Staged::Put(a.steps.encoded->Ok_0)
            &&& op is PointPut && a.steps.encoded is Err ==> x is Err
        }),
{
    let x = r->Point_0;
    let ctx = choose|ctx: StageCtx|
        is_row_ctx(ctx, database_id, tid, row) && #[trigger] point_outcome(
            before,
            after,
            ctx,
            op,
            a,
            apply,
            limit,
            x,
        );
    assert(point_outcome(before, after, ctx, op, a, apply, limit, x));
}

/// A copy within a transaction touches its target collection alone.
pub proof fn law_a_staged_copy_spares_other_collections<
    F: Fn(&Vec<u8>) -> Result<Vec<u8>, Error>,
    G: Fn(&Vec<u8>, &[u8]) -> Result<Vec<u8>, MergeFailure>,
    H: Fn(&Vec<u8>) -> bool,
    U: Fn(&Vec<(u32, Vec<u8>)>) -> Result<(), Error>,
>(
    before: TxnOverlay,
    after: TxnOverlay,
    database_id: u64,
    tid: u64,
    target_collection: String,
    source_collection: String,
    source_limit: usize,
    a: StageAnswers<U>,
    apply: F,
    merge_values: G,
    matches: H,
    limit: usize,
    r: StageRun,
    other: ((u64, u64, Seq<char>), u32),
)
    requires
        stage_outcome(
            before,
            after,
            database_id,
            tid,
            PhysicalPlan::Document(
                DocumentOp::InsertSelect { target_collection, source_collection, source_limit },
            ),
            a,
            apply,
            merge_values,
            matches,
            limit,
            r,
        ),
        other.0 != (database_id, tid, target_collection@),
    ensures
        r is Copied,
        after.rows().contains_key(other) == before.rows().contains_key(other),
        before.rows().contains_key(other) ==> after.rows()[other] == before.rows()[other],
{
    let x = r->Copied_0;
    let target = (database_id, tid, target_collection@);
    if let SourceScan::Rows(base) = a.scan {
        let rows = choose|rows: Seq<(String, Vec<u8>)>| #[trigger]
            stage_insert_select::is_source(
                before,
                (database_id, tid, source_collection@),
                base@,
                merge::test_of(matches),
                source_limit,
                rows,
            ) && stage_insert_select::copy_outcome(before, after, target, rows, limit, x);
        stage_insert_select::law_a_copy_stays_in_its_target(
            stage_write::state_of(before),
            target,
            rows,
            limit,
            other,
        );
        assert(stage_write::state_of(after).rows == after.rows());
    }
}

} // verus!
