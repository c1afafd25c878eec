//! Ingest of line protocol into a timeseries collection.
//!
//! By the time a record is ingested the log has committed it, so everything
//! that could stop it half way is resolved before the first row lands. The
//! memtable itself is the engine's: what it reports is handed in, in the order
//! in which it is asked.
use crate::error::{ErrorCode, ErrorCodeView, ErrorView};
use crate::error;
use crate::maps::CollId;
use crate::text;
use crate::timeseries::line_protocol;
use crate::timeseries::line_protocol::{IlpLine, LineView};
use crate::timeseries::state;
use crate::timeseries::state::{MemtableSpan, TsModel, TsState, WrittenPartition};
use vstd::prelude::*;
use vstd::string::*;
use vstd::utf8::*;

verus! {

/// When an ingest takes effect.
#[derive(Clone, Copy, Debug, PartialEq, Eq, Structural)]
pub enum TimeseriesApplyMode {
    Immediate,
    /// Within a transaction that has not committed yet: nothing may be flushed.
    CommitDeferred,
}

/// The sizes at which a memtable is flushed.
#[derive(Clone, Copy, Debug, PartialEq, Eq, Structural)]
pub struct Limits {
    pub soft_bytes: usize,
    pub hard_bytes: usize,
}

/// The type of a column.
#[derive(Clone, Copy, Debug, PartialEq, Eq, Structural)]
pub enum ColumnType {
    Timestamp,
    Float64,
    Int64,
    Symbol,
}

/// The SQL name of a type.
pub open spec fn sql_name_of(t: ColumnType) -> Seq<char> {
    match t {
        ColumnType::Timestamp => "TIMESTAMP"@,
        ColumnType::Float64 => "FLOAT"@,
        ColumnType::Int64 => "BIGINT"@,
        ColumnType::Symbol => "VARCHAR"@,
    }
}

pub fn sql_name(t: ColumnType) -> (r: &'static str)
    ensures
        r@ == sql_name_of(t),
{
    match t {
        ColumnType::Timestamp => "TIMESTAMP",
        ColumnType::Float64 => "FLOAT",
        ColumnType::Int64 => "BIGINT",
        ColumnType::Symbol => "VARCHAR",
    }
}

/// What a simulation of an ingest on a copy of the memtable shows.
pub struct AdmissionFacts {
    /// What copying the memtable failed with.
    pub copy_failed: Option<String>,
    /// The bytes of the memtable as it is, if there is one.
    pub live_resident: Option<usize>,
    /// The bytes of the copy before its schema took in the batch's columns.
    pub baseline: usize,
    /// The bytes of the copy after.
    pub evolved: usize,
    pub tag_headroom: bool,
    pub governor_pressure: bool,
}

/// The bytes of the memtable once its schema has taken in the batch's columns:
/// a copy has no spare capacity, so only its growth is taken from it.
pub open spec fn expected_resident(f: AdmissionFacts) -> int {
    match f.live_resident {
        Some(live) => {
            let growth = if f.evolved > f.baseline {
                f.evolved - f.baseline
            } else {
                0
            };
            if live + growth > usize::MAX {
                usize::MAX as int
            } else {
                live + growth
            }
        },
        None => f.evolved as int,
    }
}

pub open spec fn headroom_text() -> Seq<char> {
    "transactional timeseries ingest exceeds tag dictionary headroom"@
}

pub open spec fn flush_first_text() -> Seq<char> {
    "transactional timeseries ingest requires a flush before mutation"@
}

/// Why an ingest may not join a transaction.
pub open spec fn admission_refusal(f: AdmissionFacts, limits: Limits) -> Option<ErrorCodeView> {
    if f.copy_failed is Some {
        Some(
            ErrorCodeView::Internal {
                detail: "failed to clone timeseries memtable for admission: "@ + f.copy_failed->0@,
            },
        )
    } else if !f.tag_headroom {
        Some(ErrorCodeView::RejectedPrevalidation { reason: headroom_text() })
    } else if expected_resident(f) >= limits.soft_bytes || expected_resident(f)
        >= limits.hard_bytes || f.governor_pressure {
        Some(ErrorCodeView::RejectedPrevalidation { reason: flush_first_text() })
    } else {
        None
    }
}

/// Check everything that could refuse an ingest before its transaction votes to
/// commit.
pub fn prevalidate_deferred_ilp_ingest(f: &AdmissionFacts, limits: Limits) -> (r: Result<
    (),
    ErrorCode,
>)
    ensures
        match admission_refusal(*f, limits) {
            Some(e) => r is Err && r->Err_0@ == e,
            None => r is Ok,
        },
{
    match &f.copy_failed {
        Some(e) => {
            let mut detail = "failed to clone timeseries memtable for admission: ".to_owned();
            detail.append(e.as_str());
            return Err(ErrorCode::Internal { detail });
        },
        None => {},
    }
    if !f.tag_headroom {
        return Err(
            ErrorCode::RejectedPrevalidation {
                reason: "transactional timeseries ingest exceeds tag dictionary headroom".to_owned(),
            },
        );
    }
    let resident: usize = match f.live_resident {
        Some(live) => {
            let growth: usize = if f.evolved > f.baseline {
                f.evolved - f.baseline
            } else {
                0
            };
            if live > usize::MAX - growth {
                usize::MAX
            } else {
                live + growth
            }
        },
        None => f.evolved,
    };
    if resident >= limits.soft_bytes || resident >= limits.hard_bytes || f.governor_pressure {
        return Err(
            ErrorCode::RejectedPrevalidation {
                reason: "transactional timeseries ingest requires a flush before mutation".to_owned(),
            },
        );
    }
    Ok(())
}

/// What came of a flush.
pub struct FlushAnswers {
    pub memtable: Option<MemtableSpan>,
    pub written: Result<WrittenPartition, String>,
    pub drained: Option<(i64, i64)>,
}

/// What the engine reports in the course of an ingest. What is not reached is
/// not read.
pub struct IngestAnswers {
    /// The simulation, for an ingest within a transaction.
    pub admission: AdmissionFacts,
    /// How many columns the memtable had, if there was one.
    pub columns_before: Option<usize>,
    /// The columns once the memtable is made or has taken in the batch's.
    pub columns: Vec<(String, ColumnType)>,
    /// Its bytes then.
    pub resident: usize,
    pub tag_headroom: bool,
    pub governor_pressure: bool,
    pub flush_before: FlushAnswers,
    pub accepted: usize,
    pub rejected: usize,
    /// The bytes of the memtable once the batch is in it.
    pub resident_after: usize,
    pub flush_after: FlushAnswers,
    /// Whether memory is governed, what the memtable takes up in the end, and
    /// whether that was granted.
    pub governed: bool,
    pub resident_final: Option<usize>,
    pub granted: bool,
}

/// A batch to ingest.
pub struct IngestRequest<'a> {
    pub db: u64,
    pub tid: u64,
    pub collection: &'a str,
    pub payload: &'a [u8],
    /// The position in the log, for a batch that is in it.
    pub wal_lsn: Option<u64>,
    pub mode: TimeseriesApplyMode,
}

/// What an ingest is answered with.
pub struct IngestReply {
    pub accepted: usize,
    pub rejected: usize,
    pub collection: String,
    /// The columns and their types, where they are new or have changed.
    pub schema_columns: Option<Vec<(String, String)>>,
    /// Whether the collection is marked as changed since the last checkpoint;
    /// not within a transaction.
    pub mark_dirty: bool,
    /// Whether the idle timer starts anew: rows came in, outside a transaction.
    pub restart_idle: bool,
}

#[verifier::ext_equal]
pub struct ReplyView {
    pub accepted: usize,
    pub rejected: usize,
    pub collection: Seq<char>,
    pub schema_columns: Option<Seq<(Seq<char>, Seq<char>)>>,
    pub mark_dirty: bool,
    pub restart_idle: bool,
}

pub open spec fn column_views(c: Seq<(String, String)>) -> Seq<(Seq<char>, Seq<char>)> {
    c.map_values(|e: (String, String)| (e.0@, e.1@))
}

impl View for IngestReply {
    type V = ReplyView;

    open spec fn view(&self) -> ReplyView {
        ReplyView {
            accepted: self.accepted,
            rejected: self.rejected,
            collection: self.collection@,
            schema_columns: match self.schema_columns {
                Some(c) => Some(column_views(c@)),
                None => None,
            },
            mark_dirty: self.mark_dirty,
            restart_idle: self.restart_idle,
        }
    }
}

pub open spec fn all_of_measurement(lines: Seq<LineView>, collection: Seq<char>) -> bool {
    forall|i: int| 0 <= i < lines.len() ==> (#[trigger] lines[i]).measurement == collection
}

/// Why a payload is refused, whatever state the collection is in.
pub open spec fn payload_refusal(payload: Seq<u8>, collection: Seq<char>) -> Option<Seq<char>> {
    if !valid_utf8(payload) {
        Some("ILP payload is not valid UTF-8"@)
    } else {
        match line_protocol::parsed_batch(decode_utf8(payload)) {
            Err(e) => Some(e.spec_text()),
            Ok(lines) => if lines.len() == 0 {
                Some("no ILP data lines in payload"@)
            } else if !all_of_measurement(lines, collection) {
                Some("ILP measurements must match the routed collection"@)
            } else {
                None
            },
        }
    }
}

fn refused(reason: &str) -> (r: ErrorCode)
    ensures
        r@ == (ErrorCodeView::RejectedPrevalidation { reason: reason@ }),
{
    ErrorCode::RejectedPrevalidation { reason: reason.to_owned() }
}

/// The lines of a payload, all of the routed collection.
pub fn read_payload(payload: &[u8], collection: &str) -> (r: Result<Vec<IlpLine>, ErrorCode>)
    ensures
        match payload_refusal(payload@, collection@) {
            Some(reason) => r is Err && r->Err_0@ == (ErrorCodeView::RejectedPrevalidation {
                reason,
            }),
            None => r is Ok && line_protocol::parsed_batch(decode_utf8(payload@)) == Ok::<
                Seq<LineView>,
                line_protocol::IlpError,
            >(line_protocol::line_views(r->Ok_0@)),
        },
{
    let input = match text::string_from_utf8(text::copy_bytes(payload)) {
        Ok(s) => s,
        Err(_) => {
            return Err(refused("ILP payload is not valid UTF-8"));
        },
    };
    let lines = match line_protocol::parse_batch(input.as_str()) {
        Ok(lines) => lines,
        Err(e) => {
            return Err(refused(e.text()));
        },
    };
    if lines.len() == 0 {
        return Err(refused("no ILP data lines in payload"));
    }
    let ghost views = line_protocol::line_views(lines@);
    let mut i: usize = 0;
    while i < lines.len()
        invariant
            i <= lines@.len(),
            lines@.len() > 0,
            views == line_protocol::line_views(lines@),
            valid_utf8(payload@),
            line_protocol::parsed_batch(decode_utf8(payload@)) == Ok::<
                Seq<LineView>,
                line_protocol::IlpError,
            >(views),
            forall|j: int| 0 <= j < i ==> (#[trigger] views[j]).measurement == collection@,
        decreases lines.len() - i,
    {
        proof {
            assert(views[i as int] == lines@[i as int]@);
        }
        if !text::same_text(lines[i].measurement.as_str(), collection) {
            proof {
                assert(!all_of_measurement(views, collection@));
            }
            return Err(refused("ILP measurements must match the routed collection"));
        }
        i = i + 1;
    }
    Ok(lines)
}

/// Whether the memtable has to be flushed before the batch goes in.
pub open spec fn must_flush(a: IngestAnswers, limits: Limits) -> bool {
    a.resident >= limits.soft_bytes || a.resident >= limits.hard_bytes || a.governor_pressure
        || !a.tag_headroom
}

pub open spec fn after_flush(m: TsModel, coll: CollId, f: FlushAnswers) -> (
    TsModel,
    Option<ErrorView>,
) {
    state::flush_outcome(m, coll, f.memtable, f.written, f.drained)
}

/// Whether the answer tells of the columns: those of a new memtable, or of one
/// whose columns have changed.
pub open spec fn tells_columns(a: IngestAnswers) -> bool {
    a.columns_before is None || a.columns_before->0 != a.columns@.len()
}

pub open spec fn named_columns(c: Seq<(String, ColumnType)>) -> Seq<(Seq<char>, Seq<char>)> {
    c.map_values(|e: (String, ColumnType)| (e.0@, sql_name_of(e.1)))
}

pub open spec fn ingest_reply(req: IngestRequest, a: IngestAnswers) -> ReplyView {
    ReplyView {
        accepted: a.accepted,
        rejected: a.rejected,
        collection: req.collection@,
        schema_columns: if tells_columns(a) {
            Some(named_columns(a.columns@))
        } else {
            None
        },
        mark_dirty: req.mode == TimeseriesApplyMode::Immediate,
        restart_idle: req.mode == TimeseriesApplyMode::Immediate && a.accepted > 0,
    }
}

/// The state after the batch went in.
pub open spec fn with_batch(m: TsModel, req: IngestRequest, a: IngestAnswers) -> TsModel {
    let coll = (req.db, req.tid, req.collection@);
    match req.wal_lsn {
        Some(lsn) if a.accepted > 0 => state::noted(m, coll, lsn),
        _ => m,
    }
}

/// What follows once the batch is in: outside a transaction a flush where the
/// memtable has grown too large, and a renewed reservation.
pub open spec fn settled(m: TsModel, req: IngestRequest, a: IngestAnswers, limits: Limits) -> (
    TsModel,
    Result<ReplyView, ErrorCodeView>,
) {
    let coll = (req.db, req.tid, req.collection@);
    if req.mode == TimeseriesApplyMode::CommitDeferred {
        (m, Ok(ingest_reply(req, a)))
    } else {
        let (after, failed) = if a.resident_after >= limits.soft_bytes {
            after_flush(m, coll, a.flush_after)
        } else {
            (m, None)
        };
        match failed {
            Some(e) => (
                after,
                Err(
                    ErrorCodeView::Internal {
                        detail: "post-ingest ts flush failed: "@ + error::error_text(e),
                    },
                ),
            ),
            None => (
                state::recharged(after, coll, a.governed, a.resident_final, a.granted),
                Ok(ingest_reply(req, a)),
            ),
        }
    }
}

/// The state after an ingest, and how it is answered.
pub open spec fn ingest_outcome(
    m: TsModel,
    req: IngestRequest,
    a: IngestAnswers,
    limits: Limits,
) -> (TsModel, Result<ReplyView, ErrorCodeView>) {
    let coll = (req.db, req.tid, req.collection@);
    let deferred = req.mode == TimeseriesApplyMode::CommitDeferred;
    match payload_refusal(req.payload@, req.collection@) {
        Some(reason) => (m, Err(ErrorCodeView::RejectedPrevalidation { reason })),
        None => if deferred && admission_refusal(a.admission, limits) is Some {
            (m, Err(admission_refusal(a.admission, limits)->0))
        } else if must_flush(a, limits) && deferred {
            (m, Err(ErrorCodeView::RejectedPrevalidation { reason: flush_first_text() }))
        } else {
            let (before, failed) = if must_flush(a, limits) {
                after_flush(m, coll, a.flush_before)
            } else {
                (m, None)
            };
            match failed {
                Some(e) => (
                    before,
                    Err(
                        ErrorCodeView::Internal {
                            detail: "pre-ingest ts flush failed: "@ + error::error_text(e),
                        },
                    ),
                ),
                None => settled(with_batch(before, req, a), req, a, limits),
            }
        },
    }
}

fn failed_flush(head: &str, e: &error::Error) -> (r: ErrorCode)
    ensures
        r@ == (ErrorCodeView::Internal { detail: head@ + error::error_text(e@) }),
{
    let mut detail = head.to_owned();
    detail.append(e.text().as_str());
    ErrorCode::Internal { detail }
}

fn name_columns(c: &Vec<(String, ColumnType)>) -> (r: Vec<(String, String)>)
    ensures
        column_views(r@) == named_columns(c@),
{
    let mut out: Vec<(String, String)> = Vec::new();
    let mut i: usize = 0;
    proof {
        assert(column_views(out@) =~= named_columns(c@.take(0)));
    }
    while i < c.len()
        invariant
            i <= c@.len(),
            column_views(out@) == named_columns(c@.take(i as int)),
        decreases c.len() - i,
    {
        let ghost before = out@;
        out.push((c[i].0.clone(), sql_name(c[i].1).to_owned()));
        proof {
            assert(named_columns(c@.take(i + 1)) =~= named_columns(c@.take(i as int)).push(
                (c@[i as int].0@, sql_name_of(c@[i as int].1)),
            ));
            assert(column_views(out@) =~= column_views(before).push(
                (c@[i as int].0@, sql_name_of(c@[i as int].1)),
            ));
        }
        i = i + 1;
    }
    proof {
        assert(c@.take(c@.len() as int) =~= c@);
    }
    out
}

fn build_reply(req: &IngestRequest<'_>, a: &IngestAnswers) -> (r: IngestReply)
    ensures
        r@ == ingest_reply(*req, *a),
{
    let tells = match a.columns_before {
        None => true,
        Some(n) => n != a.columns.len(),
    };
    IngestReply {
        accepted: a.accepted,
        rejected: a.rejected,
        collection: req.collection.to_owned(),
        schema_columns: if tells {
            Some(name_columns(&a.columns))
        } else {
            None
        },
        mark_dirty: req.mode == TimeseriesApplyMode::Immediate,
        restart_idle: req.mode == TimeseriesApplyMode::Immediate && a.accepted > 0,
    }
}

/// Ingest a batch.
pub fn execute_ilp_ingest(
    ts: &mut TsState,
    req: &IngestRequest<'_>,
    a: &IngestAnswers,
    limits: Limits,
) -> (r: Result<IngestReply, ErrorCode>)
    ensures
        ({
            let (after, answer) = ingest_outcome(old(ts)@, *req, *a, limits);
            final(ts)@ == after && match answer {
                Ok(reply) => r is Ok && r->Ok_0@ == reply,
                Err(e) => r is Err && r->Err_0@ == e,
            }
        }),
{
    match read_payload(req.payload, req.collection) {
        Ok(_) => {},
        Err(e) => {
            return Err(e);
        },
    }
    let deferred = req.mode == TimeseriesApplyMode::CommitDeferred;
    if deferred {
        match prevalidate_deferred_ilp_ingest(&a.admission, limits) {
            Ok(()) => {},
            Err(e) => {
                return Err(e);
            },
        }
    }
    let needs_flush = a.resident >= limits.soft_bytes || a.resident >= limits.hard_bytes
        || a.governor_pressure || !a.tag_headroom;
    if needs_flush {
        if deferred {
            return Err(refused("transactional timeseries ingest requires a flush before mutation"));
        }
        let f = &a.flush_before;
        match ts.flush_ts_collection(
            req.tid,
            req.db,
            req.collection,
            &f.memtable,
            &f.written,
            &f.drained,
        ) {
            Ok(()) => {},
            Err(e) => {
                return Err(failed_flush("pre-ingest ts flush failed: ", &e));
            },
        }
    }
    match req.wal_lsn {
        Some(lsn) => {
            if a.accepted > 0 {
                ts.note_ingested(req.db, req.tid, req.collection, lsn);
            }
        },
        None => {},
    }
    if !deferred {
        if a.resident_after >= limits.soft_bytes {
            let f = &a.flush_after;
            match ts.flush_ts_collection(
                req.tid,
                req.db,
                req.collection,
                &f.memtable,
                &f.written,
                &f.drained,
            ) {
                Ok(()) => {},
                Err(e) => {
                    return Err(failed_flush("post-ingest ts flush failed: ", &e));
                },
            }
        }
        ts.recharge_ts_memtable_budget(
            req.tid,
            req.db,
            req.collection,
            a.governed,
            a.resident_final,
            a.granted,
        );
    }
    Ok(build_reply(req, a))
}

/// Within a transaction an ingest flushes nothing and reserves nothing.
pub proof fn law_a_deferred_ingest_keeps_partitions_and_budget(
    m: TsModel,
    req: IngestRequest,
    a: IngestAnswers,
    limits: Limits,
)
    requires
        req.mode == TimeseriesApplyMode::CommitDeferred,
    ensures
        ingest_outcome(m, req, a, limits).0.partitions == m.partitions,
        ingest_outcome(m, req, a, limits).0.reserved == m.reserved,
{
}

/// An ingest that is refused before its first row changes nothing.
pub proof fn law_a_refused_ingest_changes_nothing(
    m: TsModel,
    req: IngestRequest,
    a: IngestAnswers,
    limits: Limits,
)
    requires
        ingest_outcome(m, req, a, limits).1 matches Err(e) && e is RejectedPrevalidation,
    ensures
        ingest_outcome(m, req, a, limits).0 == m,
{
}

/// What a memtable is expected to take up is what it takes up now and what the
/// batch's columns add, as far as a count reaches; a new one takes up what the
/// simulation did.
pub proof fn law_new_columns_add_to_a_memtable(f: AdmissionFacts)
    ensures
        f.live_resident is None ==> expected_resident(f) == f.evolved,
        f.live_resident matches Some(live) ==> {
            &&& f.evolved <= f.baseline ==> expected_resident(f) == live
            &&& f.evolved > f.baseline && live + (f.evolved - f.baseline) <= usize::MAX
                ==> expected_resident(f) == live + (f.evolved - f.baseline)
            &&& f.evolved > f.baseline && live + (f.evolved - f.baseline) > usize::MAX
                ==> expected_resident(f) == usize::MAX
        },
{
}

/// An ingest within a transaction is admitted exactly where the memtable could be
/// copied, the tags fit, both limits are kept and memory is not short.
pub proof fn law_when_a_deferred_ingest_is_admitted(f: AdmissionFacts, limits: Limits)
    ensures
        admission_refusal(f, limits) is None <==> f.copy_failed is None && f.tag_headroom
            && expected_resident(f) < limits.soft_bytes && expected_resident(f)
            < limits.hard_bytes && !f.governor_pressure,
        f.copy_failed is Some <==> (admission_refusal(f, limits) matches Some(e) && e is Internal),
        f.copy_failed is None && !f.tag_headroom ==> admission_refusal(f, limits) == Some(
            ErrorCodeView::RejectedPrevalidation {
                reason: "transactional timeseries ingest exceeds tag dictionary headroom"@,
            },
        ),
        f.copy_failed is None && f.tag_headroom && admission_refusal(f, limits) is Some
            ==> admission_refusal(f, limits) == Some(
            ErrorCodeView::RejectedPrevalidation {
                reason: "transactional timeseries ingest requires a flush before mutation"@,
            },
        ),
{
}

/// A payload is taken exactly where it is text that parses to at least one line
/// and every line is of the collection.
pub proof fn law_when_a_payload_is_taken(payload: Seq<u8>, collection: Seq<char>)
    ensures
        payload_refusal(payload, collection) is None <==> valid_utf8(payload) && (
        line_protocol::parsed_batch(decode_utf8(payload)) matches Ok(lines) && lines.len() > 0
            && forall|i: int|
            0 <= i < lines.len() ==> (#[trigger] lines[i]).measurement == collection),
        !valid_utf8(payload) ==> payload_refusal(payload, collection) == Some(
            "ILP payload is not valid UTF-8"@,
        ),
        valid_utf8(payload) ==> (line_protocol::parsed_batch(decode_utf8(payload)) matches Err(e)
            ==> payload_refusal(payload, collection) == Some(e.spec_text())),
        valid_utf8(payload) ==> (line_protocol::parsed_batch(decode_utf8(payload)) matches Ok(lines)
            ==> (lines.len() == 0 ==> payload_refusal(payload, collection) == Some(
            "no ILP data lines in payload"@,
        ))),
{
}

/// An ingest answers with what the memtable took and refused, under the name of
/// its collection, and tells the columns exactly where they are new or more have
/// come; only an ingest outside a transaction marks the collection and restarts
/// its idle time.
pub proof fn law_an_ingest_tells_what_it_took(
    m: TsModel,
    req: IngestRequest,
    a: IngestAnswers,
    limits: Limits,
)
    requires
        ingest_outcome(m, req, a, limits).1 is Ok,
    ensures
        ({
            let reply = ingest_outcome(m, req, a, limits).1->Ok_0;
            let new = a.columns_before is None || a.columns_before->0 != a.columns@.len();
            &&& reply.accepted == a.accepted
            &&& reply.rejected == a.rejected
            &&& reply.collection == req.collection@
            &&& reply.schema_columns is Some <==> new
            &&& reply.schema_columns matches Some(c) ==> c.len() == a.columns@.len() && forall|
                i: int,
            |
                0 <= i < c.len() ==> (#[trigger] c[i]).0 == a.columns@[i].0@ && c[i].1 == (
                match a.columns@[i].1 {
                    ColumnType::Timestamp => "TIMESTAMP"@,
                    ColumnType::Float64 => "FLOAT"@,
                    ColumnType::Int64 => "BIGINT"@,
                    ColumnType::Symbol => "VARCHAR"@,
                })
            &&& reply.mark_dirty <==> req.mode == TimeseriesApplyMode::Immediate
            &&& reply.restart_idle <==> req.mode == TimeseriesApplyMode::Immediate && a.accepted > 0
        }),
{
}

/// An ingest that succeeds raises its collection's mark to its place in the log
/// where rows were accepted, and no other mark.
pub proof fn law_an_accepted_batch_is_noted(
    m: TsModel,
    req: IngestRequest,
    a: IngestAnswers,
    limits: Limits,
    other: CollId,
)
    requires
        ingest_outcome(m, req, a, limits).1 is Ok,
    ensures
        ({
            let after = ingest_outcome(m, req, a, limits).0;
            let coll = (req.db, req.tid, req.collection@);
            &&& req.wal_lsn is Some && a.accepted > 0 ==> state::ingested_through(after, coll)
                >= req.wal_lsn->0 && state::ingested_through(after, coll)
                >= state::ingested_through(m, coll) && (state::ingested_through(after, coll)
                == req.wal_lsn->0 || state::ingested_through(after, coll)
                == state::ingested_through(m, coll))
            &&& req.wal_lsn is None || a.accepted == 0 ==> state::ingested_through(after, coll)
                == state::ingested_through(m, coll)
            &&& other != coll ==> state::ingested_through(after, other) == state::ingested_through(
                m,
                other,
            )
        }),
{
}

/// Outside a transaction a memtable that has reached a limit, that memory presses
/// on or whose tags do not fit is flushed before the batch goes in, and one that
/// has reached the soft limit with the batch is flushed after; otherwise no
/// partition changes.
pub proof fn law_pressure_flushes_a_memtable(
    m: TsModel,
    req: IngestRequest,
    a: IngestAnswers,
    limits: Limits,
)
    requires
        ingest_outcome(m, req, a, limits).1 is Ok,
        req.mode == TimeseriesApplyMode::Immediate,
    ensures
        ({
            let after = ingest_outcome(m, req, a, limits).0;
            let first = a.resident >= limits.soft_bytes || a.resident >= limits.hard_bytes
                || a.governor_pressure || !a.tag_headroom;
            let last = a.resident_after >= limits.soft_bytes;
            &&& first && a.flush_before.memtable is Some && a.flush_before.memtable->0.rows > 0
                ==> (a.flush_before.drained matches Some((low, _))
                && after.partitions.contains_key((req.db, req.tid, req.collection@, low)))
            &&& last && a.flush_after.memtable is Some && a.flush_after.memtable->0.rows > 0
                ==> (a.flush_after.drained matches Some((low, _)) && after.partitions.contains_key(
                (req.db, req.tid, req.collection@, low),
            ))
            &&& !first && !last ==> after.partitions == m.partitions
        }),
{
}

/// An ingest succeeds exactly where its payload is taken and, within a
/// transaction, the memtable has room for it without a flush; outside one, where
/// each flush that pressure asks for goes through.
pub proof fn law_when_an_ingest_succeeds(
    m: TsModel,
    req: IngestRequest,
    a: IngestAnswers,
    limits: Limits,
)
    ensures
        ({
            let coll = (req.db, req.tid, req.collection@);
            let ok = ingest_outcome(m, req, a, limits).1 is Ok;
            let taken = payload_refusal(req.payload@, req.collection@) is None;
            let first = a.resident >= limits.soft_bytes || a.resident >= limits.hard_bytes
                || a.governor_pressure || !a.tag_headroom;
            let before = if first {
                after_flush(m, coll, a.flush_before)
            } else {
                (m, None)
            };
            let full = a.resident_after >= limits.soft_bytes;
            &&& req.mode == TimeseriesApplyMode::CommitDeferred ==> (ok <==> taken && !first
                && admission_refusal(a.admission, limits) is None)
            &&& req.mode == TimeseriesApplyMode::Immediate ==> (ok <==> taken && before.1 is None
                && (full ==> after_flush(with_batch(before.0, req, a), coll, a.flush_after).1
                is None))
        }),
{
}


} // verus!
