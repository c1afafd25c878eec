//! Replay of timeseries and columnar batches.
//!
//! A batch is replayed unless its collection was purged later or its rows are
//! in a partition on disk already.
use crate::codec;
use crate::core_loop::CoreLoop;
use crate::maps;
use crate::maps::CollId;
use crate::text;
use crate::timeseries::ingest;
use crate::timeseries::ingest::FlushAnswers;
use crate::timeseries::state;
use crate::timeseries::state::{TsModel, TsState};
use crate::vectors::handlers::SyncProvenance;
use crate::wal;
use crate::wal::{RecordType, TombstoneSet, WalRecord};
use vstd::prelude::*;
use vstd::string::*;
use vstd::utf8::*;

verus! {

/// A batch as its record holds it.
pub struct BatchRecord {
    /// None for a record from before batches were tagged.
    pub kind: Option<String>,
    pub collection: String,
    pub payload: Vec<u8>,
    pub provenance: Option<SyncProvenance>,
    /// The surrogate of each row, where the record carries them.
    pub surrogates: Vec<u32>,
}

#[verifier::ext_equal]
pub struct BatchView {
    pub kind: Option<Seq<char>>,
    pub collection: Seq<char>,
    pub payload: Seq<u8>,
    pub provenance: Option<SyncProvenance>,
    pub surrogates: Seq<u32>,
}

impl View for BatchRecord {
    type V = BatchView;

    open spec fn view(&self) -> BatchView {
        BatchView {
            kind: match self.kind {
                Some(k) => Some(k@),
                None => None,
            },
            collection: self.collection@,
            payload: self.payload@,
            provenance: self.provenance,
            surrogates: self.surrogates@,
        }
    }
}

pub open spec fn provenance_of(p: Option<(u64, u64, u64, u64)>) -> Option<SyncProvenance> {
    match p {
        Some((producer_id, epoch, stream_id, seq)) => Some(
            SyncProvenance { producer_id, epoch, stream_id, seq },
        ),
        None => None,
    }
}

/// What a record's payload holds. The columnar form is a map with surrogates, and
/// counts only where the payload is a map; the older forms are tuples of four,
/// three and two elements, tried in this order.
pub open spec fn decoded_batch(columnar: Option<BatchView>, payload: Seq<u8>) -> Option<BatchView> {
    match columnar {
        Some(b) if codec::is_map(payload) => Some(b),
        _ => match codec::batch_with_provenance_of(payload) {
            Some((kind, collection, rows, prov)) => Some(
                BatchView {
                    kind: Some(kind),
                    collection,
                    payload: rows,
                    provenance: provenance_of(prov),
                    surrogates: Seq::empty(),
                },
            ),
            None => match codec::tagged_batch_of(payload) {
                Some((kind, collection, rows)) => Some(
                    BatchView {
                        kind: Some(kind),
                        collection,
                        payload: rows,
                        provenance: None,
                        surrogates: Seq::empty(),
                    },
                ),
                None => match codec::bare_batch_of(payload) {
                    Some((collection, rows)) => Some(
                        BatchView {
                            kind: None,
                            collection,
                            payload: rows,
                            provenance: None,
                            surrogates: Seq::empty(),
                        },
                    ),
                    None => None,
                },
            },
        },
    }
}

pub open spec fn optional_batch(b: Option<BatchRecord>) -> Option<BatchView> {
    match b {
        Some(b) => Some(b@),
        None => None,
    }
}

/// Decode a batch, given what its payload reads as in the columnar form. The map
/// and the tuples never take the same payload.
pub fn decode_batch_record(columnar: Option<BatchRecord>, payload: &[u8]) -> (r: Option<BatchRecord>)
    ensures
        optional_batch(r) == decoded_batch(optional_batch(columnar), payload@),
        codec::is_array(payload@) ==> optional_batch(r) == decoded_batch(None, payload@),
        codec::is_map(payload@) ==> optional_batch(r) == optional_batch(columnar),
        !codec::is_array(payload@) && !codec::is_map(payload@) ==> r is None,
{
    match columnar {
        Some(b) => {
            if codec::begins_map(payload) {
                return Some(b);
            }
        },
        None => {},
    }
    match codec::decode_batch_with_provenance(payload) {
        Some((kind, collection, rows, prov)) => {
            let provenance = match prov {
                Some((producer_id, epoch, stream_id, seq)) => Some(
                    SyncProvenance { producer_id, epoch, stream_id, seq },
                ),
                None => None,
            };
            let r = BatchRecord {
                kind: Some(kind),
                collection,
                payload: rows,
                provenance,
                surrogates: Vec::new(),
            };
            proof {
                assert(r@.surrogates =~= Seq::empty());
            }
            return Some(r);
        },
        None => {},
    }
    match codec::decode_tagged_batch(payload) {
        Some((kind, collection, rows)) => {
            let r = BatchRecord {
                kind: Some(kind),
                collection,
                payload: rows,
                provenance: None,
                surrogates: Vec::new(),
            };
            proof {
                assert(r@.surrogates =~= Seq::empty());
            }
            return Some(r);
        },
        None => {},
    }
    match codec::decode_bare_batch(payload) {
        Some((collection, rows)) => {
            let r = BatchRecord {
                kind: None,
                collection,
                payload: rows,
                provenance: None,
                surrogates: Vec::new(),
            };
            proof {
                assert(r@.surrogates =~= Seq::empty());
            }
            Some(r)
        },
        None => None,
    }
}

/// The format that a replayed payload is ingested in.
pub fn replay_format(payload: &[u8]) -> (r: &'static str)
    ensures
        r@ == (if valid_utf8(payload@) {
            "ilp"@
        } else {
            "msgpack"@
        }),
{
    match text::string_from_utf8(text::copy_bytes(payload)) {
        Ok(_) => "ilp",
        Err(_) => "msgpack",
    }
}

/// What a payload reads as.
#[derive(Clone, Copy, Debug, PartialEq, Eq, Structural)]
pub enum PayloadShape {
    /// A list of that many rows.
    Rows(usize),
    /// One row.
    Row,
    Other,
}

/// How many rows of a payload count as replayed: none if the ingest failed.
pub open spec fn ingested_rows(succeeded: bool, shape: PayloadShape) -> int {
    match shape {
        PayloadShape::Rows(n) if succeeded => n as int,
        PayloadShape::Row if succeeded => 1,
        _ => 0,
    }
}

pub fn replayed_rows(succeeded: bool, shape: PayloadShape) -> (r: usize)
    ensures
        r == ingested_rows(succeeded, shape),
{
    if !succeeded {
        return 0;
    }
    match shape {
        PayloadShape::Rows(n) => n,
        PayloadShape::Row => 1,
        PayloadShape::Other => 0,
    }
}

/// What the memory governor says of a memtable.
#[derive(Clone, Copy, Debug, PartialEq, Eq, Structural)]
pub struct BudgetAnswers {
    pub governed: bool,
    /// The bytes of the memtable, if there is one.
    pub resident: Option<usize>,
    pub granted: bool,
}

/// A payload that reads as a batch of samples, all of which went into the
/// memtable.
#[derive(Clone, Copy, Debug, PartialEq, Eq, Structural)]
pub struct SampleBatch {
    pub count: usize,
    pub budget: BudgetAnswers,
}

/// What came of ingesting a payload as lines or rows.
pub struct IngestOutcome {
    pub succeeded: bool,
    pub shape: PayloadShape,
    /// The flushes on the way.
    pub flushes: Vec<FlushAnswers>,
    /// The renewed reservation, if the ingest came to it.
    pub budget: Option<BudgetAnswers>,
}

pub open spec fn after_budget(m: TsModel, coll: CollId, b: BudgetAnswers) -> TsModel {
    state::recharged(m, coll, b.governed, b.resident, b.granted)
}

/// The state after flushes of a collection.
pub open spec fn after_flushes(m: TsModel, coll: CollId, flushes: Seq<FlushAnswers>) -> TsModel
    decreases flushes.len(),
{
    if flushes.len() == 0 {
        m
    } else {
        ingest::after_flush(after_flushes(m, coll, flushes.drop_last()), coll, flushes.last()).0
    }
}

/// The state after an ingest.
pub open spec fn after_ingest(m: TsModel, coll: CollId, x: IngestOutcome) -> TsModel {
    let flushed = after_flushes(m, coll, x.flushes@);
    match x.budget {
        Some(b) => after_budget(flushed, coll, b),
        None => flushed,
    }
}

/// The state after a payload of the timeseries engine: samples count against the
/// budget, anything else is ingested.
pub open spec fn after_payload(
    m: TsModel,
    coll: CollId,
    samples: Option<SampleBatch>,
    x: IngestOutcome,
) -> TsModel {
    match samples {
        Some(b) => after_budget(m, coll, b.budget),
        None => after_ingest(m, coll, x),
    }
}

/// How many rows of a payload of the timeseries engine went in.
pub open spec fn payload_rows(samples: Option<SampleBatch>, x: IngestOutcome) -> int {
    match samples {
        Some(b) => b.count as int,
        None => ingested_rows(x.succeeded, x.shape),
    }
}

/// What a record asks for.
pub enum TsReplayStep {
    /// Nothing: no timeseries record.
    Ignore,
    /// Nothing: a record of another core.
    OtherCore,
    /// Nothing: the payload has no known form.
    Malformed,
    /// Nothing: the collection was purged later.
    Purged,
    /// Nothing: the rows are on disk.
    Flushed,
    /// Ingest the rows into the columnar engine, with their surrogates.
    Columnar(BatchRecord),
    /// Ingest the samples or rows into the timeseries memtable.
    Timeseries(BatchRecord),
    /// Nothing: a batch of a kind that is not known.
    UnknownKind,
}

#[verifier::ext_equal]
pub enum TsStep {
    Ignore,
    OtherCore,
    Malformed,
    Purged,
    Flushed,
    Columnar(BatchView),
    Timeseries(BatchView),
    UnknownKind,
}

impl View for TsReplayStep {
    type V = TsStep;

    open spec fn view(&self) -> TsStep {
        match *self {
            TsReplayStep::Ignore => TsStep::Ignore,
            TsReplayStep::OtherCore => TsStep::OtherCore,
            TsReplayStep::Malformed => TsStep::Malformed,
            TsReplayStep::Purged => TsStep::Purged,
            TsReplayStep::Flushed => TsStep::Flushed,
            TsReplayStep::Columnar(b) => TsStep::Columnar(b@),
            TsReplayStep::Timeseries(b) => TsStep::Timeseries(b@),
            TsReplayStep::UnknownKind => TsStep::UnknownKind,
        }
    }
}

/// The collection that a batch of a record belongs to.
pub open spec fn batch_collection(r: WalRecord, b: BatchView) -> CollId {
    (r.database_id, r.tenant_id, b.collection)
}

/// What a batch of a known form asks for by its kind.
pub open spec fn kind_step(b: BatchView) -> TsStep {
    match b.kind {
        None => TsStep::Timeseries(b),
        Some(k) => if k == "columnar"@ {
            TsStep::Columnar(b)
        } else if k == "timeseries"@ {
            TsStep::Timeseries(b)
        } else {
            TsStep::UnknownKind
        },
    }
}

/// The step that a core takes for a record.
pub open spec fn ts_step(
    m: TsModel,
    core_id: usize,
    r: WalRecord,
    columnar: Option<BatchView>,
    num_cores: usize,
    tombstones: TombstoneSet,
) -> TsStep {
    if r.record_type != RecordType::TimeseriesBatch {
        TsStep::Ignore
    } else if wal::target_core(r.vshard_id, num_cores) != core_id {
        TsStep::OtherCore
    } else {
        match decoded_batch(columnar, r.payload@) {
            None => TsStep::Malformed,
            Some(b) => if tombstones.covers(r.tenant_id, b.collection, r.lsn) {
                TsStep::Purged
            } else if state::is_flushed(m, batch_collection(r, b), r.lsn) {
                TsStep::Flushed
            } else {
                kind_step(b)
            },
        }
    }
}

/// The state once a step is decided: a batch that is neither purged nor flushed
/// counts as taken in.
pub open spec fn after_step(
    m: TsModel,
    r: WalRecord,
    columnar: Option<BatchView>,
    step: TsStep,
) -> TsModel {
    match step {
        TsStep::Columnar(_) | TsStep::Timeseries(_) | TsStep::UnknownKind => state::noted(
            m,
            batch_collection(r, decoded_batch(columnar, r.payload@)->0),
            r.lsn,
        ),
        _ => m,
    }
}

/// A record of the log, with what its payload reads as in the columnar form and
/// as samples, and what came of ingesting it. What is not reached is not read.
pub struct TsReplayInput {
    pub record: WalRecord,
    pub columnar: Option<BatchRecord>,
    pub samples: Option<SampleBatch>,
    pub ingest: IngestOutcome,
}

/// The state after a record.
pub open spec fn after_input(
    m: TsModel,
    core_id: usize,
    x: TsReplayInput,
    num_cores: usize,
    tombstones: TombstoneSet,
) -> TsModel {
    let columnar = optional_batch(x.columnar);
    let step = ts_step(m, core_id, x.record, columnar, num_cores, tombstones);
    let noted = after_step(m, x.record, columnar, step);
    match step {
        TsStep::Columnar(b) => after_ingest(noted, batch_collection(x.record, b), x.ingest),
        TsStep::Timeseries(b) => after_payload(
            noted,
            batch_collection(x.record, b),
            x.samples,
            x.ingest,
        ),
        _ => noted,
    }
}

/// The state after records.
pub open spec fn after_inputs(
    m: TsModel,
    core_id: usize,
    xs: Seq<TsReplayInput>,
    num_cores: usize,
    tombstones: TombstoneSet,
) -> TsModel
    decreases xs.len(),
{
    if xs.len() == 0 {
        m
    } else {
        after_input(
            after_inputs(m, core_id, xs.drop_last(), num_cores, tombstones),
            core_id,
            xs.last(),
            num_cores,
            tombstones,
        )
    }
}

pub open spec fn takes_rows(step: TsStep) -> bool {
    step is Columnar || step is Timeseries
}

pub open spec fn passes_over(step: TsStep) -> bool {
    step is OtherCore || step is Purged || step is Flushed
}

/// How many rows went in for a record.
pub open spec fn step_rows(step: TsStep, x: TsReplayInput) -> int {
    match step {
        TsStep::Columnar(_) => ingested_rows(x.ingest.succeeded, x.ingest.shape),
        TsStep::Timeseries(_) => payload_rows(x.samples, x.ingest),
        _ => 0,
    }
}

/// How many rows went in, and how many records were passed over.
pub open spec fn replay_counts(
    m: TsModel,
    core_id: usize,
    xs: Seq<TsReplayInput>,
    num_cores: usize,
    tombstones: TombstoneSet,
) -> (nat, nat)
    decreases xs.len(),
{
    if xs.len() == 0 {
        (0, 0)
    } else {
        let (replayed, skipped) = replay_counts(
            m,
            core_id,
            xs.drop_last(),
            num_cores,
            tombstones,
        );
        let step = ts_step(
            after_inputs(m, core_id, xs.drop_last(), num_cores, tombstones),
            core_id,
            xs.last().record,
            optional_batch(xs.last().columnar),
            num_cores,
            tombstones,
        );
        (
            (replayed + step_rows(step, xs.last())) as nat,
            skipped + if passes_over(step) {
                1nat
            } else {
                0
            },
        )
    }
}

/// The most rows that can go in for a record.
pub open spec fn most_rows() -> spec_fn(TsReplayInput) -> nat {
    |x: TsReplayInput|
        {
            let rows = ingested_rows(x.ingest.succeeded, x.ingest.shape);
            match x.samples {
                Some(b) if b.count > rows => b.count as nat,
                _ => rows as nat,
            }
        }
}

fn apply_flushes(ts: &mut TsState, db: u64, tid: u64, coll: &str, flushes: &Vec<FlushAnswers>)
    ensures
        final(ts)@ == after_flushes(old(ts)@, (db, tid, coll@), flushes@),
{
    let mut i: usize = 0;
    while i < flushes.len()
        invariant
            i <= flushes@.len(),
            ts@ == after_flushes(old(ts)@, (db, tid, coll@), flushes@.take(i as int)),
        decreases flushes.len() - i,
    {
        proof {
            assert(flushes@.take(i + 1).drop_last() =~= flushes@.take(i as int));
            assert(flushes@.take(i + 1).last() == flushes@[i as int]);
        }
        let f = &flushes[i];
        let _ = ts.flush_ts_collection(tid, db, coll, &f.memtable, &f.written, &f.drained);
        i = i + 1;
    }
    proof {
        assert(flushes@.take(flushes@.len() as int) =~= flushes@);
    }
}

impl CoreLoop {
    /// Decide the step for a record, and note the record as taken in where the
    /// step takes it in.
    pub fn replay_timeseries_record(
        &mut self,
        rec: &WalRecord,
        columnar: Option<BatchRecord>,
        num_cores: usize,
        tombstones: &TombstoneSet,
    ) -> (r: TsReplayStep)
        ensures
            match r {
                TsReplayStep::Columnar(b) => b.kind is Some && b.kind->0@ == "columnar"@,
                TsReplayStep::Timeseries(b) => b.kind is None || b.kind->0@ == "timeseries"@,
                _ => true,
            },
            r@ == ts_step(
                old(self).timeseries@,
                old(self).core_id,
                *rec,
                optional_batch(columnar),
                num_cores,
                *tombstones,
            ),
            final(self).timeseries@ == after_step(
                old(self).timeseries@,
                *rec,
                optional_batch(columnar),
                r@,
            ),
            final(self).core_id == old(self).core_id,
            final(self).vectors == old(self).vectors,
            final(self).chains == old(self).chains,
            final(self).spatial == old(self).spatial,
            final(self).columnar == old(self).columnar,
            final(self).held == old(self).held,
    {
        if rec.record_type != RecordType::TimeseriesBatch {
            return TsReplayStep::Ignore;
        }
        if !wal::is_routed_to(rec.vshard_id, num_cores, self.core_id) {
            return TsReplayStep::OtherCore;
        }
        let b = match decode_batch_record(columnar, rec.payload.as_slice()) {
            None => {
                return TsReplayStep::Malformed;
            },
            Some(b) => b,
        };
        if tombstones.is_tombstoned(rec.tenant_id, b.collection.as_str(), rec.lsn) {
            return TsReplayStep::Purged;
        }
        if self.timeseries.already_flushed(
            rec.database_id,
            rec.tenant_id,
            b.collection.as_str(),
            rec.lsn,
        ) {
            return TsReplayStep::Flushed;
        }
        self.timeseries.note_ingested(
            rec.database_id,
            rec.tenant_id,
            b.collection.as_str(),
            rec.lsn,
        );
        let (is_columnar, is_timeseries) = match &b.kind {
            None => (false, true),
            Some(k) => (
                text::same_text(k.as_str(), "columnar"),
                text::same_text(k.as_str(), "timeseries"),
            ),
        };
        if is_columnar {
            TsReplayStep::Columnar(b)
        } else if is_timeseries {
            TsReplayStep::Timeseries(b)
        } else {
            TsReplayStep::UnknownKind
        }
    }

    /// Take in what came of a payload of the columnar engine, and say how many
    /// rows went in.
    pub fn replay_columnar_payload(
        &mut self,
        tid: u64,
        db: u64,
        collection: &str,
        x: &IngestOutcome,
    ) -> (r: usize)
        ensures
            r == ingested_rows(x.succeeded, x.shape),
            final(self).timeseries@ == after_ingest(
                old(self).timeseries@,
                (db, tid, collection@),
                *x,
            ),
            final(self).core_id == old(self).core_id,
            final(self).vectors == old(self).vectors,
            final(self).chains == old(self).chains,
            final(self).spatial == old(self).spatial,
            final(self).columnar == old(self).columnar,
            final(self).held == old(self).held,
    {
        apply_flushes(&mut self.timeseries, db, tid, collection, &x.flushes);
        match x.budget {
            Some(b) => {
                self.timeseries.recharge_ts_memtable_budget(
                    tid,
                    db,
                    collection,
                    b.governed,
                    b.resident,
                    b.granted,
                );
            },
            None => {},
        }
        replayed_rows(x.succeeded, x.shape)
    }

    /// Take in what came of a payload of the timeseries engine, and say how many
    /// rows went in.
    pub fn replay_timeseries_payload(
        &mut self,
        tid: u64,
        db: u64,
        collection: &str,
        samples: &Option<SampleBatch>,
        x: &IngestOutcome,
    ) -> (r: usize)
        ensures
            r == payload_rows(*samples, *x),
            final(self).timeseries@ == after_payload(
                old(self).timeseries@,
                (db, tid, collection@),
                *samples,
                *x,
            ),
            final(self).core_id == old(self).core_id,
            final(self).vectors == old(self).vectors,
            final(self).chains == old(self).chains,
            final(self).spatial == old(self).spatial,
            final(self).columnar == old(self).columnar,
            final(self).held == old(self).held,
    {
        match samples {
            Some(b) => {
                self.timeseries.recharge_ts_memtable_budget(
                    tid,
                    db,
                    collection,
                    b.budget.governed,
                    b.budget.resident,
                    b.budget.granted,
                );
                b.count
            },
            None => self.replay_columnar_payload(tid, db, collection, x),
        }
    }

    /// Replay the timeseries records of a log, in order. Says how many rows
    /// went in and how many records were passed over.
    pub fn replay_timeseries_wal(
        &mut self,
        inputs: Vec<TsReplayInput>,
        num_cores: usize,
        tombstones: &TombstoneSet,
    ) -> (r: (usize, usize))
        requires
            maps::total(inputs@, most_rows()) <= usize::MAX,
        ensures
            ({
                let counts = replay_counts(
                    old(self).timeseries@,
                    old(self).core_id,
                    inputs@,
                    num_cores,
                    *tombstones,
                );
                r.0 == counts.0 && r.1 == counts.1
            }),
            final(self).timeseries@ == after_inputs(
                old(self).timeseries@,
                old(self).core_id,
                inputs@,
                num_cores,
                *tombstones,
            ),
            final(self).core_id == old(self).core_id,
            final(self).vectors == old(self).vectors,
            final(self).chains == old(self).chains,
            final(self).spatial == old(self).spatial,
            final(self).columnar == old(self).columnar,
            final(self).held == old(self).held,
    {
        let ghost all = inputs@;
        let ghost m = self.timeseries@;
        let ghost core = self.core_id;
        let total: usize = inputs.len();
        let mut replayed: usize = 0;
        let mut skipped: usize = 0;
        for x in it: inputs.into_iter()
            invariant
                it.seq() == all,
                all.len() == total,
                m == old(self).timeseries@,
                core == old(self).core_id,
                self.core_id == core,
                self.vectors == old(self).vectors,
                self.chains == old(self).chains,
                self.spatial == old(self).spatial,
                self.columnar == old(self).columnar,
                self.held == old(self).held,
                maps::total(all, most_rows()) <= usize::MAX,
                self.timeseries@ == after_inputs(
                    m,
                    core,
                    all.take(it.index() as int),
                    num_cores,
                    *tombstones,
                ),
                replayed == replay_counts(
                    m,
                    core,
                    all.take(it.index() as int),
                    num_cores,
                    *tombstones,
                ).0,
                skipped == replay_counts(
                    m,
                    core,
                    all.take(it.index() as int),
                    num_cores,
                    *tombstones,
                ).1,
                skipped <= it.index(),
        {
            let ghost n = it.index() as int;
            proof {
                assert(all.take(n + 1).drop_last() =~= all.take(n));
                assert(all.take(n + 1).last() == x);
                maps::lemma_total_prefix(all, n + 1, most_rows());
                lemma_counts_bounded(m, core, all.take(n + 1), num_cores, *tombstones);
            }
            let step = self.replay_timeseries_record(&x.record, x.columnar, num_cores, tombstones);
            match &step {
                TsReplayStep::Columnar(b) => {
                    let rows: usize = self.replay_columnar_payload(
                        x.record.tenant_id,
                        x.record.database_id,
                        b.collection.as_str(),
                        &x.ingest,
                    );
                    replayed = replayed + rows;
                },
                TsReplayStep::Timeseries(b) => {
                    let rows: usize = self.replay_timeseries_payload(
                        x.record.tenant_id,
                        x.record.database_id,
                        b.collection.as_str(),
                        &x.samples,
                        &x.ingest,
                    );
                    replayed = replayed + rows;
                },
                TsReplayStep::OtherCore | TsReplayStep::Purged | TsReplayStep::Flushed => {
                    skipped = skipped + 1;
                },
                _ => {},
            }
        }
        proof {
            assert(all.take(all.len() as int) =~= all);
        }
        (replayed, skipped)
    }
}

proof fn lemma_counts_bounded(
    m: TsModel,
    core_id: usize,
    xs: Seq<TsReplayInput>,
    num_cores: usize,
    tombstones: TombstoneSet,
)
    ensures
        replay_counts(m, core_id, xs, num_cores, tombstones).0 <= maps::total(
            xs,
            most_rows(),
        ),
    decreases xs.len(),
{
    if xs.len() > 0 {
        lemma_counts_bounded(m, core_id, xs.drop_last(), num_cores, tombstones);
        maps::lemma_total_push(xs.drop_last(), xs.last(), most_rows());
        assert(xs.drop_last().push(xs.last()) =~= xs);
    }
}

/// A record of this core that can be read, was not purged and is not on disk is
/// taken in by the engine that its kind names: rows of kind `columnar` by the
/// columnar engine, samples of kind `timeseries` and of no kind by the timeseries
/// engine; a batch of any other kind by none. It is taken in whole, with its rows
/// and surrogates.
pub proof fn law_a_batch_goes_to_the_engine_of_its_kind(
    m: TsModel,
    core_id: usize,
    r: WalRecord,
    columnar: Option<BatchView>,
    num_cores: usize,
    tombstones: TombstoneSet,
    b: BatchView,
)
    requires
        r.record_type == RecordType::TimeseriesBatch,
        wal::target_core(r.vshard_id, num_cores) == core_id,
        decoded_batch(columnar, r.payload@) == Some(b),
        !tombstones.covers(r.tenant_id, b.collection, r.lsn),
        !state::is_flushed(m, (r.database_id, r.tenant_id, b.collection), r.lsn),
    ensures
        ({
            let step = ts_step(m, core_id, r, columnar, num_cores, tombstones);
            &&& step is Columnar <==> b.kind == Some("columnar"@)
            &&& step is Timeseries <==> (b.kind is None || b.kind == Some("timeseries"@))
            &&& step is UnknownKind <==> (b.kind is Some && b.kind != Some("columnar"@) && b.kind
                != Some("timeseries"@))
            &&& match step {
                TsStep::Columnar(x) => x == b,
                TsStep::Timeseries(x) => x == b,
                TsStep::UnknownKind => true,
                _ => false,
            }
        }),
{
    reveal_strlit("columnar");
    reveal_strlit("timeseries");
    assert("columnar"@.len() != "timeseries"@.len());
}

/// What a payload reads as: a map is the columnar form as it was decoded, with
/// its surrogates; an array is the first of the tuples of four, three and two
/// elements that it decodes as, with the text and the bytes that the tuple holds.
pub proof fn law_a_batch_is_read_as_it_was_written(columnar: Option<BatchView>, payload: Seq<u8>)
    ensures
        codec::is_map(payload) && columnar is Some ==> decoded_batch(columnar, payload) == columnar,
        !codec::is_map(payload) ==> decoded_batch(columnar, payload) == decoded_batch(
            None,
            payload,
        ),
        codec::batch_with_provenance_of(payload) matches Some(t) ==> ({
            let b = decoded_batch(None, payload)->0;
            &&& decoded_batch(None, payload) is Some
            &&& (b.kind, b.collection, b.payload) == (Some(t.0), t.1, t.2)
            &&& b.provenance is Some <==> t.3 is Some
            &&& t.3 matches Some(w) ==> b.provenance->0.producer_id == w.0
                && b.provenance->0.epoch == w.1 && b.provenance->0.stream_id == w.2
                && b.provenance->0.seq == w.3
            &&& b.surrogates.len() == 0
        }),
        codec::batch_with_provenance_of(payload) is None ==> (
        codec::tagged_batch_of(payload) matches Some(t) ==> ({
            let b = decoded_batch(None, payload)->0;
            &&& decoded_batch(None, payload) is Some
            &&& (b.kind, b.collection, b.payload) == (Some(t.0), t.1, t.2)
            &&& b.provenance is None
            &&& b.surrogates.len() == 0
        })),
        codec::batch_with_provenance_of(payload) is None && codec::tagged_batch_of(payload) is None
            ==> (codec::bare_batch_of(payload) matches Some(t) ==> ({
            let b = decoded_batch(None, payload)->0;
            &&& decoded_batch(None, payload) is Some
            &&& b.kind is None
            &&& (b.collection, b.payload) == (t.0, t.1)
            &&& b.provenance is None
            &&& b.surrogates.len() == 0
        })),
        codec::batch_with_provenance_of(payload) is None && codec::tagged_batch_of(payload) is None
            && codec::bare_batch_of(payload) is None ==> decoded_batch(None, payload) is None,
{
}

/// A batch that a flush has put on disk is not replayed: a crash after the flush
/// does not store its rows twice.
pub proof fn law_a_flushed_batch_is_not_replayed(
    m: TsModel,
    core_id: usize,
    r: WalRecord,
    columnar: Option<BatchView>,
    num_cores: usize,
    tombstones: TombstoneSet,
    span: state::MemtableSpan,
    written: state::WrittenPartition,
    drained: (i64, i64),
)
    requires
        decoded_batch(columnar, r.payload@) is Some,
        ({
            let coll = batch_collection(r, decoded_batch(columnar, r.payload@)->0);
            r.lsn <= state::ingested_through(m, coll) && written.last_flushed_wal_lsn
                == state::ingested_through(m, coll)
        }),
    ensures
        ({
            let coll = batch_collection(r, decoded_batch(columnar, r.payload@)->0);
            let after = state::flushed(m, coll, span, written, drained);
            !takes_rows(ts_step(after, core_id, r, columnar, num_cores, tombstones))
        }),
{
    let coll = batch_collection(r, decoded_batch(columnar, r.payload@)->0);
    state::law_a_flush_covers_what_was_ingested(m, coll, span, written, drained, r.lsn);
}

/// A batch whose collection was purged above it is not replayed.
pub proof fn law_a_purged_batch_is_not_replayed(
    m: TsModel,
    core_id: usize,
    r: WalRecord,
    columnar: Option<BatchView>,
    num_cores: usize,
    tombstones: TombstoneSet,
)
    requires
        decoded_batch(columnar, r.payload@) is Some,
        tombstones.covers(
            r.tenant_id,
            decoded_batch(columnar, r.payload@)->0.collection,
            r.lsn,
        ),
    ensures
        !takes_rows(ts_step(m, core_id, r, columnar, num_cores, tombstones)),
        after_step(
            m,
            r,
            columnar,
            ts_step(m, core_id, r, columnar, num_cores, tombstones),
        ) == m,
{
}

/// Each outcome of a batch's replay has one cause, tested in this order: its type,
/// its core, its form, a later purge, a flush that covers it, and its kind.
pub proof fn law_each_batch_outcome_has_its_cause(
    m: TsModel,
    core_id: usize,
    r: WalRecord,
    columnar: Option<BatchView>,
    num_cores: usize,
    tombstones: TombstoneSet,
)
    ensures
        ({
            let step = ts_step(m, core_id, r, columnar, num_cores, tombstones);
            let batch = r.record_type == RecordType::TimeseriesBatch;
            let own = wal::target_core(r.vshard_id, num_cores) == core_id;
            let b = decoded_batch(columnar, r.payload@);
            let purged = b is Some && tombstones.purges().contains_key(
                (r.tenant_id, b->0.collection),
            ) && r.lsn < tombstones.purges()[(r.tenant_id, b->0.collection)];
            let covered = b is Some && state::is_flushed(
                m,
                (r.database_id, r.tenant_id, b->0.collection),
                r.lsn,
            );
            &&& step is Ignore <==> !batch
            &&& step is OtherCore <==> batch && !own
            &&& step is Malformed <==> batch && own && b is None
            &&& step is Purged <==> batch && own && purged
            &&& step is Flushed <==> batch && own && !purged && covered
            &&& step is Columnar || step is Timeseries || step is UnknownKind <==> batch && own
                && b is Some && !purged && !covered
            &&& step matches TsStep::Columnar(t) ==> Some(t) == b
            &&& step matches TsStep::Timeseries(t) ==> Some(t) == b
        }),
{
}

/// A batch that is not passed over raises its collection's mark to its place in
/// the log, and no other mark; whatever else a record does leaves the state as it
/// is.
pub proof fn law_a_batch_raises_its_mark(
    m: TsModel,
    core_id: usize,
    r: WalRecord,
    columnar: Option<BatchView>,
    num_cores: usize,
    tombstones: TombstoneSet,
    other: CollId,
)
    ensures
        ({
            let step = ts_step(m, core_id, r, columnar, num_cores, tombstones);
            let after = after_step(m, r, columnar, step);
            if step is Columnar || step is Timeseries || step is UnknownKind {
                let coll = (
                    r.database_id,
                    r.tenant_id,
                    decoded_batch(columnar, r.payload@)->0.collection,
                );
                &&& state::ingested_through(after, coll) >= r.lsn
                &&& state::ingested_through(after, coll) >= state::ingested_through(m, coll)
                &&& other != coll ==> state::ingested_through(after, other)
                    == state::ingested_through(m, other)
                &&& after.partitions == m.partitions
                &&& after.reserved == m.reserved
            } else {
                after == m
            }
        }),
{
}

/// A replay's counts grow by one record: its rows where it took them, one that was
/// passed over where it was another core's, purged or on disk.
pub proof fn law_each_batch_is_counted(
    m: TsModel,
    core_id: usize,
    xs: Seq<TsReplayInput>,
    x: TsReplayInput,
    num_cores: usize,
    tombstones: TombstoneSet,
)
    ensures
        ({
            let before = replay_counts(m, core_id, xs, num_cores, tombstones);
            let after = replay_counts(m, core_id, xs.push(x), num_cores, tombstones);
            let step = ts_step(
                after_inputs(m, core_id, xs, num_cores, tombstones),
                core_id,
                x.record,
                optional_batch(x.columnar),
                num_cores,
                tombstones,
            );
            let rows = if !x.ingest.succeeded {
                0
            } else {
                match x.ingest.shape {
                    PayloadShape::Rows(n) => n as int,
                    PayloadShape::Row => 1,
                    PayloadShape::Other => 0,
                }
            };
            &&& step is Columnar ==> after.0 == before.0 + rows
            &&& step is Timeseries && x.samples is None ==> after.0 == before.0 + rows
            &&& step is Timeseries && x.samples is Some ==> after.0 == before.0
                + x.samples->0.count
            &&& !(step is Columnar) && !(step is Timeseries) ==> after.0 == before.0
            &&& step is OtherCore || step is Purged || step is Flushed ==> after.1 == before.1 + 1
            &&& !(step is OtherCore) && !(step is Purged) && !(step is Flushed) ==> after.1
                == before.1
        }),
        replay_counts(m, core_id, Seq::<TsReplayInput>::empty(), num_cores, tombstones) == (
            0nat,
            0nat,
        ),
{
    assert(xs.push(x).drop_last() =~= xs);
}

/// Samples settle the memtable's budget and nothing else; rows bring the flushes
/// that their ingest made, and its budget where it came to that.
pub proof fn law_samples_flush_nothing(
    m: TsModel,
    coll: CollId,
    samples: SampleBatch,
    x: IngestOutcome,
)
    ensures
        after_payload(m, coll, Some(samples), x).partitions == m.partitions,
        after_payload(m, coll, Some(samples), x).ingested == m.ingested,
        after_payload(m, coll, None, x) == after_ingest(m, coll, x),
        x.flushes@.len() == 0 ==> after_ingest(m, coll, x).partitions == m.partitions,
        x.flushes@.len() == 0 && x.budget is None ==> after_ingest(m, coll, x) == m,
{
}

/// A record that is passed over, foreign or unreadable leaves the state as it
/// was, and one of an unknown kind only raises its mark. A batch without a flush
/// leaves the partitions as they were.
pub proof fn law_what_a_record_leaves_as_it_was(
    m: TsModel,
    core_id: usize,
    x: TsReplayInput,
    num_cores: usize,
    tombstones: TombstoneSet,
)
    ensures
        ({
            let step = ts_step(
                m,
                core_id,
                x.record,
                optional_batch(x.columnar),
                num_cores,
                tombstones,
            );
            let after = after_input(m, core_id, x, num_cores, tombstones);
            &&& (step is Ignore || step is OtherCore || step is Malformed || step is Purged
                || step is Flushed) ==> after == m
            &&& step is UnknownKind ==> after == after_step(
                m,
                x.record,
                optional_batch(x.columnar),
                step,
            )
            &&& x.ingest.flushes@.len() == 0 ==> after.partitions == m.partitions
        }),
{
}

/// Records are replayed one after the other: the replay of two stretches of the
/// log is the replay of the second from where the first left off.
pub proof fn law_a_replay_goes_on_where_it_left_off(
    m: TsModel,
    core_id: usize,
    xs: Seq<TsReplayInput>,
    ys: Seq<TsReplayInput>,
    num_cores: usize,
    tombstones: TombstoneSet,
)
    ensures
        after_inputs(m, core_id, Seq::empty(), num_cores, tombstones) == m,
        ys.len() == 1 ==> after_inputs(m, core_id, ys, num_cores, tombstones) == after_input(
            m,
            core_id,
            ys[0],
            num_cores,
            tombstones,
        ),
        after_inputs(m, core_id, xs + ys, num_cores, tombstones) == after_inputs(
            after_inputs(m, core_id, xs, num_cores, tombstones),
            core_id,
            ys,
            num_cores,
            tombstones,
        ),
        replay_counts(m, core_id, xs + ys, num_cores, tombstones).0 == replay_counts(
            m,
            core_id,
            xs,
            num_cores,
            tombstones,
        ).0 + replay_counts(
            after_inputs(m, core_id, xs, num_cores, tombstones),
            core_id,
            ys,
            num_cores,
            tombstones,
        ).0,
        replay_counts(m, core_id, xs + ys, num_cores, tombstones).1 == replay_counts(
            m,
            core_id,
            xs,
            num_cores,
            tombstones,
        ).1 + replay_counts(
            after_inputs(m, core_id, xs, num_cores, tombstones),
            core_id,
            ys,
            num_cores,
            tombstones,
        ).1,
    decreases ys.len(),
{
    reveal_with_fuel(after_inputs, 2);
    if ys.len() == 0 {
        assert(xs + ys =~= xs);
    } else {
        let short = ys.drop_last();
        law_a_replay_goes_on_where_it_left_off(m, core_id, xs, short, num_cores, tombstones);
        assert((xs + ys).drop_last() =~= xs + short);
        assert((xs + ys).last() == ys.last());
        if ys.len() == 1 {
            assert(short =~= Seq::empty());
        }
    }
}


} // verus!
