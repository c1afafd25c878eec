//! A row put inside a transaction.
//!
//! The put is a chain of calls into the stores. [`next_call`] says which call
//! is due after those already answered, and [`call_request`] what is handed to
//! it; once none is due, [`CoreLoop::tx_point_put`] says what the put comes to:
//! its answer, the head of the hash chain, and the entries that reverse it.
use crate::core_loop::CoreLoop;
use crate::error::ErrorCode;
use crate::held::{HeldId, HeldKey, HeldKind};
use crate::hex;
use crate::ids::Surrogate;
use crate::transaction::chain;
use crate::transaction::undo;
use crate::spatial::SpatialKey;
use crate::transaction::undo::{UndoEntry, VectorDelta};
use vstd::prelude::*;
use vstd::string::*;

verus! {

/// A put.
pub struct TxPointPut {
    pub database_id: u64,
    pub tid: u64,
    pub collection: String,
    pub document_id: String,
    pub surrogate: u32,
    /// The submitted row.
    pub value: Vec<u8>,
    pub user_roles: Vec<String>,
    /// The place of the transaction in the log.
    pub wal_lsn: u64,
    /// Which row a join key's value leads to, for the checks that add up rows.
    pub resolved_sum_targets: Vec<(String, u32)>,
    /// None for an upsert. For an insert: whether an existing row is skipped
    /// rather than refused.
    pub insert_if_absent: Option<bool>,
    /// The stored row, if there is one.
    pub prior: Option<Vec<u8>>,
    /// Whether the collection keeps the versions of a row.
    pub bitemporal: bool,
    /// Whether the collection keeps a hash chain.
    pub hash_chain: bool,
    /// Whether the collection declares checks over row images.
    pub folds_images: bool,
}

/// What a row write did, as far as it has to be reversed.
pub struct PutOutcome {
    pub prior_value: Option<Vec<u8>>,
    pub bitemporal_sys_from_ms: Option<i64>,
    pub bitemporal_index_tuples: Vec<(String, String)>,
    pub secondary_index_added: Vec<(String, String)>,
    pub secondary_index_removed: Vec<(String, String)>,
    pub vector_inserts: Vec<VectorDelta>,
    pub spatial_inserts: Vec<(SpatialKey, u64)>,
    pub stats_prior: Vec<(String, Option<Vec<u8>>)>,
}

/// A row that a check wrote on the put's behalf.
pub struct TargetWrite {
    pub collection: String,
    pub document_id: String,
    pub surrogate: u32,
    pub outcome: PutOutcome,
}

/// The row images that the checks fold.
#[derive(Clone, Copy, Debug, PartialEq, Eq, Structural)]
pub enum ImageKind {
    Insert,
    Update,
}

/// A call into the stores.
#[derive(Clone, Copy, Debug, PartialEq, Eq, Structural)]
pub enum PutCall {
    /// Chain the new row behind the head.
    AdvanceChain,
    BeginWrite,
    /// Ask, inside the write, whether the key exists.
    ProbeKey,
    ApplyPut,
    /// Store the advanced head in the same write.
    PersistHead,
    DecodePrior,
    DecodeNew,
    Enforce(ImageKind),
    Commit,
}

/// A row behind the head of its chain.
pub struct ChainedRow {
    /// The head that the row leaves.
    pub head: String,
    /// The submitted row with its hash.
    pub body: Vec<u8>,
}

/// The answers of the calls made so far.
pub struct PutAnswers {
    /// The chained row; none where nothing was chained.
    pub chained: Option<Result<Option<ChainedRow>, String>>,
    pub begun: Option<Result<(), String>>,
    pub exists: Option<Result<bool, ErrorCode>>,
    pub applied: Option<Result<PutOutcome, ErrorCode>>,
    pub head_persisted: Option<Result<(), ErrorCode>>,
    pub prior_decoded: Option<Result<(), ErrorCode>>,
    /// Whether the submitted row decodes.
    pub new_decoded: Option<bool>,
    pub enforced: Option<Result<Vec<TargetWrite>, ErrorCode>>,
    pub committed: Option<Result<(), String>>,
}

/// Whether the put chained a row.
pub open spec fn has_chained(a: PutAnswers) -> bool {
    a.chained matches Some(Ok(Some(_)))
}

/// The images that the checks fold, if any: none without checks, or without a
/// readable new row.
pub open spec fn images_of(p: TxPointPut, a: PutAnswers) -> Option<ImageKind> {
    if p.folds_images && a.new_decoded == Some(true) {
        Some(
            if p.prior.is_some() {
                ImageKind::Update
            } else {
                ImageKind::Insert
            },
        )
    } else {
        None
    }
}

/// The call that is due, if any: the first in order that has no answer and that
/// no answer before it made needless.
pub open spec fn due(p: TxPointPut, a: PutAnswers) -> Option<PutCall> {
    if !p.prior.is_some() && a.chained is None {
        Some(PutCall::AdvanceChain)
    } else if a.chained matches Some(Err(_)) {
        None
    } else if a.begun is None {
        Some(PutCall::BeginWrite)
    } else if a.begun matches Some(Err(_)) {
        None
    } else if p.insert_if_absent is Some && a.exists is None {
        Some(PutCall::ProbeKey)
    } else if p.insert_if_absent is Some && (a.exists matches Some(Err(_)) || a.exists matches Some(
        Ok(true),
    )) {
        None
    } else if a.applied is None {
        Some(PutCall::ApplyPut)
    } else if a.applied matches Some(Err(_)) {
        None
    } else if has_chained(a) && a.head_persisted is None {
        Some(PutCall::PersistHead)
    } else if has_chained(a) && a.head_persisted matches Some(Err(_)) {
        None
    } else if p.folds_images && p.prior.is_some() && a.prior_decoded is None {
        Some(PutCall::DecodePrior)
    } else if p.folds_images && p.prior.is_some() && a.prior_decoded matches Some(Err(_)) {
        None
    } else if p.folds_images && a.new_decoded is None {
        Some(PutCall::DecodeNew)
    } else if images_of(p, a) is Some && a.enforced is None {
        Some(PutCall::Enforce(images_of(p, a)->0))
    } else if images_of(p, a) is Some && a.enforced matches Some(Err(_)) {
        None
    } else if a.committed is None {
        Some(PutCall::Commit)
    } else {
        None
    }
}

pub fn next_call(p: &TxPointPut, a: &PutAnswers) -> (r: Option<PutCall>)
    ensures
        r == due(*p, *a),
{
    if !p.prior.is_some() && a.chained.is_none() {
        return Some(PutCall::AdvanceChain);
    }
    if let Some(Err(_)) = &a.chained {
        return None;
    }
    match &a.begun {
        None => {
            return Some(PutCall::BeginWrite);
        },
        Some(Err(_)) => {
            return None;
        },
        Some(Ok(_)) => {},
    }
    if p.insert_if_absent.is_some() {
        match &a.exists {
            None => {
                return Some(PutCall::ProbeKey);
            },
            Some(Err(_)) => {
                return None;
            },
            Some(Ok(found)) => {
                if *found {
                    return None;
                }
            },
        }
    }
    match &a.applied {
        None => {
            return Some(PutCall::ApplyPut);
        },
        Some(Err(_)) => {
            return None;
        },
        Some(Ok(_)) => {},
    }
    if let Some(Ok(Some(_))) = &a.chained {
        match &a.head_persisted {
            None => {
                return Some(PutCall::PersistHead);
            },
            Some(Err(_)) => {
                return None;
            },
            Some(Ok(_)) => {},
        }
    }
    if p.folds_images {
        if p.prior.is_some() {
            match &a.prior_decoded {
                None => {
                    return Some(PutCall::DecodePrior);
                },
                Some(Err(_)) => {
                    return None;
                },
                Some(Ok(_)) => {},
            }
        }
        match &a.new_decoded {
            None => {
                return Some(PutCall::DecodeNew);
            },
            Some(readable) => {
                if *readable {
                    match &a.enforced {
                        None => {
                            return Some(
                                PutCall::Enforce(
                                    if p.prior.is_some() {
                                        ImageKind::Update
                                    } else {
                                        ImageKind::Insert
                                    },
                                ),
                            );
                        },
                        Some(Err(_)) => {
                            return None;
                        },
                        Some(Ok(_)) => {},
                    }
                }
            },
        }
    }
    if a.committed.is_none() {
        return Some(PutCall::Commit);
    }
    None
}

/// The row as it is stored: chained where it was chained, else as submitted.
pub open spec fn stored_row(p: TxPointPut, a: PutAnswers) -> Seq<u8> {
    match a.chained {
        Some(Ok(Some(row))) => row.body@,
        _ => p.value@,
    }
}

/// A call with what is handed to it, besides database, tenant and collection.
pub enum PutRequest<'a> {
    AdvanceChain { document_id: &'a str, row: &'a [u8], enabled: bool },
    BeginWrite,
    /// `versioned` asks whether a current version of the key exists.
    ProbeKey { row_key: String, versioned: bool },
    ApplyPut {
        row_key: String,
        surrogate: u32,
        row: &'a [u8],
        index_text: bool,
        user_roles: &'a Vec<String>,
        enforce: bool,
        wal_lsn: u64,
    },
    PersistHead { head: &'a str },
    DecodePrior { row: &'a [u8] },
    DecodeNew { row: &'a [u8] },
    Enforce { images: ImageKind, resolved_targets: &'a Vec<(String, u32)>, wal_lsn: u64 },
    Commit,
}

/// What a call is handed. The key is probed among the versions of a row where
/// the collection keeps them, else among the rows. The row write takes the
/// chained row, and the row's key rather than the submitted name; the chain and
/// the checks take the row as it was submitted.
pub open spec fn is_request(p: TxPointPut, a: PutAnswers, call: PutCall, q: PutRequest) -> bool {
    match call {
        PutCall::AdvanceChain => q matches PutRequest::AdvanceChain { document_id, row, enabled }
            && document_id@ == p.document_id@ && row@ == p.value@ && enabled == p.hash_chain,
        PutCall::BeginWrite => q is BeginWrite,
        PutCall::ProbeKey => q matches PutRequest::ProbeKey { row_key, versioned } && row_key@
            == hex::row_key(p.surrogate) && versioned == p.bitemporal,
        PutCall::ApplyPut => q matches PutRequest::ApplyPut {
            row_key,
            surrogate,
            row,
            index_text,
            user_roles,
            enforce,
            wal_lsn,
        } && row_key@ == hex::row_key(p.surrogate) && surrogate == p.surrogate && row@
            == stored_row(p, a) && index_text && user_roles@ == p.user_roles@ && enforce && wal_lsn
            == p.wal_lsn,
        PutCall::PersistHead => q matches PutRequest::PersistHead { head } && (
        a.chained matches Some(Ok(Some(row))) && head@ == row.head@),
        PutCall::DecodePrior => q matches PutRequest::DecodePrior { row } && (
        p.prior matches Some(prior) && row@ == prior@),
        PutCall::DecodeNew => q matches PutRequest::DecodeNew { row } && row@ == p.value@,
        PutCall::Enforce(kind) => q matches PutRequest::Enforce {
            images,
            resolved_targets,
            wal_lsn,
        } && images == kind && resolved_targets@ == p.resolved_sum_targets@ && wal_lsn == p.wal_lsn,
        PutCall::Commit => q is Commit,
    }
}

/// The call that is due, with what is handed to it.
pub fn call_request<'a>(p: &'a TxPointPut, a: &'a PutAnswers) -> (r: Option<PutRequest<'a>>)
    ensures
        match r {
            Some(q) => due(*p, *a) is Some && is_request(*p, *a, due(*p, *a)->0, q),
            None => due(*p, *a) is None,
        },
{
    let call = match next_call(p, a) {
        Some(call) => call,
        None => {
            return None;
        },
    };
    let request = match call {
        PutCall::AdvanceChain => PutRequest::AdvanceChain {
            document_id: p.document_id.as_str(),
            row: p.value.as_slice(),
            enabled: p.hash_chain,
        },
        PutCall::BeginWrite => PutRequest::BeginWrite,
        PutCall::ProbeKey => PutRequest::ProbeKey {
            row_key: hex::surrogate_to_doc_id(Surrogate(p.surrogate)),
            versioned: p.bitemporal,
        },
        PutCall::ApplyPut => PutRequest::ApplyPut {
            row_key: hex::surrogate_to_doc_id(Surrogate(p.surrogate)),
            surrogate: p.surrogate,
            row: match &a.chained {
                Some(Ok(Some(row))) => row.body.as_slice(),
                _ => p.value.as_slice(),
            },
            index_text: true,
            user_roles: &p.user_roles,
            enforce: true,
            wal_lsn: p.wal_lsn,
        },
        PutCall::PersistHead => match &a.chained {
            Some(Ok(Some(row))) => PutRequest::PersistHead { head: row.head.as_str() },
            _ => PutRequest::Commit,
        },
        PutCall::DecodePrior => match &p.prior {
            Some(prior) => PutRequest::DecodePrior { row: prior.as_slice() },
            None => PutRequest::Commit,
        },
        PutCall::DecodeNew => PutRequest::DecodeNew { row: p.value.as_slice() },
        PutCall::Enforce(images) => PutRequest::Enforce {
            images,
            resolved_targets: &p.resolved_sum_targets,
            wal_lsn: p.wal_lsn,
        },
        PutCall::Commit => PutRequest::Commit,
    };
    Some(request)
}

/// How a put ended.
#[derive(Clone, Copy, Debug, PartialEq, Eq, Structural)]
pub enum PutEnd {
    /// The chain could not be computed: nothing was begun.
    ChainFault,
    /// The write could not be begun.
    BeginFault,
    /// The key could not be probed.
    ProbeFault,
    /// The key exists and the insert skips it.
    Skipped,
    /// The key exists and the insert is refused.
    Duplicate,
    /// The row write was refused.
    ApplyFault,
    /// The head could not be stored.
    HeadFault,
    /// The stored row does not decode.
    PriorFault,
    /// A check refused the row.
    EnforceFault,
    /// The write could not be committed.
    CommitFault,
    Committed,
}

/// How a put ended whose calls are all answered.
pub open spec fn end_of(p: TxPointPut, a: PutAnswers) -> PutEnd {
    if a.chained matches Some(Err(_)) {
        PutEnd::ChainFault
    } else if a.begun matches Some(Err(_)) {
        PutEnd::BeginFault
    } else if p.insert_if_absent is Some && a.exists matches Some(Err(_)) {
        PutEnd::ProbeFault
    } else if p.insert_if_absent is Some && a.exists matches Some(Ok(true)) {
        if p.insert_if_absent == Some(true) {
            PutEnd::Skipped
        } else {
            PutEnd::Duplicate
        }
    } else if a.applied matches Some(Err(_)) {
        PutEnd::ApplyFault
    } else if has_chained(a) && a.head_persisted matches Some(Err(_)) {
        PutEnd::HeadFault
    } else if p.folds_images && p.prior.is_some() && a.prior_decoded matches Some(Err(_)) {
        PutEnd::PriorFault
    } else if images_of(p, a) is Some && a.enforced matches Some(Err(_)) {
        PutEnd::EnforceFault
    } else if a.committed matches Some(Err(_)) {
        PutEnd::CommitFault
    } else {
        PutEnd::Committed
    }
}

fn ending(p: &TxPointPut, a: &PutAnswers) -> (r: PutEnd)
    ensures
        r == end_of(*p, *a),
{
    if let Some(Err(_)) = &a.chained {
        return PutEnd::ChainFault;
    }
    if let Some(Err(_)) = &a.begun {
        return PutEnd::BeginFault;
    }
    match p.insert_if_absent {
        Some(skip) => match &a.exists {
            Some(Err(_)) => {
                return PutEnd::ProbeFault;
            },
            Some(Ok(found)) => {
                if *found {
                    return if skip {
                        PutEnd::Skipped
                    } else {
                        PutEnd::Duplicate
                    };
                }
            },
            None => {},
        },
        None => {},
    }
    if let Some(Err(_)) = &a.applied {
        return PutEnd::ApplyFault;
    }
    if let Some(Ok(Some(_))) = &a.chained {
        if let Some(Err(_)) = &a.head_persisted {
            return PutEnd::HeadFault;
        }
    }
    if p.folds_images {
        if p.prior.is_some() {
            if let Some(Err(_)) = &a.prior_decoded {
                return PutEnd::PriorFault;
            }
        }
        if let Some(readable) = &a.new_decoded {
            if *readable {
                if let Some(Err(_)) = &a.enforced {
                    return PutEnd::EnforceFault;
                }
            }
        }
    }
    if let Some(Err(_)) = &a.committed {
        return PutEnd::CommitFault;
    }
    PutEnd::Committed
}

/// Whether an end lies behind the row write and leaves the write uncommitted. The
/// cache then holds a row that was never stored, and drops it.
pub open spec fn aborts_after_apply(end: PutEnd) -> bool {
    end == PutEnd::ApplyFault || end == PutEnd::HeadFault || end == PutEnd::PriorFault || end
        == PutEnd::EnforceFault || end == PutEnd::CommitFault
}

/// What a put leaves in memory beside the engines: not the cached form of a row
/// that was never stored.
pub open spec fn held_after(p: TxPointPut, end: PutEnd, held: Set<HeldId>) -> Set<HeldId> {
    if aborts_after_apply(end) {
        held.remove(
            (
                HeldKind::CachedDocument,
                p.database_id,
                p.tid,
                p.collection@,
                hex::row_key(p.surrogate),
            ),
        )
    } else {
        held
    }
}

/// The chain heads that a put leaves. A head never moves without its row: every
/// end but a commit leaves the heads as they were.
pub open spec fn heads_after(p: TxPointPut, a: PutAnswers, heads: chain::Heads) -> chain::Heads {
    match a.chained {
        Some(Ok(Some(row))) => if end_of(p, a) == PutEnd::Committed {
            heads.insert((p.database_id, p.tid, p.collection@), row.head@)
        } else {
            heads
        },
        _ => heads,
    }
}

/// `duplicate key value '{id}' violates primary-key uniqueness on '{collection}'`
pub open spec fn duplicate_text(document_id: Seq<char>, collection: Seq<char>) -> Seq<char> {
    "duplicate key value '"@ + (document_id + ("' violates primary-key uniqueness on '"@ + (
    collection + "'"@)))
}

/// What the put is answered.
pub open spec fn answers(p: TxPointPut, a: PutAnswers, r: Result<(), ErrorCode>) -> bool {
    match end_of(p, a) {
        PutEnd::ChainFault => r matches Err(ErrorCode::Internal { detail }) && detail@
            == "hash chain: "@ + a.chained->0->Err_0@,
        PutEnd::BeginFault => r matches Err(ErrorCode::Internal { detail }) && detail@
            == a.begun->0->Err_0@,
        PutEnd::ProbeFault => r == Err::<(), ErrorCode>(a.exists->0->Err_0),
        PutEnd::Skipped => r is Ok,
        PutEnd::Duplicate => r matches Err(ErrorCode::RejectedConstraint { constraint, detail })
            && constraint@ == "unique"@ && detail@ == duplicate_text(p.document_id@, p.collection@),
        PutEnd::ApplyFault => r == Err::<(), ErrorCode>(a.applied->0->Err_0),
        PutEnd::HeadFault => r == Err::<(), ErrorCode>(a.head_persisted->0->Err_0),
        PutEnd::PriorFault => r == Err::<(), ErrorCode>(a.prior_decoded->0->Err_0),
        PutEnd::EnforceFault => r == Err::<(), ErrorCode>(a.enforced->0->Err_0),
        PutEnd::CommitFault => r matches Err(ErrorCode::Internal { detail }) && detail@
            == "commit: "@ + a.committed->0->Err_0@,
        PutEnd::Committed => r is Ok,
    }
}

/// The entries behind the row's own: one for each vector, each geometry entry
/// and each statistic that the write touched.
pub open spec fn side_entries(o: PutOutcome) -> Seq<UndoEntry> {
    o.vector_inserts@.map_values(|d: VectorDelta| UndoEntry::InsertVector { delta: d })
        + o.spatial_inserts@.map_values(
        |s: (SpatialKey, u64)| UndoEntry::SpatialInsert { key: s.0, entry_id: s.1 },
    ) + o.stats_prior@.map_values(
        |s: (String, Option<Vec<u8>>)| UndoEntry::StatsRestore { key: s.0, prior: s.1 },
    )
}

/// The entries of one row that a check wrote.
pub open spec fn target_entries(t: TargetWrite) -> Seq<UndoEntry> {
    seq![
        UndoEntry::PutDocument {
            collection: t.collection,
            document_id: t.document_id,
            surrogate: t.surrogate,
            old_value: t.outcome.prior_value,
            bitemporal_sys_from_ms: t.outcome.bitemporal_sys_from_ms,
            bitemporal_index_tuples: t.outcome.bitemporal_index_tuples,
            secondary_index_added: t.outcome.secondary_index_added,
            secondary_index_removed: t.outcome.secondary_index_removed,
            chain_hash_prior: None,
        },
    ] + side_entries(t.outcome)
}

/// The entries of all rows that checks wrote, in order.
pub open spec fn all_target_entries(ts: Seq<TargetWrite>) -> Seq<UndoEntry>
    decreases ts.len(),
{
    if ts.len() == 0 {
        Seq::empty()
    } else {
        all_target_entries(ts.drop_last()) + target_entries(ts.last())
    }
}

/// The rows that checks wrote for a put.
pub open spec fn targets_of(p: TxPointPut, a: PutAnswers) -> Seq<TargetWrite> {
    if images_of(p, a) is Some {
        match a.enforced {
            Some(Ok(ts)) => ts@,
            _ => Seq::empty(),
        }
    } else {
        Seq::empty()
    }
}

/// The entry of the put row itself.
pub open spec fn own_entry(
    p: TxPointPut,
    o: PutOutcome,
    heads: chain::Heads,
    e: UndoEntry,
) -> bool {
    e matches UndoEntry::PutDocument {
        collection,
        document_id,
        surrogate,
        old_value,
        bitemporal_sys_from_ms,
        bitemporal_index_tuples,
        secondary_index_added,
        secondary_index_removed,
        chain_hash_prior,
    } && collection@ == p.collection@ && document_id@ == hex::row_key(p.surrogate) && surrogate
        == p.surrogate && old_value == o.prior_value && bitemporal_sys_from_ms
        == o.bitemporal_sys_from_ms && bitemporal_index_tuples == o.bitemporal_index_tuples
        && secondary_index_added == o.secondary_index_added && secondary_index_removed
        == o.secondary_index_removed && chain::captured(chain_hash_prior) == if p.hash_chain {
        chain::capture(heads, (p.database_id, p.tid, p.collection@))
    } else {
        None
    }
}

fn push_side_entries(
    log: &mut Vec<UndoEntry>,
    vectors: Vec<VectorDelta>,
    spatial: Vec<(SpatialKey, u64)>,
    stats: Vec<(String, Option<Vec<u8>>)>,
)
    ensures
        final(log)@ == old(log)@ + (vectors@.map_values(
            |d: VectorDelta| UndoEntry::InsertVector { delta: d },
        ) + spatial@.map_values(
            |s: (SpatialKey, u64)| UndoEntry::SpatialInsert { key: s.0, entry_id: s.1 },
        ) + stats@.map_values(
            |s: (String, Option<Vec<u8>>)| UndoEntry::StatsRestore { key: s.0, prior: s.1 },
        )),
{
    let ghost f = |d: VectorDelta| UndoEntry::InsertVector { delta: d };
    let ghost g = |s: (SpatialKey, u64)| UndoEntry::SpatialInsert { key: s.0, entry_id: s.1 };
    let ghost h = |s: (String, Option<Vec<u8>>)| UndoEntry::StatsRestore { key: s.0, prior: s.1 };
    let ghost vs = vectors@;
    let ghost ss = spatial@;
    let ghost ts = stats@;
    let ghost start = log@;
    for d in it: vectors.into_iter()
        invariant
            it.seq() == vs,
            f == (|d: VectorDelta| UndoEntry::InsertVector { delta: d }),
            log@ == start + vs.take(it.index() as int).map_values(f),
    {
        let ghost n = it.index() as int;
        log.push(UndoEntry::InsertVector { delta: d });
        proof {
            crate::maps::lemma_map_take_step(vs, n, f);
            assert(log@ =~= start + vs.take(n + 1).map_values(f));
        }
    }
    proof {
        assert(vs.take(vs.len() as int) =~= vs);
    }
    let ghost mid = log@;
    for s in it: spatial.into_iter()
        invariant
            it.seq() == ss,
            g == (|s: (SpatialKey, u64)| UndoEntry::SpatialInsert { key: s.0, entry_id: s.1 }),
            log@ == mid + ss.take(it.index() as int).map_values(g),
    {
        let ghost n = it.index() as int;
        log.push(UndoEntry::SpatialInsert { key: s.0, entry_id: s.1 });
        proof {
            crate::maps::lemma_map_take_step(ss, n, g);
            assert(log@ =~= mid + ss.take(n + 1).map_values(g));
        }
    }
    proof {
        assert(ss.take(ss.len() as int) =~= ss);
    }
    let ghost last = log@;
    for s in it: stats.into_iter()
        invariant
            it.seq() == ts,
            h == (|s: (String, Option<Vec<u8>>)|
                UndoEntry::StatsRestore { key: s.0, prior: s.1 }),
            log@ == last + ts.take(it.index() as int).map_values(h),
    {
        let ghost n = it.index() as int;
        log.push(UndoEntry::StatsRestore { key: s.0, prior: s.1 });
        proof {
            crate::maps::lemma_map_take_step(ts, n, h);
            assert(log@ =~= last + ts.take(n + 1).map_values(h));
        }
    }
    proof {
        assert(ts.take(ts.len() as int) =~= ts);
        assert(log@ =~= start + (vs.map_values(f) + ss.map_values(g) + ts.map_values(h)));
    }
}

fn push_target_entries(log: &mut Vec<UndoEntry>, targets: Vec<TargetWrite>)
    ensures
        final(log)@ == old(log)@ + all_target_entries(targets@),
{
    let ghost ts = targets@;
    let ghost start = log@;
    proof {
        assert(start + all_target_entries(ts.take(0)) =~= start);
    }
    for t in it: targets.into_iter()
        invariant
            it.seq() == ts,
            log@ == start + all_target_entries(ts.take(it.index() as int)),
    {
        let ghost n = it.index() as int;
        let ghost before = log@;
        let ghost t0 = t;
        let TargetWrite { collection, document_id, surrogate, outcome } = t;
        let PutOutcome {
            prior_value,
            bitemporal_sys_from_ms,
            bitemporal_index_tuples,
            secondary_index_added,
            secondary_index_removed,
            vector_inserts,
            spatial_inserts,
            stats_prior,
        } = outcome;
        log.push(
            UndoEntry::PutDocument {
                collection,
                document_id,
                surrogate,
                old_value: prior_value,
                bitemporal_sys_from_ms,
                bitemporal_index_tuples,
                secondary_index_added,
                secondary_index_removed,
                chain_hash_prior: None,
            },
        );
        push_side_entries(log, vector_inserts, spatial_inserts, stats_prior);
        proof {
            assert(ts.take(n + 1).drop_last() =~= ts.take(n));
            assert(ts.take(n + 1).last() == t0);
            assert(log@ =~= before + target_entries(t0));
            assert(log@ =~= start + all_target_entries(ts.take(n + 1)));
        }
    }
    proof {
        assert(ts.take(ts.len() as int) =~= ts);
    }
}

/// The put's answer, whether the cached row has to be dropped, and how many
/// changes of the sparse store the next checkpoint has to take up.
pub struct PutResult {
    pub answer: Result<(), ErrorCode>,
    pub drop_cached_row: bool,
    pub dirty: u64,
}

impl CoreLoop {
    /// What a put comes to once its calls are answered. Only a committed put
    /// writes entries and moves the chain head; one that ends behind the row write
    /// drops the cached row.
    pub fn tx_point_put(
        &mut self,
        p: TxPointPut,
        a: PutAnswers,
        undo_log: &mut Vec<UndoEntry>,
    ) -> (r: PutResult)
        requires
            due(p, a) is None,
            has_chained(a) ==> p.hash_chain,
        ensures
            answers(p, a, r.answer),
            r.drop_cached_row == aborts_after_apply(end_of(p, a)),
            r.dirty == if end_of(p, a) == PutEnd::Committed {
                1u64
            } else {
                0u64
            },
            final(self).chains@ == heads_after(p, a, old(self).chains@),
            final(self).core_id == old(self).core_id,
            final(self).vectors@ == old(self).vectors@,
            final(self).spatial@ == old(self).spatial@,
            final(self).timeseries@ == old(self).timeseries@,
            final(self).columnar@ == old(self).columnar@,
            final(self).held@ == held_after(p, end_of(p, a), old(self).held@),
            if end_of(p, a) == PutEnd::Committed {
                exists|own: UndoEntry|
                    #[trigger] own_entry(p, a.applied->0->Ok_0, old(self).chains@, own)
                        && final(undo_log)@ == old(undo_log)@ + all_target_entries(targets_of(p, a))
                        + seq![own] + side_entries(a.applied->0->Ok_0)
            } else {
                final(undo_log)@ == old(undo_log)@
            },
    {
        let end = ending(&p, &a);
        let ghost a0 = a;
        let ghost heads = self.chains@;
        let ghost key = (p.database_id, p.tid, p.collection@);
        // The head before the insert moves it.
        let prior: Option<Option<String>> = if p.hash_chain {
            self.chains.capture_head(p.database_id, p.tid, p.collection.as_str())
        } else {
            None
        };
        let PutAnswers {
            chained,
            begun,
            exists,
            applied,
            head_persisted,
            prior_decoded,
            new_decoded,
            enforced,
            committed,
        } = a;
        let mut moved = false;
        let mut chain_fault: Option<String> = None;
        match chained {
            Some(Ok(Some(row))) => {
                moved = true;
                self.chains.set_head(p.database_id, p.tid, p.collection.as_str(), row.head);
            },
            Some(Ok(None)) => {},
            Some(Err(e)) => {
                chain_fault = Some(e);
            },
            None => {},
        }
        let restores = match end {
            PutEnd::Committed => false,
            _ => true,
        };
        if restores {
            proof {
                if moved {
                    let row = a0.chained->0->Ok_0->0;
                    chain::law_putting_back_undoes_a_move(heads, key, row.head@);
                }
            }
            self.chains.restore_chain_head(
                moved,
                p.database_id,
                p.tid,
                p.collection.as_str(),
                &prior,
            );
        }
        let drop_cached_row = match end {
            PutEnd::ApplyFault | PutEnd::HeadFault | PutEnd::PriorFault | PutEnd::EnforceFault
            | PutEnd::CommitFault => true,
            _ => false,
        };
        if drop_cached_row {
            self.held.drop_one(
                &HeldKey {
                    kind: HeldKind::CachedDocument,
                    db: p.database_id,
                    tid: p.tid,
                    coll: p.collection.clone(),
                    part: hex::surrogate_to_doc_id(Surrogate(p.surrogate)),
                },
            );
        }
        let answer: Result<(), ErrorCode> = match end {
            PutEnd::ChainFault => {
                let mut detail = "hash chain: ".to_owned();
                match chain_fault {
                    Some(e) => {
                        detail.append(e.as_str());
                    },
                    None => {},
                }
                Err(ErrorCode::Internal { detail })
            },
            PutEnd::BeginFault => match begun {
                Some(Err(e)) => Err(ErrorCode::Internal { detail: e }),
                _ => Ok(()),
            },
            PutEnd::ProbeFault => match exists {
                Some(Err(e)) => Err(e),
                _ => Ok(()),
            },
            PutEnd::Skipped => Ok(()),
            PutEnd::Duplicate => {
                let mut detail = "duplicate key value '".to_owned();
                detail.append(p.document_id.as_str());
                detail.append("' violates primary-key uniqueness on '");
                detail.append(p.collection.as_str());
                detail.append("'");
                proof {
                    assert(detail@ =~= duplicate_text(p.document_id@, p.collection@));
                }
                Err(ErrorCode::RejectedConstraint { constraint: "unique".to_owned(), detail })
            },
            PutEnd::ApplyFault => match applied {
                Some(Err(e)) => {
                    return PutResult { answer: Err(e), drop_cached_row, dirty: 0 };
                },
                _ => Ok(()),
            },
            PutEnd::HeadFault => match head_persisted {
                Some(Err(e)) => Err(e),
                _ => Ok(()),
            },
            PutEnd::PriorFault => match prior_decoded {
                Some(Err(e)) => Err(e),
                _ => Ok(()),
            },
            PutEnd::EnforceFault => match enforced {
                Some(Err(e)) => {
                    return PutResult { answer: Err(e), drop_cached_row, dirty: 0 };
                },
                _ => Ok(()),
            },
            PutEnd::CommitFault => {
                let mut detail = "commit: ".to_owned();
                match committed {
                    Some(Err(e)) => {
                        detail.append(e.as_str());
                    },
                    _ => {},
                }
                Err(ErrorCode::Internal { detail })
            },
            PutEnd::Committed => {
                let ghost log0 = undo_log@;
                let folded = p.folds_images && new_decoded == Some(true);
                if folded {
                    match enforced {
                        Some(Ok(targets)) => {
                            push_target_entries(undo_log, targets);
                        },
                        _ => {},
                    }
                }
                let ghost log1 = undo_log@;
                proof {
                    assert(log1 =~= log0 + all_target_entries(targets_of(p, a0)));
                }
                match applied {
                    Some(Ok(outcome)) => {
                        let ghost o = outcome;
                        let PutOutcome {
                            prior_value,
                            bitemporal_sys_from_ms,
                            bitemporal_index_tuples,
                            secondary_index_added,
                            secondary_index_removed,
                            vector_inserts,
                            spatial_inserts,
                            stats_prior,
                        } = outcome;
                        let own = UndoEntry::PutDocument {
                            collection: p.collection.clone(),
                            document_id: hex::surrogate_to_doc_id(Surrogate(p.surrogate)),
                            surrogate: p.surrogate,
                            old_value: prior_value,
                            bitemporal_sys_from_ms,
                            bitemporal_index_tuples,
                            secondary_index_added,
                            secondary_index_removed,
                            chain_hash_prior: prior,
                        };
                        let ghost own0 = own;
                        undo_log.push(own);
                        push_side_entries(undo_log, vector_inserts, spatial_inserts, stats_prior);
                        proof {
                            assert(own_entry(p, a0.applied->0->Ok_0, heads, own0));
                            assert(undo_log@ =~= log0 + all_target_entries(targets_of(p, a0))
                                + seq![own0] + side_entries(o));
                        }
                    },
                    _ => {},
                }
                return PutResult { answer: Ok(()), drop_cached_row, dirty: 1 };
            },
        };
        PutResult { answer, drop_cached_row, dirty: 0 }
    }
}

/// An aborted put leaves the chain heads as they were.
pub proof fn law_an_aborted_put_keeps_the_chain(p: TxPointPut, a: PutAnswers, heads: chain::Heads)
    requires
        end_of(p, a) != PutEnd::Committed,
    ensures
        heads_after(p, a, heads) == heads,
{
}

/// A committed put moves the head to what the chain gave, and rolling its own
/// entry back puts the head back.
pub proof fn law_rollback_puts_the_head_back(
    p: TxPointPut,
    a: PutAnswers,
    heads: chain::Heads,
    own: UndoEntry,
)
    requires
        end_of(p, a) == PutEnd::Committed,
        has_chained(a) ==> p.hash_chain,
        own_entry(p, a.applied->0->Ok_0, heads, own),
    ensures
        chain::put_back(
            heads_after(p, a, heads),
            (p.database_id, p.tid, undo::entry_collection(own)),
            undo::entry_chain_prior(own),
        ) == heads,
{
    let key = (p.database_id, p.tid, p.collection@);
    if has_chained(a) {
        let row = a.chained->0->Ok_0->0;
        chain::law_putting_back_undoes_a_move(heads, key, row.head@);
    } else if p.hash_chain {
        assert(chain::put_back(heads, key, chain::capture(heads, key)) =~= heads);
    }
}

/// A put makes its calls in order: a call is made only once every call before it
/// that the put needs has succeeded. A new row is chained before the write begins;
/// an insert asks for its key before the row is written; the head of the chain is
/// stored, and the checks over images are made, inside the write; nothing comes
/// after the commit.
pub proof fn law_calls_are_made_in_order(p: TxPointPut, a: PutAnswers)
    ensures
        match due(p, a) {
            None => true,
            Some(PutCall::AdvanceChain) => p.prior is None && a.chained is None,
            Some(call) => {
                let written = a.applied matches Some(Ok(_));
                let open = (a.begun matches Some(Ok(_)));
                let free = p.insert_if_absent is None || (a.exists matches Some(Ok(there)) && !there);
                let linked = !(a.chained matches Some(Ok(Some(_)))) || (a.head_persisted matches Some(Ok(_)));
                let read = !p.folds_images || p.prior is None || (a.prior_decoded matches Some(Ok(_)));
                let checked = !p.folds_images || a.new_decoded != Some(true) || (
                a.enforced matches Some(Ok(_)));
                &&& p.prior is None ==> (a.chained matches Some(Ok(_)))
                &&& call is BeginWrite ==> a.begun is None
                &&& !(call is BeginWrite) ==> open
                &&& call is ProbeKey ==> p.insert_if_absent is Some && a.exists is None
                &&& !(call is BeginWrite) && !(call is ProbeKey) ==> free
                &&& call is ApplyPut ==> a.applied is None
                &&& call is PersistHead || call is DecodePrior || call is DecodeNew
                    || call is Enforce || call is Commit ==> written
                &&& call is PersistHead ==> (a.chained matches Some(Ok(Some(_))))
                &&& call is DecodePrior || call is DecodeNew || call is Enforce || call is Commit
                    ==> linked
                &&& call is DecodePrior ==> p.folds_images && p.prior is Some
                &&& call is DecodeNew || call is Enforce || call is Commit ==> read
                &&& call matches PutCall::Enforce(kind) ==> p.folds_images && a.new_decoded == Some(
                    true,
                ) && (kind == ImageKind::Update <==> p.prior is Some)
                &&& call is Commit ==> checked && a.committed is None
            },
        },
{
}

/// A put that has no call left is committed exactly where every call that it
/// needed succeeded: the chain, the write, a free key for an insert, the row, the
/// stored head, the checks over images and the commit.
pub proof fn law_when_a_put_is_committed(p: TxPointPut, a: PutAnswers)
    requires
        due(p, a) is None,
    ensures
        end_of(p, a) == PutEnd::Committed <==> {
            &&& !(a.chained matches Some(Err(_)))
            &&& (a.begun matches Some(Ok(_)))
            &&& p.insert_if_absent is None || (a.exists matches Some(Ok(there)) && !there)
            &&& a.applied matches Some(Ok(_))
            &&& !(a.chained matches Some(Ok(Some(_)))) || (a.head_persisted matches Some(Ok(_)))
            &&& !p.folds_images || p.prior is None || (a.prior_decoded matches Some(Ok(_)))
            &&& !p.folds_images || a.new_decoded != Some(true) || (a.enforced matches Some(Ok(_)))
            &&& (a.committed matches Some(Ok(_)))
        },
{
}

/// A put succeeds exactly where it was committed, or where it is an insert that
/// skips a key that exists; an insert that may not skip it is refused as a
/// duplicate.
pub proof fn law_when_a_put_succeeds(p: TxPointPut, a: PutAnswers, r: Result<(), ErrorCode>)
    requires
        due(p, a) is None,
        answers(p, a, r),
    ensures
        r is Ok <==> end_of(p, a) == PutEnd::Committed || end_of(p, a) == PutEnd::Skipped,
        ({
            let reached = !(a.chained matches Some(Err(_))) && (a.begun matches Some(Ok(_)));
            let taken = p.insert_if_absent is Some && (a.exists matches Some(Ok(there)) && there);
            &&& end_of(p, a) == PutEnd::Skipped <==> reached && taken && p.insert_if_absent == Some(
                true,
            )
            &&& end_of(p, a) == PutEnd::Duplicate <==> reached && taken && p.insert_if_absent != Some(true)
            &&& end_of(p, a) == PutEnd::Duplicate ==> (r matches Err(
                ErrorCode::RejectedConstraint { constraint, detail },
            ) && constraint@ == "unique"@ && detail@ == "duplicate key value '"@ + (p.document_id@
                + ("' violates primary-key uniqueness on '"@ + (p.collection@ + "'"@))))
        }),
{
}

/// A committed put moves the head of its own collection to that of its chained
/// row; every other head stays, and a put that was not committed moves none.
pub proof fn law_a_committed_put_moves_its_head(
    p: TxPointPut,
    a: PutAnswers,
    heads: chain::Heads,
    other: (u64, u64, Seq<char>),
)
    ensures
        ({
            let after = heads_after(p, a, heads);
            let own = (p.database_id, p.tid, p.collection@);
            &&& end_of(p, a) == PutEnd::Committed ==> (a.chained matches Some(Ok(Some(row)))
                ==> after.contains_key(own) && after[own] == row.head@)
            &&& !(a.chained matches Some(Ok(Some(_)))) ==> after == heads
            &&& other != own ==> after.contains_key(other) == heads.contains_key(other) && (
            heads.contains_key(other) ==> after[other] == heads[other])
        }),
{
}

/// The cached copy of a row is dropped exactly where its write was begun and then
/// given up after the row was handed to the store; nothing else that a core holds
/// is touched.
pub proof fn law_an_aborted_put_drops_its_cached_row(
    p: TxPointPut,
    end: PutEnd,
    held: Set<HeldId>,
    other: HeldId,
)
    ensures
        ({
            let own = (
                HeldKind::CachedDocument,
                p.database_id,
                p.tid,
                p.collection@,
                hex::row_key(p.surrogate),
            );
            let after = held_after(p, end, held);
            let given_up = end == PutEnd::ApplyFault || end == PutEnd::HeadFault || end
                == PutEnd::PriorFault || end == PutEnd::EnforceFault || end == PutEnd::CommitFault;
            &&& given_up ==> !after.contains(own)
            &&& !given_up ==> after == held
            &&& other != own ==> after.contains(other) == held.contains(other)
        }),
{
}

/// The undo log gets one entry for each vector, each spatial entry and each
/// statistic that a write added, in this order.
pub proof fn law_every_side_effect_has_its_undo(o: PutOutcome, i: int)
    ensures
        ({
            let e = side_entries(o);
            let v = o.vector_inserts@;
            let s = o.spatial_inserts@;
            let t = o.stats_prior@;
            &&& e.len() == v.len() + s.len() + t.len()
            &&& 0 <= i < v.len() ==> e[i] == (UndoEntry::InsertVector { delta: v[i] })
            &&& 0 <= i < s.len() ==> e[v.len() + i] == ({
                let (key, entry_id) = s[i];
                UndoEntry::SpatialInsert { key, entry_id }
            })
            &&& 0 <= i < t.len() ==> e[v.len() + s.len() + i] == ({
                let (key, prior) = t[i];
                UndoEntry::StatsRestore { key, prior }
            })
        }),
{
}

/// Every row that a check wrote to has its entry in the undo log, with the value it
/// had, and the entries of its side effects.
pub proof fn law_every_written_target_has_its_undo(ts: Seq<TargetWrite>, i: int)
    requires
        0 <= i < ts.len(),
    ensures
        exists|k: int|
            #![trigger all_target_entries(ts)[k]]
            {
                &&& 0 <= k < all_target_entries(ts).len()
                &&& all_target_entries(ts)[k] matches UndoEntry::PutDocument {
                    collection,
                    document_id,
                    surrogate,
                    old_value,
                    ..
                } && collection == ts[i].collection && document_id == ts[i].document_id && surrogate
                    == ts[i].surrogate && old_value == ts[i].outcome.prior_value
            },
        all_target_entries(ts.drop_last()).len() + 1 + side_entries(ts.last().outcome).len()
            == all_target_entries(ts).len(),
    decreases ts.len(),
{
    let init = all_target_entries(ts.drop_last());
    let own = target_entries(ts.last());
    assert(all_target_entries(ts) == init + own);
    if i == ts.len() - 1 {
        assert((init + own)[init.len() as int] == own[0]);
    } else {
        law_every_written_target_has_its_undo(ts.drop_last(), i);
        let k = choose|k: int|
            #![trigger init[k]]
            {
                &&& 0 <= k < init.len()
                &&& init[k] matches UndoEntry::PutDocument {
                    collection,
                    document_id,
                    surrogate,
                    old_value,
                    ..
                } && collection == ts.drop_last()[i].collection && document_id
                    == ts.drop_last()[i].document_id && surrogate == ts.drop_last()[i].surrogate
                    && old_value == ts.drop_last()[i].outcome.prior_value
            };
        assert((init + own)[k] == init[k]);
    }
}

/// The row that is stored is the chained one where there is one, otherwise the row
/// as it was submitted; checks over images see the row as it was submitted.
pub proof fn law_a_chained_row_is_what_is_stored(p: TxPointPut, a: PutAnswers, q: PutRequest)
    ensures
        is_request(p, a, PutCall::ApplyPut, q) ==> (q matches PutRequest::ApplyPut {
            row_key,
            surrogate,
            row,
            wal_lsn,
            ..
        } && hex::parsed_hex_u32(row_key@) == Some(p.surrogate) && surrogate == p.surrogate
            && wal_lsn == p.wal_lsn && (a.chained matches Some(Ok(Some(c))) ==> row@ == c.body@) && (
        !(a.chained matches Some(Ok(Some(_)))) ==> row@ == p.value@)),
        is_request(p, a, PutCall::DecodeNew, q) ==> (q matches PutRequest::DecodeNew { row } && row@
            == p.value@),
{
    hex::law_row_key_parses_back(p.surrogate);
}

} // verus!
