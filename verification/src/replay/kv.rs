//! Replay of key-value records.
//!
//! A record says by a tag in its payload what it is. For each record of the
//! log the replay decides one step; the steps are carried out in order against
//! the key-value engine.
use crate::codec;
use crate::core_loop::CoreLoop;
use crate::maps;
use crate::text;
use crate::wal;
use crate::wal::{RecordType, TombstoneSet, WalRecord};
use vstd::prelude::*;

verus! {

/// What a record asks of the key-value engine.
pub enum KvReplayStep {
    /// Nothing: no key-value record type, or a record of another core.
    Ignore,
    /// Nothing: the collection was purged later.
    Purged,
    /// Write one entry. With an expiry, that instant is installed as it is;
    /// without one it is computed from the lifetime.
    Put {
        database_id: u64,
        tenant_id: u64,
        collection: String,
        key: Vec<u8>,
        value: Vec<u8>,
        ttl_ms: u64,
        expire_at_ms: Option<u64>,
    },
    /// Write several entries.
    BatchPut {
        database_id: u64,
        tenant_id: u64,
        collection: String,
        entries: Vec<(Vec<u8>, Vec<u8>)>,
        ttl_ms: u64,
        expire_at_ms: Option<u64>,
    },
    /// Offer the payload to the replays of records that hold a change rather
    /// than a result, as `next_delta` says.
    Deltas { database_id: u64, tenant_id: u64, lsn: u64 },
    /// Delete keys.
    Delete { database_id: u64, tenant_id: u64, collection: String, keys: Vec<Vec<u8>> },
    /// Delete every key of a collection.
    Truncate { database_id: u64, tenant_id: u64, collection: String },
    /// Offer the payload to the removal of a sorted index.
    DropSortedIndex { database_id: u64, tenant_id: u64 },
}

/// A step as a mathematical value.
#[verifier::ext_equal]
pub enum KvStep {
    Ignore,
    Purged,
    Put {
        database_id: u64,
        tenant_id: u64,
        collection: Seq<char>,
        key: Seq<u8>,
        value: Seq<u8>,
        ttl_ms: u64,
        expire_at_ms: Option<u64>,
    },
    BatchPut {
        database_id: u64,
        tenant_id: u64,
        collection: Seq<char>,
        entries: Seq<(Seq<u8>, Seq<u8>)>,
        ttl_ms: u64,
        expire_at_ms: Option<u64>,
    },
    Deltas { database_id: u64, tenant_id: u64, lsn: u64 },
    Delete { database_id: u64, tenant_id: u64, collection: Seq<char>, keys: Seq<Seq<u8>> },
    Truncate { database_id: u64, tenant_id: u64, collection: Seq<char> },
    DropSortedIndex { database_id: u64, tenant_id: u64 },
}

impl View for KvReplayStep {
    type V = KvStep;

    open spec fn view(&self) -> KvStep {
        match *self {
            KvReplayStep::Ignore => KvStep::Ignore,
            KvReplayStep::Purged => KvStep::Purged,
            KvReplayStep::Put {
                database_id,
                tenant_id,
                collection,
                key,
                value,
                ttl_ms,
                expire_at_ms,
            } => KvStep::Put {
                database_id,
                tenant_id,
                collection: collection@,
                key: key@,
                value: value@,
                ttl_ms,
                expire_at_ms,
            },
            KvReplayStep::BatchPut {
                database_id,
                tenant_id,
                collection,
                entries,
                ttl_ms,
                expire_at_ms,
            } => KvStep::BatchPut {
                database_id,
                tenant_id,
                collection: collection@,
                entries: codec::entry_views(entries@),
                ttl_ms,
                expire_at_ms,
            },
            KvReplayStep::Deltas { database_id, tenant_id, lsn } => KvStep::Deltas {
                database_id,
                tenant_id,
                lsn,
            },
            KvReplayStep::Delete { database_id, tenant_id, collection, keys } => KvStep::Delete {
                database_id,
                tenant_id,
                collection: collection@,
                keys: codec::key_views(keys@),
            },
            KvReplayStep::Truncate { database_id, tenant_id, collection } => KvStep::Truncate {
                database_id,
                tenant_id,
                collection: collection@,
            },
            KvReplayStep::DropSortedIndex { database_id, tenant_id } => KvStep::DropSortedIndex {
                database_id,
                tenant_id,
            },
        }
    }
}

/// A step, unless the record's collection was purged later.
pub open spec fn unless_purged(
    r: WalRecord,
    tombstones: TombstoneSet,
    collection: Seq<char>,
    step: KvStep,
) -> KvStep {
    if tombstones.covers(r.tenant_id, collection, r.lsn) {
        KvStep::Purged
    } else {
        step
    }
}

/// The step of a put record: the shapes are tried with the longer of each pair
/// first.
pub open spec fn put_step(r: WalRecord, tombstones: TombstoneSet) -> KvStep {
    let b = r.payload@;
    match codec::kv_put_expiring_of(b) {
        Some((tag, collection, key, value, ttl_ms, expire_at_ms)) if tag == "kv_put"@ => unless_purged(
            r,
            tombstones,
            collection,
            KvStep::Put {
                database_id: r.database_id,
                tenant_id: r.tenant_id,
                collection,
                key,
                value,
                ttl_ms,
                expire_at_ms: Some(expire_at_ms),
            },
        ),
        _ => match codec::kv_put_of(b) {
            Some((tag, collection, key, value, ttl_ms)) if tag == "kv_put"@ => unless_purged(
                r,
                tombstones,
                collection,
                KvStep::Put {
                    database_id: r.database_id,
                    tenant_id: r.tenant_id,
                    collection,
                    key,
                    value,
                    ttl_ms,
                    expire_at_ms: None,
                },
            ),
            _ => batch_step(r, tombstones),
        },
    }
}

/// The step of a put record that holds no single put.
pub open spec fn batch_step(r: WalRecord, tombstones: TombstoneSet) -> KvStep {
    let b = r.payload@;
    match codec::kv_batch_expiring_of(b) {
        Some((tag, collection, entries, ttl_ms, expire_at_ms)) if tag == "kv_batch_put"@ => unless_purged(
            r,
            tombstones,
            collection,
            KvStep::BatchPut {
                database_id: r.database_id,
                tenant_id: r.tenant_id,
                collection,
                entries,
                ttl_ms,
                expire_at_ms: Some(expire_at_ms),
            },
        ),
        _ => match codec::kv_batch_of(b) {
            Some((tag, collection, entries, ttl_ms)) if tag == "kv_batch_put"@ => unless_purged(
                r,
                tombstones,
                collection,
                KvStep::BatchPut {
                    database_id: r.database_id,
                    tenant_id: r.tenant_id,
                    collection,
                    entries,
                    ttl_ms,
                    expire_at_ms: None,
                },
            ),
            _ => KvStep::Deltas {
                database_id: r.database_id,
                tenant_id: r.tenant_id,
                lsn: r.lsn,
            },
        },
    }
}

/// The step of a delete record.
pub open spec fn delete_step(r: WalRecord, tombstones: TombstoneSet) -> KvStep {
    let b = r.payload@;
    match codec::kv_delete_of(b) {
        Some((tag, collection, keys)) if tag == "kv_delete"@ => unless_purged(
            r,
            tombstones,
            collection,
            KvStep::Delete {
                database_id: r.database_id,
                tenant_id: r.tenant_id,
                collection,
                keys,
            },
        ),
        _ => match codec::text_pair_of(b) {
            Some((tag, collection)) if tag == "kv_truncate"@ => unless_purged(
                r,
                tombstones,
                collection,
                KvStep::Truncate {
                    database_id: r.database_id,
                    tenant_id: r.tenant_id,
                    collection,
                },
            ),
            _ => KvStep::DropSortedIndex { database_id: r.database_id, tenant_id: r.tenant_id },
        },
    }
}

/// The step that a core takes for a record.
pub open spec fn kv_step(
    core_id: usize,
    r: WalRecord,
    num_cores: usize,
    tombstones: TombstoneSet,
) -> KvStep {
    if wal::target_core(r.vshard_id, num_cores) != core_id {
        KvStep::Ignore
    } else if r.record_type == RecordType::Put {
        put_step(r, tombstones)
    } else if r.record_type == RecordType::Delete {
        delete_step(r, tombstones)
    } else {
        KvStep::Ignore
    }
}

fn plan_put(r: &WalRecord, tombstones: &TombstoneSet) -> (step: KvReplayStep)
    ensures
        step@ == put_step(*r, *tombstones),
{
    let b = r.payload.as_slice();
    match codec::decode_kv_put_expiring(b) {
        Some((tag, collection, key, value, ttl_ms, expire_at_ms)) => {
            if text::same_text(tag.as_str(), "kv_put") {
                if tombstones.is_tombstoned(r.tenant_id, collection.as_str(), r.lsn) {
                    return KvReplayStep::Purged;
                }
                return KvReplayStep::Put {
                    database_id: r.database_id,
                    tenant_id: r.tenant_id,
                    collection,
                    key,
                    value,
                    ttl_ms,
                    expire_at_ms: Some(expire_at_ms),
                };
            }
        },
        None => {},
    }
    match codec::decode_kv_put(b) {
        Some((tag, collection, key, value, ttl_ms)) => {
            if text::same_text(tag.as_str(), "kv_put") {
                if tombstones.is_tombstoned(r.tenant_id, collection.as_str(), r.lsn) {
                    return KvReplayStep::Purged;
                }
                return KvReplayStep::Put {
                    database_id: r.database_id,
                    tenant_id: r.tenant_id,
                    collection,
                    key,
                    value,
                    ttl_ms,
                    expire_at_ms: None,
                };
            }
        },
        None => {},
    }
    plan_batch(r, tombstones)
}

fn plan_batch(r: &WalRecord, tombstones: &TombstoneSet) -> (step: KvReplayStep)
    ensures
        step@ == batch_step(*r, *tombstones),
{
    let b = r.payload.as_slice();
    match codec::decode_kv_batch_expiring(b) {
        Some((tag, collection, entries, ttl_ms, expire_at_ms)) => {
            if text::same_text(tag.as_str(), "kv_batch_put") {
                if tombstones.is_tombstoned(r.tenant_id, collection.as_str(), r.lsn) {
                    return KvReplayStep::Purged;
                }
                return KvReplayStep::BatchPut {
                    database_id: r.database_id,
                    tenant_id: r.tenant_id,
                    collection,
                    entries,
                    ttl_ms,
                    expire_at_ms: Some(expire_at_ms),
                };
            }
        },
        None => {},
    }
    match codec::decode_kv_batch(b) {
        Some((tag, collection, entries, ttl_ms)) => {
            if text::same_text(tag.as_str(), "kv_batch_put") {
                if tombstones.is_tombstoned(r.tenant_id, collection.as_str(), r.lsn) {
                    return KvReplayStep::Purged;
                }
                return KvReplayStep::BatchPut {
                    database_id: r.database_id,
                    tenant_id: r.tenant_id,
                    collection,
                    entries,
                    ttl_ms,
                    expire_at_ms: None,
                };
            }
        },
        None => {},
    }
    KvReplayStep::Deltas { database_id: r.database_id, tenant_id: r.tenant_id, lsn: r.lsn }
}

fn plan_delete(r: &WalRecord, tombstones: &TombstoneSet) -> (step: KvReplayStep)
    ensures
        step@ == delete_step(*r, *tombstones),
{
    let b = r.payload.as_slice();
    match codec::decode_kv_delete(b) {
        Some((tag, collection, keys)) => {
            if text::same_text(tag.as_str(), "kv_delete") {
                if tombstones.is_tombstoned(r.tenant_id, collection.as_str(), r.lsn) {
                    return KvReplayStep::Purged;
                }
                return KvReplayStep::Delete {
                    database_id: r.database_id,
                    tenant_id: r.tenant_id,
                    collection,
                    keys,
                };
            }
        },
        None => {},
    }
    match codec::decode_text_pair(b) {
        Some((tag, collection)) => {
            if text::same_text(tag.as_str(), "kv_truncate") {
                if tombstones.is_tombstoned(r.tenant_id, collection.as_str(), r.lsn) {
                    return KvReplayStep::Purged;
                }
                return KvReplayStep::Truncate {
                    database_id: r.database_id,
                    tenant_id: r.tenant_id,
                    collection,
                };
            }
        },
        None => {},
    }
    KvReplayStep::DropSortedIndex { database_id: r.database_id, tenant_id: r.tenant_id }
}

impl CoreLoop {
    /// The step that this core takes for each record of the log, in order.
    pub fn replay_kv_wal(
        &self,
        records: &Vec<WalRecord>,
        num_cores: usize,
        tombstones: &TombstoneSet,
    ) -> (r: Vec<KvReplayStep>)
        ensures
            r@.len() == records@.len(),
            forall|i: int|
                0 <= i < r@.len() ==> (#[trigger] r@[i])@ == kv_step(
                    self.core_id,
                    records@[i],
                    num_cores,
                    *tombstones,
                ),
    {
        let mut out: Vec<KvReplayStep> = Vec::new();
        let mut i: usize = 0;
        while i < records.len()
            invariant
                i <= records@.len(),
                out@.len() == i,
                forall|j: int|
                    0 <= j < i ==> (#[trigger] out@[j])@ == kv_step(
                        self.core_id,
                        records@[j],
                        num_cores,
                        *tombstones,
                    ),
            decreases records.len() - i,
        {
            let rec = &records[i];
            let step = if !wal::is_routed_to(rec.vshard_id, num_cores, self.core_id) {
                KvReplayStep::Ignore
            } else {
                match rec.record_type {
                    RecordType::Put => plan_put(rec, tombstones),
                    RecordType::Delete => plan_delete(rec, tombstones),
                    _ => KvReplayStep::Ignore,
                }
            };
            out.push(step);
            i = i + 1;
        }
        out
    }
}

/// The replay of one kind of record that holds a change rather than a result.
#[derive(Clone, Copy, Debug, PartialEq, Eq, Structural)]
pub enum DeltaReplay {
    Transfer,
    TransferItem,
    /// A compare-and-set, an increment or a get-and-set.
    Atomic,
    FieldSet,
    /// Registering or dropping an index.
    Index,
    RegisterSortedIndex,
}

/// The order in which the replays of changes are offered a payload.
pub open spec fn delta_order() -> Seq<DeltaReplay> {
    seq![
        DeltaReplay::Transfer,
        DeltaReplay::TransferItem,
        DeltaReplay::Atomic,
        DeltaReplay::FieldSet,
        DeltaReplay::Index,
        DeltaReplay::RegisterSortedIndex,
    ]
}

/// How many entries a replay wrote and how many it deleted, of what it reports.
/// Only the transfer of an item deletes.
pub open spec fn delta_counts(replay: DeltaReplay, reported: (usize, usize)) -> (usize, usize) {
    if replay == DeltaReplay::TransferItem {
        reported
    } else {
        (reported.0, 0)
    }
}

/// What a payload is offered to next, or what came of it.
#[derive(Clone, Copy, Debug, PartialEq, Eq, Structural)]
pub enum DeltaNext {
    Offer(DeltaReplay),
    /// Entries written and deleted; none where no replay took the payload.
    Done { puts: usize, deletes: usize },
}

/// What follows the answers so far: the first replay that takes the payload ends
/// the offers; one that does not take it leaves it to the next.
pub open spec fn after_answers(answers: Seq<Option<(usize, usize)>>) -> DeltaNext
    decreases answers.len(),
{
    if answers.len() == 0 {
        DeltaNext::Offer(delta_order()[0])
    } else {
        match after_answers(answers.drop_last()) {
            DeltaNext::Done { puts, deletes } => DeltaNext::Done { puts, deletes },
            DeltaNext::Offer(replay) => match answers.last() {
                Some(reported) => DeltaNext::Done {
                    puts: delta_counts(replay, reported).0,
                    deletes: delta_counts(replay, reported).1,
                },
                None => if answers.len() < delta_order().len() {
                    DeltaNext::Offer(delta_order()[answers.len() as int])
                } else {
                    DeltaNext::Done { puts: 0, deletes: 0 }
                },
            },
        }
    }
}

fn delta_at(i: usize) -> (r: DeltaReplay)
    requires
        i < delta_order().len(),
    ensures
        r == delta_order()[i as int],
{
    match i {
        0 => DeltaReplay::Transfer,
        1 => DeltaReplay::TransferItem,
        2 => DeltaReplay::Atomic,
        3 => DeltaReplay::FieldSet,
        4 => DeltaReplay::Index,
        _ => DeltaReplay::RegisterSortedIndex,
    }
}

/// What to offer the payload of a record to, given what the replays so far
/// answered: how many entries each wrote and deleted, or none where the payload
/// was not its own.
pub fn next_delta(answers: &Vec<Option<(usize, usize)>>) -> (r: DeltaNext)
    ensures
        r == after_answers(answers@),
{
    let mut next = DeltaNext::Offer(delta_at(0));
    let mut i: usize = 0;
    while i < answers.len()
        invariant
            i <= answers@.len(),
            next == after_answers(answers@.take(i as int)),
        decreases answers.len() - i,
    {
        proof {
            assert(answers@.take(i + 1).drop_last() =~= answers@.take(i as int));
            assert(answers@.take(i + 1).last() == answers@[i as int]);
        }
        match next {
            DeltaNext::Done { .. } => {},
            DeltaNext::Offer(replay) => match answers[i] {
                Some((puts, deletes)) => {
                    next = DeltaNext::Done {
                        puts,
                        deletes: if replay == DeltaReplay::TransferItem {
                            deletes
                        } else {
                            0
                        },
                    };
                },
                None => {
                    next = if i < 5 {
                        DeltaNext::Offer(delta_at(i + 1))
                    } else {
                        DeltaNext::Done { puts: 0, deletes: 0 }
                    };
                },
            },
        }
        i = i + 1;
    }
    proof {
        assert(answers@.take(answers@.len() as int) =~= answers@);
    }
    next
}

/// A payload that no replay takes is offered to each of them once, in order.
pub proof fn law_a_payload_is_offered_in_order(answers: Seq<Option<(usize, usize)>>)
    requires
        answers.len() < delta_order().len(),
        forall|i: int| 0 <= i < answers.len() ==> (#[trigger] answers[i]) is None,
    ensures
        after_answers(answers) == DeltaNext::Offer(delta_order()[answers.len() as int]),
    decreases answers.len(),
{
    if answers.len() > 0 {
        law_a_payload_is_offered_in_order(answers.drop_last());
        assert(answers[answers.len() - 1] is None);
    }
}

/// How many entries a step writes and how many it deletes. For a step that only
/// offers a payload, `offered` says what came of it.
pub open spec fn step_counts(step: KvStep, offered: (nat, nat)) -> (nat, nat) {
    match step {
        KvStep::Put { .. } => (1, 0),
        KvStep::BatchPut { entries, .. } => (entries.len(), 0),
        KvStep::Deltas { .. } => offered,
        KvStep::Delete { keys, .. } => (0, keys.len()),
        KvStep::Truncate { .. } => (0, 1),
        KvStep::DropSortedIndex { .. } => (0, offered.1),
        _ => (0, 0),
    }
}

/// The measure of the writes, and of the deletes, of a list of steps with what
/// came of each offer.
pub open spec fn puts_of() -> spec_fn((KvReplayStep, (usize, usize))) -> nat {
    |e: (KvReplayStep, (usize, usize))| step_counts(e.0@, (e.1.0 as nat, e.1.1 as nat)).0
}

pub open spec fn deletes_of() -> spec_fn((KvReplayStep, (usize, usize))) -> nat {
    |e: (KvReplayStep, (usize, usize))| step_counts(e.0@, (e.1.0 as nat, e.1.1 as nat)).1
}

/// How many entries a replay wrote and how many it deleted. Each step comes
/// with what the engine reported of an offered payload.
pub fn kv_replay_counts(steps: &Vec<(KvReplayStep, (usize, usize))>) -> (r: (usize, usize))
    requires
        maps::total(steps@, puts_of()) <= usize::MAX,
        maps::total(steps@, deletes_of()) <= usize::MAX,
    ensures
        r.0 == maps::total(steps@, puts_of()),
        r.1 == maps::total(steps@, deletes_of()),
{
    let mut puts: usize = 0;
    let mut deletes: usize = 0;
    let mut i: usize = 0;
    while i < steps.len()
        invariant
            i <= steps@.len(),
            maps::total(steps@, puts_of()) <= usize::MAX,
            maps::total(steps@, deletes_of()) <= usize::MAX,
            puts == maps::total(steps@.take(i as int), puts_of()),
            deletes == maps::total(steps@.take(i as int), deletes_of()),
        decreases steps.len() - i,
    {
        proof {
            maps::lemma_total_step(steps@, i as int, puts_of());
            maps::lemma_total_step(steps@, i as int, deletes_of());
            maps::lemma_total_prefix(steps@, i + 1, puts_of());
            maps::lemma_total_prefix(steps@, i + 1, deletes_of());
        }
        match &steps[i].0 {
            KvReplayStep::Put { .. } => {
                puts = puts + 1;
            },
            KvReplayStep::BatchPut { entries, .. } => {
                puts = puts + entries.len();
            },
            KvReplayStep::Deltas { .. } => {
                puts = puts + steps[i].1.0;
                deletes = deletes + steps[i].1.1;
            },
            KvReplayStep::Delete { keys, .. } => {
                deletes = deletes + keys.len();
            },
            KvReplayStep::Truncate { .. } => {
                deletes = deletes + 1;
            },
            KvReplayStep::DropSortedIndex { .. } => {
                deletes = deletes + steps[i].1.1;
            },
            _ => {},
        }
        i = i + 1;
    }
    proof {
        assert(steps@.take(steps@.len() as int) =~= steps@);
    }
    (puts, deletes)
}

/// A record whose collection was purged above it changes nothing, whatever its
/// payload holds.
pub proof fn law_a_purged_collection_stays_purged(
    core_id: usize,
    r: WalRecord,
    num_cores: usize,
    tombstones: TombstoneSet,
)
    ensures
        match kv_step(core_id, r, num_cores, tombstones) {
            KvStep::Put { collection, .. } => !tombstones.covers(r.tenant_id, collection, r.lsn),
            KvStep::BatchPut { collection, .. } => !tombstones.covers(
                r.tenant_id,
                collection,
                r.lsn,
            ),
            KvStep::Delete { collection, .. } => !tombstones.covers(r.tenant_id, collection, r.lsn),
            KvStep::Truncate { collection, .. } => !tombstones.covers(
                r.tenant_id,
                collection,
                r.lsn,
            ),
            _ => true,
        },
{
}

/// At most one core does anything for a record.
pub proof fn law_other_cores_ignore_a_record(
    a: usize,
    b: usize,
    r: WalRecord,
    num_cores: usize,
    tombstones: TombstoneSet,
)
    requires
        a != b,
    ensures
        kv_step(a, r, num_cores, tombstones) is Ignore || kv_step(
            b,
            r,
            num_cores,
            tombstones,
        ) is Ignore,
{
}

/// What the core of a record does with a put that was written: the entry that
/// the payload names, in the record's database and under its tenant, with its
/// expiry where the payload carries one; nothing where the collection was purged
/// later.
pub proof fn law_a_written_put_is_replayed(
    core_id: usize,
    r: WalRecord,
    num_cores: usize,
    tombstones: TombstoneSet,
    collection: Seq<char>,
    key: Seq<u8>,
    value: Seq<u8>,
    ttl_ms: u64,
    expire_at_ms: Option<u64>,
)
    requires
        r.record_type == RecordType::Put,
        match expire_at_ms {
            Some(at) => codec::kv_put_expiring_of(r.payload@) == Some(
                ("kv_put"@, collection, key, value, ttl_ms, at),
            ),
            None => codec::kv_put_expiring_of(r.payload@) is None && codec::kv_put_of(r.payload@)
                == Some(("kv_put"@, collection, key, value, ttl_ms)),
        },
    ensures
        ({
            let step = kv_step(core_id, r, num_cores, tombstones);
            let purged = tombstones.purges().contains_key((r.tenant_id, collection)) && r.lsn
                < tombstones.purges()[(r.tenant_id, collection)];
            &&& wal::target_core(r.vshard_id, num_cores) != core_id ==> step == KvStep::Ignore
            &&& wal::target_core(r.vshard_id, num_cores) == core_id && purged ==> step
                == KvStep::Purged
            &&& wal::target_core(r.vshard_id, num_cores) == core_id && !purged ==> {
                &&& step matches KvStep::Put {
                    database_id,
                    tenant_id,
                    collection: c,
                    key: k,
                    value: v,
                    ttl_ms: ttl,
                    expire_at_ms: at,
                }
                &&& database_id == r.database_id
                &&& tenant_id == r.tenant_id
                &&& (c, k, v) == (collection, key, value)
                &&& (ttl, at) == (ttl_ms, expire_at_ms)
            }
        }),
{
}

/// The same of a batch: all its entries, in the order in which it names them.
pub proof fn law_a_written_batch_is_replayed(
    core_id: usize,
    r: WalRecord,
    num_cores: usize,
    tombstones: TombstoneSet,
    collection: Seq<char>,
    entries: Seq<(Seq<u8>, Seq<u8>)>,
    ttl_ms: u64,
    expire_at_ms: Option<u64>,
)
    requires
        r.record_type == RecordType::Put,
        codec::kv_put_expiring_of(r.payload@) is None,
        codec::kv_put_of(r.payload@) is None,
        match expire_at_ms {
            Some(at) => codec::kv_batch_expiring_of(r.payload@) == Some(
                ("kv_batch_put"@, collection, entries, ttl_ms, at),
            ),
            None => codec::kv_batch_expiring_of(r.payload@) is None && codec::kv_batch_of(
                r.payload@,
            ) == Some(("kv_batch_put"@, collection, entries, ttl_ms)),
        },
    ensures
        ({
            let step = kv_step(core_id, r, num_cores, tombstones);
            let purged = tombstones.purges().contains_key((r.tenant_id, collection)) && r.lsn
                < tombstones.purges()[(r.tenant_id, collection)];
            &&& wal::target_core(r.vshard_id, num_cores) != core_id ==> step == KvStep::Ignore
            &&& wal::target_core(r.vshard_id, num_cores) == core_id && purged ==> step
                == KvStep::Purged
            &&& wal::target_core(r.vshard_id, num_cores) == core_id && !purged ==> {
                &&& step matches KvStep::BatchPut {
                    database_id,
                    tenant_id,
                    collection: c,
                    entries: e,
                    ttl_ms: ttl,
                    expire_at_ms: at,
                }
                &&& database_id == r.database_id
                &&& tenant_id == r.tenant_id
                &&& (c, e) == (collection, entries)
                &&& (ttl, at) == (ttl_ms, expire_at_ms)
            }
        }),
{
}

/// The same of a delete and of a truncation.
pub proof fn law_a_written_delete_is_replayed(
    core_id: usize,
    r: WalRecord,
    num_cores: usize,
    tombstones: TombstoneSet,
    collection: Seq<char>,
    keys: Option<Seq<Seq<u8>>>,
)
    requires
        r.record_type == RecordType::Delete,
        match keys {
            Some(k) => codec::kv_delete_of(r.payload@) == Some(("kv_delete"@, collection, k)),
            None => codec::kv_delete_of(r.payload@) is None && codec::text_pair_of(r.payload@)
                == Some(("kv_truncate"@, collection)),
        },
    ensures
        ({
            let step = kv_step(core_id, r, num_cores, tombstones);
            let purged = tombstones.purges().contains_key((r.tenant_id, collection)) && r.lsn
                < tombstones.purges()[(r.tenant_id, collection)];
            &&& wal::target_core(r.vshard_id, num_cores) != core_id ==> step == KvStep::Ignore
            &&& wal::target_core(r.vshard_id, num_cores) == core_id && purged ==> step
                == KvStep::Purged
            &&& wal::target_core(r.vshard_id, num_cores) == core_id && !purged ==> match keys {
                Some(k) => step matches KvStep::Delete {
                    database_id,
                    tenant_id,
                    collection: c,
                    keys: ks,
                } && database_id == r.database_id && tenant_id == r.tenant_id && c == collection
                    && ks == k,
                None => step matches KvStep::Truncate { database_id, tenant_id, collection: c }
                    && database_id == r.database_id && tenant_id == r.tenant_id && c == collection,
            }
        }),
{
}

/// What is written or deleted was read out of the record's own payload, under
/// the tag of that operation, from a record of its type and of this core; what no
/// reading fits is offered to the replays of single operations.
pub proof fn law_nothing_is_replayed_that_was_not_written(
    core_id: usize,
    r: WalRecord,
    num_cores: usize,
    tombstones: TombstoneSet,
)
    ensures
        match kv_step(core_id, r, num_cores, tombstones) {
            KvStep::Ignore => wal::target_core(r.vshard_id, num_cores) != core_id || (r.record_type
                != RecordType::Put && r.record_type != RecordType::Delete),
            KvStep::Purged => exists|c: Seq<char>|
                #![trigger tombstones.purges().contains_key((r.tenant_id, c))]
                tombstones.purges().contains_key((r.tenant_id, c)) && r.lsn < tombstones.purges()[(
                    r.tenant_id,
                    c,
                )],
            KvStep::Put { collection, key, value, ttl_ms, expire_at_ms, .. } => r.record_type
                == RecordType::Put && wal::target_core(r.vshard_id, num_cores) == core_id && (
            match expire_at_ms {
                Some(at) => codec::kv_put_expiring_of(r.payload@) == Some(
                    ("kv_put"@, collection, key, value, ttl_ms, at),
                ),
                None => codec::kv_put_of(r.payload@) == Some(
                    ("kv_put"@, collection, key, value, ttl_ms),
                ),
            }),
            KvStep::BatchPut { collection, entries, ttl_ms, expire_at_ms, .. } => r.record_type
                == RecordType::Put && wal::target_core(r.vshard_id, num_cores) == core_id && (
            match expire_at_ms {
                Some(at) => codec::kv_batch_expiring_of(r.payload@) == Some(
                    ("kv_batch_put"@, collection, entries, ttl_ms, at),
                ),
                None => codec::kv_batch_of(r.payload@) == Some(
                    ("kv_batch_put"@, collection, entries, ttl_ms),
                ),
            }),
            KvStep::Deltas { database_id, tenant_id, lsn } => r.record_type == RecordType::Put
                && wal::target_core(r.vshard_id, num_cores) == core_id && (
                database_id,
                tenant_id,
                lsn,
            ) == (r.database_id, r.tenant_id, r.lsn),
            KvStep::Delete { collection, keys, .. } => r.record_type == RecordType::Delete
                && wal::target_core(r.vshard_id, num_cores) == core_id && codec::kv_delete_of(
                r.payload@,
            ) == Some(("kv_delete"@, collection, keys)),
            KvStep::Truncate { collection, .. } => r.record_type == RecordType::Delete
                && wal::target_core(r.vshard_id, num_cores) == core_id && codec::text_pair_of(
                r.payload@,
            ) == Some(("kv_truncate"@, collection)),
            KvStep::DropSortedIndex { database_id, tenant_id } => r.record_type
                == RecordType::Delete && wal::target_core(r.vshard_id, num_cores) == core_id && (
                database_id,
                tenant_id,
            ) == (r.database_id, r.tenant_id),
        },
{
    let _ = tombstones.purges();
}

proof fn lemma_answers_settle(answers: Seq<Option<(usize, usize)>>, i: int)
    requires
        0 <= i < answers.len(),
        after_answers(answers.take(i + 1)) is Done,
    ensures
        after_answers(answers) == after_answers(answers.take(i + 1)),
    decreases answers.len(),
{
    if i + 1 < answers.len() {
        let short = answers.drop_last();
        assert(short.take(i + 1) =~= answers.take(i + 1));
        lemma_answers_settle(short, i);
    } else {
        assert(answers.take(i + 1) =~= answers);
    }
}

/// The first replay that takes a payload settles what it counts for: what that
/// replay reports written, and deleted where it is an item's transfer, the second
/// in line. Later replays are not asked.
pub proof fn law_the_first_taker_counts(answers: Seq<Option<(usize, usize)>>, i: int)
    requires
        0 <= i < answers.len(),
        i < 6,
        forall|j: int| 0 <= j < i ==> (#[trigger] answers[j]) is None,
        answers[i] is Some,
    ensures
        ({
            let (written, deleted) = answers[i]->0;
            after_answers(answers) matches DeltaNext::Done { puts, deletes } && puts == written
                && deletes == if i == 1 {
                deleted
            } else {
                0
            }
        }),
{
    let start = answers.take(i + 1);
    let asked = answers.take(i);
    assert(start.drop_last() =~= asked);
    law_a_payload_is_offered_in_order(asked);
    lemma_answers_settle(answers, i);
}

/// A payload that none of the six replays takes counts for nothing.
pub proof fn law_an_unknown_payload_counts_for_nothing(answers: Seq<Option<(usize, usize)>>)
    requires
        answers.len() >= 6,
        forall|j: int| 0 <= j < answers.len() ==> (#[trigger] answers[j]) is None,
    ensures
        after_answers(answers) == (DeltaNext::Done { puts: 0, deletes: 0 }),
{
    let start = answers.take(6);
    let asked = answers.take(5);
    assert(start.drop_last() =~= asked);
    law_a_payload_is_offered_in_order(asked);
    lemma_answers_settle(answers, 5);
}

/// What a replay counts grows by what each further step wrote and deleted: one
/// for an entry, one for each entry of a batch and each deleted key, one for a
/// truncation, and what was reported of an offered payload.
pub proof fn law_each_step_is_counted(
    steps: Seq<(KvReplayStep, (usize, usize))>,
    step: KvReplayStep,
    offered: (usize, usize),
)
    ensures
        ({
            let puts = maps::total(steps.push((step, offered)), puts_of()) - maps::total(
                steps,
                puts_of(),
            );
            let deletes = maps::total(steps.push((step, offered)), deletes_of()) - maps::total(
                steps,
                deletes_of(),
            );
            match step {
                KvReplayStep::Put { .. } => puts == 1 && deletes == 0,
                KvReplayStep::BatchPut { entries, .. } => puts == entries@.len() && deletes == 0,
                KvReplayStep::Deltas { .. } => puts == offered.0 && deletes == offered.1,
                KvReplayStep::Delete { keys, .. } => puts == 0 && deletes == keys@.len(),
                KvReplayStep::Truncate { .. } => puts == 0 && deletes == 1,
                KvReplayStep::DropSortedIndex { .. } => puts == 0 && deletes == offered.1,
                KvReplayStep::Ignore => puts == 0 && deletes == 0,
                KvReplayStep::Purged => puts == 0 && deletes == 0,
            }
        }),
        maps::total(Seq::<(KvReplayStep, (usize, usize))>::empty(), puts_of()) == 0,
        maps::total(Seq::<(KvReplayStep, (usize, usize))>::empty(), deletes_of()) == 0,
{
    maps::lemma_total_push(steps, (step, offered), puts_of());
    maps::lemma_total_push(steps, (step, offered), deletes_of());
}

} // verus!
