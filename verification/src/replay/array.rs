//! Replay of array records.
use crate::core_loop::CoreLoop;
use crate::error::Error;
use crate::vectors::handlers::SyncProvenance;
use crate::wal;
use crate::wal::{RecordType, TombstoneSet, WalRecord};
use vstd::prelude::*;
use vstd::string::*;

verus! {

/// What an array record holds, once decoded. A cell is what the engine takes; the
/// replay only counts cells and hands them on.
pub struct ArrayPayload<C> {
    pub array: String,
    /// The cells that the record writes or deletes.
    pub cells: Vec<C>,
    pub provenance: Option<SyncProvenance>,
}

/// A record with its payload, where that decodes.
pub struct ArrayRecord<C> {
    pub record: WalRecord,
    pub payload: Option<ArrayPayload<C>>,
}

/// What a record asks of the array engine.
pub enum ArrayReplayStep<C> {
    /// No array record, or a record of another core.
    Ignore,
    /// The payload does not decode.
    Undecodable,
    /// The array was purged later.
    Purged,
    /// Open the array, then write the cells at the record's place in the log.
    Put { payload: ArrayPayload<C>, lsn: u64 },
    /// Open the array, then delete the cells at the record's place in the log.
    Delete { payload: ArrayPayload<C>, lsn: u64 },
}

pub open spec fn array_step<C>(
    core_id: usize,
    rec: ArrayRecord<C>,
    num_cores: usize,
    tombstones: TombstoneSet,
) -> ArrayReplayStep<C> {
    let r = rec.record;
    if (r.record_type != RecordType::ArrayPut && r.record_type != RecordType::ArrayDelete)
        || wal::target_core(r.vshard_id, num_cores) != core_id {
        ArrayReplayStep::Ignore
    } else {
        match rec.payload {
            None => ArrayReplayStep::Undecodable,
            Some(payload) => if tombstones.covers(r.tenant_id, payload.array@, r.lsn) {
                ArrayReplayStep::Purged
            } else if r.record_type == RecordType::ArrayPut {
                ArrayReplayStep::Put { payload, lsn: r.lsn }
            } else {
                ArrayReplayStep::Delete { payload, lsn: r.lsn }
            },
        }
    }
}

impl CoreLoop {
    /// The step that this core takes for each record of the log, in order.
    pub fn replay_array_wal<C>(
        &self,
        records: Vec<ArrayRecord<C>>,
        num_cores: usize,
        tombstones: &TombstoneSet,
    ) -> (r: Vec<ArrayReplayStep<C>>)
        ensures
            r@.len() == records@.len(),
            forall|i: int|
                0 <= i < r@.len() ==> #[trigger] r@[i] == array_step(
                    self.core_id,
                    records@[i],
                    num_cores,
                    *tombstones,
                ),
    {
        let ghost all = records@;
        let mut out: Vec<ArrayReplayStep<C>> = Vec::new();
        for rec in it: records.into_iter()
            invariant
                it.seq() == all,
                out@.len() == it.index(),
                forall|j: int|
                    0 <= j < out@.len() ==> #[trigger] out@[j] == array_step(
                        self.core_id,
                        all[j],
                        num_cores,
                        *tombstones,
                    ),
        {
            let r = rec.record;
            let step = if (r.record_type != RecordType::ArrayPut && r.record_type
                != RecordType::ArrayDelete) || !wal::is_routed_to(
                r.vshard_id,
                num_cores,
                self.core_id,
            ) {
                ArrayReplayStep::Ignore
            } else {
                match rec.payload {
                    None => ArrayReplayStep::Undecodable,
                    Some(payload) => if tombstones.is_tombstoned(
                        r.tenant_id,
                        payload.array.as_str(),
                        r.lsn,
                    ) {
                        ArrayReplayStep::Purged
                    } else if r.record_type == RecordType::ArrayPut {
                        ArrayReplayStep::Put { payload, lsn: r.lsn }
                    } else {
                        ArrayReplayStep::Delete { payload, lsn: r.lsn }
                    },
                }
            };
            out.push(step);
        }
        out
    }
}

/// What came of carrying out a step: cells written, cells deleted, and the
/// writer's place that is to be committed.
#[derive(Clone, Copy, Debug, PartialEq, Eq, Structural)]
pub struct ArrayOutcome {
    pub puts: usize,
    pub deletes: usize,
    pub commit: Option<SyncProvenance>,
}

/// What counts of a step: nothing unless the array opened and the engine took the
/// cells.
pub open spec fn counted<C>(step: ArrayReplayStep<C>, opened: bool, taken: bool) -> (
    nat,
    nat,
    Option<SyncProvenance>,
) {
    match step {
        ArrayReplayStep::Put { payload, .. } if opened && taken => (
            payload.cells@.len(),
            0,
            payload.provenance,
        ),
        ArrayReplayStep::Delete { payload, .. } if opened && taken => (
            0,
            payload.cells@.len(),
            payload.provenance,
        ),
        _ => (0, 0, None),
    }
}

/// A step counts, and its writer's place is committed, only where the array
/// opened and the engine took the cells.
pub fn array_outcome<C>(step: &ArrayReplayStep<C>, opened: bool, taken: bool) -> (r: ArrayOutcome)
    ensures
        (r.puts as nat, r.deletes as nat, r.commit) == counted(*step, opened, taken),
{
    if opened && taken {
        match step {
            ArrayReplayStep::Put { payload, .. } => {
                return ArrayOutcome {
                    puts: payload.cells.len(),
                    deletes: 0,
                    commit: payload.provenance,
                };
            },
            ArrayReplayStep::Delete { payload, .. } => {
                return ArrayOutcome {
                    puts: 0,
                    deletes: payload.cells.len(),
                    commit: payload.provenance,
                };
            },
            _ => {},
        }
    }
    ArrayOutcome { puts: 0, deletes: 0, commit: None }
}

/// How far the opening of an array came.
pub enum ArrayOpening {
    /// The catalog's lock was poisoned.
    CatalogLocked,
    /// The catalog does not know the array.
    Missing,
    /// The stored schema does not decode, for this reason.
    BadSchema(String),
    /// The engine refused the array, for this reason.
    Refused(String),
    Opened,
}

/// Whether an array is open for the replay, and the error when it is not.
pub fn ensure_array_open_for_replay(name: &str, opening: ArrayOpening) -> (r: Result<(), Error>)
    ensures
        match opening {
            ArrayOpening::CatalogLocked => r matches Err(Error::Internal { detail }) && detail@
                == "array catalog lock poisoned during WAL replay"@,
            ArrayOpening::Missing => r matches Err(Error::Internal { detail }) && detail@
                == "array '"@ + name@ + "' missing from catalog during WAL replay"@,
            ArrayOpening::BadSchema(e) => r matches Err(Error::Serialization { format, detail })
                && format@ == "msgpack"@ && detail@ == "array schema decode during WAL replay: "@
                + e@,
            ArrayOpening::Refused(e) => r matches Err(Error::Internal { detail }) && detail@
                == "array open during WAL replay: "@ + e@,
            ArrayOpening::Opened => r is Ok,
        },
{
    match opening {
        ArrayOpening::CatalogLocked => Err(
            Error::Internal { detail: "array catalog lock poisoned during WAL replay".to_owned() },
        ),
        ArrayOpening::Missing => {
            let mut detail = "array '".to_owned();
            detail.append(name);
            detail.append("' missing from catalog during WAL replay");
            Err(Error::Internal { detail })
        },
        ArrayOpening::BadSchema(e) => {
            let mut detail = "array schema decode during WAL replay: ".to_owned();
            detail.append(e.as_str());
            Err(Error::Serialization { format: "msgpack".to_owned(), detail })
        },
        ArrayOpening::Refused(e) => {
            let mut detail = "array open during WAL replay: ".to_owned();
            detail.append(e.as_str());
            Err(Error::Internal { detail })
        },
        ArrayOpening::Opened => Ok(()),
    }
}

/// A record of this core writes its cells where it is a put and deletes them
/// where it is a delete, at its own place in the log, unless the array was purged
/// later; every other record changes nothing.
pub proof fn law_array_cells_follow_their_record<C>(
    core_id: usize,
    rec: ArrayRecord<C>,
    num_cores: usize,
    tombstones: TombstoneSet,
)
    ensures
        ({
            let r = rec.record;
            let step = array_step(core_id, rec, num_cores, tombstones);
            let own = wal::target_core(r.vshard_id, num_cores) == core_id;
            let purged = rec.payload matches Some(p) && tombstones.purges().contains_key(
                (r.tenant_id, p.array@),
            ) && r.lsn < tombstones.purges()[(r.tenant_id, p.array@)];
            &&& step is Put <==> own && r.record_type == RecordType::ArrayPut && rec.payload is Some
                && !purged
            &&& step is Delete <==> own && r.record_type == RecordType::ArrayDelete
                && rec.payload is Some && !purged
            &&& step is Purged <==> own && (r.record_type == RecordType::ArrayPut || r.record_type
                == RecordType::ArrayDelete) && purged
            &&& step is Undecodable <==> own && (r.record_type == RecordType::ArrayPut
                || r.record_type == RecordType::ArrayDelete) && rec.payload is None
            &&& step matches ArrayReplayStep::Put { payload, lsn } ==> Some(payload) == rec.payload
                && lsn == r.lsn
            &&& step matches ArrayReplayStep::Delete { payload, lsn } ==> Some(payload)
                == rec.payload && lsn == r.lsn
        }),
{
}

/// Cells count, and the writer's mark is committed, exactly where the array was
/// opened and the engine took the cells.
pub proof fn law_only_taken_cells_count<C>(
    payload: ArrayPayload<C>,
    lsn: u64,
    opened: bool,
    taken: bool,
)
    ensures
        ({
            let put = counted(ArrayReplayStep::Put { payload, lsn }, opened, taken);
            let delete = counted(ArrayReplayStep::Delete { payload, lsn }, opened, taken);
            &&& put.1 == 0 && delete.0 == 0
            &&& opened && taken ==> put.0 == payload.cells@.len() && delete.1
                == payload.cells@.len() && put.2 == payload.provenance && delete.2
                == payload.provenance
            &&& !opened || !taken ==> put.0 == 0 && delete.1 == 0 && put.2 is None && delete.2
                is None
        }),
        counted(ArrayReplayStep::<C>::Ignore, opened, taken) == (0nat, 0nat, None::<SyncProvenance>),
        counted(ArrayReplayStep::<C>::Purged, opened, taken) == (0nat, 0nat, None::<SyncProvenance>),
        counted(ArrayReplayStep::<C>::Undecodable, opened, taken) == (
            0nat,
            0nat,
            None::<SyncProvenance>,
        ),
{
}

} // verus!
