//! Replay of CRDT deltas.
//!
//! Importing a delta twice changes nothing, so no delta is held back by its
//! LSN; deletions travel inside the deltas, so no purge is consulted either.
use crate::core_loop::CoreLoop;
use crate::wal;
use crate::wal::{RecordType, WalRecord};
use vstd::prelude::*;

verus! {

/// What a delta record holds, once decoded.
pub struct CrdtPayload {
    pub bytes: Vec<u8>,
    pub collection: Option<String>,
}

/// A record with its payload, where that decodes.
pub struct CrdtRecord {
    pub record: WalRecord,
    pub payload: Option<CrdtPayload>,
}

/// What a record asks of the CRDT engine.
pub enum CrdtReplayStep {
    /// No delta, or a delta of another core.
    Ignore,
    /// The payload does not decode.
    Undecodable,
    /// The delta names no collection, so there is nothing to import it into.
    NoCollection,
    /// Import the delta into a collection of a tenant.
    Import { tenant_id: u64, collection: String, bytes: Vec<u8> },
}

pub open spec fn crdt_step(
    core_id: usize,
    rec: CrdtRecord,
    num_cores: usize,
    step: CrdtReplayStep,
) -> bool {
    if rec.record.record_type != RecordType::CrdtDelta || wal::target_core(
        rec.record.vshard_id,
        num_cores,
    ) != core_id {
        step is Ignore
    } else {
        match rec.payload {
            None => step is Undecodable,
            Some(p) => match p.collection {
                None => step is NoCollection,
                Some(c) => step matches CrdtReplayStep::Import { tenant_id, collection, bytes }
                    && tenant_id == rec.record.tenant_id && collection@ == c@ && bytes@ == p.bytes@,
            },
        }
    }
}

impl CoreLoop {
    /// The step that this core takes for each record of the log, in order.
    pub fn replay_crdt_wal(&self, records: &Vec<CrdtRecord>, num_cores: usize) -> (r: Vec<
        CrdtReplayStep,
    >)
        ensures
            r@.len() == records@.len(),
            forall|i: int|
                0 <= i < r@.len() ==> crdt_step(
                    self.core_id,
                    records@[i],
                    num_cores,
                    #[trigger] r@[i],
                ),
    {
        let mut out: Vec<CrdtReplayStep> = Vec::new();
        let mut i: usize = 0;
        while i < records.len()
            invariant
                i <= records@.len(),
                out@.len() == i,
                forall|j: int|
                    0 <= j < i ==> crdt_step(
                        self.core_id,
                        records@[j],
                        num_cores,
                        #[trigger] out@[j],
                    ),
            decreases records.len() - i,
        {
            let rec = &records[i];
            let step = if rec.record.record_type != RecordType::CrdtDelta || !wal::is_routed_to(
                rec.record.vshard_id,
                num_cores,
                self.core_id,
            ) {
                CrdtReplayStep::Ignore
            } else {
                match &rec.payload {
                    None => CrdtReplayStep::Undecodable,
                    Some(p) => match &p.collection {
                        None => CrdtReplayStep::NoCollection,
                        Some(c) => CrdtReplayStep::Import {
                            tenant_id: rec.record.tenant_id,
                            collection: c.clone(),
                            bytes: crate::text::copy_bytes(p.bytes.as_slice()),
                        },
                    },
                }
            };
            out.push(step);
            i = i + 1;
        }
        out
    }
}

/// How many of the imports succeeded.
pub open spec fn successes(outcomes: Seq<bool>) -> nat
    decreases outcomes.len(),
{
    if outcomes.len() == 0 {
        0
    } else {
        successes(outcomes.drop_last()) + if outcomes.last() {
            1nat
        } else {
            0nat
        }
    }
}

/// How many imports of a replay succeeded.
pub fn replayed_count(outcomes: &Vec<bool>) -> (r: usize)
    ensures
        r == successes(outcomes@),
{
    let mut n: usize = 0;
    let mut i: usize = 0;
    while i < outcomes.len()
        invariant
            i <= outcomes@.len(),
            n <= i,
            n == successes(outcomes@.take(i as int)),
        decreases outcomes.len() - i,
    {
        proof {
            assert(outcomes@.take(i + 1).drop_last() =~= outcomes@.take(i as int));
        }
        if outcomes[i] {
            n = n + 1;
        }
        i = i + 1;
    }
    proof {
        assert(outcomes@.take(outcomes@.len() as int) =~= outcomes@);
    }
    n
}

/// Each outcome of a delta's replay has one cause.
pub proof fn law_a_delta_is_imported_into_its_collection(
    core_id: usize,
    rec: CrdtRecord,
    num_cores: usize,
    step: CrdtReplayStep,
)
    requires
        crdt_step(core_id, rec, num_cores, step),
    ensures
        ({
            let own = rec.record.record_type == RecordType::CrdtDelta && wal::target_core(
                rec.record.vshard_id,
                num_cores,
            ) == core_id;
            &&& step is Ignore <==> !own
            &&& step is Undecodable <==> own && rec.payload is None
            &&& step is NoCollection <==> own && rec.payload is Some
                && rec.payload->0.collection is None
            &&& step is Import <==> own && rec.payload is Some && rec.payload->0.collection is Some
            &&& step matches CrdtReplayStep::Import { tenant_id, collection, bytes } ==> tenant_id
                == rec.record.tenant_id && collection@ == rec.payload->0.collection->0@ && bytes@
                == rec.payload->0.bytes@
        }),
{
}

/// The deltas that were imported are counted one by one.
pub proof fn law_each_import_counts_once(outcomes: Seq<bool>)
    ensures
        successes(outcomes.push(true)) == successes(outcomes) + 1,
        successes(outcomes.push(false)) == successes(outcomes),
        successes(Seq::<bool>::empty()) == 0,
{
    assert(outcomes.push(true).drop_last() =~= outcomes);
    assert(outcomes.push(false).drop_last() =~= outcomes);
}

} // verus!
