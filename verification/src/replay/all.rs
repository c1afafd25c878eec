//! The order in which a starting core replays the log and rebuilds indexes.
use crate::core_loop::CoreLoop;
use vstd::prelude::*;

verus! {

/// One pass over the records of the log.
#[derive(Clone, Copy, Debug, PartialEq, Eq, Structural)]
pub enum ReplayPass {
    Vector,
    VectorExtended,
    DocumentVector,
    Kv,
    Timeseries,
    Array,
    CrdtOrdered,
    Fts,
    Spatial,
    GraphNodeLabel,
    /// Committed transactions. A failure refuses the start.
    TransactionRedo,
    /// The high-water marks of synchronised writers. A failure refuses the start.
    SyncHwm,
}

/// Every pass, in the order that a restart needs.
pub open spec fn pass_order() -> Seq<ReplayPass> {
    seq![
        ReplayPass::Vector,
        ReplayPass::VectorExtended,
        ReplayPass::DocumentVector,
        ReplayPass::Kv,
        ReplayPass::Timeseries,
        ReplayPass::Array,
        ReplayPass::CrdtOrdered,
        ReplayPass::Fts,
        ReplayPass::Spatial,
        ReplayPass::GraphNodeLabel,
        ReplayPass::TransactionRedo,
        ReplayPass::SyncHwm,
    ]
}

impl CoreLoop {
    /// The passes over a log of so many records; none over an empty log.
    pub fn replay_all_wal(&self, record_count: usize) -> (r: Vec<ReplayPass>)
        ensures
            r@ == if record_count == 0 {
                Seq::<ReplayPass>::empty()
            } else {
                pass_order()
            },
    {
        let mut r: Vec<ReplayPass> = Vec::new();
        if record_count == 0 {
            return r;
        }
        r.push(ReplayPass::Vector);
        r.push(ReplayPass::VectorExtended);
        r.push(ReplayPass::DocumentVector);
        r.push(ReplayPass::Kv);
        r.push(ReplayPass::Timeseries);
        r.push(ReplayPass::Array);
        r.push(ReplayPass::CrdtOrdered);
        r.push(ReplayPass::Fts);
        r.push(ReplayPass::Spatial);
        r.push(ReplayPass::GraphNodeLabel);
        r.push(ReplayPass::TransactionRedo);
        r.push(ReplayPass::SyncHwm);
        proof {
            assert(r@ =~= pass_order());
        }
        r
    }
}

/// Whether a pass that failed refuses the start.
pub fn refuses_start(pass: ReplayPass, failed: bool) -> (r: bool)
    ensures
        r == (failed && (pass == ReplayPass::TransactionRedo || pass == ReplayPass::SyncHwm)),
{
    failed && (pass == ReplayPass::TransactionRedo || pass == ReplayPass::SyncHwm)
}

/// One stage of the recovery that follows the checkpoints.
#[derive(Clone, Copy, Debug, PartialEq, Eq, Structural)]
pub enum RecoveryStage {
    ReplayLog,
    RebuildVectorIndexes,
    RebuildSpatialIndexes,
}

/// The stages of the recovery: the log first, then the rebuilds that lay the
/// durable rows over what it restored.
pub fn replay_wal_and_rebuild_indexes() -> (r: [RecoveryStage; 3])
    ensures
        r@ == seq![
            RecoveryStage::ReplayLog,
            RecoveryStage::RebuildVectorIndexes,
            RecoveryStage::RebuildSpatialIndexes,
        ],
{
    let r = [
        RecoveryStage::ReplayLog,
        RecoveryStage::RebuildVectorIndexes,
        RecoveryStage::RebuildSpatialIndexes,
    ];
    proof {
        assert(r@ =~= seq![
            RecoveryStage::ReplayLog,
            RecoveryStage::RebuildVectorIndexes,
            RecoveryStage::RebuildSpatialIndexes,
        ]);
    }
    r
}

/// Index parameters are declared before any pass that builds an index from
/// rows, and committed transactions are replayed after every engine.
pub proof fn law_pass_order(i: int, j: int)
    requires
        0 <= i < pass_order().len(),
        0 <= j < pass_order().len(),
    ensures
        pass_order()[i] == ReplayPass::Vector && pass_order()[j] != ReplayPass::Vector ==> i < j,
        pass_order()[j] == ReplayPass::TransactionRedo && pass_order()[i]
            != ReplayPass::TransactionRedo && pass_order()[i] != ReplayPass::SyncHwm ==> i < j,
        pass_order()[i] == pass_order()[j] ==> i == j,
{
}

/// A start replays every pass once where the log holds records: the engines'
/// passes, then the committed transactions, then the writers' marks at the end.
pub proof fn law_every_pass_has_its_place(pass: ReplayPass)
    ensures
        exists|i: int| 0 <= i < pass_order().len() && #[trigger] pass_order()[i] == pass,
        pass_order().last() == ReplayPass::SyncHwm,
        forall|i: int, j: int|
            0 <= i < pass_order().len() && 0 <= j < pass_order().len() && #[trigger] pass_order()[i]
                == ReplayPass::VectorExtended && #[trigger] pass_order()[j]
                == ReplayPass::DocumentVector ==> i < j,
        forall|i: int, j: int|
            0 <= i < pass_order().len() && 0 <= j < pass_order().len() && #[trigger] pass_order()[i]
                == ReplayPass::DocumentVector && #[trigger] pass_order()[j] == ReplayPass::Kv
                ==> i < j,
        forall|i: int, j: int|
            0 <= i < pass_order().len() && 0 <= j < pass_order().len() && #[trigger] pass_order()[i]
                == ReplayPass::Kv && #[trigger] pass_order()[j] == ReplayPass::Timeseries ==> i < j,
        forall|i: int, j: int|
            0 <= i < pass_order().len() && 0 <= j < pass_order().len() && #[trigger] pass_order()[i]
                == ReplayPass::Timeseries && #[trigger] pass_order()[j] == ReplayPass::Array ==> i
                < j,
        forall|i: int, j: int|
            0 <= i < pass_order().len() && 0 <= j < pass_order().len() && #[trigger] pass_order()[i]
                == ReplayPass::Array && #[trigger] pass_order()[j] == ReplayPass::CrdtOrdered ==> i
                < j,
        forall|i: int, j: int|
            0 <= i < pass_order().len() && 0 <= j < pass_order().len() && #[trigger] pass_order()[i]
                == ReplayPass::CrdtOrdered && #[trigger] pass_order()[j] == ReplayPass::Fts ==> i
                < j,
        forall|i: int, j: int|
            0 <= i < pass_order().len() && 0 <= j < pass_order().len() && #[trigger] pass_order()[i]
                == ReplayPass::Fts && #[trigger] pass_order()[j] == ReplayPass::Spatial ==> i < j,
        forall|i: int, j: int|
            0 <= i < pass_order().len() && 0 <= j < pass_order().len() && #[trigger] pass_order()[i]
                == ReplayPass::Spatial && #[trigger] pass_order()[j] == ReplayPass::GraphNodeLabel
                ==> i < j,
{
    let o = pass_order();
    assert(o[0] == ReplayPass::Vector && o[1] == ReplayPass::VectorExtended && o[2]
        == ReplayPass::DocumentVector && o[3] == ReplayPass::Kv && o[4] == ReplayPass::Timeseries
        && o[5] == ReplayPass::Array && o[6] == ReplayPass::CrdtOrdered && o[7] == ReplayPass::Fts
        && o[8] == ReplayPass::Spatial && o[9] == ReplayPass::GraphNodeLabel && o[10]
        == ReplayPass::TransactionRedo && o[11] == ReplayPass::SyncHwm);
}

} // verus!
