//! The record of a committing transaction.
use crate::wal::RecordType;
use vstd::prelude::*;

verus! {

/// One write, in the shape in which its engine logs it.
pub struct RedoSubRecord {
    pub record_type: RecordType,
    pub payload: Vec<u8>,
}

/// All writes of a transaction.
pub struct RedoRecord {
    pub version: u32,
    pub ops: Vec<RedoSubRecord>,
    /// The place of the transaction in an order agreed between nodes.
    pub calvin_stamp: Option<u64>,
}

/// A write as a mathematical value.
pub type OpView = (RecordType, Seq<u8>);

pub open spec fn op_view(op: RedoSubRecord) -> OpView {
    (op.record_type, op.payload@)
}

pub open spec fn op_views(ops: Seq<RedoSubRecord>) -> Seq<OpView> {
    ops.map_values(|op: RedoSubRecord| op_view(op))
}

pub(crate) fn push_op(ops: &mut Vec<RedoSubRecord>, record_type: RecordType, payload: Vec<u8>)
    ensures
        op_views(final(ops)@) == op_views(old(ops)@).push((record_type, payload@)),
{
    ops.push(RedoSubRecord { record_type, payload });
    proof {
        assert(op_views(ops@) =~= op_views(old(ops)@).push((record_type, payload@)));
    }
}

} // verus!
