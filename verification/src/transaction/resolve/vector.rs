//! The vector writes of a transaction's record.
//!
//! Vector writes are not staged. The record holds the write itself, and a replay
//! builds the index again.
use crate::error::{Error, ErrorView};
use crate::transaction::plan::VectorOp;
use crate::transaction::resolve::record;
use crate::transaction::resolve::record::RedoSubRecord;
use crate::wal::RecordType;
use vstd::prelude::*;
use vstd::string::*;

verus! {

/// What an operation contributes.
pub enum VectorRedo {
    Write(RecordType),
    /// It reads, or maintains an index that a replay builds again.
    Nothing,
    Refused(ErrorView),
}

pub open spec fn vector_redo(op: VectorOp) -> VectorRedo {
    match op {
        VectorOp::Insert | VectorOp::BatchInsert => VectorRedo::Write(RecordType::VectorPut),
        VectorOp::Delete | VectorOp::DeleteBySurrogate => VectorRedo::Write(
            RecordType::VectorDelete,
        ),
        VectorOp::Search | VectorOp::MultiSearch | VectorOp::MultiVectorScoreSearch
        | VectorOp::SparseSearch | VectorOp::QueryStats | VectorOp::Seal | VectorOp::CompactIndex
        | VectorOp::Rebuild => VectorRedo::Nothing,
        VectorOp::SetParams => VectorRedo::Refused(
            ErrorView::PlanError {
                detail: "vector SetParams (index DDL) is not supported in transaction resolve"@,
            },
        ),
        VectorOp::DirectUpsert | VectorOp::MultiVectorInsert | VectorOp::MultiVectorDelete
        | VectorOp::SparseInsert | VectorOp::SparseDelete => VectorRedo::Refused(
            ErrorView::PlanError {
                detail:
                    "vector direct-upsert / multi-vector / sparse writes have no redo sub-record shape and are not supported in transaction resolve"@,
            },
        ),
    }
}

fn push_encoded(
    ops: &mut Vec<RedoSubRecord>,
    record_type: RecordType,
    payload: Result<Vec<u8>, Error>,
) -> (r: Result<(), Error>)
    ensures
        match payload {
            Ok(bytes) => r is Ok && record::op_views(final(ops)@) == record::op_views(
                old(ops)@,
            ).push((record_type, bytes@)),
            Err(e) => r == Err::<(), Error>(e) && final(ops)@ == old(ops)@,
        },
{
    match payload {
        Ok(bytes) => {
            record::push_op(ops, record_type, bytes);
            Ok(())
        },
        Err(e) => Err(e),
    }
}

/// Append the write of a vector operation. `payload` is the operation in the
/// shape in which its engine logs it.
pub fn serialize_vector_op(
    op: &VectorOp,
    payload: Result<Vec<u8>, Error>,
    ops: &mut Vec<RedoSubRecord>,
) -> (r: Result<(), Error>)
    ensures
        match vector_redo(*op) {
            VectorRedo::Write(t) => match payload {
                Ok(bytes) => r is Ok && record::op_views(final(ops)@) == record::op_views(
                    old(ops)@,
                ).push((t, bytes@)),
                Err(e) => r == Err::<(), Error>(e) && final(ops)@ == old(ops)@,
            },
            VectorRedo::Nothing => r is Ok && final(ops)@ == old(ops)@,
            VectorRedo::Refused(e) => r is Err && r->Err_0@ == e && final(ops)@ == old(ops)@,
        },
{
    match op {
        VectorOp::Insert => push_encoded(ops, RecordType::VectorPut, payload),
        VectorOp::BatchInsert => push_encoded(ops, RecordType::VectorPut, payload),
        VectorOp::Delete => push_encoded(ops, RecordType::VectorDelete, payload),
        VectorOp::DeleteBySurrogate => push_encoded(ops, RecordType::VectorDelete, payload),
        VectorOp::Search | VectorOp::MultiSearch | VectorOp::MultiVectorScoreSearch
        | VectorOp::SparseSearch | VectorOp::QueryStats => Ok(()),
        VectorOp::Seal | VectorOp::CompactIndex | VectorOp::Rebuild => Ok(()),
        VectorOp::SetParams => Err(
            Error::PlanError {
                detail:
                    "vector SetParams (index DDL) is not supported in transaction resolve".to_owned(),
            },
        ),
        VectorOp::DirectUpsert | VectorOp::MultiVectorInsert | VectorOp::MultiVectorDelete
        | VectorOp::SparseInsert | VectorOp::SparseDelete => Err(
            Error::PlanError {
                detail:
                    "vector direct-upsert / multi-vector / sparse writes have no redo sub-record shape and are not supported in transaction resolve".to_owned(),
            },
        ),
    }
}

/// No vector write is left out of a record in silence: an operation that
/// contributes nothing, and is not refused, reads or maintains.
pub proof fn law_no_vector_write_is_dropped(op: VectorOp)
    ensures
        vector_redo(op) is Nothing ==> op is Search || op is MultiSearch
            || op is MultiVectorScoreSearch || op is SparseSearch || op is QueryStats || op is Seal
            || op is CompactIndex || op is Rebuild,
{
}

/// Inserts are recorded as puts and deletes as deletes; what has no record of its
/// own is refused.
pub proof fn law_a_vector_write_has_its_record(op: VectorOp)
    ensures
        vector_redo(op) == VectorRedo::Write(RecordType::VectorPut) <==> op is Insert
            || op is BatchInsert,
        vector_redo(op) == VectorRedo::Write(RecordType::VectorDelete) <==> op is Delete
            || op is DeleteBySurrogate,
        vector_redo(op) is Refused <==> op is SetParams || op is DirectUpsert
            || op is MultiVectorInsert || op is MultiVectorDelete || op is SparseInsert
            || op is SparseDelete,
{
}

} // verus!
