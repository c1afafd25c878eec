//! A row delete inside a transaction.
//!
//! The write is begun, the delete applied with [`delete_request`], the write
//! committed; the first of the three that fails ends it uncommitted.
use crate::error::ErrorCode;
use crate::hex;
use crate::ids::Surrogate;
use crate::spatial::{BoundingBox, SpatialKey};
use crate::transaction::undo::{UndoEntry, VectorDelta};
use vstd::prelude::*;
use vstd::string::*;

verus! {

/// A delete.
pub struct TxPointDelete {
    pub database_id: u64,
    pub tid: u64,
    pub collection: String,
    pub document_id: String,
    pub surrogate: u32,
    pub user_roles: Vec<String>,
}

/// What the delete of a row is handed.
pub struct DeleteRequest<'a> {
    pub database_id: u64,
    pub tid: u64,
    pub collection: &'a str,
    pub document_id: &'a str,
    pub surrogate: u32,
    pub user_roles: &'a Vec<String>,
    /// Whether the collection's rules hold for the delete.
    pub enforce: bool,
}

/// The row is deleted under the name that was submitted, and under the
/// collection's rules.
pub fn delete_request<'a>(p: &'a TxPointDelete) -> (r: DeleteRequest<'a>)
    ensures
        r.database_id == p.database_id,
        r.tid == p.tid,
        r.collection@ == p.collection@,
        r.document_id@ == p.document_id@,
        r.surrogate == p.surrogate,
        r.user_roles@ == p.user_roles@,
        r.enforce,
{
    DeleteRequest {
        database_id: p.database_id,
        tid: p.tid,
        collection: p.collection.as_str(),
        document_id: p.document_id.as_str(),
        surrogate: p.surrogate,
        user_roles: &p.user_roles,
        enforce: true,
    }
}

/// An edge that went with the row: collection, source, label, destination and
/// properties.
pub struct EdgeDelete {
    pub collection: String,
    pub src_id: String,
    pub label: String,
    pub dst_id: String,
    pub old_properties: Vec<u8>,
}

/// A geometry entry that went with the row.
pub struct SpatialDelete {
    pub key: SpatialKey,
    pub entry_id: u64,
    pub bbox: BoundingBox,
    pub document_id: String,
}

/// What the delete did, as far as it has to be reversed.
pub struct DeleteOutcome {
    /// The row's value; none where there was no row.
    pub prior_value: Option<Vec<u8>>,
    pub bitemporal_sys_from_ms: Option<i64>,
    pub bitemporal_index_tuples: Vec<(String, String)>,
    pub secondary_index_tuples: Vec<(String, String)>,
    pub vector_deletes: Vec<VectorDelta>,
    pub spatial_deletes: Vec<SpatialDelete>,
    /// The node that the delete marked as deleted, where it was not marked yet.
    pub mark_node_deleted: Option<String>,
    pub edge_deletes: Vec<EdgeDelete>,
}

/// How the delete's calls came out: begin, apply, commit.
pub enum DeleteAnswers {
    BeginFault(String),
    ApplyFault(ErrorCode),
    CommitFault(String),
    Committed(DeleteOutcome),
}

/// The entry of the row itself: only where a row was removed.
pub open spec fn row_entries(p: TxPointDelete, o: DeleteOutcome, e: Seq<UndoEntry>) -> bool {
    match o.prior_value {
        None => e.len() == 0,
        Some(old) => e.len() == 1 && (e[0] matches UndoEntry::DeleteDocument {
            collection,
            document_id,
            surrogate,
            old_value,
            bitemporal_sys_from_ms,
            bitemporal_index_tuples,
            secondary_index_tuples,
            chain_hash_prior,
        } && collection@ == p.collection@ && document_id@ == hex::row_key(p.surrogate) && surrogate
            == p.surrogate && old_value == old && bitemporal_sys_from_ms == o.bitemporal_sys_from_ms
            && bitemporal_index_tuples == o.bitemporal_index_tuples && secondary_index_tuples
            == o.secondary_index_tuples && chain_hash_prior is None),
    }
}

/// The entries of what went with the row: vectors, geometry, the node's mark,
/// edges.
pub open spec fn cascade_entries(p: TxPointDelete, o: DeleteOutcome) -> Seq<UndoEntry> {
    o.vector_deletes@.map_values(|d: VectorDelta| UndoEntry::DeleteVector { delta: d })
        + o.spatial_deletes@.map_values(
        |s: SpatialDelete|
            UndoEntry::SpatialDelete {
                key: s.key,
                entry_id: s.entry_id,
                bbox: s.bbox,
                document_id: s.document_id,
            },
    ) + (match o.mark_node_deleted {
        Some(node) => seq![
            UndoEntry::MarkNodeDeleted { database_id: p.database_id, tid: p.tid, node_id: node },
        ],
        None => Seq::empty(),
    }) + o.edge_deletes@.map_values(
        |e: EdgeDelete|
            UndoEntry::DeleteEdge {
                collection: e.collection,
                src_id: e.src_id,
                label: e.label,
                dst_id: e.dst_id,
                old_properties: e.old_properties,
            },
    )
}

/// The delete's answer, and how many changes of the sparse store the next
/// checkpoint has to take up.
pub struct DeleteResult {
    pub answer: Result<(), ErrorCode>,
    pub dirty: u64,
}

/// What a delete comes to once its calls are answered. A delete that fails
/// writes no entries.
pub fn tx_point_delete(p: TxPointDelete, a: DeleteAnswers, undo_log: &mut Vec<UndoEntry>) -> (r:
    DeleteResult)
    ensures
        r.dirty == if a is Committed {
            1u64
        } else {
            0u64
        },
        match a {
            DeleteAnswers::BeginFault(e) => (r.answer matches Err(ErrorCode::Internal { detail }) && detail@
                == e@) && final(undo_log)@ == old(undo_log)@,
            DeleteAnswers::ApplyFault(e) => r.answer == Err::<(), ErrorCode>(e) && final(undo_log)@
                == old(undo_log)@,
            DeleteAnswers::CommitFault(e) => (r.answer matches Err(ErrorCode::Internal { detail })
                && detail@ == "commit: "@ + e@) && final(undo_log)@ == old(undo_log)@,
            DeleteAnswers::Committed(o) => r.answer is Ok && exists|row: Seq<UndoEntry>|
                #[trigger] row_entries(p, o, row) && final(undo_log)@ == old(undo_log)@ + row
                    + cascade_entries(p, o),
        },
{
    match a {
        DeleteAnswers::BeginFault(e) => DeleteResult {
            answer: Err(ErrorCode::Internal { detail: e }),
            dirty: 0,
        },
        DeleteAnswers::ApplyFault(e) => DeleteResult { answer: Err(e), dirty: 0 },
        DeleteAnswers::CommitFault(e) => {
            let mut detail = "commit: ".to_owned();
            detail.append(e.as_str());
            DeleteResult { answer: Err(ErrorCode::Internal { detail }), dirty: 0 }
        },
        DeleteAnswers::Committed(outcome) => {
            let ghost o = outcome;
            let ghost start = undo_log@;
            let ghost mut row: Seq<UndoEntry> = Seq::empty();
            let DeleteOutcome {
                prior_value,
                bitemporal_sys_from_ms,
                bitemporal_index_tuples,
                secondary_index_tuples,
                vector_deletes,
                spatial_deletes,
                mark_node_deleted,
                edge_deletes,
            } = outcome;
            match prior_value {
                Some(old) => {
                    let e = UndoEntry::DeleteDocument {
                        collection: p.collection.clone(),
                        document_id: hex::surrogate_to_doc_id(Surrogate(p.surrogate)),
                        surrogate: p.surrogate,
                        old_value: old,
                        bitemporal_sys_from_ms,
                        bitemporal_index_tuples,
                        secondary_index_tuples,
                        chain_hash_prior: None,
                    };
                    proof {
                        row = seq![e];
                    }
                    undo_log.push(e);
                },
                None => {},
            }
            proof {
                assert(row_entries(p, o, row));
                assert(undo_log@ =~= start + row);
            }
            let ghost f = |d: VectorDelta| UndoEntry::DeleteVector { delta: d };
            let ghost g = |s: SpatialDelete|
                UndoEntry::SpatialDelete {
                    key: s.key,
                    entry_id: s.entry_id,
                    bbox: s.bbox,
                    document_id: s.document_id,
                };
            let ghost h = |e: EdgeDelete|
                UndoEntry::DeleteEdge {
                    collection: e.collection,
                    src_id: e.src_id,
                    label: e.label,
                    dst_id: e.dst_id,
                    old_properties: e.old_properties,
                };
            let ghost a0 = undo_log@;
            let ghost vs = vector_deletes@;
            for d in it: vector_deletes.into_iter()
                invariant
                    it.seq() == vs,
                    f == (|d: VectorDelta| UndoEntry::DeleteVector { delta: d }),
                    undo_log@ == a0 + vs.take(it.index() as int).map_values(f),
            {
                let ghost n = it.index() as int;
                undo_log.push(UndoEntry::DeleteVector { delta: d });
                proof {
                    crate::maps::lemma_map_take_step(vs, n, f);
                    assert(undo_log@ =~= a0 + vs.take(n + 1).map_values(f));
                }
            }
            proof {
                assert(vs.take(vs.len() as int) =~= vs);
            }
            let ghost a1 = undo_log@;
            let ghost ss = spatial_deletes@;
            for s in it: spatial_deletes.into_iter()
                invariant
                    it.seq() == ss,
                    g == (|s: SpatialDelete|
                        UndoEntry::SpatialDelete {
                            key: s.key,
                            entry_id: s.entry_id,
                            bbox: s.bbox,
                            document_id: s.document_id,
                        }),
                    undo_log@ == a1 + ss.take(it.index() as int).map_values(g),
            {
                let ghost n = it.index() as int;
                undo_log.push(
                    UndoEntry::SpatialDelete {
                        key: s.key,
                        entry_id: s.entry_id,
                        bbox: s.bbox,
                        document_id: s.document_id,
                    },
                );
                proof {
                    crate::maps::lemma_map_take_step(ss, n, g);
                    assert(undo_log@ =~= a1 + ss.take(n + 1).map_values(g));
                }
            }
            proof {
                assert(ss.take(ss.len() as int) =~= ss);
            }
            let ghost a2 = undo_log@;
            match mark_node_deleted {
                Some(node_id) => {
                    undo_log.push(
                        UndoEntry::MarkNodeDeleted {
                            database_id: p.database_id,
                            tid: p.tid,
                            node_id,
                        },
                    );
                },
                None => {},
            }
            let ghost a3 = undo_log@;
            let ghost es = edge_deletes@;
            for e in it: edge_deletes.into_iter()
                invariant
                    it.seq() == es,
                    h == (|e: EdgeDelete|
                        UndoEntry::DeleteEdge {
                            collection: e.collection,
                            src_id: e.src_id,
                            label: e.label,
                            dst_id: e.dst_id,
                            old_properties: e.old_properties,
                        }),
                    undo_log@ == a3 + es.take(it.index() as int).map_values(h),
            {
                let ghost n = it.index() as int;
                undo_log.push(
                    UndoEntry::DeleteEdge {
                        collection: e.collection,
                        src_id: e.src_id,
                        label: e.label,
                        dst_id: e.dst_id,
                        old_properties: e.old_properties,
                    },
                );
                proof {
                    crate::maps::lemma_map_take_step(es, n, h);
                    assert(undo_log@ =~= a3 + es.take(n + 1).map_values(h));
                }
            }
            proof {
                assert(es.take(es.len() as int) =~= es);
                assert(undo_log@ =~= start + row + cascade_entries(p, o));
            }
            DeleteResult { answer: Ok(()), dirty: 1 }
        },
    }
}

/// The undo log gets one entry for each vector, each spatial entry, a node that was
/// marked as deleted and each edge that a delete took, in this order.
pub proof fn law_every_cascaded_delete_has_its_undo(p: TxPointDelete, o: DeleteOutcome, i: int)
    ensures
        ({
            let e = cascade_entries(p, o);
            let v = o.vector_deletes@.len();
            let s = o.spatial_deletes@.len();
            let m: nat = if o.mark_node_deleted is Some {
                1
            } else {
                0
            };
            &&& e.len() == v + s + m + o.edge_deletes@.len()
            &&& 0 <= i < v ==> e[i] == (UndoEntry::DeleteVector { delta: o.vector_deletes@[i] })
            &&& 0 <= i < s ==> e[v + i] == (UndoEntry::SpatialDelete {
                key: o.spatial_deletes@[i].key,
                entry_id: o.spatial_deletes@[i].entry_id,
                bbox: o.spatial_deletes@[i].bbox,
                document_id: o.spatial_deletes@[i].document_id,
            })
            &&& o.mark_node_deleted matches Some(node) ==> e[(v + s) as int] == (
            UndoEntry::MarkNodeDeleted { database_id: p.database_id, tid: p.tid, node_id: node })
            &&& 0 <= i < o.edge_deletes@.len() ==> e[v + s + m + i] == (UndoEntry::DeleteEdge {
                collection: o.edge_deletes@[i].collection,
                src_id: o.edge_deletes@[i].src_id,
                label: o.edge_deletes@[i].label,
                dst_id: o.edge_deletes@[i].dst_id,
                old_properties: o.edge_deletes@[i].old_properties,
            })
        }),
{
}

/// A row that was there has one entry, under its own key, with the value it had; a
/// row that was not there has none.
pub proof fn law_a_deleted_row_has_its_undo(p: TxPointDelete, o: DeleteOutcome, e: Seq<UndoEntry>)
    requires
        row_entries(p, o, e),
    ensures
        e.len() == 0 <==> o.prior_value is None,
        o.prior_value matches Some(old) ==> e.len() == 1 && (e[0] matches UndoEntry::DeleteDocument {
            collection,
            document_id,
            surrogate,
            old_value,
            bitemporal_sys_from_ms,
            bitemporal_index_tuples,
            secondary_index_tuples,
            chain_hash_prior,
        } && collection@ == p.collection@ && hex::parsed_hex_u32(document_id@) == Some(p.surrogate)
            && surrogate == p.surrogate && old_value == old && bitemporal_sys_from_ms
            == o.bitemporal_sys_from_ms && bitemporal_index_tuples == o.bitemporal_index_tuples
            && secondary_index_tuples == o.secondary_index_tuples && chain_hash_prior is None),
{
    hex::law_row_key_parses_back(p.surrogate);
}

} // verus!
