//! Replay of vector records.
//!
//! The shapes of a put record hold vectors, whose elements this crate does not
//! read: the caller decodes each shape and hands over what it holds besides.
use crate::codec;
use crate::core_loop::CoreLoop;
use crate::maps::MapKey;
use crate::vectors::registry;
use crate::vectors::registry::{ElementType, HnswParams, IndexKey, Registry};
use crate::vectors::handlers;
use crate::vectors::handlers::{
    DeleteTarget, SyncAdmit, SyncProvenance, VectorAction, VectorInsert, VectorReply,
};
use crate::wal;
use crate::wal::{RecordType, TombstoneSet, WalRecord};
use vstd::prelude::*;
use vstd::string::*;

verus! {

/// The newest shape of a put: with a surrogate and the writer's place.
pub struct SyncedPut {
    pub collection: String,
    pub vector_len: usize,
    pub dim: usize,
    pub field_name: String,
    pub surrogate: u32,
    pub provenance: Option<SyncProvenance>,
}

/// A put into a named field.
pub struct NamedPut {
    pub collection: String,
    pub vector_len: usize,
    pub dim: usize,
    pub field_name: String,
}

/// A put into the collection's index.
pub struct PlainPut {
    pub collection: String,
    pub vector_len: usize,
    pub dim: usize,
}

/// A put of several vectors into the collection's index.
pub struct BatchPut {
    pub collection: String,
    pub dim: usize,
}

/// A vector record with each shape of a put that its payload decodes as.
pub struct VectorRecord {
    pub record: WalRecord,
    pub synced_put: Option<SyncedPut>,
    pub named_put: Option<NamedPut>,
    pub plain_put: Option<PlainPut>,
    pub batch_put: Option<BatchPut>,
}

/// What a record asks of the vector engine.
pub enum VectorReplayStep {
    /// No vector record.
    Ignore,
    /// A record of another core.
    OtherCore,
    /// The collection was purged later.
    Purged,
    /// No shape decodes, or the vector has another length than it says, or the
    /// index has another dimension.
    Unusable,
    /// The parameters were declared in the registry.
    Params,
    /// An insert that went through the insert handler.
    Handled { reply: VectorReply, action: VectorAction },
    /// Insert into the index, bound to no surrogate.
    Insert { key: IndexKey, create: bool, params: Option<HnswParams> },
    /// A delete that went through the delete handler.
    Delete { target: Result<DeleteTarget, VectorReply>, surrogate: u32 },
    /// Delete a node of the index.
    DeleteNode { key: IndexKey, node: u32 },
    /// The index of a delete does not exist.
    NoIndex,
}

/// The declared parameters: twice as many connections on the lowest layer, as
/// far as the number fits, and elements of single precision.
pub open spec fn declared_params(m: usize, ef: usize, metric: Seq<char>) -> HnswParams {
    HnswParams {
        m,
        m0: if 2 * m <= usize::MAX {
            (2 * m) as usize
        } else {
            usize::MAX
        },
        ef_construction: ef,
        metric: registry::metric_of(metric),
        dtype: ElementType::F32,
    }
}

/// Whether a number is one that counts elements.
pub open spec fn counts(n: u64) -> bool {
    n <= usize::MAX
}

/// A parameter record that decodes as nine elements.
pub type ParamsView = (Seq<char>, u64, u64, Seq<char>, Seq<char>, u64, u64, u64, Seq<char>);

/// A parameter record that decodes as four elements.
pub type ShortParamsView = (Seq<char>, u64, u64, Seq<char>);

/// What a decoded parameter record declares: collection, field and parameters.
/// The longer form counts where it decodes. A record with a number that does not
/// fit declares nothing.
pub open spec fn params_declared(
    long: Option<ParamsView>,
    short: Option<ShortParamsView>,
) -> Option<(Seq<char>, Seq<char>, HnswParams)> {
    match long {
        Some((c, m, ef, metric, _, pq, cells, probe, field)) => if counts(m) && counts(ef) && counts(
            pq,
        ) && counts(cells) && counts(probe) {
            Some((c, field, declared_params(m as usize, ef as usize, metric)))
        } else {
            None
        },
        None => match short {
            Some((c, m, ef, metric)) => if counts(m) && counts(ef) {
                Some((c, Seq::<char>::empty(), declared_params(m as usize, ef as usize, metric)))
            } else {
                None
            },
            None => None,
        },
    }
}

/// What a parameter record declares.
pub open spec fn params_in(b: Seq<u8>) -> Option<(Seq<char>, Seq<char>, HnswParams)> {
    params_declared(codec::vector_params_of(b), codec::vector_params_short_of(b))
}

pub open spec fn long_view(
    p: Option<(String, u64, u64, String, String, u64, u64, u64, String)>,
) -> Option<ParamsView> {
    match p {
        Some(t) => Some((t.0@, t.1, t.2, t.3@, t.4@, t.5, t.6, t.7, t.8@)),
        None => None,
    }
}

pub open spec fn short_view(p: Option<(String, u64, u64, String)>) -> Option<ShortParamsView> {
    match p {
        Some(t) => Some((t.0@, t.1, t.2, t.3@)),
        None => None,
    }
}

/// The step of a parameter record, given what it declares.
pub open spec fn params_step(
    r: WalRecord,
    declared: Option<(Seq<char>, Seq<char>, HnswParams)>,
    tombstones: TombstoneSet,
    before: Registry,
    after: Registry,
    step: VectorReplayStep,
) -> bool {
    match declared {
        None => step is Unusable && after == before,
        Some((c, field, p)) => if tombstones.covers(r.tenant_id, c, r.lsn) {
            step is Purged && after == before
        } else {
            step is Params && after == (Registry {
                params: before.params.insert(
                    (r.database_id, r.tenant_id, registry::index_name(c, field)),
                    p,
                ),
                ..before
            })
        },
    }
}

/// An insert past the handler: into an index that exists with this dimension or
/// is created with it.
pub open spec fn direct_insert(
    key: registry::IndexId,
    dim: usize,
    before: Registry,
    after: Registry,
    step: VectorReplayStep,
) -> bool {
    if handlers::dimension_clash(before, key, dim) {
        step is Unusable && after == before
    } else {
        (step matches VectorReplayStep::Insert { key: k, create, params } && k.key() == key && create
            == !before.dims.contains_key(key) && params == handlers::declared(before, key)) && after
            == handlers::with_index(before, key, dim)
    }
}

/// The verdict that a handler gets: that of the guard, where the record names
/// its writer.
pub open spec fn verdict_for<P>(p: Option<P>, verdict: SyncAdmit) -> Option<SyncAdmit> {
    if p is Some {
        Some(verdict)
    } else {
        None
    }
}

pub open spec fn handled(
    p: VectorInsert,
    verdict: Option<SyncAdmit>,
    before: Registry,
    after: Registry,
    reply: VectorReply,
    action: VectorAction,
) -> bool {
    match verdict {
        None => handlers::inserted(p, before, after, reply, action),
        Some(SyncAdmit::Apply) => exists|inner: VectorReply|
            {
                &&& #[trigger] handlers::inserted(p, before, after, inner, action)
                &&& reply == if inner is Done {
                    VectorReply::Applied
                } else {
                    inner
                }
            },
        Some(held) => reply == VectorReply::Held(held) && action is Nothing && after == before,
    }
}

/// The step of a put record: the newest shape that decodes counts.
pub open spec fn put_step(
    rec: VectorRecord,
    tombstones: TombstoneSet,
    verdict: SyncAdmit,
    before: Registry,
    after: Registry,
    step: VectorReplayStep,
) -> bool {
    let r = rec.record;
    if let Some(p) = rec.synced_put {
        if tombstones.covers(r.tenant_id, p.collection@, r.lsn) {
            step is Purged && after == before
        } else if p.vector_len != p.dim {
            step is Unusable && after == before
        } else {
            step matches VectorReplayStep::Handled { reply, action } && exists|q: VectorInsert|
                {
                    &&& q.key() == (
                        r.database_id,
                        r.tenant_id,
                        registry::index_name(p.collection@, p.field_name@),
                    )
                    &&& q.vector_len == p.vector_len
                    &&& q.dim == p.dim
                    &&& q.surrogate == p.surrogate
                    &&& #[trigger] handled(
                        q,
                        verdict_for(p.provenance, verdict),
                        before,
                        after,
                        reply,
                        action,
                    )
                }
        }
    } else if let Some(p) = rec.named_put {
        if tombstones.covers(r.tenant_id, p.collection@, r.lsn) {
            step is Purged && after == before
        } else if p.vector_len != p.dim {
            step is Unusable && after == before
        } else {
            direct_insert(
                (r.database_id, r.tenant_id, registry::index_name(p.collection@, p.field_name@)),
                p.dim,
                before,
                after,
                step,
            )
        }
    } else if let Some(p) = rec.plain_put {
        if tombstones.covers(r.tenant_id, p.collection@, r.lsn) {
            step is Purged && after == before
        } else if p.vector_len != p.dim {
            step is Unusable && after == before
        } else {
            direct_insert(
                (r.database_id, r.tenant_id, p.collection@),
                p.dim,
                before,
                after,
                step,
            )
        }
    } else if let Some(p) = rec.batch_put {
        let key = (r.database_id, r.tenant_id, p.collection@);
        if tombstones.covers(r.tenant_id, p.collection@, r.lsn) {
            step is Purged && after == before
        } else {
            (step matches VectorReplayStep::Insert { key: k, create, params } && k.key() == key
                && create == !before.dims.contains_key(key) && params == handlers::declared(
                before,
                key,
            )) && after == handlers::with_index(before, key, p.dim)
        }
    } else {
        step is Unusable && after == before
    }
}

/// The index that a delete by surrogate looks in.
pub open spec fn delete_target(
    s: Registry,
    r: WalRecord,
    collection: Seq<char>,
    field: Seq<char>,
    target: DeleteTarget,
) -> bool {
    let named = (r.database_id, r.tenant_id, registry::index_name(collection, field));
    let plain = (r.database_id, r.tenant_id, collection);
    if s.dims.contains_key(named) {
        target matches DeleteTarget::Index(k) && k.key() == named
    } else if s.dims.contains_key(plain) {
        target matches DeleteTarget::Index(k) && k.key() == plain
    } else {
        target is Absent
    }
}

/// Collection and node of a delete by node: with its writer, or the two alone.
pub open spec fn deleted_node(b: Seq<u8>) -> Option<(Seq<char>, u32)> {
    match codec::node_delete_of(b) {
        Some((c, id, _)) => Some((c, id)),
        None => codec::text_number_of(b),
    }
}

/// The step of a delete record.
pub open spec fn delete_step(
    rec: VectorRecord,
    tombstones: TombstoneSet,
    verdict: SyncAdmit,
    s: Registry,
    step: VectorReplayStep,
) -> bool {
    let r = rec.record;
    if let Some((collection, bound, field, writer)) = codec::surrogate_delete_of(r.payload@) {
        if tombstones.covers(r.tenant_id, collection, r.lsn) {
            step is Purged
        } else {
            step matches VectorReplayStep::Delete { target, surrogate } && surrogate == bound
                && match verdict_for(writer, verdict) {
                Some(SyncAdmit::Duplicate) => target == Err::<DeleteTarget, VectorReply>(
                    VectorReply::Held(SyncAdmit::Duplicate),
                ),
                Some(SyncAdmit::Fenced) => target == Err::<DeleteTarget, VectorReply>(
                    VectorReply::Held(SyncAdmit::Fenced),
                ),
                Some(SyncAdmit::Gap) => target == Err::<DeleteTarget, VectorReply>(
                    VectorReply::Held(SyncAdmit::Gap),
                ),
                _ => target is Ok && delete_target(
                    s,
                    r,
                    collection,
                    field,
                    target->Ok_0,
                ),
            }
        }
    } else {
        match deleted_node(r.payload@) {
            None => step is Unusable,
            Some((c, id)) => if tombstones.covers(r.tenant_id, c, r.lsn) {
                step is Purged
            } else if s.dims.contains_key((r.database_id, r.tenant_id, c)) {
                step matches VectorReplayStep::DeleteNode { key, node } && key.key() == (
                    r.database_id,
                    r.tenant_id,
                    c,
                ) && node == id
            } else {
                step is NoIndex
            },
        }
    }
}

/// The step that a core takes for a record, and what it makes of the registry.
pub open spec fn took_step(
    core_id: usize,
    rec: VectorRecord,
    num_cores: usize,
    tombstones: TombstoneSet,
    verdict: SyncAdmit,
    before: Registry,
    after: Registry,
    step: VectorReplayStep,
) -> bool {
    let r = rec.record;
    if r.record_type != RecordType::VectorPut && r.record_type != RecordType::VectorDelete
        && r.record_type != RecordType::VectorParams {
        step is Ignore && after == before
    } else if wal::target_core(r.vshard_id, num_cores) != core_id {
        step is OtherCore && after == before
    } else if r.record_type == RecordType::VectorParams {
        params_step(r, params_in(r.payload@), tombstones, before, after, step)
    } else if r.record_type == RecordType::VectorPut {
        put_step(rec, tombstones, verdict, before, after, step)
    } else {
        delete_step(rec, tombstones, verdict, before, step) && after == before
    }
}

impl CoreLoop {
    fn replay_vector_params(&mut self, r: &WalRecord, tombstones: &TombstoneSet) -> (step:
        VectorReplayStep)
        ensures
            params_step(
                *r,
                params_in(r.payload@),
                *tombstones,
                old(self).vectors@,
                final(self).vectors@,
                step,
            ),
            final(self).core_id == old(self).core_id,
            final(self).chains@ == old(self).chains@,
            final(self).spatial@ == old(self).spatial@,
            final(self).timeseries@ == old(self).timeseries@,
            final(self).columnar@ == old(self).columnar@,
            final(self).held@ == old(self).held@,
    {
        let b = r.payload.as_slice();
        match codec::decode_vector_params(b) {
            Some(long) => self.replay_declared_params(r, Some(long), None, tombstones),
            None => self.replay_declared_params(
                r,
                None,
                codec::decode_vector_params_short(b),
                tombstones,
            ),
        }
    }

    /// The step of a parameter record, given what its payload decodes as.
    pub fn replay_declared_params(
        &mut self,
        r: &WalRecord,
        long: Option<(String, u64, u64, String, String, u64, u64, u64, String)>,
        short: Option<(String, u64, u64, String)>,
        tombstones: &TombstoneSet,
    ) -> (step: VectorReplayStep)
        ensures
            params_step(
                *r,
                params_declared(long_view(long), short_view(short)),
                *tombstones,
                old(self).vectors@,
                final(self).vectors@,
                step,
            ),
            final(self).core_id == old(self).core_id,
            final(self).chains@ == old(self).chains@,
            final(self).spatial@ == old(self).spatial@,
            final(self).timeseries@ == old(self).timeseries@,
            final(self).columnar@ == old(self).columnar@,
            final(self).held@ == old(self).held@,
    {
        let most: u64 = usize::MAX as u64;
        let decoded: Option<(String, usize, usize, String, String)> = match long {
            Some((c, m, ef, metric, _, pq, cells, probe, field)) => if m <= most && ef <= most && pq
                <= most && cells <= most && probe <= most {
                Some((c, m as usize, ef as usize, metric, field))
            } else {
                None
            },
            None => match short {
                Some((c, m, ef, metric)) => if m <= most && ef <= most {
                    Some((c, m as usize, ef as usize, metric, String::new()))
                } else {
                    None
                },
                None => None,
            },
        };
        match decoded {
            None => VectorReplayStep::Unusable,
            Some((c, m, ef, metric, field)) => {
                if tombstones.is_tombstoned(r.tenant_id, c.as_str(), r.lsn) {
                    return VectorReplayStep::Purged;
                }
                let key = registry::vector_index_key(
                    r.database_id,
                    r.tenant_id,
                    c.as_str(),
                    field.as_str(),
                );
                let m0: usize = if m <= usize::MAX / 2 {
                    2 * m
                } else {
                    usize::MAX
                };
                let p = HnswParams {
                    m,
                    m0,
                    ef_construction: ef,
                    metric: registry::parse_metric(metric.as_str()),
                    dtype: ElementType::F32,
                };
                self.vectors.set_params(key, p);
                VectorReplayStep::Params
            },
        }
    }

    /// Insert past the handler.
    fn replay_direct_insert(
        &mut self,
        r: &WalRecord,
        collection: &str,
        field: &str,
        dim: usize,
    ) -> (step: VectorReplayStep)
        ensures
            direct_insert(
                (r.database_id, r.tenant_id, registry::index_name(collection@, field@)),
                dim,
                old(self).vectors@,
                final(self).vectors@,
                step,
            ),
            final(self).core_id == old(self).core_id,
            final(self).chains@ == old(self).chains@,
            final(self).spatial@ == old(self).spatial@,
            final(self).timeseries@ == old(self).timeseries@,
            final(self).columnar@ == old(self).columnar@,
            final(self).held@ == old(self).held@,
    {
        match handlers::get_or_create_vector_index(
            &mut self.vectors,
            r.database_id,
            r.tenant_id,
            collection,
            dim,
            field,
        ) {
            Ok((key, create, params)) => VectorReplayStep::Insert { key, create, params },
            Err(_) => VectorReplayStep::Unusable,
        }
    }

    fn replay_vector_put(
        &mut self,
        rec: &VectorRecord,
        tombstones: &TombstoneSet,
        verdict: SyncAdmit,
    ) -> (step: VectorReplayStep)
        ensures
            put_step(
                *rec,
                *tombstones,
                verdict,
                old(self).vectors@,
                final(self).vectors@,
                step,
            ),
            final(self).core_id == old(self).core_id,
            final(self).chains@ == old(self).chains@,
            final(self).spatial@ == old(self).spatial@,
            final(self).timeseries@ == old(self).timeseries@,
            final(self).columnar@ == old(self).columnar@,
            final(self).held@ == old(self).held@,
    {
        let r = &rec.record;
        proof {
            reveal_strlit("");
        }
        if let Some(p) = &rec.synced_put {
            if tombstones.is_tombstoned(r.tenant_id, p.collection.as_str(), r.lsn) {
                return VectorReplayStep::Purged;
            }
            if p.vector_len != p.dim {
                return VectorReplayStep::Unusable;
            }
            let q = VectorInsert {
                database_id: r.database_id,
                tid: r.tenant_id,
                collection: p.collection.as_str(),
                field_name: p.field_name.as_str(),
                vector_len: p.vector_len,
                dim: p.dim,
                surrogate: p.surrogate,
            };
            let v: Option<SyncAdmit> = if p.provenance.is_some() {
                Some(verdict)
            } else {
                None
            };
            let (reply, action) = handlers::execute_vector_insert(&mut self.vectors, &q, v);
            proof {
                assert(handled(
                    q,
                    verdict_for(p.provenance, verdict),
                    old(self).vectors@,
                    self.vectors@,
                    reply,
                    action,
                ));
            }
            return VectorReplayStep::Handled { reply, action };
        }
        if let Some(p) = &rec.named_put {
            if tombstones.is_tombstoned(r.tenant_id, p.collection.as_str(), r.lsn) {
                return VectorReplayStep::Purged;
            }
            if p.vector_len != p.dim {
                return VectorReplayStep::Unusable;
            }
            return self.replay_direct_insert(
                r,
                p.collection.as_str(),
                p.field_name.as_str(),
                p.dim,
            );
        }
        if let Some(p) = &rec.plain_put {
            if tombstones.is_tombstoned(r.tenant_id, p.collection.as_str(), r.lsn) {
                return VectorReplayStep::Purged;
            }
            if p.vector_len != p.dim {
                return VectorReplayStep::Unusable;
            }
            return self.replay_direct_insert(r, p.collection.as_str(), "", p.dim);
        }
        if let Some(p) = &rec.batch_put {
            if tombstones.is_tombstoned(r.tenant_id, p.collection.as_str(), r.lsn) {
                return VectorReplayStep::Purged;
            }
            let key = registry::vector_index_key(
                r.database_id,
                r.tenant_id,
                p.collection.as_str(),
                "",
            );
            let params = self.vectors.params_of(&key);
            let create = self.vectors.dim_of(&key).is_none();
            if create {
                let copy = key.copy();
                self.vectors.set_dim(copy, p.dim);
            }
            return VectorReplayStep::Insert { key, create, params };
        }
        VectorReplayStep::Unusable
    }

    fn replay_vector_delete(
        &self,
        rec: &VectorRecord,
        tombstones: &TombstoneSet,
        verdict: SyncAdmit,
    ) -> (step: VectorReplayStep)
        ensures
            delete_step(*rec, *tombstones, verdict, self.vectors@, step),
    {
        let r = &rec.record;
        proof {
            reveal_strlit("");
        }
        let b = r.payload.as_slice();
        if let Some((collection, surrogate, field, writer)) = codec::decode_surrogate_delete(b) {
            if tombstones.is_tombstoned(r.tenant_id, collection.as_str(), r.lsn) {
                return VectorReplayStep::Purged;
            }
            let v: Option<SyncAdmit> = if writer.is_some() {
                Some(verdict)
            } else {
                None
            };
            let target = handlers::execute_vector_delete_by_surrogate(
                &self.vectors,
                r.database_id,
                r.tenant_id,
                collection.as_str(),
                field.as_str(),
                v,
            );
            return VectorReplayStep::Delete { target, surrogate };
        }
        let found: Option<(String, u32)> = match codec::decode_node_delete(b) {
            Some((c, id, _)) => Some((c, id)),
            None => codec::decode_text_number(b),
        };
        match found {
            None => VectorReplayStep::Unusable,
            Some((c, id)) => {
                if tombstones.is_tombstoned(r.tenant_id, c.as_str(), r.lsn) {
                    return VectorReplayStep::Purged;
                }
                let key = registry::vector_index_key(
                    r.database_id,
                    r.tenant_id,
                    c.as_str(),
                    "",
                );
                if self.vectors.dim_of(&key).is_some() {
                    VectorReplayStep::DeleteNode { key, node: id }
                } else {
                    VectorReplayStep::NoIndex
                }
            },
        }
    }

    /// The step of one record. `verdict` is what the guard says of a record that
    /// names its writer.
    pub fn replay_vector_record(
        &mut self,
        rec: &VectorRecord,
        num_cores: usize,
        tombstones: &TombstoneSet,
        verdict: SyncAdmit,
    ) -> (step: VectorReplayStep)
        ensures
            took_step(
                old(self).core_id,
                *rec,
                num_cores,
                *tombstones,
                verdict,
                old(self).vectors@,
                final(self).vectors@,
                step,
            ),
            final(self).core_id == old(self).core_id,
            final(self).chains@ == old(self).chains@,
            final(self).spatial@ == old(self).spatial@,
            final(self).timeseries@ == old(self).timeseries@,
            final(self).columnar@ == old(self).columnar@,
            final(self).held@ == old(self).held@,
    {
        let t = rec.record.record_type;
        if t != RecordType::VectorPut && t != RecordType::VectorDelete && t
            != RecordType::VectorParams {
            return VectorReplayStep::Ignore;
        }
        if !wal::is_routed_to(rec.record.vshard_id, num_cores, self.core_id) {
            return VectorReplayStep::OtherCore;
        }
        if t == RecordType::VectorParams {
            return self.replay_vector_params(&rec.record, tombstones);
        }
        if t == RecordType::VectorPut {
            return self.replay_vector_put(rec, tombstones, verdict);
        }
        self.replay_vector_delete(rec, tombstones, verdict)
    }

    /// The steps of the records of a log, in order, each on the registry that
    /// the steps before it left. `guard` is asked of a record that names its
    /// writer, with the places that the steps before committed; `deleted` says
    /// whether the engine took the delete of a record.
    pub fn replay_vector_wal<G, D>(
        &mut self,
        records: &Vec<VectorRecord>,
        num_cores: usize,
        tombstones: &TombstoneSet,
        guard: G,
        deleted: D,
    ) -> (r: VectorReplay) where
        G: Fn(&Vec<SyncProvenance>, SyncProvenance) -> SyncAdmit,
        D: Fn(usize) -> bool,

        requires
            forall|places: &Vec<SyncProvenance>, w: SyncProvenance|
                #![trigger guard.requires((places, w))]
                guard.requires((places, w)),
            forall|i: usize| #[trigger] deleted.requires((i,)),
        ensures
            final(self).core_id == old(self).core_id,
            final(self).chains@ == old(self).chains@,
            final(self).spatial@ == old(self).spatial@,
            final(self).timeseries@ == old(self).timeseries@,
            final(self).columnar@ == old(self).columnar@,
            final(self).held@ == old(self).held@,
            r.steps@.len() == records@.len(),
            exists|states: Seq<Registry>, verdicts: Seq<SyncAdmit>, places: Seq<Vec<SyncProvenance>>|
                #![trigger replayed(
                    old(self).core_id,
                    records@,
                    num_cores,
                    *tombstones,
                    verdicts,
                    states,
                    r.steps@,
                ), guarded(records@, r.steps@, verdicts, places, guard, deleted)]
                replayed(
                    old(self).core_id,
                    records@,
                    num_cores,
                    *tombstones,
                    verdicts,
                    states,
                    r.steps@,
                ) && guarded(records@, r.steps@, verdicts, places, guard, deleted) && states[0]
                    == old(self).vectors@ && states.last() == final(self).vectors@
                    && places.last()@ == r.committed@,
    {
        let mut steps: Vec<VectorReplayStep> = Vec::new();
        let mut committed: Vec<SyncProvenance> = Vec::new();
        let ghost mut states: Seq<Registry> = seq![self.vectors@];
        let ghost mut verdicts: Seq<SyncAdmit> = Seq::empty();
        let ghost mut places: Seq<Vec<SyncProvenance>> = seq![committed];
        let mut i: usize = 0;
        while i < records.len()
            invariant
                i <= records@.len(),
                forall|places: &Vec<SyncProvenance>, w: SyncProvenance|
                    #![trigger guard.requires((places, w))]
                    guard.requires((places, w)),
                forall|i: usize| #[trigger] deleted.requires((i,)),
                self.core_id == old(self).core_id,
                self.chains@ == old(self).chains@,
                self.spatial@ == old(self).spatial@,
                self.timeseries@ == old(self).timeseries@,
                self.columnar@ == old(self).columnar@,
                self.held@ == old(self).held@,
                steps@.len() == i,
                verdicts.len() == i,
                states.len() == i + 1,
                places.len() == i + 1,
                states[0] == old(self).vectors@,
                states.last() == self.vectors@,
                places[0]@ == Seq::<SyncProvenance>::empty(),
                places.last() == committed,
                forall|j: int|
                    0 <= j < i ==> took_step(
                        self.core_id,
                        records@[j],
                        num_cores,
                        *tombstones,
                        verdicts[j],
                        states[j],
                        states[j + 1],
                        #[trigger] steps@[j],
                    ),
                forall|j: int|
                    0 <= j < i ==> asked(records@[j], guard, places[j], #[trigger] verdicts[j]),
                forall|j: int|
                    0 <= j < i ==> committed_next(
                        records@[j],
                        #[trigger] steps@[j],
                        deleted,
                        j as usize,
                        places[j]@,
                        places[j + 1]@,
                    ),
            decreases records.len() - i,
        {
            let writer = record_writer(&records[i]);
            let verdict = match writer {
                Some(w) => guard(&committed, w),
                None => SyncAdmit::Apply,
            };
            let step = self.replay_vector_record(&records[i], num_cores, tombstones, verdict);
            let took = match &step {
                VectorReplayStep::Delete { target: Ok(DeleteTarget::Index(_)), .. } => deleted(i),
                _ => true,
            };
            let commits = match &step {
                VectorReplayStep::Handled { reply: VectorReply::Applied, .. } => true,
                VectorReplayStep::Delete { target: Ok(_), .. } => took,
                _ => false,
            };
            let ghost (states0, verdicts0, places0) = (states, verdicts, places);
            if commits {
                match writer {
                    Some(w) => {
                        committed.push(w);
                    },
                    None => {},
                }
            }
            proof {
                assert(applied(step, took) == commits);
                assert(committed@ == if applied(step, took) && writer_of(records@[i as int]) is Some {
                    places0.last()@.push(writer_of(records@[i as int])->0)
                } else {
                    places0.last()@
                });
                states = states.push(self.vectors@);
                verdicts = verdicts.push(verdict);
                places = places.push(committed);
                assert(committed_next(
                    records@[i as int],
                    step,
                    deleted,
                    i,
                    places0.last()@,
                    committed@,
                ));
            }
            steps.push(step);
            proof {
                assert forall|j: int| 0 <= j < i + 1 implies took_step(
                    self.core_id,
                    records@[j],
                    num_cores,
                    *tombstones,
                    verdicts[j],
                    states[j],
                    states[j + 1],
                    #[trigger] steps@[j],
                ) by {
                    assert(states[j] == states0[j]);
                    if j < i {
                        assert(states[j + 1] == states0[j + 1]);
                        assert(verdicts[j] == verdicts0[j]);
                    }
                }
                assert forall|j: int| 0 <= j < i + 1 implies asked(
                    records@[j],
                    guard,
                    places[j],
                    #[trigger] verdicts[j],
                ) by {
                    assert(places[j] == places0[j]);
                    if j < i {
                        assert(verdicts[j] == verdicts0[j]);
                    }
                }
                assert forall|j: int| 0 <= j < i + 1 implies committed_next(
                    records@[j],
                    #[trigger] steps@[j],
                    deleted,
                    j as usize,
                    places[j]@,
                    places[j + 1]@,
                ) by {
                    assert(places[j] == places0[j]);
                    if j < i {
                        assert(places[j + 1] == places0[j + 1]);
                    }
                }
            }
            i = i + 1;
        }
        let r = VectorReplay { steps, committed };
        proof {
            assert(replayed(
                old(self).core_id,
                records@,
                num_cores,
                *tombstones,
                verdicts,
                states,
                r.steps@,
            ));
            assert(guarded(records@, r.steps@, verdicts, places, guard, deleted));
            assert(places.last()@ == r.committed@);
        }
        r
    }
}

/// The steps of a replay, and the places that it committed, in order.
pub struct VectorReplay {
    pub steps: Vec<VectorReplayStep>,
    pub committed: Vec<SyncProvenance>,
}

/// The writer that a delete record names.
pub open spec fn named_writer(w: Option<(u64, u64, u64, u64)>) -> Option<SyncProvenance> {
    match w {
        Some((producer_id, epoch, stream_id, seq)) => Some(
            SyncProvenance { producer_id, epoch, stream_id, seq },
        ),
        None => None,
    }
}

/// The writer that a record names where its shape goes through a handler.
pub open spec fn writer_of(rec: VectorRecord) -> Option<SyncProvenance> {
    if rec.record.record_type == RecordType::VectorPut {
        match rec.synced_put {
            Some(p) => p.provenance,
            None => None,
        }
    } else if rec.record.record_type == RecordType::VectorDelete {
        match codec::surrogate_delete_of(rec.record.payload@) {
            Some((_, _, _, w)) => named_writer(w),
            None => None,
        }
    } else {
        None
    }
}

/// The writer that a record names where its shape goes through a handler.
pub fn record_writer(rec: &VectorRecord) -> (r: Option<SyncProvenance>)
    ensures
        r == writer_of(*rec),
{
    match rec.record.record_type {
        RecordType::VectorPut => match &rec.synced_put {
            Some(p) => p.provenance,
            None => None,
        },
        RecordType::VectorDelete => match codec::decode_surrogate_delete(
            rec.record.payload.as_slice(),
        ) {
            Some((_, _, _, Some((producer_id, epoch, stream_id, seq)))) => Some(
                SyncProvenance { producer_id, epoch, stream_id, seq },
            ),
            _ => None,
        },
        _ => None,
    }
}

/// Whether a step applied its record, `took` being whether the engine took a
/// delete. A delete that finds no index is applied.
pub open spec fn applied(step: VectorReplayStep, took: bool) -> bool {
    match step {
        VectorReplayStep::Handled { reply, .. } => reply is Applied,
        VectorReplayStep::Delete { target, .. } => match target {
            Ok(DeleteTarget::Index(_)) => took,
            Ok(DeleteTarget::Absent) => true,
            Err(_) => false,
        },
        _ => false,
    }
}

/// Whether the guard was asked of a record's writer with the places committed
/// so far, and gave this verdict.
pub open spec fn asked<G: Fn(&Vec<SyncProvenance>, SyncProvenance) -> SyncAdmit>(
    rec: VectorRecord,
    guard: G,
    places: Vec<SyncProvenance>,
    verdict: SyncAdmit,
) -> bool {
    writer_of(rec) is Some ==> guard.ensures((&places, writer_of(rec)->0), verdict)
}

/// The committed places behind a record: its writer's place is added where the
/// step applied the record.
pub open spec fn committed_next<D: Fn(usize) -> bool>(
    rec: VectorRecord,
    step: VectorReplayStep,
    deleted: D,
    i: usize,
    before: Seq<SyncProvenance>,
    after: Seq<SyncProvenance>,
) -> bool {
    exists|took: bool|
        {
            &&& step matches VectorReplayStep::Delete { target: Ok(DeleteTarget::Index(_)), .. }
                ==> deleted.ensures((i,), took)
            &&& after == if #[trigger] applied(step, took) && writer_of(rec) is Some {
                before.push(writer_of(rec)->0)
            } else {
                before
            }
        }
}

/// Each record that names its writer was held to the guard, on the places that
/// the records before it committed.
pub open spec fn guarded<
    G: Fn(&Vec<SyncProvenance>, SyncProvenance) -> SyncAdmit,
    D: Fn(usize) -> bool,
>(
    records: Seq<VectorRecord>,
    steps: Seq<VectorReplayStep>,
    verdicts: Seq<SyncAdmit>,
    places: Seq<Vec<SyncProvenance>>,
    guard: G,
    deleted: D,
) -> bool {
    &&& verdicts.len() == records.len()
    &&& places.len() == records.len() + 1
    &&& places[0]@ == Seq::<SyncProvenance>::empty()
    &&& forall|i: int|
        0 <= i < records.len() ==> asked(records[i], guard, places[i], #[trigger] verdicts[i])
    &&& forall|i: int|
        0 <= i < records.len() ==> committed_next(
            records[i],
            #[trigger] steps[i],
            deleted,
            i as usize,
            places[i]@,
            places[i + 1]@,
        )
}

/// Each record took its step from one registry to the next.
pub open spec fn replayed(
    core_id: usize,
    records: Seq<VectorRecord>,
    num_cores: usize,
    tombstones: TombstoneSet,
    verdicts: Seq<SyncAdmit>,
    states: Seq<Registry>,
    steps: Seq<VectorReplayStep>,
) -> bool {
    &&& states.len() == records.len() + 1
    &&& steps.len() == records.len()
    &&& forall|i: int|
        0 <= i < records.len() ==> took_step(
            core_id,
            records[i],
            num_cores,
            tombstones,
            verdicts[i],
            states[i],
            states[i + 1],
            #[trigger] steps[i],
        )
}

/// What a step counts as: inserted, deleted, skipped. `deleted` is what the
/// engine said of a delete by surrogate.
pub fn vector_step_counts(step: &VectorReplayStep, deleted: Option<bool>) -> (r: (u64, u64, u64))
    ensures
        r == match step {
            VectorReplayStep::OtherCore => (0u64, 0u64, 1u64),
            VectorReplayStep::Purged => (0u64, 0u64, 1u64),
            VectorReplayStep::Handled { reply, action: _ } => if reply is Rejected {
                (0u64, 0u64, 1u64)
            } else {
                (1u64, 0u64, 0u64)
            },
            VectorReplayStep::Insert { .. } => (1u64, 0u64, 0u64),
            VectorReplayStep::Delete { .. } => if deleted == Some(false) {
                (0u64, 0u64, 1u64)
            } else {
                (0u64, 1u64, 0u64)
            },
            VectorReplayStep::DeleteNode { .. } => (0u64, 1u64, 0u64),
            _ => (0u64, 0u64, 0u64),
        },
        r.0 + r.1 + r.2 <= 1,
        r.0 == 1 <==> (step is Insert || (step is Handled && step->reply !is Rejected)),
        r.1 == 1 <==> (step is DeleteNode || (step is Delete && deleted != Some(false))),
        r.2 == 1 <==> (step is OtherCore || step is Purged || (step is Handled
            && step->reply is Rejected) || (step is Delete && deleted == Some(false))),
{
    match step {
        VectorReplayStep::OtherCore => (0, 0, 1),
        VectorReplayStep::Purged => (0, 0, 1),
        VectorReplayStep::Handled { reply, .. } => match reply {
            VectorReply::Rejected(_) => (0, 0, 1),
            _ => (1, 0, 0),
        },
        VectorReplayStep::Insert { .. } => (1, 0, 0),
        VectorReplayStep::Delete { .. } => match deleted {
            Some(false) => (0, 0, 1),
            _ => (0, 1, 0),
        },
        VectorReplayStep::DeleteNode { .. } => (0, 1, 0),
        _ => (0, 0, 0),
    }
}

/// A writer's place is committed only for a record that the guard admitted.
pub proof fn law_only_admitted_places_are_committed<
    G: Fn(&Vec<SyncProvenance>, SyncProvenance) -> SyncAdmit,
    D: Fn(usize) -> bool,
>(
    core_id: usize,
    records: Seq<VectorRecord>,
    num_cores: usize,
    tombstones: TombstoneSet,
    verdicts: Seq<SyncAdmit>,
    states: Seq<Registry>,
    steps: Seq<VectorReplayStep>,
    places: Seq<Vec<SyncProvenance>>,
    guard: G,
    deleted: D,
    i: int,
)
    requires
        replayed(core_id, records, num_cores, tombstones, verdicts, states, steps),
        guarded(records, steps, verdicts, places, guard, deleted),
        0 <= i < records.len(),
        verdicts[i] != SyncAdmit::Apply,
    ensures
        places[i + 1]@ == places[i]@,
{
    assert(took_step(
        core_id,
        records[i],
        num_cores,
        tombstones,
        verdicts[i],
        states[i],
        states[i + 1],
        steps[i],
    ));
    assert(committed_next(
        records[i],
        steps[i],
        deleted,
        i as usize,
        places[i]@,
        places[i + 1]@,
    ));
}

/// A replay changes the dimension of no index that exists.
pub proof fn law_replay_keeps_dimensions(
    core_id: usize,
    records: Seq<VectorRecord>,
    num_cores: usize,
    tombstones: TombstoneSet,
    verdicts: Seq<SyncAdmit>,
    states: Seq<Registry>,
    steps: Seq<VectorReplayStep>,
    key: registry::IndexId,
    n: int,
)
    requires
        replayed(core_id, records, num_cores, tombstones, verdicts, states, steps),
        states[0].dims.contains_key(key),
        0 <= n <= records.len(),
    ensures
        states[n].dims.contains_key(key),
        states[n].dims[key] == states[0].dims[key],
    decreases n,
{
    if n > 0 {
        law_replay_keeps_dimensions(
            core_id,
            records,
            num_cores,
            tombstones,
            verdicts,
            states,
            steps,
            key,
            n - 1,
        );
        let i = n - 1;
        assert(took_step(
            core_id,
            records[i],
            num_cores,
            tombstones,
            verdicts[i],
            states[i],
            states[i + 1],
            steps[i],
        ));
    }
}

/// The parameters that a record declares are those that it names: links per node,
/// twice as many on the ground layer as far as a count reaches, candidates, and
/// metric; under the name of the field where the record names one. Numbers that no
/// count holds make the record unusable.
pub proof fn law_declared_parameters_are_as_named(
    long: Option<ParamsView>,
    short: Option<ShortParamsView>,
)
    ensures
        long matches Some(t) ==> ({
            let (c, m, ef, metric, _, pq, cells, probe, field) = t;
            let fits = m <= usize::MAX && ef <= usize::MAX && pq <= usize::MAX && cells
                <= usize::MAX && probe <= usize::MAX;
            &&& params_declared(long, short) is Some <==> fits
            &&& params_declared(long, short) matches Some((coll, f, p)) ==> coll == c && f == field
                && p.m == m && p.ef_construction == ef && p.metric == registry::metric_of(metric)
                && p.dtype is F32 && p.m0 <= 2 * p.m && (p.m0 == 2 * p.m || p.m0 == usize::MAX)
        }),
        long is None && short is Some ==> ({
            let (c, m, ef, metric) = short->0;
            &&& params_declared(long, short) is Some <==> m <= usize::MAX && ef <= usize::MAX
            &&& params_declared(long, short) matches Some((coll, f, p)) ==> coll == c && f.len()
                == 0 && p.m == m && p.ef_construction == ef && p.metric == registry::metric_of(
                metric,
            ) && p.dtype is F32 && p.m0 <= 2 * p.m && (p.m0 == 2 * p.m || p.m0 == usize::MAX)
        }),
        long is None && short is None ==> params_declared(long, short) is None,
{
}

/// Declaring parameters sets those of one index and leaves every other
/// declaration and every index alone; a purged or unusable record declares
/// nothing.
pub proof fn law_a_declaration_sets_one_index(
    r: WalRecord,
    declared: Option<(Seq<char>, Seq<char>, HnswParams)>,
    tombstones: TombstoneSet,
    before: Registry,
    after: Registry,
    step: VectorReplayStep,
    other: registry::IndexId,
)
    requires
        params_step(r, declared, tombstones, before, after, step),
    ensures
        step is Unusable <==> declared is None,
        step is Purged <==> (declared matches Some((c, _, _)) && tombstones.purges().contains_key(
            (r.tenant_id, c),
        ) && r.lsn < tombstones.purges()[(r.tenant_id, c)]),
        step is Unusable || step is Purged || step is Params,
        !(step is Params) ==> after == before,
        step is Params ==> (declared matches Some((c, field, p)) && {
            let key = (r.database_id, r.tenant_id, registry::index_name(c, field));
            &&& after.params.contains_key(key)
            &&& after.params[key] == p
            &&& other != key ==> after.params.contains_key(other) == before.params.contains_key(
                other,
            ) && (before.params.contains_key(other) ==> after.params[other] == before.params[other])
        }),
        after.dims == before.dims,
        after.configs == before.configs,
        after.ivf == before.ivf,
{
}

/// A record changes a core's indexes only where it is a vector record of that
/// core.
pub proof fn law_only_the_own_core_takes_a_vector_record(
    core_id: usize,
    rec: VectorRecord,
    num_cores: usize,
    tombstones: TombstoneSet,
    verdict: SyncAdmit,
    before: Registry,
    after: Registry,
    step: VectorReplayStep,
)
    requires
        took_step(core_id, rec, num_cores, tombstones, verdict, before, after, step),
    ensures
        ({
            let t = rec.record.record_type;
            let vector = t == RecordType::VectorPut || t == RecordType::VectorDelete || t
                == RecordType::VectorParams;
            let own = wal::target_core(rec.record.vshard_id, num_cores) == core_id;
            &&& step is Ignore <==> !vector
            &&& step is OtherCore <==> vector && !own
            &&& step is Params ==> t == RecordType::VectorParams
            &&& step is Handled || step is Insert ==> t == RecordType::VectorPut
            &&& step is Delete || step is DeleteNode || step is NoIndex ==> t
                == RecordType::VectorDelete
            &&& !vector || !own || t == RecordType::VectorDelete ==> after == before
        }),
{
}

/// A put goes to the index of the collection and field that its shape names, in
/// the record's database and under its tenant, at the dimension it says. A vector
/// of another length, and one for an index of another dimension, is unusable.
pub proof fn law_a_put_goes_to_the_index_it_names(
    rec: VectorRecord,
    tombstones: TombstoneSet,
    verdict: SyncAdmit,
    before: Registry,
    after: Registry,
    step: VectorReplayStep,
    collection: Seq<char>,
    field: Seq<char>,
    len: usize,
    dim: usize,
    other: registry::IndexId,
)
    requires
        put_step(rec, tombstones, verdict, before, after, step),
        rec.synced_put is None,
        match rec.named_put {
            Some(p) => p.collection@ == collection && p.field_name@ == field && p.vector_len == len
                && p.dim == dim,
            None => rec.plain_put matches Some(p) && p.collection@ == collection && field.len() == 0
                && p.vector_len == len && p.dim == dim,
        },
    ensures
        ({
            let r = rec.record;
            let key = (r.database_id, r.tenant_id, registry::index_name(collection, field));
            let purged = tombstones.purges().contains_key((r.tenant_id, collection)) && r.lsn
                < tombstones.purges()[(r.tenant_id, collection)];
            let clash = before.dims.contains_key(key) && before.dims[key] != dim;
            &&& step is Purged <==> purged
            &&& step is Unusable <==> !purged && (len != dim || clash)
            &&& step is Insert <==> !purged && len == dim && !clash
            &&& !(step is Insert) ==> after == before
            &&& step matches VectorReplayStep::Insert { key: k, create, params } ==> {
                &&& (k.db, k.tid, k.name@) == key
                &&& create <==> !before.dims.contains_key(key)
                &&& params is Some <==> before.params.contains_key(key)
                &&& params is Some ==> params->0 == before.params[key]
                &&& after.dims.contains_key(key)
                &&& after.dims[key] == dim
                &&& other != key ==> after.dims.contains_key(other) == before.dims.contains_key(
                    other,
                ) && (before.dims.contains_key(other) ==> after.dims[other] == before.dims[other])
            }
            &&& after.params == before.params
            &&& after.configs == before.configs
            &&& after.ivf == before.ivf
        }),
{
}

/// A put that carries its row goes through the insert handler as that row's, held
/// back where its writer's place was refused.
pub proof fn law_a_synchronised_put_is_handled(
    rec: VectorRecord,
    tombstones: TombstoneSet,
    verdict: SyncAdmit,
    before: Registry,
    after: Registry,
    step: VectorReplayStep,
    p: SyncedPut,
)
    requires
        put_step(rec, tombstones, verdict, before, after, step),
        rec.synced_put == Some(p),
    ensures
        ({
            let r = rec.record;
            let purged = tombstones.purges().contains_key((r.tenant_id, p.collection@)) && r.lsn
                < tombstones.purges()[(r.tenant_id, p.collection@)];
            &&& step is Purged <==> purged
            &&& step is Unusable <==> !purged && p.vector_len != p.dim
            &&& step is Handled <==> !purged && p.vector_len == p.dim
            &&& !(step is Handled) ==> after == before
            &&& step matches VectorReplayStep::Handled { reply, action } ==> {
                &&& reply is Held <==> p.provenance is Some && verdict != SyncAdmit::Apply
                &&& reply is Held ==> reply->Held_0 == verdict && action is Nothing && after
                    == before
                &&& reply is Applied ==> p.provenance is Some && verdict == SyncAdmit::Apply
                &&& reply is Done ==> p.provenance is None
            }
        }),
{
    if let VectorReplayStep::Handled { reply, action } = step {
        let q = choose|q: VectorInsert|
            {
                &&& q.key() == (
                    rec.record.database_id,
                    rec.record.tenant_id,
                    registry::index_name(p.collection@, p.field_name@),
                )
                &&& q.vector_len == p.vector_len
                &&& q.dim == p.dim
                &&& q.surrogate == p.surrogate
                &&& #[trigger] handled(
                    q,
                    verdict_for(p.provenance, verdict),
                    before,
                    after,
                    reply,
                    action,
                )
            };
        assert(handled(q, verdict_for(p.provenance, verdict), before, after, reply, action));
    }
}

/// A delete of a row names the index of its field, or else that of its
/// collection; a delete of a node names the index of its collection. Nothing is
/// deleted in another database or for another tenant.
pub proof fn law_a_vector_delete_names_its_index(
    rec: VectorRecord,
    tombstones: TombstoneSet,
    verdict: SyncAdmit,
    s: Registry,
    step: VectorReplayStep,
)
    requires
        delete_step(rec, tombstones, verdict, s, step),
    ensures
        ({
            let r = rec.record;
            &&& step matches VectorReplayStep::DeleteNode { key, .. } ==> key.db == r.database_id
                && key.tid == r.tenant_id && s.dims.contains_key((key.db, key.tid, key.name@))
            &&& step matches VectorReplayStep::Delete { target: Ok(DeleteTarget::Index(k)), .. }
                ==> k.db == r.database_id && k.tid == r.tenant_id && s.dims.contains_key(
                (k.db, k.tid, k.name@),
            )
            &&& codec::surrogate_delete_of(r.payload@) matches Some((c, row, field, writer)) ==> {
                let purged = tombstones.purges().contains_key((r.tenant_id, c)) && r.lsn
                    < tombstones.purges()[(r.tenant_id, c)];
                let held = writer is Some && verdict != SyncAdmit::Apply;
                let named = (r.database_id, r.tenant_id, registry::index_name(c, field));
                let plain = (r.database_id, r.tenant_id, c);
                &&& step is Purged <==> purged
                &&& step is Delete <==> !purged
                &&& step matches VectorReplayStep::Delete { target, surrogate } ==> {
                    &&& surrogate == row
                    &&& target is Err <==> held
                    &&& !held && s.dims.contains_key(named) ==> (target matches Ok(
                        DeleteTarget::Index(k),
                    ) && (k.db, k.tid, k.name@) == named)
                    &&& !held && !s.dims.contains_key(named) && s.dims.contains_key(plain) ==> (
                    target matches Ok(DeleteTarget::Index(k)) && (k.db, k.tid, k.name@) == plain)
                    &&& !held && !s.dims.contains_key(named) && !s.dims.contains_key(plain) ==> (
                    target matches Ok(t) && t is Absent)
                }
            }
        }),
{
}

/// A writer's place is committed exactly where the step applied its write: an
/// insert that was applied, or a delete that found its row or had none to find.
pub proof fn law_when_a_place_is_committed(step: VectorReplayStep, took: bool)
    ensures
        applied(step, took) <==> {
            ||| (step matches VectorReplayStep::Handled { reply, .. } && reply is Applied)
            ||| (step matches VectorReplayStep::Delete { target: Ok(DeleteTarget::Absent), .. })
            ||| (step matches VectorReplayStep::Delete { target: Ok(DeleteTarget::Index(_)), .. }
                && took)
        },
{
}

} // verus!
