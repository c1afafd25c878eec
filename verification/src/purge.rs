//! Reclaiming everything that a core holds of a collection, and emptying a
//! collection.
use crate::core_loop::CoreLoop;
use crate::error::{ErrorCode, ErrorCodeView};
use crate::held;
use crate::held::{HeldId, HeldKey, HeldKind};
use crate::hex;
use crate::maps;
use crate::snapshot::segments::ColumnarModel;
use crate::spatial;
use crate::spatial::Geometry;
use crate::timeseries::state;
use crate::timeseries::state::TsModel;
use crate::vectors::registry;
use crate::vectors::registry::Registry;
use vstd::prelude::*;
use vstd::string::*;

verus! {

/// How often a reclaim is tried.
pub const L1_RECLAIM_MAX_ATTEMPTS: u32 = 3;

/// What follows an attempt at a reclaim.
pub enum Retry<T> {
    /// It worked.
    Done(T),
    /// Try again, as this attempt.
    Again(u32),
    /// It failed as often as it is tried. What is left stays for the next purge.
    GiveUp,
}

/// Decide what follows attempt number `attempt`, the first being one. A failure
/// is tried again at once, within bounds.
pub fn retry_reclaim<T, E>(attempt: u32, result: Result<T, E>) -> (r: Retry<T>)
    requires
        1 <= attempt <= L1_RECLAIM_MAX_ATTEMPTS,
    ensures
        match result {
            Ok(v) => r == Retry::<T>::Done(v),
            Err(_) => if attempt < L1_RECLAIM_MAX_ATTEMPTS {
                r == Retry::<T>::Again((attempt + 1) as u32)
            } else {
                r is GiveUp
            },
        },
{
    match result {
        Ok(v) => Retry::Done(v),
        Err(_) => {
            if attempt < L1_RECLAIM_MAX_ATTEMPTS {
                Retry::Again(attempt + 1)
            } else {
                Retry::GiveUp
            }
        },
    }
}

/// What the reclaims of the engines came to; none for one that was given up.
pub struct EngineReclaims {
    /// Documents and index entries.
    pub sparse: Option<(usize, usize)>,
    pub inverted: Option<usize>,
    pub edges: Option<usize>,
    /// Whether there was a memtable.
    pub memtable: bool,
    /// How many spatial indexes there were.
    pub spatial_indexes: usize,
    pub kv: usize,
    /// None where the tenant has no engine, or the reclaim was given up.
    pub crdt_rows: Option<usize>,
    pub l1: ReclaimStats,
}

/// Files that were unlinked, and the bytes they took.
#[derive(Clone, Copy, Debug, PartialEq, Eq, Structural)]
pub struct ReclaimStats {
    pub files_unlinked: u64,
    pub bytes_freed: u64,
}

/// What was reclaimed of a collection.
#[derive(Clone, Copy, Debug, PartialEq, Eq, Structural)]
pub struct ClearCollectionStats {
    pub docs_removed: usize,
    pub idxs_removed: usize,
    pub inv_removed: usize,
    pub edges_removed: usize,
    pub vec_removed: usize,
    pub ts_removed: u64,
    pub spatial_removed: usize,
    pub kv_removed: usize,
    pub crdt_rows_removed: usize,
    pub l1: ReclaimStats,
}

/// What a core holds, as mathematical values.
#[verifier::ext_equal]
pub struct CoreModel {
    pub vectors: Registry,
    pub chains: Map<maps::CollId, Seq<char>>,
    pub spatial: Geometry,
    pub timeseries: TsModel,
    pub columnar: ColumnarModel,
    pub held: Set<HeldId>,
}

pub open spec fn model_of(core: CoreLoop) -> CoreModel {
    CoreModel {
        vectors: core.vectors@,
        chains: core.chains@,
        spatial: core.spatial@,
        timeseries: core.timeseries@,
        columnar: core.columnar@,
        held: core.held@,
    }
}

/// A core without a collection. Where the definition is preserved, what the
/// collection declares of its documents stays.
pub open spec fn cleared(
    m: CoreModel,
    coll: maps::CollId,
    preserve_definition: bool,
) -> CoreModel {
    CoreModel {
        vectors: registry::without_collection(m.vectors, coll.0, coll.1, coll.2),
        chains: m.chains.remove(coll),
        spatial: spatial::without_collection(m.spatial, coll),
        timeseries: state::without_collection(m.timeseries, coll),
        columnar: ColumnarModel {
            engines: m.columnar.engines.remove(coll),
            flushed: m.columnar.flushed.remove(coll),
        },
        held: held::without_collection(m.held, coll, preserve_definition),
    }
}

pub open spec fn or_zero(n: Option<usize>) -> usize {
    match n {
        Some(n) => n,
        None => 0,
    }
}

/// The stats of a clear. A reclaim that was given up counts as nothing.
pub open spec fn stats_of(e: EngineReclaims, vec_removed: usize) -> ClearCollectionStats {
    ClearCollectionStats {
        docs_removed: match e.sparse {
            Some(p) => p.0,
            None => 0,
        },
        idxs_removed: match e.sparse {
            Some(p) => p.1,
            None => 0,
        },
        inv_removed: or_zero(e.inverted),
        edges_removed: or_zero(e.edges),
        vec_removed,
        ts_removed: if e.memtable {
            1
        } else {
            0
        },
        spatial_removed: e.spatial_indexes,
        kv_removed: e.kv,
        crdt_rows_removed: or_zero(e.crdt_rows),
        l1: e.l1,
    }
}

fn count_of(n: Option<usize>) -> (r: usize)
    ensures
        r == or_zero(n),
{
    match n {
        Some(n) => n,
        None => 0,
    }
}

/// The answer to a purge.
pub struct PurgeSummary {
    pub tenant_id: u64,
    pub collection: String,
    pub purge_lsn: u64,
    pub stats: ClearCollectionStats,
    /// The bytes to count as reclaimed; none where there is nothing to count.
    pub metered: Option<u64>,
}

impl CoreLoop {
    /// Forget all that this core holds of a collection, except for its definition
    /// where that is preserved. What the engines reclaimed is handed in.
    pub fn clear_collection_all_engines(
        &mut self,
        database_id: u64,
        tenant_id: u64,
        collection: &str,
        preserve_definition: bool,
        reclaims: &EngineReclaims,
    ) -> (r: ClearCollectionStats)
        ensures
            final(self).core_id == old(self).core_id,
            model_of(*final(self)) == cleared(
                model_of(*old(self)),
                (database_id, tenant_id, collection@),
                preserve_definition,
            ),
            r == stats_of(*reclaims, r.vec_removed),
            r.vec_removed == old(self).vectors@.dims.dom().len()
                - final(self).vectors@.dims.dom().len(),
    {
        let (docs_removed, idxs_removed): (usize, usize) = match reclaims.sparse {
            Some((docs, idxs)) => (docs, idxs),
            None => (0, 0),
        };
        let vec_removed: usize = self.vectors.clear_collection(database_id, tenant_id, collection);
        self.timeseries.clear_collection(database_id, tenant_id, collection);
        self.spatial.clear_collection(database_id, tenant_id, collection);
        self.columnar.clear_collection(database_id, tenant_id, collection);
        self.held.clear_collection(database_id, tenant_id, collection, preserve_definition);
        self.chains.remove_head(database_id, tenant_id, collection);
        let ts_removed: u64 = if reclaims.memtable {
            1
        } else {
            0
        };
        ClearCollectionStats {
            docs_removed,
            idxs_removed,
            inv_removed: count_of(reclaims.inverted),
            edges_removed: count_of(reclaims.edges),
            vec_removed,
            ts_removed,
            spatial_removed: reclaims.spatial_indexes,
            kv_removed: reclaims.kv,
            crdt_rows_removed: count_of(reclaims.crdt_rows),
            l1: reclaims.l1,
        }
    }

    /// Purge a collection, its definition with it.
    pub fn execute_unregister_collection(
        &mut self,
        database_id: u64,
        tenant_id: u64,
        collection: &str,
        purge_lsn: u64,
        reclaims: &EngineReclaims,
    ) -> (r: PurgeSummary)
        ensures
            final(self).core_id == old(self).core_id,
            model_of(*final(self)) == cleared(
                model_of(*old(self)),
                (database_id, tenant_id, collection@),
                false,
            ),
            r.tenant_id == tenant_id,
            r.collection@ == collection@,
            r.purge_lsn == purge_lsn,
            r.stats == stats_of(*reclaims, r.stats.vec_removed),
            r.stats.vec_removed == old(self).vectors@.dims.dom().len()
                - final(self).vectors@.dims.dom().len(),
            r.metered == if reclaims.l1.bytes_freed > 0 {
                Some(reclaims.l1.bytes_freed)
            } else {
                None
            },
    {
        let stats = self.clear_collection_all_engines(
            database_id,
            tenant_id,
            collection,
            false,
            reclaims,
        );
        let metered: Option<u64> = if stats.l1.bytes_freed > 0 {
            Some(stats.l1.bytes_freed)
        } else {
            None
        };
        PurgeSummary { tenant_id, collection: collection.to_owned(), purge_lsn, stats, metered }
    }
}

/// Clearing a collection again changes nothing.
pub proof fn law_clearing_twice_is_clearing_once(
    m: CoreModel,
    coll: maps::CollId,
    preserve_definition: bool,
)
    ensures
        cleared(cleared(m, coll, preserve_definition), coll, preserve_definition) == cleared(
            m,
            coll,
            preserve_definition,
        ),
{
    let once = cleared(m, coll, preserve_definition);
    let twice = cleared(once, coll, preserve_definition);
    assert(twice.vectors.params =~= once.vectors.params);
    assert(twice.vectors.dims =~= once.vectors.dims);
    assert(twice.vectors.configs =~= once.vectors.configs);
    assert(twice.vectors.ivf =~= once.vectors.ivf);
    assert(twice.spatial =~= once.spatial);
    assert(twice.timeseries =~= once.timeseries);
    assert(twice.chains =~= once.chains);
    assert(twice.columnar =~= once.columnar);
    assert(twice.held =~= once.held);
}

/// Clearing a collection takes every index of it away, those of its fields too,
/// and all that is kept of it beside the engines: configurations, caches, the
/// surrogates of its flushed segments. A clear that preserves the definition
/// takes all of it but the configurations.
pub proof fn law_a_cleared_collection_is_gone(
    m: CoreModel,
    coll: maps::CollId,
    field: Seq<char>,
    entry: u64,
    min_ts: i64,
    kind: HeldKind,
    preserve_definition: bool,
)
    ensures
        ({
            let after = cleared(m, coll, preserve_definition);
            let index = (coll.0, coll.1, registry::index_name(coll.2, field));
            &&& !after.vectors.dims.contains_key(index)
            &&& !after.vectors.params.contains_key(index)
            &&& !after.vectors.configs.contains_key(index)
            &&& !after.vectors.ivf.contains(index)
            &&& !after.spatial.extents.contains_key(((coll.0, coll.1, coll.2, field), entry))
            &&& !after.spatial.documents.contains_key(((coll.0, coll.1, coll.2, field), entry))
            &&& !after.timeseries.partitions.contains_key((coll.0, coll.1, coll.2, min_ts))
            &&& !after.chains.contains_key(coll)
            &&& !after.columnar.engines.contains(coll)
            &&& !after.columnar.flushed.contains(coll)
            &&& !preserve_definition || kind != HeldKind::DocumentConfig ==> !after.held.contains(
                (kind, coll.0, coll.1, coll.2, field),
            )
        }),
{
    let name = registry::index_name(coll.2, field);
    if field.len() > 0 {
        let p = coll.2 + seq![':'];
        assert(name.take(p.len() as int) =~= p);
    }
}

/// A clear that preserves the definition leaves what the collection declares of
/// its documents as it was.
pub proof fn law_a_preserved_definition_stays(m: CoreModel, coll: maps::CollId, part: Seq<char>)
    ensures
        cleared(m, coll, true).held.contains(
            (HeldKind::DocumentConfig, coll.0, coll.1, coll.2, part),
        ) == m.held.contains((HeldKind::DocumentConfig, coll.0, coll.1, coll.2, part)),
{
}

/// Clearing a collection leaves the others as they are, those of other tenants
/// and databases too.
pub proof fn law_clearing_spares_the_others(
    m: CoreModel,
    coll: maps::CollId,
    other: maps::CollId,
    entry: u64,
    field: Seq<char>,
    kind: HeldKind,
    preserve_definition: bool,
)
    requires
        other != coll,
    ensures
        ({
            let after = cleared(m, coll, preserve_definition);
            let place = ((other.0, other.1, other.2, field), entry);
            &&& after.chains.contains_key(other) == m.chains.contains_key(other)
            &&& after.spatial.documents.contains_key(place) == m.spatial.documents.contains_key(
                place,
            )
            &&& after.timeseries.ingested.contains_key(other) == m.timeseries.ingested.contains_key(
                other,
            )
            &&& after.columnar.engines.contains(other) == m.columnar.engines.contains(other)
            &&& after.columnar.flushed.contains(other) == m.columnar.flushed.contains(other)
            &&& after.held.contains((kind, other.0, other.1, other.2, field)) == m.held.contains(
                (kind, other.0, other.1, other.2, field),
            )
            &&& !registry::is_index_of(other.2, coll.2) || other.0 != coll.0 || other.1 != coll.1
                ==> after.vectors.dims.contains_key(other) == m.vectors.dims.contains_key(other)
        }),
{
}

/// What came of deleting one document from the store, and what then followed it.
pub struct Removal {
    pub doc_id: String,
    /// The bytes that the store had and deleted; none where it had no document
    /// or the delete failed.
    pub deleted: Option<Vec<u8>>,
    /// The deleted bytes in the form that events carry, where they are kept in
    /// another one.
    pub converted: Option<Vec<u8>>,
    /// How many edges its node had.
    pub edges: usize,
}

/// What a truncate does about a removed document. Its index entries and its edges
/// in memory go in any case.
pub struct Cascade {
    /// The row to take out of the inverted index; none for a key that names none.
    pub inverted: Option<u32>,
    /// Whether the stored edges of its node are deleted too.
    pub edges: bool,
    /// What the delete event tells of the document that was there.
    pub event_old: Vec<u8>,
}

/// Whether `c` is what follows a removal; nothing where there was no document.
pub open spec fn is_cascade(c: Option<Cascade>, x: Removal) -> bool {
    match x.deleted {
        None => c is None,
        Some(bytes) => c matches Some(c) && c.inverted == hex::parsed_hex_u32(x.doc_id@) && c.edges
            == (x.edges > 0) && c.event_old@ == (match x.converted {
            Some(v) => v@,
            None => bytes@,
        }),
    }
}

/// How many documents were removed.
pub open spec fn removed_count(removals: Seq<Removal>) -> nat
    decreases removals.len(),
{
    if removals.len() == 0 {
        0
    } else {
        removed_count(removals.drop_last()) + if removals.last().deleted is Some {
            1nat
        } else {
            0nat
        }
    }
}

proof fn lemma_removed_count(removals: Seq<Removal>)
    ensures
        removed_count(removals) <= removals.len(),
    decreases removals.len(),
{
    if removals.len() > 0 {
        lemma_removed_count(removals.drop_last());
    }
}

/// Whether removals took a document.
pub open spec fn took(removals: Seq<Removal>, doc_id: Seq<char>) -> bool {
    exists|i: int|
        0 <= i < removals.len() && (#[trigger] removals[i]).deleted is Some
            && removals[i].doc_id@ == doc_id
}

/// What is kept of other collections, or is no cached form of a document that
/// removals took.
pub open spec fn not_taken(coll: maps::CollId, removals: Seq<Removal>) -> spec_fn(HeldId) -> bool {
    |k: HeldId|
        k.0 != HeldKind::CachedDocument || held::elsewhere(coll)(k) || !took(removals, k.4)
}

/// What a truncate keeps in memory: not the cached forms of the documents it
/// took, nor the cached aggregates of the collection.
pub open spec fn truncated_held(
    kept: Set<HeldId>,
    coll: maps::CollId,
    removals: Seq<Removal>,
) -> Set<HeldId> {
    kept.filter(not_taken(coll, removals)).filter(
        held::of_no_kind(HeldKind::CachedAggregate, coll),
    )
}

proof fn lemma_taken_step(kept: Set<HeldId>, coll: maps::CollId, removals: Seq<Removal>)
    requires
        removals.len() > 0,
    ensures
        kept.filter(not_taken(coll, removals)) == if removals.last().deleted is Some {
            kept.filter(not_taken(coll, removals.drop_last())).remove(
                (HeldKind::CachedDocument, coll.0, coll.1, coll.2, removals.last().doc_id@),
            )
        } else {
            kept.filter(not_taken(coll, removals.drop_last()))
        },
{
    let init = removals.drop_last();
    assert forall|d: Seq<char>| #[trigger] took(removals, d) == (took(init, d) || (
    removals.last().deleted is Some && removals.last().doc_id@ == d)) by {
        if took(init, d) {
            let i = choose|i: int|
                0 <= i < init.len() && (#[trigger] init[i]).deleted is Some && init[i].doc_id@ == d;
            assert(removals[i] == init[i]);
        }
        if took(removals, d) {
            let i = choose|i: int|
                0 <= i < removals.len() && (#[trigger] removals[i]).deleted is Some
                    && removals[i].doc_id@ == d;
            if i < init.len() {
                assert(init[i] == removals[i]);
            }
        }
        if removals.last().deleted is Some && removals.last().doc_id@ == d {
            assert(removals[removals.len() - 1].deleted is Some);
        }
    }
    assert(kept.filter(not_taken(coll, removals)) =~= if removals.last().deleted is Some {
        kept.filter(not_taken(coll, init)).remove(
            (HeldKind::CachedDocument, coll.0, coll.1, coll.2, removals.last().doc_id@),
        )
    } else {
        kept.filter(not_taken(coll, init))
    });
}

impl CoreLoop {
    /// What a truncate comes to: what follows each removal, and how many documents
    /// were removed. A failed scan is answered as a failure and changes nothing.
    pub fn execute_truncate(
        &mut self,
        database_id: u64,
        tenant_id: u64,
        collection: &str,
        removals: Result<Vec<Removal>, String>,
    ) -> (r: Result<(Vec<Option<Cascade>>, u64), ErrorCode>)
        ensures
            model_of(*final(self)) == (CoreModel {
                held: match removals {
                    Ok(list) => truncated_held(
                        old(self).held@,
                        (database_id, tenant_id, collection@),
                        list@,
                    ),
                    Err(_) => old(self).held@,
                },
                ..model_of(*old(self))
            }),
            final(self).core_id == old(self).core_id,
            match removals {
                Err(e) => r is Err && r->Err_0@ == (ErrorCodeView::Internal {
                    detail: "scan for truncate: "@ + e@,
                }),
                Ok(list) => {
                    &&& r matches Ok((cascades, truncated))
                    &&& truncated == removed_count(list@)
                    &&& cascades@.len() == list@.len()
                    &&& forall|i: int|
                        0 <= i < cascades@.len() ==> is_cascade(#[trigger] cascades@[i], list@[i])
                },
            },
    {
        let list = match removals {
            Err(e) => {
                let mut detail = "scan for truncate: ".to_owned();
                detail.append(e.as_str());
                return Err(ErrorCode::Internal { detail });
            },
            Ok(list) => list,
        };
        let ghost all = list@;
        let ghost coll = (database_id, tenant_id, collection@);
        let mut cascades: Vec<Option<Cascade>> = Vec::new();
        let mut truncated: u64 = 0;
        proof {
            assert(all.take(0) =~= Seq::empty());
            assert(all.len() <= usize::MAX) by {
                assert(list.len() <= usize::MAX);
            }
            assert(self.held@ =~= old(self).held@.filter(not_taken(coll, all.take(0))));
        }
        for x in it: list.into_iter()
            invariant
                it.seq() == all,
                all.len() <= usize::MAX,
                coll == (database_id, tenant_id, collection@),
                self.held@ == old(self).held@.filter(not_taken(coll, all.take(it.index() as int))),
                self.core_id == old(self).core_id,
                self.vectors == old(self).vectors,
                self.chains == old(self).chains,
                self.spatial == old(self).spatial,
                self.timeseries == old(self).timeseries,
                self.columnar == old(self).columnar,
                truncated == removed_count(all.take(it.index() as int)),
                truncated <= it.index(),
                cascades@.len() == it.index(),
                forall|j: int| 0 <= j < it.index() ==> is_cascade(#[trigger] cascades@[j], all[j]),
        {
            let ghost n = it.index() as int;
            let ghost before = cascades@;
            proof {
                assert(all.take(n + 1).drop_last() =~= all.take(n));
                assert(all.take(n + 1).last() == x);
                lemma_removed_count(all.take(n + 1));
                lemma_taken_step(old(self).held@, coll, all.take(n + 1));
            }
            let c: Option<Cascade> = match x.deleted {
                None => None,
                Some(bytes) => {
                    let inverted: Option<u32> = match hex::doc_id_to_surrogate(x.doc_id.as_str()) {
                        Some(s) => Some(s.0),
                        None => None,
                    };
                    let event_old = match x.converted {
                        Some(v) => v,
                        None => bytes,
                    };
                    truncated = truncated + 1;
                    self.held.drop_one(
                        &HeldKey {
                            kind: HeldKind::CachedDocument,
                            db: database_id,
                            tid: tenant_id,
                            coll: collection.to_owned(),
                            part: x.doc_id,
                        },
                    );
                    Some(Cascade { inverted, edges: x.edges > 0, event_old })
                },
            };
            cascades.push(c);
            proof {
                assert forall|j: int| 0 <= j < n + 1 implies is_cascade(
                    #[trigger] cascades@[j],
                    all[j],
                ) by {
                    if j < n {
                        assert(cascades@[j] == before[j]);
                    }
                }
            }
        }
        proof {
            assert(all.take(all.len() as int) =~= all);
        }
        self.held.drop_kind(HeldKind::CachedAggregate, database_id, tenant_id, collection);
        Ok((cascades, truncated))
    }
}

/// The column statistics of a field.
#[derive(Clone, Copy, Debug, PartialEq, Eq, Structural)]
pub struct ColumnStats {
    pub distinct_count: u64,
    pub row_count: u64,
    pub null_count: u64,
}

/// An estimate of how many rows a field has.
pub struct CountEstimate {
    pub collection: String,
    pub field: String,
    pub estimate: u64,
    pub row_count: u64,
    pub null_count: u64,
}

/// Estimate a count from the statistics of a field. A field without statistics
/// counts as empty.
pub fn execute_estimate_count(
    collection: &str,
    field: &str,
    stats: Result<Option<ColumnStats>, String>,
) -> (r: Result<CountEstimate, ErrorCode>)
    ensures
        match stats {
            Err(e) => r is Err && r->Err_0@ == (ErrorCodeView::Internal { detail: e@ }),
            Ok(s) => {
                &&& r matches Ok(c)
                &&& c.collection@ == collection@
                &&& c.field@ == field@
                &&& match s {
                    Some(s) => c.estimate == s.distinct_count && c.row_count == s.row_count
                        && c.null_count == s.null_count,
                    None => c.estimate == 0 && c.row_count == 0 && c.null_count == 0,
                }
            },
        },
{
    match stats {
        Err(e) => Err(ErrorCode::Internal { detail: e }),
        Ok(s) => {
            let known: ColumnStats = match s {
                Some(s) => s,
                None => ColumnStats { distinct_count: 0, row_count: 0, null_count: 0 },
            };
            Ok(
                CountEstimate {
                    collection: collection.to_owned(),
                    field: field.to_owned(),
                    estimate: known.distinct_count,
                    row_count: known.row_count,
                    null_count: known.null_count,
                },
            )
        },
    }
}

/// The statistics of a clearing are what each engine reported; an engine that
/// reported nothing counts for nothing, and a memtable counts once.
pub proof fn law_each_engine_is_counted(e: EngineReclaims, vec_removed: usize)
    ensures
        ({
            let s = stats_of(e, vec_removed);
            &&& e.sparse matches Some((docs, idxs)) ==> s.docs_removed == docs && s.idxs_removed
                == idxs
            &&& e.sparse is None ==> s.docs_removed == 0 && s.idxs_removed == 0
            &&& e.inverted matches Some(n) ==> s.inv_removed == n
            &&& e.inverted is None ==> s.inv_removed == 0
            &&& e.edges matches Some(n) ==> s.edges_removed == n
            &&& e.edges is None ==> s.edges_removed == 0
            &&& e.crdt_rows matches Some(n) ==> s.crdt_rows_removed == n
            &&& e.crdt_rows is None ==> s.crdt_rows_removed == 0
            &&& s.vec_removed == vec_removed
            &&& e.memtable <==> s.ts_removed == 1
            &&& !e.memtable <==> s.ts_removed == 0
            &&& s.spatial_removed == e.spatial_indexes
            &&& s.kv_removed == e.kv
            &&& s.l1 == e.l1
        }),
{
}

/// A document that was deleted has a cascade: out of the inverted index where its id
/// is that of a row, with the edges of its node where it had any, and an event with
/// what was deleted. One that was not deleted has none.
pub proof fn law_only_a_deleted_document_cascades(c: Option<Cascade>, x: Removal)
    requires
        is_cascade(c, x),
    ensures
        c is Some <==> x.deleted is Some,
        c matches Some(c) ==> c.inverted == hex::parsed_hex_u32(x.doc_id@) && (c.edges <==> x.edges
            > 0) && (x.converted matches Some(v) ==> c.event_old@ == v@) && (x.converted is None
            ==> c.event_old@ == x.deleted->0@),
{
}

/// A truncation counts the documents that were deleted.
pub proof fn law_each_deleted_document_counts(removals: Seq<Removal>, x: Removal)
    ensures
        x.deleted is Some ==> removed_count(removals.push(x)) == removed_count(removals) + 1,
        x.deleted is None ==> removed_count(removals.push(x)) == removed_count(removals),
        removed_count(Seq::<Removal>::empty()) == 0,
{
    assert(removals.push(x).drop_last() =~= removals);
}

/// A truncation drops the cached documents that were deleted and the cached
/// aggregates of its collection, and nothing else that is held.
pub proof fn law_truncating_drops_what_was_deleted(
    kept: Set<HeldId>,
    db: u64,
    tid: u64,
    coll: Seq<char>,
    removals: Seq<Removal>,
    k: HeldId,
)
    ensures
        truncated_held(kept, (db, tid, coll), removals).contains(k) <==> kept.contains(k) && !(k.1
            == db && k.2 == tid && k.3 == coll && (k.0 == HeldKind::CachedAggregate || (k.0
            == HeldKind::CachedDocument && exists|i: int|
            0 <= i < removals.len() && (#[trigger] removals[i]).deleted is Some
                && removals[i].doc_id@ == k.4))),
{
}

} // verus!
