//! Restoring a tenant across all engines: stale collections are cleared, then
//! the sections of the snapshot are installed one engine after the other.
use crate::core_loop::CoreLoop;
use crate::error;
use crate::error::{ErrorCode, ErrorCodeView, ErrorView};
use crate::held::{HeldId, HeldKind};
use crate::maps;
use crate::purge;
use crate::purge::{CoreModel, EngineReclaims};
use crate::replay::crdt;
use crate::snapshot::keys;
use crate::snapshot::restore;
use crate::snapshot::restore::{
    DecodedTable, EntryView, KvRestorePut, TimeseriesAnswers, VectorInstall, VectorRestore,
};
use crate::snapshot::segments;
use crate::snapshot::segments::{CollectionBlob, ColumnarBlob};
use crate::timeseries::state::{TsModel, TsState};
use crate::vectors::handlers;
use crate::vectors::registry::{HnswParams, IndexType, Registry, VectorRegistry};
use vstd::prelude::*;
use vstd::string::*;

verus! {

/// A collection to clear before the snapshot goes in, with what its engines
/// reclaimed, or why they could not.
pub struct ClearPart {
    pub tid: u64,
    pub collection: String,
    pub reclaimed: Result<EngineReclaims, String>,
}

/// The vectors of an index: the length and the surrogate of each; none where
/// they did not decode.
pub struct VectorSection {
    pub key: String,
    pub vectors: Option<Vec<(usize, Option<u32>)>>,
}

/// A timeseries section, with what came of it.
pub struct SeriesSection {
    pub key: String,
    pub answers: TimeseriesAnswers,
}

/// The sections of a snapshot. What a store answered stands for a section that
/// goes straight into it; what was not reached is not read.
pub struct SnapshotParts {
    pub documents: Vec<bool>,
    pub indexes: Vec<bool>,
    pub edges: Vec<bool>,
    /// Edges that carry their tenant.
    pub tenant_edges: Vec<bool>,
    /// What failed when the adjacency was rebuilt.
    pub rebuild_failed: Option<String>,
    /// Parameters and structures of indexes; none where they did not decode.
    pub vector_params: Vec<(String, Option<HnswParams>)>,
    pub index_configs: Vec<(String, Option<IndexType>)>,
    pub vectors: Vec<VectorSection>,
    pub kv_tables: Vec<DecodedTable>,
    pub crdt: Vec<bool>,
    /// For each collection what decoding each constraint failed with, or why
    /// the tenant has no engine.
    pub crdt_constraints: Vec<Result<Vec<Option<String>>, String>>,
    pub timeseries: Vec<SeriesSection>,
    pub segments: Vec<CollectionBlob>,
    pub columnar: Vec<ColumnarBlob>,
}

/// A restore: what to clear, and the snapshot or why it did not decode.
pub struct RestoreRequest {
    pub tenant_id: u64,
    pub replace_mode: bool,
    pub now_ms: u64,
    pub clears: Vec<ClearPart>,
    pub snapshot: Result<SnapshotParts, String>,
}

/// What a restore installed.
#[derive(Clone, Copy, Debug, PartialEq, Eq, Structural)]
pub struct RestoreCounts {
    pub documents: u64,
    pub indexes: u64,
    pub edges: u64,
    pub vectors: u64,
    pub kv_entries: u64,
    pub crdt: u64,
    pub crdt_constraints: u64,
    pub timeseries: u64,
    pub columnar_engines: u64,
}

/// The entries of a key-value table to install.
pub struct KvTableRestore {
    pub database_id: u64,
    pub collection: String,
    pub puts: Vec<KvRestorePut>,
}

/// The same as a mathematical value.
#[verifier::ext_equal]
pub struct KvInstall {
    pub database_id: u64,
    pub collection: Seq<char>,
    pub puts: Seq<EntryView>,
}

impl View for KvTableRestore {
    type V = KvInstall;

    open spec fn view(&self) -> KvInstall {
        KvInstall {
            database_id: self.database_id,
            collection: self.collection@,
            puts: restore::put_views(self.puts@),
        }
    }
}

/// What a restore comes to: what is installed in the vector and key-value
/// engines, and the answer. What precedes a failure is installed all the same.
pub struct RestoreRun {
    pub vectors: Vec<VectorRestore>,
    pub kv: Vec<KvTableRestore>,
    pub answer: Result<RestoreCounts, ErrorCode>,
}

pub open spec fn clear_text(collection: Seq<char>, e: Seq<char>) -> Seq<char> {
    "clear-then-install purge failed for '"@ + (collection + ("': "@ + e))
}

/// The core after the clears, up to the first that fails, and that failure. The
/// snapshot carries no definitions, so the clears preserve them.
pub open spec fn after_clears(m: CoreModel, parts: Seq<ClearPart>) -> (CoreModel, Option<Seq<char>>)
    decreases parts.len(),
{
    if parts.len() == 0 {
        (m, None)
    } else {
        let (before, failed) = after_clears(m, parts.drop_last());
        let last = parts.last();
        if failed is Some {
            (before, failed)
        } else {
            match last.reclaimed {
                Err(e) => (before, Some(clear_text(last.collection@, e@))),
                Ok(_) => (purge::cleared(before, (0, last.tid, last.collection@), true), None),
            }
        }
    }
}

proof fn lemma_clear_failure_stays(m: CoreModel, parts: Seq<ClearPart>, n: int)
    requires
        0 <= n <= parts.len(),
        after_clears(m, parts.take(n)).1 is Some,
    ensures
        after_clears(m, parts) == after_clears(m, parts.take(n)),
    decreases parts.len() - n,
{
    if n < parts.len() {
        assert(parts.take(n + 1).drop_last() =~= parts.take(n));
        lemma_clear_failure_stays(m, parts, n + 1);
    } else {
        assert(parts.take(n) =~= parts);
    }
}

/// The registry after vector sections, and what they ask of the engine.
pub open spec fn after_vectors(
    m: Registry,
    sections: Seq<VectorSection>,
    tenant_id: u64,
    replace_mode: bool,
) -> (Registry, Seq<VectorInstall>)
    decreases sections.len(),
{
    if sections.len() == 0 {
        (m, Seq::empty())
    } else {
        let (before, installs) = after_vectors(m, sections.drop_last(), tenant_id, replace_mode);
        match sections.last().vectors {
            None => (before, installs),
            Some(v) => {
                let (db, name) = keys::vector_key(sections.last().key@, tenant_id);
                let key = (db, tenant_id, name);
                (
                    restore::with_vectors(before, key, v@, replace_mode),
                    match restore::vector_install(before, key, v@, replace_mode) {
                        Some(install) => installs.push(install),
                        None => installs,
                    },
                )
            },
        }
    }
}

pub open spec fn vector_measure() -> spec_fn(VectorSection) -> nat {
    |s: VectorSection|
        match s.vectors {
            Some(v) => v@.len(),
            None => 0,
        }
}

/// The tables that decoded, with the entries of each that have not expired.
pub open spec fn kv_installs(tables: Seq<DecodedTable>, now_ms: u64) -> Seq<KvInstall>
    decreases tables.len(),
{
    if tables.len() == 0 {
        Seq::empty()
    } else {
        let init = kv_installs(tables.drop_last(), now_ms);
        match restore::table_view(tables.last()) {
            (collection, Some(entries)) => init.push(
                KvInstall {
                    database_id: keys::qualified_database(collection),
                    collection,
                    puts: restore::live_entries(entries, now_ms),
                },
            ),
            (_, None) => init,
        }
    }
}

pub open spec fn table_measure() -> spec_fn(DecodedTable) -> nat {
    |t: DecodedTable|
        match t.entries {
            Some(e) => e@.len(),
            None => 0,
        }
}

/// How many collections had all of their constraints installed.
pub open spec fn constrained(outcomes: Seq<Result<Vec<Option<String>>, String>>) -> nat
    decreases outcomes.len(),
{
    if outcomes.len() == 0 {
        0
    } else {
        constrained(outcomes.drop_last()) + if outcomes.last() matches Ok(failures)
            && restore::first_text(failures@) is None {
            1nat
        } else {
            0nat
        }
    }
}

/// The state after timeseries sections, up to the first that fails, with its
/// key and its failure.
pub open spec fn after_series(m: TsModel, series: Seq<SeriesSection>) -> (
    TsModel,
    Option<(Seq<char>, ErrorView)>,
)
    decreases series.len(),
{
    if series.len() == 0 {
        (m, None)
    } else {
        let (before, failed) = after_series(m, series.drop_last());
        if failed is Some {
            (before, failed)
        } else {
            let (after, e) = restore::series_outcome(
                before,
                series.last().key@,
                series.last().answers,
            );
            (
                after,
                match e {
                    Some(e) => Some((series.last().key@, e)),
                    None => None,
                },
            )
        }
    }
}

proof fn lemma_series_failure_stays(m: TsModel, series: Seq<SeriesSection>, n: int)
    requires
        0 <= n <= series.len(),
        after_series(m, series.take(n)).1 is Some,
    ensures
        after_series(m, series) == after_series(m, series.take(n)),
    decreases series.len() - n,
{
    if n < series.len() {
        assert(series.take(n + 1).drop_last() =~= series.take(n));
        lemma_series_failure_stays(m, series, n + 1);
    } else {
        assert(series.take(n) =~= series);
    }
}

/// How many edges were installed.
pub open spec fn edge_count(s: SnapshotParts) -> nat {
    crdt::successes(s.edges@) + crdt::successes(s.tenant_edges@)
}

/// What a restore that succeeds reports.
pub open spec fn restore_counts(s: SnapshotParts) -> RestoreCounts {
    RestoreCounts {
        documents: crdt::successes(s.documents@) as u64,
        indexes: crdt::successes(s.indexes@) as u64,
        edges: edge_count(s) as u64,
        vectors: maps::total(s.vectors@, vector_measure()) as u64,
        kv_entries: maps::total(s.kv_tables@, table_measure()) as u64,
        crdt: crdt::successes(s.crdt@) as u64,
        crdt_constraints: constrained(s.crdt_constraints@) as u64,
        timeseries: s.timeseries@.len() as u64,
        columnar_engines: s.columnar@.len() as u64,
    }
}

/// What a restore comes to, as a mathematical value.
#[verifier::ext_equal]
pub struct RestoreEffect {
    pub core: CoreModel,
    pub vectors: Seq<VectorInstall>,
    pub kv: Seq<KvInstall>,
    pub answer: Result<RestoreCounts, Seq<char>>,
}

/// Nothing beyond what is done already, and a failure.
pub open spec fn stopped(core: CoreModel, message: Seq<char>) -> RestoreEffect {
    RestoreEffect { core, vectors: Seq::empty(), kv: Seq::empty(), answer: Err(message) }
}

/// The registry with the parameters and structures that a snapshot declares.
pub open spec fn with_declarations(m: Registry, s: SnapshotParts, tenant_id: u64) -> Registry {
    Registry {
        params: restore::declared_params(m.params, s.vector_params@, tenant_id),
        configs: restore::declared_configs(m.configs, s.index_configs@, tenant_id),
        ..m
    }
}

/// Installing the sections that must be durable, behind those of the other
/// engines: timeseries, partitions, columnar engines.
pub open spec fn durable_outcome(m: CoreModel, s: SnapshotParts) -> (CoreModel, Option<Seq<char>>) {
    let (series, series_failed) = after_series(m.timeseries, s.timeseries@);
    let (parts, parts_failed) = segments::after_blobs(series, s.segments@);
    let (engines, engines_failed) = segments::after_engines(m.columnar, s.columnar@);
    if series_failed is Some {
        let (key, e) = series_failed->0;
        (
            CoreModel { timeseries: series, ..m },
            Some(
                "restore: timeseries collection "@ + (key + (" failed: "@ + error::error_text(e))),
            ),
        )
    } else if parts_failed is Some {
        (
            CoreModel { timeseries: parts, ..m },
            Some(
                "restore: flushed ts segment restore failed: "@ + error::error_text(
                    parts_failed->0,
                ),
            ),
        )
    } else if engines_failed is Some {
        (
            CoreModel { timeseries: parts, columnar: engines, ..m },
            Some(
                "restore: columnar engine restore failed: "@ + error::error_text(
                    engines_failed->0,
                ),
            ),
        )
    } else {
        (CoreModel { timeseries: parts, columnar: engines, ..m }, None)
    }
}

/// Installing a snapshot.
pub open spec fn install_outcome(
    m: CoreModel,
    s: SnapshotParts,
    tenant_id: u64,
    replace_mode: bool,
    now_ms: u64,
) -> RestoreEffect {
    if edge_count(s) > 0 && s.rebuild_failed is Some {
        stopped(m, "restore: CSR rebuild after edge install failed: "@ + s.rebuild_failed->0@)
    } else {
        let (vectors, installs) = after_vectors(
            with_declarations(m.vectors, s, tenant_id),
            s.vectors@,
            tenant_id,
            replace_mode,
        );
        let (core, failed) = durable_outcome(CoreModel { vectors, ..m }, s);
        RestoreEffect {
            core,
            vectors: installs,
            kv: kv_installs(s.kv_tables@, now_ms),
            answer: match failed {
                Some(message) => Err(message),
                None => Ok(restore_counts(s)),
            },
        }
    }
}

/// A restore.
pub open spec fn restore_outcome(m: CoreModel, req: RestoreRequest) -> RestoreEffect {
    let (core, failed) = after_clears(m, req.clears@);
    match failed {
        Some(message) => stopped(core, message),
        None => match req.snapshot {
            Err(e) => stopped(core, "malformed tenant snapshot: "@ + e@),
            Ok(s) => install_outcome(core, s, req.tenant_id, req.replace_mode, req.now_ms),
        },
    }
}

/// Whether the counts of a snapshot's entries fit.
pub open spec fn countable(s: SnapshotParts) -> bool {
    &&& s.edges@.len() + s.tenant_edges@.len() <= u64::MAX
    &&& maps::total(s.vectors@, vector_measure()) <= u64::MAX
    &&& maps::total(s.kv_tables@, table_measure()) <= u64::MAX
}

/// Whether the adjacency has to be rebuilt: where any edge was installed.
pub fn needs_rebuild(edges: &Vec<bool>, tenant_edges: &Vec<bool>) -> (r: bool)
    ensures
        r == (crdt::successes(edges@) + crdt::successes(tenant_edges@) > 0),
{
    restore::count_ok(edges) > 0 || restore::count_ok(tenant_edges) > 0
}

fn internal(head: &str, e: &str) -> (r: ErrorCode)
    ensures
        r@ == (ErrorCodeView::Internal { detail: head@ + e@ }),
{
    let mut detail = head.to_owned();
    detail.append(e);
    ErrorCode::Internal { detail }
}

fn internal_at(head: &str, name: &str, middle: &str, e: &str) -> (r: ErrorCode)
    ensures
        r@ == (ErrorCodeView::Internal { detail: head@ + (name@ + (middle@ + e@)) }),
{
    let mut detail = head.to_owned();
    detail.append(name);
    detail.append(middle);
    detail.append(e);
    proof {
        assert(detail@ =~= head@ + (name@ + (middle@ + e@)));
    }
    ErrorCode::Internal { detail }
}

pub open spec fn vector_views(v: Seq<VectorRestore>) -> Seq<VectorInstall> {
    v.map_values(|r: VectorRestore| r@)
}

pub open spec fn kv_views(v: Seq<KvTableRestore>) -> Seq<KvInstall> {
    v.map_values(|r: KvTableRestore| r@)
}

fn restore_vectors(
    reg: &mut VectorRegistry,
    sections: &Vec<VectorSection>,
    tenant_id: u64,
    replace_mode: bool,
) -> (r: (Vec<VectorRestore>, u64))
    requires
        maps::total(sections@, vector_measure()) <= u64::MAX,
    ensures
        (final(reg)@, vector_views(r.0@)) == after_vectors(
            old(reg)@,
            sections@,
            tenant_id,
            replace_mode,
        ),
        r.1 == maps::total(sections@, vector_measure()),
{
    let mut out: Vec<VectorRestore> = Vec::new();
    let mut n: u64 = 0;
    let mut i: usize = 0;
    proof {
        assert(vector_views(out@) =~= Seq::empty());
    }
    while i < sections.len()
        invariant
            i <= sections@.len(),
            maps::total(sections@, vector_measure()) <= u64::MAX,
            n == maps::total(sections@.take(i as int), vector_measure()),
            (reg@, vector_views(out@)) == after_vectors(
                old(reg)@,
                sections@.take(i as int),
                tenant_id,
                replace_mode,
            ),
        decreases sections.len() - i,
    {
        let ghost before = out@;
        proof {
            assert(sections@.take(i + 1).drop_last() =~= sections@.take(i as int));
            maps::lemma_total_step(sections@, i as int, vector_measure());
            maps::lemma_total_prefix(sections@, i + 1, vector_measure());
        }
        match &sections[i].vectors {
            None => {},
            Some(v) => {
                let (db, name) = keys::parse_vector_snapshot_key(
                    sections[i].key.as_str(),
                    tenant_id,
                );
                n = n + v.len() as u64;
                match restore::restore_vector_collection(
                    reg,
                    db,
                    tenant_id,
                    name.as_str(),
                    v,
                    replace_mode,
                ) {
                    Some(install) => {
                        out.push(install);
                        proof {
                            assert(vector_views(out@) =~= vector_views(before).push(install@));
                        }
                    },
                    None => {},
                }
            },
        }
        i = i + 1;
    }
    proof {
        assert(sections@.take(sections@.len() as int) =~= sections@);
    }
    (out, n)
}

fn restore_tables(tables: Vec<DecodedTable>, now_ms: u64) -> (r: (Vec<KvTableRestore>, u64))
    requires
        maps::total(tables@, table_measure()) <= u64::MAX,
    ensures
        kv_views(r.0@) == kv_installs(tables@, now_ms),
        r.1 == maps::total(tables@, table_measure()),
{
    let ghost all = tables@;
    let mut out: Vec<KvTableRestore> = Vec::new();
    let mut n: u64 = 0;
    proof {
        assert(kv_views(out@) =~= Seq::empty());
    }
    for t in it: tables.into_iter()
        invariant
            it.seq() == all,
            maps::total(all, table_measure()) <= u64::MAX,
            n == maps::total(all.take(it.index() as int), table_measure()),
            kv_views(out@) == kv_installs(all.take(it.index() as int), now_ms),
    {
        let ghost k = it.index() as int;
        let ghost before = out@;
        proof {
            assert(all.take(k + 1).drop_last() =~= all.take(k));
            assert(all.take(k + 1).last() == t);
            maps::lemma_total_step(all, k, table_measure());
            maps::lemma_total_prefix(all, k + 1, table_measure());
        }
        match t.entries {
            None => {},
            Some(entries) => {
                n = n + entries.len() as u64;
                let (database_id, puts) = restore::restore_kv_table(
                    t.collection.as_str(),
                    entries,
                    now_ms,
                );
                let install = KvTableRestore { database_id, collection: t.collection, puts };
                out.push(install);
                proof {
                    assert(kv_views(out@) =~= kv_views(before).push(install@));
                }
            },
        }
    }
    proof {
        assert(all.take(all.len() as int) =~= all);
    }
    (out, n)
}

fn count_constrained(outcomes: &Vec<Result<Vec<Option<String>>, String>>) -> (r: u64)
    ensures
        r == constrained(outcomes@),
{
    let mut n: u64 = 0;
    let mut i: usize = 0;
    while i < outcomes.len()
        invariant
            i <= outcomes@.len(),
            n <= i,
            n == constrained(outcomes@.take(i as int)),
        decreases outcomes.len() - i,
    {
        proof {
            assert(outcomes@.take(i + 1).drop_last() =~= outcomes@.take(i as int));
        }
        match &outcomes[i] {
            Err(_) => {},
            Ok(failures) => {
                if restore::restore_crdt_constraints(failures).is_ok() {
                    n = n + 1;
                }
            },
        }
        i = i + 1;
    }
    proof {
        assert(outcomes@.take(outcomes@.len() as int) =~= outcomes@);
    }
    n
}

fn restore_series(ts: &mut TsState, series: Vec<SeriesSection>) -> (r: Result<(), ErrorCode>)
    ensures
        ({
            let (after, failed) = after_series(old(ts)@, series@);
            final(ts)@ == after && match failed {
                None => r is Ok,
                Some((key, e)) => r is Err && r->Err_0@ == (ErrorCodeView::Internal {
                    detail: "restore: timeseries collection "@ + (key + (" failed: "@
                        + error::error_text(e))),
                }),
            }
        }),
{
    let ghost all = series@;
    for s in it: series.into_iter()
        invariant
            it.seq() == all,
            after_series(old(ts)@, all.take(it.index() as int)) == (
                ts@,
                None::<(Seq<char>, ErrorView)>,
            ),
    {
        let ghost k = it.index() as int;
        proof {
            assert(all.take(k + 1).drop_last() =~= all.take(k));
            assert(all.take(k + 1).last() == s);
        }
        match restore::restore_timeseries(ts, s.key.as_str(), s.answers) {
            Ok(()) => {},
            Err(e) => {
                proof {
                    lemma_series_failure_stays(old(ts)@, all, k + 1);
                }
                return Err(
                    internal_at(
                        "restore: timeseries collection ",
                        s.key.as_str(),
                        " failed: ",
                        e.text().as_str(),
                    ),
                );
            },
        }
    }
    proof {
        assert(all.take(all.len() as int) =~= all);
    }
    Ok(())
}

impl CoreLoop {
    fn clear_stale(&mut self, clears: &Vec<ClearPart>) -> (r: Result<(), ErrorCode>)
        ensures
            final(self).core_id == old(self).core_id,
            ({
                let (after, failed) = after_clears(purge::model_of(*old(self)), clears@);
                purge::model_of(*final(self)) == after && match failed {
                    None => r is Ok,
                    Some(detail) => r is Err && r->Err_0@ == (ErrorCodeView::Internal { detail }),
                }
            }),
    {
        let mut i: usize = 0;
        while i < clears.len()
            invariant
                i <= clears@.len(),
                self.core_id == old(self).core_id,
                after_clears(purge::model_of(*old(self)), clears@.take(i as int)) == (
                    purge::model_of(*self),
                    None::<Seq<char>>,
                ),
            decreases clears.len() - i,
        {
            proof {
                assert(clears@.take(i + 1).drop_last() =~= clears@.take(i as int));
            }
            let part = &clears[i];
            match &part.reclaimed {
                Ok(reclaims) => {
                    self.clear_collection_all_engines(
                        0,
                        part.tid,
                        part.collection.as_str(),
                        true,
                        reclaims,
                    );
                },
                Err(e) => {
                    proof {
                        lemma_clear_failure_stays(purge::model_of(*old(self)), clears@, i + 1);
                    }
                    return Err(
                        internal_at(
                            "clear-then-install purge failed for '",
                            part.collection.as_str(),
                            "': ",
                            e.as_str(),
                        ),
                    );
                },
            }
            i = i + 1;
        }
        proof {
            assert(clears@.take(clears@.len() as int) =~= clears@);
        }
        Ok(())
    }

    fn restore_durable(
        &mut self,
        series: Vec<SeriesSection>,
        parts: &Vec<CollectionBlob>,
        columnar: &Vec<ColumnarBlob>,
        Ghost(s): Ghost<SnapshotParts>,
    ) -> (r: Result<(), ErrorCode>)
        requires
            s.timeseries == series,
            s.segments == *parts,
            s.columnar == *columnar,
        ensures
            final(self).core_id == old(self).core_id,
            ({
                let (after, failed) = durable_outcome(purge::model_of(*old(self)), s);
                purge::model_of(*final(self)) == after && match failed {
                    None => r is Ok,
                    Some(detail) => r is Err && r->Err_0@ == (ErrorCodeView::Internal { detail }),
                }
            }),
    {
        match restore_series(&mut self.timeseries, series) {
            Ok(()) => {},
            Err(e) => {
                return Err(e);
            },
        }
        match segments::restore_flushed_ts_segments(&mut self.timeseries, parts) {
            Ok(()) => {},
            Err(e) => {
                return Err(
                    internal("restore: flushed ts segment restore failed: ", e.text().as_str()),
                );
            },
        }
        match self.columnar.restore_columnar_engines(columnar) {
            Ok(()) => {},
            Err(e) => {
                return Err(
                    internal("restore: columnar engine restore failed: ", e.text().as_str()),
                );
            },
        }
        Ok(())
    }

    fn install(
        &mut self,
        s: SnapshotParts,
        tenant_id: u64,
        replace_mode: bool,
        now_ms: u64,
    ) -> (r: RestoreRun)
        requires
            countable(s),
        ensures
            final(self).core_id == old(self).core_id,
            ({
                let e = install_outcome(
                    purge::model_of(*old(self)),
                    s,
                    tenant_id,
                    replace_mode,
                    now_ms,
                );
                comes_to(e, purge::model_of(*final(self)), r)
            }),
    {
        let ghost whole = s;
        let (documents, indexes) = restore::restore_sparse(&s.documents, &s.indexes);
        let edges: u64 = restore::count_ok(&s.edges) + restore::count_ok(&s.tenant_edges);
        if edges > 0 {
            match &s.rebuild_failed {
                Some(e) => {
                    let run = RestoreRun {
                        vectors: Vec::new(),
                        kv: Vec::new(),
                        answer: Err(
                            internal(
                                "restore: CSR rebuild after edge install failed: ",
                                e.as_str(),
                            ),
                        ),
                    };
                    proof {
                        assert(vector_views(run.vectors@) =~= Seq::empty());
                        assert(kv_views(run.kv@) =~= Seq::empty());
                    }
                    return run;
                },
                None => {},
            }
        }
        restore::restore_vector_params(&mut self.vectors, tenant_id, &s.vector_params);
        restore::restore_index_configs(&mut self.vectors, tenant_id, &s.index_configs);
        let (vectors, vectors_written) = restore_vectors(
            &mut self.vectors,
            &s.vectors,
            tenant_id,
            replace_mode,
        );
        let (kv, kv_written) = restore_tables(s.kv_tables, now_ms);
        let counts = RestoreCounts {
            documents,
            indexes,
            edges,
            vectors: vectors_written,
            kv_entries: kv_written,
            crdt: restore::count_ok(&s.crdt),
            crdt_constraints: count_constrained(&s.crdt_constraints),
            timeseries: s.timeseries.len() as u64,
            columnar_engines: s.columnar.len() as u64,
        };
        let answer = match self.restore_durable(
            s.timeseries,
            &s.segments,
            &s.columnar,
            Ghost(whole),
        ) {
            Ok(()) => Ok(counts),
            Err(e) => Err(e),
        };
        RestoreRun { vectors, kv, answer }
    }

    /// Restore a tenant. Stale collections are cleared first, and nothing is
    /// installed over one that cannot be. A document, an index entry, an edge
    /// or a section of vectors, key-value entries or CRDT state that fails is
    /// passed over; a failure of what must be durable fails the restore.
    pub fn execute_restore_tenant_snapshot(&mut self, req: RestoreRequest) -> (r: RestoreRun)
        requires
            req.snapshot matches Ok(s) ==> countable(s),
        ensures
            final(self).core_id == old(self).core_id,
            comes_to(
                restore_outcome(purge::model_of(*old(self)), req),
                purge::model_of(*final(self)),
                r,
            ),
    {
        let stopped = match self.clear_stale(&req.clears) {
            Err(e) => Some(e),
            Ok(()) => None,
        };
        let failure = match stopped {
            Some(e) => e,
            None => match req.snapshot {
                Ok(s) => {
                    return self.install(s, req.tenant_id, req.replace_mode, req.now_ms);
                },
                Err(e) => internal("malformed tenant snapshot: ", e.as_str()),
            },
        };
        let run = RestoreRun { vectors: Vec::new(), kv: Vec::new(), answer: Err(failure) };
        proof {
            assert(vector_views(run.vectors@) =~= Seq::empty());
            assert(kv_views(run.kv@) =~= Seq::empty());
        }
        run
    }
}

/// Whether a restore left the core and came out as it should.
pub open spec fn comes_to(e: RestoreEffect, core: CoreModel, run: RestoreRun) -> bool {
    &&& core == e.core
    &&& vector_views(run.vectors@) == e.vectors
    &&& kv_views(run.kv@) == e.kv
    &&& match e.answer {
        Ok(counts) => run.answer == Ok::<RestoreCounts, ErrorCode>(counts),
        Err(detail) => run.answer is Err && run.answer->Err_0@ == (ErrorCodeView::Internal {
            detail,
        }),
    }
}

/// Nothing is installed where a stale collection cannot be cleared or the
/// snapshot does not decode.
pub proof fn law_nothing_is_installed_over_stale_state(m: CoreModel, req: RestoreRequest)
    requires
        after_clears(m, req.clears@).1 is Some || req.snapshot is Err,
    ensures
        ({
            let e = restore_outcome(m, req);
            &&& e.answer is Err
            &&& e.core == after_clears(m, req.clears@).0
            &&& e.vectors.len() == 0
            &&& e.kv.len() == 0
        }),
{
}

proof fn lemma_clears_keep_definitions(m: CoreModel, parts: Seq<ClearPart>, definition: HeldId)
    requires
        definition.0 == HeldKind::DocumentConfig,
    ensures
        after_clears(m, parts).0.held.contains(definition) == m.held.contains(definition),
    decreases parts.len(),
{
    if parts.len() > 0 {
        lemma_clears_keep_definitions(m, parts.drop_last(), definition);
    }
}

/// A restore leaves every collection defined as it was, those that it clears
/// first too: the restored rows land in collections that are still defined.
pub proof fn law_a_restore_keeps_the_definition(
    m: CoreModel,
    req: RestoreRequest,
    definition: HeldId,
)
    requires
        definition.0 == HeldKind::DocumentConfig,
    ensures
        restore_outcome(m, req).core.held.contains(definition) == m.held.contains(definition),
{
    lemma_clears_keep_definitions(m, req.clears@, definition);
}

proof fn lemma_installs_declared(
    m: Registry,
    sections: Seq<VectorSection>,
    tenant_id: u64,
    replace_mode: bool,
)
    ensures
        after_vectors(m, sections, tenant_id, replace_mode).0.params == m.params,
        forall|i: int|
            0 <= i < after_vectors(m, sections, tenant_id, replace_mode).1.len() ==> {
                let x = #[trigger] after_vectors(m, sections, tenant_id, replace_mode).1[i];
                x.params == handlers::declared(m, x.key)
            },
    decreases sections.len(),
{
    if sections.len() > 0 {
        lemma_installs_declared(m, sections.drop_last(), tenant_id, replace_mode);
        let (before, installs) = after_vectors(m, sections.drop_last(), tenant_id, replace_mode);
        let all = after_vectors(m, sections, tenant_id, replace_mode).1;
        assert forall|i: int| 0 <= i < all.len() implies {
            let x = #[trigger] all[i];
            x.params == handlers::declared(m, x.key)
        } by {
            if i < installs.len() {
                assert(all[i] == installs[i]);
            }
        }
    }
}

proof fn lemma_declared_params(
    m: Map<(u64, u64, Seq<char>), HnswParams>,
    entries: Seq<(String, Option<HnswParams>)>,
    tenant_id: u64,
    i: int,
)
    requires
        0 <= i < entries.len(),
        entries[i].1 is Some,
    ensures
        ({
            let (db, name) = keys::vector_key(entries[i].0@, tenant_id);
            restore::declared_params(m, entries, tenant_id).contains_key((db, tenant_id, name))
        }),
    decreases entries.len(),
{
    if i < entries.len() - 1 {
        lemma_declared_params(m, entries.drop_last(), tenant_id, i);
        assert(entries.drop_last()[i] == entries[i]);
    }
}

/// An index that a restore makes is made with the parameters that the snapshot
/// holds for it, not with default ones.
pub proof fn law_restored_vectors_find_their_parameters(
    m: CoreModel,
    s: SnapshotParts,
    tenant_id: u64,
    replace_mode: bool,
    now_ms: u64,
    i: int,
    j: int,
)
    requires
        0 <= i < install_outcome(m, s, tenant_id, replace_mode, now_ms).vectors.len(),
        0 <= j < s.vector_params@.len(),
        s.vector_params@[j].1 is Some,
        ({
            let (db, name) = keys::vector_key(s.vector_params@[j].0@, tenant_id);
            install_outcome(m, s, tenant_id, replace_mode, now_ms).vectors[i].key == (
                db,
                tenant_id,
                name,
            )
        }),
    ensures
        ({
            let x = install_outcome(m, s, tenant_id, replace_mode, now_ms).vectors[i];
            x.params == Some(
                restore::declared_params(m.vectors.params, s.vector_params@, tenant_id)[x.key],
            )
        }),
{
    let reg = with_declarations(m.vectors, s, tenant_id);
    lemma_installs_declared(reg, s.vectors@, tenant_id, replace_mode);
    lemma_declared_params(m.vectors.params, s.vector_params@, tenant_id, j);
}

/// Stale collections are cleared one by one, of the first database and with their
/// definitions kept; the first that cannot be reclaimed stops the restore.
pub proof fn law_stale_collections_are_cleared_in_order(
    m: CoreModel,
    parts: Seq<ClearPart>,
    p: ClearPart,
)
    ensures
        ({
            let (before, stopped) = after_clears(m, parts);
            let (after, failed) = after_clears(m, parts.push(p));
            &&& stopped is Some ==> after == before && failed == stopped
            &&& stopped is None && p.reclaimed is Ok ==> after == purge::cleared(
                before,
                (0u64, p.tid, p.collection@),
                true,
            ) && failed is None
            &&& stopped is None ==> (p.reclaimed matches Err(e) ==> after == before && failed
                == Some("clear-then-install purge failed for '"@ + (p.collection@ + ("': "@ + e@))))
        }),
        after_clears(m, Seq::<ClearPart>::empty()) == (m, None::<Seq<char>>),
{
    assert(parts.push(p).drop_last() =~= parts);
}

/// The vectors of a section go to the index that its key names for the tenant; a
/// section that does not decode, or that is empty, installs nothing.
pub proof fn law_a_section_goes_to_its_index(
    m: Registry,
    sections: Seq<VectorSection>,
    x: VectorSection,
    tenant_id: u64,
    replace_mode: bool,
)
    ensures
        ({
            let (before, installs) = after_vectors(m, sections, tenant_id, replace_mode);
            let (after, all) = after_vectors(m, sections.push(x), tenant_id, replace_mode);
            let (db, name) = keys::vector_key(x.key@, tenant_id);
            &&& x.vectors is None || x.vectors->0@.len() == 0 ==> after == before && all == installs
            &&& x.vectors is Some && x.vectors->0@.len() > 0 ==> {
                &&& after.dims.contains_key((db, tenant_id, name))
                &&& all.len() == installs.len() + 1
                &&& all.take(installs.len() as int) == installs
                &&& all.last().key == (db, tenant_id, name)
                &&& all.last().surrogates.len() == x.vectors->0@.len()
            }
        }),
        after_vectors(m, Seq::<VectorSection>::empty(), tenant_id, replace_mode) == (
            m,
            Seq::<VectorInstall>::empty(),
        ),
{
    assert(sections.push(x).drop_last() =~= sections);
    let (before, installs) = after_vectors(m, sections, tenant_id, replace_mode);
    let (after, all) = after_vectors(m, sections.push(x), tenant_id, replace_mode);
    if x.vectors is Some && x.vectors->0@.len() > 0 {
        assert(all.take(installs.len() as int) =~= installs);
    }
}

/// A table that decodes is installed with its live entries, under its own name and
/// in the database that the name tells; one that does not is left out.
pub proof fn law_a_table_is_installed_under_its_name(
    tables: Seq<DecodedTable>,
    t: DecodedTable,
    now_ms: u64,
)
    ensures
        ({
            let before = kv_installs(tables, now_ms);
            let after = kv_installs(tables.push(t), now_ms);
            &&& t.entries is None ==> after == before
            &&& t.entries matches Some(e) ==> {
                &&& after.len() == before.len() + 1
                &&& after.take(before.len() as int) == before
                &&& after.last().collection == t.collection@
                &&& after.last().database_id == keys::qualified_database(t.collection@)
                &&& after.last().puts == restore::live_entries(
                    crate::codec::kv_entry_views(e@),
                    now_ms,
                )
            }
        }),
        kv_installs(Seq::<DecodedTable>::empty(), now_ms).len() == 0,
{
    assert(tables.push(t).drop_last() =~= tables);
    let before = kv_installs(tables, now_ms);
    let after = kv_installs(tables.push(t), now_ms);
    assert(after.take(before.len() as int) =~= before);
}

/// A collection counts as constrained where the tenant has an engine and every one
/// of its constraints decoded.
pub proof fn law_which_collections_are_constrained(
    outcomes: Seq<Result<Vec<Option<String>>, String>>,
    x: Result<Vec<Option<String>>, String>,
)
    ensures
        ({
            let all = x matches Ok(failures) && forall|i: int|
                0 <= i < failures@.len() ==> (#[trigger] failures@[i]) is None;
            &&& all ==> constrained(outcomes.push(x)) == constrained(outcomes) + 1
            &&& !all ==> constrained(outcomes.push(x)) == constrained(outcomes)
        }),
{
    assert(outcomes.push(x).drop_last() =~= outcomes);
    if let Ok(failures) = x {
        lemma_no_failure(failures@);
    }
}

proof fn lemma_no_failure(failures: Seq<Option<String>>)
    ensures
        restore::first_text(failures) is None <==> forall|i: int|
            0 <= i < failures.len() ==> (#[trigger] failures[i]) is None,
    decreases failures.len(),
{
    if failures.len() > 0 {
        let short = failures.drop_last();
        let n = failures.len() - 1;
        lemma_no_failure(short);
        assert(failures[n] == failures.last());
        if restore::first_text(short) is None {
            assert forall|i: int| 0 <= i < n implies (#[trigger] failures[i]) is None by {
                assert(short[i] is None);
            }
        } else {
            let i = choose|i: int| 0 <= i < short.len() && !((#[trigger] short[i]) is None);
            assert(!(failures[i] is None));
        }
    }
}

/// Series are restored one by one; the first that fails stops the restore under its
/// key.
pub proof fn law_series_are_restored_in_order(
    m: TsModel,
    series: Seq<SeriesSection>,
    x: SeriesSection,
)
    ensures
        ({
            let (before, stopped) = after_series(m, series);
            let (after, failed) = after_series(m, series.push(x));
            let (own, e) = restore::series_outcome(before, x.key@, x.answers);
            &&& stopped is Some ==> after == before && failed == stopped
            &&& stopped is None ==> after == own && (failed is Some <==> e is Some)
            &&& stopped is None && e is Some ==> failed == Some((x.key@, e->0))
        }),
{
    assert(series.push(x).drop_last() =~= series);
}

/// A restore succeeds exactly where every stale collection was cleared, the snapshot
/// decodes, the adjacency was rebuilt where edges came in, and the timeseries, their
/// partitions and the columnar engines were all restored.
pub proof fn law_when_a_restore_succeeds(m: CoreModel, req: RestoreRequest, s: SnapshotParts)
    requires
        req.snapshot == Ok::<SnapshotParts, String>(s),
    ensures
        ({
            let (core, stale) = after_clears(m, req.clears@);
            let edges = crdt::successes(s.edges@) + crdt::successes(s.tenant_edges@);
            let (series, series_failed) = after_series(core.timeseries, s.timeseries@);
            &&& restore_outcome(m, req).answer is Ok <==> {
                &&& stale is None
                &&& edges == 0 || s.rebuild_failed is None
                &&& series_failed is None
                &&& segments::after_blobs(series, s.segments@).1 is None
                &&& segments::after_engines(core.columnar, s.columnar@).1 is None
            }
        }),
{
}

/// What a restore that succeeds leaves: the partitions and engines of the snapshot,
/// and of the other state what the clearing left.
pub proof fn law_what_a_restore_leaves(m: CoreModel, req: RestoreRequest, s: SnapshotParts)
    requires
        req.snapshot == Ok::<SnapshotParts, String>(s),
        restore_outcome(m, req).answer is Ok,
    ensures
        ({
            let e = restore_outcome(m, req);
            let core = after_clears(m, req.clears@).0;
            let series = after_series(core.timeseries, s.timeseries@).0;
            &&& e.core.timeseries == segments::after_blobs(series, s.segments@).0
            &&& e.core.columnar == segments::after_engines(core.columnar, s.columnar@).0
            &&& e.core.chains == core.chains
            &&& e.core.spatial == core.spatial
            &&& e.core.held == core.held
            &&& e.core.vectors.params == restore::declared_params(
                core.vectors.params,
                s.vector_params@,
                req.tenant_id,
            )
            &&& e.kv == kv_installs(s.kv_tables@, req.now_ms)
        }),
{
    let core = after_clears(m, req.clears@).0;
    lemma_vectors_keep_params(
        with_declarations(core.vectors, s, req.tenant_id),
        s.vectors@,
        req.tenant_id,
        req.replace_mode,
    );
}

proof fn lemma_vectors_keep_params(
    m: Registry,
    sections: Seq<VectorSection>,
    tenant_id: u64,
    replace_mode: bool,
)
    ensures
        after_vectors(m, sections, tenant_id, replace_mode).0.params == m.params,
    decreases sections.len(),
{
    if sections.len() > 0 {
        lemma_vectors_keep_params(m, sections.drop_last(), tenant_id, replace_mode);
    }
}

/// The counts of a restore are those of what was installed: documents, index entries
/// and edges that the store took, vectors and entries of the tables, CRDT documents,
/// constrained collections, series and engines.
pub proof fn law_what_a_restore_counts(s: SnapshotParts)
    requires
        countable(s),
    ensures
        ({
            let c = restore_counts(s);
            &&& c.timeseries == s.timeseries@.len() as u64
            &&& c.columnar_engines == s.columnar@.len() as u64
            &&& c.edges == (crdt::successes(s.edges@) + crdt::successes(s.tenant_edges@)) as u64
            &&& c.documents == crdt::successes(s.documents@) as u64
            &&& c.indexes == crdt::successes(s.indexes@) as u64
            &&& c.crdt == crdt::successes(s.crdt@) as u64
            &&& c.vectors == maps::total(
                s.vectors@,
                |x: VectorSection|
                    match x.vectors {
                        Some(v) => v@.len(),
                        None => 0,
                    },
            ) as u64
            &&& c.kv_entries == maps::total(
                s.kv_tables@,
                |t: DecodedTable|
                    match t.entries {
                        Some(e) => e@.len(),
                        None => 0,
                    },
            ) as u64
        }),
{
    assert(vector_measure() =~= |x: VectorSection|
        match x.vectors {
            Some(v) => v@.len(),
            None => 0,
        });
    assert(table_measure() =~= |t: DecodedTable|
        match t.entries {
            Some(e) => e@.len(),
            None => 0,
        });
}

} // verus!
