//! Installing the snapshot of a tenant.
use crate::codec;
use crate::error::{Error, ErrorView};
use crate::maps::MapKey;
use crate::replay::crdt;
use crate::snapshot::create;
use crate::snapshot::keys;
use crate::timeseries::state;
use crate::timeseries::state::{MemtableSpan, TsModel, TsState, WrittenPartition};
use crate::vectors::handlers;
use crate::vectors::registry;
use crate::vectors::registry::{HnswParams, IndexKey, IndexType, Registry, VectorRegistry};
use vstd::prelude::*;
use vstd::string::*;

verus! {

/// How many of the writes succeeded.
pub(crate) fn count_ok(outcomes: &Vec<bool>) -> (r: u64)
    ensures
        r == crdt::successes(outcomes@),
        r <= outcomes@.len(),
{
    let mut n: u64 = 0;
    let mut i: usize = 0;
    while i < outcomes.len()
        invariant
            i <= outcomes@.len(),
            n <= i,
            n == crdt::successes(outcomes@.take(i as int)),
        decreases outcomes.len() - i,
    {
        proof {
            assert(outcomes@.take(i + 1).drop_last() =~= outcomes@.take(i as int));
        }
        if outcomes[i] {
            n = n + 1;
        }
        i = i + 1;
    }
    proof {
        assert(outcomes@.take(outcomes@.len() as int) =~= outcomes@);
    }
    n
}

/// How many documents and index entries were installed. A write that fails is
/// passed over.
pub fn restore_sparse(documents: &Vec<bool>, indexes: &Vec<bool>) -> (r: (u64, u64))
    ensures
        r.0 == crdt::successes(documents@),
        r.1 == crdt::successes(indexes@),
{
    (count_ok(documents), count_ok(indexes))
}

/// What installing the vectors of an index asks of the engine.
pub struct VectorRestore {
    pub key: IndexKey,
    /// Whether a fresh index takes the place of what is there.
    pub fresh: bool,
    pub params: Option<HnswParams>,
    pub dim: usize,
    /// The surrogate each vector is bound to; zero for none.
    pub surrogates: Vec<u32>,
}

/// The same as a mathematical value.
#[verifier::ext_equal]
pub struct VectorInstall {
    pub key: registry::IndexId,
    pub fresh: bool,
    pub params: Option<HnswParams>,
    pub dim: usize,
    pub surrogates: Seq<u32>,
}

impl View for VectorRestore {
    type V = VectorInstall;

    open spec fn view(&self) -> VectorInstall {
        VectorInstall {
            key: self.key.key(),
            fresh: self.fresh,
            params: self.params,
            dim: self.dim,
            surrogates: self.surrogates@,
        }
    }
}

pub open spec fn surrogate_or_zero(s: Option<u32>) -> u32 {
    match s {
        Some(n) => n,
        None => 0,
    }
}

/// What installing vectors, given by their lengths and surrogates, asks of the
/// engine; nothing for no vectors.
pub open spec fn vector_install(
    m: Registry,
    key: registry::IndexId,
    vectors: Seq<(usize, Option<u32>)>,
    replace_mode: bool,
) -> Option<VectorInstall> {
    if vectors.len() == 0 {
        None
    } else {
        Some(
            VectorInstall {
                key,
                fresh: replace_mode || !m.dims.contains_key(key),
                params: handlers::declared(m, key),
                dim: vectors[0].0,
                surrogates: vectors.map_values(|v: (usize, Option<u32>)| surrogate_or_zero(v.1)),
            },
        )
    }
}

/// The registry once vectors are installed.
pub open spec fn with_vectors(
    m: Registry,
    key: registry::IndexId,
    vectors: Seq<(usize, Option<u32>)>,
    replace_mode: bool,
) -> Registry {
    if vectors.len() == 0 {
        m
    } else if replace_mode {
        Registry { dims: m.dims.insert(key, vectors[0].0), ..m }
    } else {
        handlers::with_index(m, key, vectors[0].0)
    }
}

/// Install vectors, given by their lengths and surrogates. No vectors change
/// nothing. When replacing, a fresh index takes the place of what is there;
/// otherwise the vectors join the index, which is created where it is missing.
pub fn restore_vector_collection(
    reg: &mut VectorRegistry,
    database_id: u64,
    tenant_id: u64,
    coll_key: &str,
    vectors: &Vec<(usize, Option<u32>)>,
    replace_mode: bool,
) -> (r: Option<VectorRestore>)
    ensures
        ({
            let key = (database_id, tenant_id, coll_key@);
            &&& final(reg)@ == with_vectors(old(reg)@, key, vectors@, replace_mode)
            &&& match vector_install(old(reg)@, key, vectors@, replace_mode) {
                None => r is None,
                Some(install) => r is Some && (r->0)@ == install,
            }
        }),
{
    if vectors.len() == 0 {
        return None;
    }
    let dim: usize = vectors[0].0;
    let key = IndexKey { db: database_id, tid: tenant_id, name: coll_key.to_owned() };
    let params = reg.params_of(&key);
    let fresh = replace_mode || reg.dim_of(&key).is_none();
    if fresh {
        let copy = key.copy();
        reg.set_dim(copy, dim);
    }
    let ghost f = |v: (usize, Option<u32>)| surrogate_or_zero(v.1);
    let mut surrogates: Vec<u32> = Vec::new();
    let mut i: usize = 0;
    while i < vectors.len()
        invariant
            i <= vectors@.len(),
            f == (|v: (usize, Option<u32>)| surrogate_or_zero(v.1)),
            surrogates@ == vectors@.take(i as int).map_values(f),
        decreases vectors.len() - i,
    {
        let s: u32 = match vectors[i].1 {
            Some(n) => n,
            None => 0,
        };
        surrogates.push(s);
        proof {
            crate::maps::lemma_map_take_step(vectors@, i as int, f);
        }
        i = i + 1;
    }
    proof {
        assert(vectors@.take(vectors@.len() as int) =~= vectors@);
    }
    Some(VectorRestore { key, fresh, params, dim, surrogates })
}

/// The declarations of a snapshot section, each under the index that its key
/// names; what did not decode is left out, and the last one of an index counts.
pub open spec fn declared_params(
    m: Map<registry::IndexId, HnswParams>,
    entries: Seq<(String, Option<HnswParams>)>,
    tenant_id: u64,
) -> Map<registry::IndexId, HnswParams>
    decreases entries.len(),
{
    if entries.len() == 0 {
        m
    } else {
        let before = declared_params(m, entries.drop_last(), tenant_id);
        let (key, params) = entries.last();
        match params {
            None => before,
            Some(p) => {
                let (db, name) = keys::vector_key(key@, tenant_id);
                before.insert((db, tenant_id, name), p)
            },
        }
    }
}

/// Install the declared parameters of indexes.
pub fn restore_vector_params(
    reg: &mut VectorRegistry,
    tenant_id: u64,
    entries: &Vec<(String, Option<HnswParams>)>,
)
    ensures
        final(reg)@ == (Registry {
            params: declared_params(old(reg)@.params, entries@, tenant_id),
            ..old(reg)@
        }),
{
    let mut i: usize = 0;
    while i < entries.len()
        invariant
            i <= entries@.len(),
            reg@ == (Registry {
                params: declared_params(old(reg)@.params, entries@.take(i as int), tenant_id),
                ..old(reg)@
            }),
        decreases entries.len() - i,
    {
        proof {
            assert(entries@.take(i + 1).drop_last() =~= entries@.take(i as int));
        }
        match entries[i].1 {
            None => {},
            Some(p) => {
                let (db, name) = keys::parse_vector_snapshot_key(entries[i].0.as_str(), tenant_id);
                reg.set_params(IndexKey { db, tid: tenant_id, name }, p);
            },
        }
        i = i + 1;
    }
    proof {
        assert(entries@.take(entries@.len() as int) =~= entries@);
    }
}

/// The same of the structures of indexes.
pub open spec fn declared_configs(
    m: Map<registry::IndexId, IndexType>,
    entries: Seq<(String, Option<IndexType>)>,
    tenant_id: u64,
) -> Map<registry::IndexId, IndexType>
    decreases entries.len(),
{
    if entries.len() == 0 {
        m
    } else {
        let before = declared_configs(m, entries.drop_last(), tenant_id);
        let (key, config) = entries.last();
        match config {
            None => before,
            Some(c) => {
                let (db, name) = keys::vector_key(key@, tenant_id);
                before.insert((db, tenant_id, name), c)
            },
        }
    }
}

/// Install the declared structures of indexes.
pub fn restore_index_configs(
    reg: &mut VectorRegistry,
    tenant_id: u64,
    entries: &Vec<(String, Option<IndexType>)>,
)
    ensures
        final(reg)@ == (Registry {
            configs: declared_configs(old(reg)@.configs, entries@, tenant_id),
            ..old(reg)@
        }),
{
    let mut i: usize = 0;
    while i < entries.len()
        invariant
            i <= entries@.len(),
            reg@ == (Registry {
                configs: declared_configs(old(reg)@.configs, entries@.take(i as int), tenant_id),
                ..old(reg)@
            }),
        decreases entries.len() - i,
    {
        proof {
            assert(entries@.take(i + 1).drop_last() =~= entries@.take(i as int));
        }
        match entries[i].1 {
            None => {},
            Some(c) => {
                let (db, name) = keys::parse_vector_snapshot_key(entries[i].0.as_str(), tenant_id);
                reg.set_config(IndexKey { db, tid: tenant_id, name }, c);
            },
        }
        i = i + 1;
    }
    proof {
        assert(entries@.take(entries@.len() as int) =~= entries@);
    }
}

/// One key-value entry to install.
pub struct KvRestorePut {
    pub key: Vec<u8>,
    pub value: Vec<u8>,
    pub ttl_ms: u64,
}

/// Key, value and expiry of an entry.
pub type EntryView = (Seq<u8>, Seq<u8>, u64);

/// The lifetime left of an entry: none set for zero, expired for a past
/// instant.
pub open spec fn lifetime_left(expire_at: u64, now_ms: u64) -> Option<u64> {
    if expire_at > now_ms {
        Some((expire_at - now_ms) as u64)
    } else if expire_at == 0 {
        Some(0)
    } else {
        None
    }
}

/// Key, value and lifetime of each entry that has not expired, in order.
pub open spec fn live_entries(entries: Seq<EntryView>, now_ms: u64) -> Seq<EntryView>
    decreases entries.len(),
{
    if entries.len() == 0 {
        Seq::empty()
    } else {
        let init = live_entries(entries.drop_last(), now_ms);
        let (k, v, expire_at) = entries.last();
        match lifetime_left(expire_at, now_ms) {
            Some(ttl) => init.push((k, v, ttl)),
            None => init,
        }
    }
}

pub open spec fn put_views(puts: Seq<KvRestorePut>) -> Seq<EntryView> {
    puts.map_values(|p: KvRestorePut| (p.key@, p.value@, p.ttl_ms))
}

/// The database that a table belongs to, and the entries of it to install.
pub fn restore_kv_table(
    collection: &str,
    entries: Vec<(Vec<u8>, Vec<u8>, u64)>,
    now_ms: u64,
) -> (r: (u64, Vec<KvRestorePut>))
    ensures
        r.0 == keys::qualified_database(collection@),
        put_views(r.1@) == live_entries(codec::kv_entry_views(entries@), now_ms),
{
    let database_id = keys::database_id_from_qualified(collection);
    let ghost all = codec::kv_entry_views(entries@);
    let ghost raw = entries@;
    let mut out: Vec<KvRestorePut> = Vec::new();
    for e in it: entries.into_iter()
        invariant
            it.seq() == raw,
            all == codec::kv_entry_views(raw),
            put_views(out@) == live_entries(all.take(it.index() as int), now_ms),
    {
        let ghost n = it.index() as int;
        let ghost before = out@;
        let (key, value, expire_at) = e;
        proof {
            assert(all.take(n + 1).drop_last() =~= all.take(n));
            assert(all.take(n + 1).last() == (key@, value@, expire_at));
        }
        let ttl: Option<u64> = if expire_at > now_ms {
            Some(expire_at - now_ms)
        } else if expire_at == 0 {
            Some(0)
        } else {
            None
        };
        match ttl {
            Some(ttl_ms) => {
                out.push(KvRestorePut { key, value, ttl_ms });
                proof {
                    assert(put_views(out@) =~= put_views(before).push((key@, value@, ttl_ms)));
                }
            },
            None => {},
        }
    }
    proof {
        assert(all.take(all.len() as int) =~= all);
    }
    (database_id, out)
}

/// A key-value table of a snapshot; no entries where they did not decode.
pub struct DecodedTable {
    pub collection: String,
    pub entries: Option<Vec<(Vec<u8>, Vec<u8>, u64)>>,
}

/// The name and the entries of a table.
pub type TableView = (Seq<char>, Option<Seq<EntryView>>);

pub open spec fn table_view(t: DecodedTable) -> TableView {
    (
        t.collection@,
        match t.entries {
            Some(e) => Some(codec::kv_entry_views(e@)),
            None => None,
        },
    )
}

/// Decode the key-value tables of a snapshot.
pub fn decode_kv_tables(sections: &Vec<(String, Vec<u8>)>) -> (r: Vec<DecodedTable>)
    ensures
        r@.map_values(|t: DecodedTable| table_view(t)) == create::section_views(
            sections@,
        ).map_values(|e: (Seq<char>, Seq<u8>)| (e.0, codec::kv_entries_of(e.1))),
{
    let mut out: Vec<DecodedTable> = Vec::new();
    let mut i: usize = 0;
    while i < sections.len()
        invariant
            i <= sections@.len(),
            out@.len() == i,
            forall|j: int|
                0 <= j < i ==> table_view(#[trigger] out@[j]) == (
                    sections@[j].0@,
                    codec::kv_entries_of(sections@[j].1@),
                ),
        decreases sections.len() - i,
    {
        out.push(
            DecodedTable {
                collection: sections[i].0.clone(),
                entries: codec::decode_kv_entries(sections[i].1.as_slice()),
            },
        );
        i = i + 1;
    }
    proof {
        assert(out@.map_values(|t: DecodedTable| table_view(t)) =~= create::section_views(
            sections@,
        ).map_values(|e: (Seq<char>, Seq<u8>)| (e.0, codec::kv_entries_of(e.1))));
    }
    out
}

/// The first text among what the blobs failed with.
pub open spec fn first_text(failures: Seq<Option<String>>) -> Option<Seq<char>>
    decreases failures.len(),
{
    if failures.len() == 0 {
        None
    } else {
        match first_text(failures.drop_last()) {
            Some(e) => Some(e),
            None => match failures.last() {
                Some(e) => Some(e@),
                None => None,
            },
        }
    }
}

/// Whether a collection's constraints are installed, given what decoding each
/// of them failed with: all of them, or none and the first failure.
pub fn restore_crdt_constraints(decode_failures: &Vec<Option<String>>) -> (r: Result<(), Error>)
    ensures
        match first_text(decode_failures@) {
            None => r is Ok,
            Some(e) => r is Err && r->Err_0@ == (ErrorView::Serialization {
                format: "msgpack"@,
                detail: e,
            }),
        },
{
    let mut i: usize = 0;
    while i < decode_failures.len()
        invariant
            i <= decode_failures@.len(),
            first_text(decode_failures@.take(i as int)) is None,
        decreases decode_failures.len() - i,
    {
        proof {
            assert(decode_failures@.take(i + 1).drop_last() =~= decode_failures@.take(i as int));
        }
        match &decode_failures[i] {
            None => {},
            Some(e) => {
                proof {
                    lemma_first_text(decode_failures@, i + 1);
                }
                return Err(
                    Error::Serialization { format: "msgpack".to_owned(), detail: e.clone() },
                );
            },
        }
        i = i + 1;
    }
    proof {
        assert(decode_failures@.take(decode_failures@.len() as int) =~= decode_failures@);
    }
    Ok(())
}

proof fn lemma_first_text(failures: Seq<Option<String>>, n: int)
    requires
        0 <= n <= failures.len(),
        first_text(failures.take(n)) is Some,
    ensures
        first_text(failures) == first_text(failures.take(n)),
    decreases failures.len() - n,
{
    if n < failures.len() {
        assert(failures.take(n + 1).drop_last() =~= failures.take(n));
        lemma_first_text(failures, n + 1);
    } else {
        assert(failures.take(n) =~= failures);
    }
}

/// What came of a timeseries section: decoding its bytes, building the memtable
/// and flushing it. What was not reached is not read.
pub struct TimeseriesAnswers {
    pub decode_failed: Option<String>,
    pub build_failed: Option<Error>,
    pub memtable: Option<MemtableSpan>,
    pub written: Result<WrittenPartition, String>,
    pub drained: Option<(i64, i64)>,
}

/// The state after a timeseries section, and what it failed with.
pub open spec fn series_outcome(m: TsModel, key: Seq<char>, a: TimeseriesAnswers) -> (
    TsModel,
    Option<ErrorView>,
) {
    if a.decode_failed is Some {
        (m, Some(ErrorView::Serialization { format: "msgpack"@, detail: a.decode_failed->0@ }))
    } else if a.build_failed is Some {
        (m, Some(a.build_failed->0@))
    } else {
        state::flush_outcome(m, keys::timeseries_key(key), a.memtable, a.written, a.drained)
    }
}

/// Install a timeseries section: its memtable is put in place under the
/// collection that the key names, and flushed at once so that it is durable.
pub fn restore_timeseries(ts: &mut TsState, key: &str, a: TimeseriesAnswers) -> (r: Result<
    (),
    Error,
>)
    ensures
        ({
            let (after, failed) = series_outcome(old(ts)@, key@, a);
            final(ts)@ == after && match failed {
                None => r is Ok,
                Some(e) => r is Err && r->Err_0@ == e,
            }
        }),
{
    match a.decode_failed {
        Some(detail) => {
            return Err(Error::Serialization { format: "msgpack".to_owned(), detail });
        },
        None => {},
    }
    match a.build_failed {
        Some(e) => {
            return Err(e);
        },
        None => {},
    }
    let (db, tid, collection) = keys::parse_timeseries_snapshot_key(key);
    ts.flush_ts_collection(tid, db, collection.as_str(), &a.memtable, &a.written, &a.drained)
}

/// A collection is installed exactly where it has vectors: into a fresh index where
/// it replaces what is there or there is none, with the parameters that were
/// declared, at the dimension of its first vector, each vector bound to its row or
/// to none.
pub proof fn law_how_vectors_are_installed(
    m: Registry,
    key: registry::IndexId,
    vectors: Seq<(usize, Option<u32>)>,
    replace_mode: bool,
    other: registry::IndexId,
)
    ensures
        vector_install(m, key, vectors, replace_mode) is Some <==> vectors.len() > 0,
        vector_install(m, key, vectors, replace_mode) matches Some(v) ==> {
            &&& v.key == key
            &&& v.fresh <==> replace_mode || !m.dims.contains_key(key)
            &&& v.params is Some <==> m.params.contains_key(key)
            &&& v.params is Some ==> v.params->0 == m.params[key]
            &&& v.dim == vectors[0].0
            &&& v.surrogates.len() == vectors.len()
            &&& forall|i: int|
                0 <= i < vectors.len() ==> #[trigger] v.surrogates[i] == (match vectors[i].1 {
                    Some(s) => s,
                    None => 0u32,
                })
        },
        ({
            let after = with_vectors(m, key, vectors, replace_mode);
            &&& vectors.len() == 0 ==> after == m
            &&& vectors.len() > 0 ==> after.dims.contains_key(key)
            &&& vectors.len() > 0 && (replace_mode || !m.dims.contains_key(key))
                ==> after.dims[key] == vectors[0].0
            &&& vectors.len() > 0 && !replace_mode && m.dims.contains_key(key) ==> after.dims[key]
                == m.dims[key]
            &&& other != key ==> after.dims.contains_key(other) == m.dims.contains_key(other) && (
            m.dims.contains_key(other) ==> after.dims[other] == m.dims[other])
            &&& after.params == m.params
            &&& after.configs == m.configs
            &&& after.ivf == m.ivf
        }),
{
}

/// A restored declaration sets the parameters of the index that its key names for
/// the tenant; one that does not decode sets none, and the others stay.
pub proof fn law_a_restored_declaration_sets_its_index(
    m: Map<registry::IndexId, HnswParams>,
    entries: Seq<(String, Option<HnswParams>)>,
    key: String,
    params: Option<HnswParams>,
    tenant_id: u64,
    other: registry::IndexId,
)
    ensures
        ({
            let before = declared_params(m, entries, tenant_id);
            let after = declared_params(m, entries.push((key, params)), tenant_id);
            let (db, name) = keys::vector_key(key@, tenant_id);
            &&& params is None ==> after == before
            &&& params matches Some(p) ==> after.contains_key((db, tenant_id, name)) && after[(
                db,
                tenant_id,
                name,
            )] == p
            &&& other != (db, tenant_id, name) ==> after.contains_key(other)
                == before.contains_key(other) && (before.contains_key(other) ==> after[other]
                == before[other])
        }),
        declared_params(m, Seq::<(String, Option<HnswParams>)>::empty(), tenant_id) == m,
{
    assert(entries.push((key, params)).drop_last() =~= entries);
}

/// The same of the structure that an index was declared with.
pub proof fn law_a_restored_structure_sets_its_index(
    m: Map<registry::IndexId, IndexType>,
    entries: Seq<(String, Option<IndexType>)>,
    key: String,
    config: Option<IndexType>,
    tenant_id: u64,
    other: registry::IndexId,
)
    ensures
        ({
            let before = declared_configs(m, entries, tenant_id);
            let after = declared_configs(m, entries.push((key, config)), tenant_id);
            let (db, name) = keys::vector_key(key@, tenant_id);
            &&& config is None ==> after == before
            &&& config matches Some(c) ==> after.contains_key((db, tenant_id, name)) && after[(
                db,
                tenant_id,
                name,
            )] == c
            &&& other != (db, tenant_id, name) ==> after.contains_key(other)
                == before.contains_key(other) && (before.contains_key(other) ==> after[other]
                == before[other])
        }),
        declared_configs(m, Seq::<(String, Option<IndexType>)>::empty(), tenant_id) == m,
{
    assert(entries.push((key, config)).drop_last() =~= entries);
}

/// An entry is restored unless its time has come: one that never expires without a
/// lifetime, any other with what is left of it.
pub proof fn law_only_live_entries_are_restored(
    entries: Seq<EntryView>,
    k: Seq<u8>,
    v: Seq<u8>,
    expire_at: u64,
    now_ms: u64,
)
    ensures
        ({
            let before = live_entries(entries, now_ms);
            let after = live_entries(entries.push((k, v, expire_at)), now_ms);
            &&& expire_at == 0 ==> after == before.push((k, v, 0u64))
            &&& 0 < expire_at <= now_ms ==> after == before
            &&& expire_at > now_ms ==> after == before.push((k, v, (expire_at - now_ms) as u64))
        }),
        live_entries(Seq::<EntryView>::empty(), now_ms).len() == 0,
{
    assert(entries.push((k, v, expire_at)).drop_last() =~= entries);
}

/// The first failure is the one that is told; without one there is none.
pub proof fn law_the_first_failure_is_told(failures: Seq<Option<String>>, i: int)
    requires
        0 <= i <= failures.len(),
        forall|j: int| 0 <= j < i ==> (#[trigger] failures[j]) is None,
        i < failures.len() ==> failures[i] is Some,
    ensures
        i < failures.len() ==> first_text(failures) == Some(failures[i]->0@),
        i == failures.len() ==> first_text(failures) is None,
    decreases failures.len(),
{
    if failures.len() > 0 {
        let short = failures.drop_last();
        let n = failures.len() - 1;
        if i < n {
            assert forall|j: int| 0 <= j < i implies (#[trigger] short[j]) is None by {
                assert(failures[j] is None);
            }
            assert(short[i] == failures[i]);
            law_the_first_failure_is_told(short, i);
        } else {
            assert forall|j: int| 0 <= j < n implies (#[trigger] short[j]) is None by {
                assert(failures[j] is None);
            }
            law_the_first_failure_is_told(short, n);
            if i == failures.len() {
                assert(failures[n] is None);
            }
        }
    }
}

/// A series that does not decode or cannot be rebuilt changes nothing; any other is
/// flushed into the collection that its key names.
pub proof fn law_a_restored_series_goes_to_its_collection(
    m: TsModel,
    key: Seq<char>,
    a: TimeseriesAnswers,
)
    ensures
        a.decode_failed is Some || a.build_failed is Some ==> series_outcome(m, key, a).0 == m
            && series_outcome(m, key, a).1 is Some,
        a.decode_failed is None && a.build_failed is None ==> series_outcome(m, key, a)
            == state::flush_outcome(
            m,
            keys::timeseries_key(key),
            a.memtable,
            a.written,
            a.drained,
        ),
{
}

} // verus!
