//! Taking the snapshot of a tenant.
use crate::codec;
use crate::error;
use crate::error::{Error, ErrorCode, ErrorCodeView, ErrorView};
use crate::snapshot::keys;
use crate::sorting;
use crate::sorting::Named;
use crate::text;
use vstd::prelude::*;
use vstd::string::*;

verus! {

/// Keys with the bytes filed under them.
pub type Section = Vec<(String, Vec<u8>)>;

pub open spec fn section_views(s: Seq<(String, Vec<u8>)>) -> Seq<(Seq<char>, Seq<u8>)> {
    s.map_values(|e: (String, Vec<u8>)| (e.0@, e.1@))
}

/// A part of an engine's state that belongs to a collection: where it belongs,
/// and its bytes unless they could not be written out.
pub struct Exported {
    pub db: u64,
    pub tid: u64,
    pub name: String,
    pub bytes: Option<Vec<u8>>,
}

/// The parts of a tenant, each under its scoped key, without those that could
/// not be written out.
pub open spec fn exported_section(parts: Seq<Exported>, tenant_id: u64) -> Seq<
    (Seq<char>, Seq<u8>),
>
    decreases parts.len(),
{
    if parts.len() == 0 {
        Seq::empty()
    } else {
        let init = exported_section(parts.drop_last(), tenant_id);
        let last = parts.last();
        if last.tid == tenant_id && last.bytes is Some {
            init.push((keys::scoped_key(last.db, last.tid, last.name@), last.bytes->0@))
        } else {
            init
        }
    }
}

fn export_section(parts: Vec<Exported>, tenant_id: u64) -> (r: Section)
    ensures
        section_views(r@) == exported_section(parts@, tenant_id),
{
    let ghost all = parts@;
    let mut out: Section = Vec::new();
    proof {
        assert(section_views(out@) =~= exported_section(all.take(0), tenant_id));
    }
    for e in it: parts.into_iter()
        invariant
            it.seq() == all,
            section_views(out@) == exported_section(all.take(it.index() as int), tenant_id),
    {
        let ghost n = it.index() as int;
        let ghost before = out@;
        proof {
            assert(all.take(n + 1).drop_last() =~= all.take(n));
            assert(all.take(n + 1).last() == e);
        }
        if e.tid == tenant_id {
            match e.bytes {
                Some(bytes) => {
                    let key = keys::snapshot_key(e.db, e.tid, e.name.as_str());
                    out.push((key, bytes));
                    proof {
                        assert(section_views(out@) =~= section_views(before).push(
                            (key@, bytes@),
                        ));
                    }
                },
                None => {},
            }
        }
    }
    proof {
        assert(all.take(all.len() as int) =~= all);
    }
    out
}

/// A key-value table: its hash, the tenant and the name that are on record for
/// the hash, and key, value and expiry of each entry.
pub struct ExportedTable {
    pub hash: u64,
    pub tid: Option<u64>,
    pub collection: Option<String>,
    pub entries: Vec<(Vec<u8>, Vec<u8>, u64)>,
}

/// A table's entries, written out, or why they cannot be.
pub open spec fn table_bytes(t: ExportedTable) -> Result<Seq<u8>, Seq<char>> {
    codec::kv_entries_encoding_of(codec::kv_entry_views(t.entries@))
}

/// Whether the tables of a tenant read back as they were written. A table longer
/// than can be written is left open.
pub open spec fn tables_read_back(tables: Seq<ExportedTable>, tenant_id: u64) -> bool {
    forall|i: int|
        0 <= i < tables.len() && (#[trigger] tables[i]).tid == Some(tenant_id)
            && codec::kv_entries_fit(codec::kv_entry_views(tables[i].entries@)) && table_bytes(
            tables[i],
        ) is Ok ==> codec::kv_entries_of(table_bytes(tables[i])->Ok_0) == Some(
            codec::kv_entry_views(tables[i].entries@),
        )
}

/// The name of a table; its hash where no name is on record.
pub open spec fn table_name(t: ExportedTable) -> Seq<char> {
    match t.collection {
        Some(name) => name@,
        None => text::decimal(t.hash as nat),
    }
}

/// The tables of a tenant, without those that could not be written out.
pub open spec fn table_section(tables: Seq<ExportedTable>, tenant_id: u64) -> Seq<
    (Seq<char>, Seq<u8>),
>
    decreases tables.len(),
{
    if tables.len() == 0 {
        Seq::empty()
    } else {
        let init = table_section(tables.drop_last(), tenant_id);
        let last = tables.last();
        if last.tid == Some(tenant_id) && table_bytes(last) is Ok {
            init.push((table_name(last), table_bytes(last)->Ok_0))
        } else {
            init
        }
    }
}

fn export_tables(tables: Vec<ExportedTable>, tenant_id: u64) -> (r: Section)
    ensures
        section_views(r@) == table_section(tables@, tenant_id),
        tables_read_back(tables@, tenant_id),
{
    let ghost all = tables@;
    let mut out: Section = Vec::new();
    proof {
        assert(section_views(out@) =~= table_section(all.take(0), tenant_id));
    }
    for t in it: tables.into_iter()
        invariant
            it.seq() == all,
            section_views(out@) == table_section(all.take(it.index() as int), tenant_id),
            tables_read_back(all.take(it.index() as int), tenant_id),
    {
        let ghost n = it.index() as int;
        let ghost before = out@;
        proof {
            assert(all.take(n + 1).drop_last() =~= all.take(n));
            assert(all.take(n + 1).last() == t);
            assert forall|i: int| 0 <= i < n implies #[trigger] all.take(n + 1)[i] == all.take(
                n,
            )[i] by {}
        }
        let ours = match t.tid {
            Some(tid) => tid == tenant_id,
            None => false,
        };
        if ours {
            let ghost name = table_name(t);
            match codec::encode_kv_entries(&t.entries) {
                Ok(bytes) => {
                    let key = match t.collection {
                        Some(name) => name,
                        None => text::decimal_text(t.hash),
                    };
                    out.push((key, bytes));
                    proof {
                        assert(section_views(out@) =~= section_views(before).push((name, bytes@)));
                    }
                },
                Err(_) => {},
            }
        }
    }
    proof {
        assert(all.take(all.len() as int) =~= all);
    }
    out
}

/// An entry of a partition's directory.
pub struct DirEntry {
    /// None for a name that is no text.
    pub name: Option<String>,
    pub is_file: bool,
    pub bytes: Vec<u8>,
}

/// A partition on disk: its description, and its directory's entries, unless
/// the one could not be written out or the other not be read.
pub struct PartitionDump {
    pub dir_name: String,
    pub meta: Result<Vec<u8>, String>,
    pub entries: Result<Vec<DirEntry>, String>,
}

/// The partitions of a collection, in order of time.
pub struct RegistryDump {
    pub db: u64,
    pub tid: u64,
    pub collection: String,
    pub partitions: Vec<PartitionDump>,
}

/// A partition in a snapshot.
pub struct CapturedPartition {
    pub dir_name: String,
    pub meta_bytes: Vec<u8>,
    pub files: Vec<Named<Vec<u8>>>,
}

/// The files among a directory's entries.
pub open spec fn files_of(entries: Seq<DirEntry>) -> Seq<(Seq<char>, Seq<u8>)>
    decreases entries.len(),
{
    if entries.len() == 0 {
        Seq::empty()
    } else {
        let init = files_of(entries.drop_last());
        let last = entries.last();
        if last.name is Some && last.is_file {
            init.push((last.name->0@, last.bytes@))
        } else {
            init
        }
    }
}

pub open spec fn file_views(files: Seq<Named<Vec<u8>>>) -> Seq<(Seq<char>, Seq<u8>)> {
    files.map_values(|f: Named<Vec<u8>>| (f.name@, f.item@))
}

/// `r` holds what `v` holds, by name; what has one name keeps its order.
pub open spec fn is_sorted_by_name<A>(r: Seq<(Seq<char>, A)>, v: Seq<(Seq<char>, A)>) -> bool {
    exists|p: Seq<usize>| #[trigger]
        sorting::is_arrangement(p, v.len() as int) && r == sorting::arranged(v, p)
            && names_ascend(r, p)
}

pub open spec fn names_ascend<A>(r: Seq<(Seq<char>, A)>, p: Seq<usize>) -> bool {
    forall|i: int, j: int|
        #![trigger p[i], p[j]]
        0 <= i < j < r.len() ==> sorting::text_le(r[i].0, r[j].0) && (r[i].0 == r[j].0 ==> p[i]
            < p[j])
}

proof fn lemma_reflexive(a: Seq<char>)
    ensures
        sorting::text_le(a, a),
{
    sorting::lemma_text_total(a, a);
}

fn sort_files(files: Vec<Named<Vec<u8>>>) -> (r: Vec<Named<Vec<u8>>>)
    ensures
        is_sorted_by_name(file_views(r@), file_views(files@)),
{
    let p = sorting::stable_order(&files);
    let ghost v = files@;
    let r = sorting::arrange(files, &p);
    proof {
        assert(file_views(r@) =~= sorting::arranged(file_views(v), p@));
        assert(sorting::is_arrangement(p@, file_views(v).len() as int));
        assert forall|i: int, j: int|
            #![trigger p@[i], p@[j]]
            0 <= i < j < file_views(r@).len() implies sorting::text_le(
            file_views(r@)[i].0,
            file_views(r@)[j].0,
        ) && (file_views(r@)[i].0 == file_views(r@)[j].0 ==> p@[i] < p@[j]) by {
            lemma_reflexive(v[p@[i] as int].name@);
        }
        assert(names_ascend(file_views(r@), p@));
    }
    r
}

fn pick_files(entries: Vec<DirEntry>) -> (r: Vec<Named<Vec<u8>>>)
    ensures
        file_views(r@) == files_of(entries@),
{
    let ghost all = entries@;
    let mut out: Vec<Named<Vec<u8>>> = Vec::new();
    proof {
        assert(file_views(out@) =~= files_of(all.take(0)));
    }
    for e in it: entries.into_iter()
        invariant
            it.seq() == all,
            file_views(out@) == files_of(all.take(it.index() as int)),
    {
        let ghost n = it.index() as int;
        let ghost before = out@;
        proof {
            assert(all.take(n + 1).drop_last() =~= all.take(n));
            assert(all.take(n + 1).last() == e);
        }
        match e.name {
            Some(name) => {
                if e.is_file {
                    out.push(Named { name, item: e.bytes });
                    proof {
                        assert(file_views(out@) =~= file_views(before).push((name@, e.bytes@)));
                    }
                }
            },
            None => {},
        }
    }
    proof {
        assert(all.take(all.len() as int) =~= all);
    }
    out
}

pub open spec fn meta_text(coll: Seq<char>, dir: Seq<char>, e: Seq<char>) -> Seq<char> {
    "serialize PartitionMeta for "@ + (coll + ("/"@ + (dir + (": "@ + e))))
}

/// What keeps a partition from being captured.
pub open spec fn partition_failure(coll: Seq<char>, p: PartitionDump) -> Option<ErrorView> {
    match p.meta {
        Err(e) => Some(
            ErrorView::Serialization {
                format: "msgpack"@,
                detail: meta_text(coll, p.dir_name@, e@),
            },
        ),
        Ok(_) => match p.entries {
            Err(e) => Some(ErrorView::Io { detail: e@ }),
            Ok(_) => None,
        },
    }
}

/// Whether a captured partition holds what is on disk.
pub open spec fn is_capture(c: CapturedPartition, p: PartitionDump) -> bool {
    &&& p.meta is Ok
    &&& p.entries is Ok
    &&& c.dir_name@ == p.dir_name@
    &&& c.meta_bytes@ == p.meta->Ok_0@
    &&& is_sorted_by_name(file_views(c.files@), files_of(p.entries->Ok_0@))
}

fn capture_partition(coll: &str, p: PartitionDump) -> (r: Result<CapturedPartition, Error>)
    ensures
        match partition_failure(coll@, p) {
            Some(e) => r is Err && r->Err_0@ == e,
            None => r is Ok && is_capture(r->Ok_0, p),
        },
{
    let meta_bytes = match p.meta {
        Ok(bytes) => bytes,
        Err(e) => {
            let mut detail = "serialize PartitionMeta for ".to_owned();
            detail.append(coll);
            detail.append("/");
            detail.append(p.dir_name.as_str());
            detail.append(": ");
            detail.append(e.as_str());
            proof {
                assert(detail@ =~= meta_text(coll@, p.dir_name@, e@));
            }
            return Err(Error::Serialization { format: "msgpack".to_owned(), detail });
        },
    };
    match p.entries {
        Err(e) => Err(Error::Io { detail: e }),
        Ok(entries) => {
            let files = sort_files(pick_files(entries));
            Ok(CapturedPartition { dir_name: p.dir_name, meta_bytes, files })
        },
    }
}

/// The first failure among partitions.
pub open spec fn partitions_failure(coll: Seq<char>, parts: Seq<PartitionDump>) -> Option<ErrorView>
    decreases parts.len(),
{
    if parts.len() == 0 {
        None
    } else {
        match partitions_failure(coll, parts.drop_last()) {
            Some(e) => Some(e),
            None => partition_failure(coll, parts.last()),
        }
    }
}

pub open spec fn are_captures(c: Seq<CapturedPartition>, parts: Seq<PartitionDump>) -> bool {
    c.len() == parts.len() && forall|i: int|
        0 <= i < c.len() ==> is_capture(#[trigger] c[i], parts[i])
}

proof fn lemma_partitions_failure(coll: Seq<char>, parts: Seq<PartitionDump>, n: int)
    requires
        0 <= n <= parts.len(),
        partitions_failure(coll, parts.take(n)) is Some,
    ensures
        partitions_failure(coll, parts) == partitions_failure(coll, parts.take(n)),
    decreases parts.len() - n,
{
    if n < parts.len() {
        assert(parts.take(n + 1).drop_last() =~= parts.take(n));
        lemma_partitions_failure(coll, parts, n + 1);
    } else {
        assert(parts.take(n) =~= parts);
    }
}

fn capture_partitions(coll: &str, parts: Vec<PartitionDump>) -> (r: Result<
    Vec<CapturedPartition>,
    Error,
>)
    ensures
        match partitions_failure(coll@, parts@) {
            Some(e) => r is Err && r->Err_0@ == e,
            None => r is Ok && are_captures(r->Ok_0@, parts@),
        },
{
    let ghost all = parts@;
    let mut out: Vec<CapturedPartition> = Vec::new();
    for p in it: parts.into_iter()
        invariant
            it.seq() == all,
            partitions_failure(coll@, all.take(it.index() as int)) is None,
            are_captures(out@, all.take(it.index() as int)),
    {
        let ghost n = it.index() as int;
        let ghost before = out@;
        proof {
            assert(all.take(n + 1).drop_last() =~= all.take(n));
            assert(all.take(n + 1).last() == p);
        }
        match capture_partition(coll, p) {
            Ok(c) => {
                out.push(c);
                proof {
                    assert forall|i: int| 0 <= i < out@.len() implies is_capture(
                        #[trigger] out@[i],
                        all.take(n + 1)[i],
                    ) by {
                        if i < n {
                            assert(is_capture(before[i], all.take(n)[i]));
                        }
                    }
                }
            },
            Err(e) => {
                proof {
                    lemma_partitions_failure(coll@, all, n + 1);
                }
                return Err(e);
            },
        }
    }
    proof {
        assert(all.take(all.len() as int) =~= all);
    }
    Ok(out)
}

pub open spec fn is_of(d: RegistryDump, database_id: u64, tid: u64) -> bool {
    d.tid == tid && d.db == database_id
}

/// The first failure among the collections of a tenant.
pub open spec fn capture_failure(dumps: Seq<RegistryDump>, database_id: u64, tid: u64) -> Option<
    ErrorView,
>
    decreases dumps.len(),
{
    if dumps.len() == 0 {
        None
    } else {
        match capture_failure(dumps.drop_last(), database_id, tid) {
            Some(e) => Some(e),
            None => if is_of(dumps.last(), database_id, tid) {
                partitions_failure(dumps.last().collection@, dumps.last().partitions@)
            } else {
                None
            },
        }
    }
}

/// The positions of the collections of a tenant that have partitions.
pub open spec fn selected(dumps: Seq<RegistryDump>, database_id: u64, tid: u64) -> Seq<int>
    decreases dumps.len(),
{
    if dumps.len() == 0 {
        Seq::empty()
    } else {
        let init = selected(dumps.drop_last(), database_id, tid);
        if is_of(dumps.last(), database_id, tid) && dumps.last().partitions@.len() > 0 {
            init.push(dumps.len() - 1)
        } else {
            init
        }
    }
}

pub open spec fn is_collection_capture(c: Named<Vec<CapturedPartition>>, d: RegistryDump) -> bool {
    c.name@ == keys::scoped_key(d.db, d.tid, d.collection@) && are_captures(
        c.item@,
        d.partitions@,
    )
}

pub open spec fn are_collection_captures(
    c: Seq<Named<Vec<CapturedPartition>>>,
    dumps: Seq<RegistryDump>,
    at: Seq<int>,
) -> bool {
    c.len() == at.len() && forall|i: int|
        #![trigger c[i]]
        #![trigger at[i]]
        0 <= i < c.len() ==> 0 <= at[i] < dumps.len() && is_collection_capture(c[i], dumps[at[i]])
}

/// Whether `r` holds the captures of the selected collections, by key.
pub open spec fn is_full_capture(
    r: Seq<Named<Vec<CapturedPartition>>>,
    dumps: Seq<RegistryDump>,
    database_id: u64,
    tid: u64,
) -> bool {
    exists|p: Seq<usize>| #[trigger] orders_captures(r, dumps, selected(dumps, database_id, tid), p)
}

pub open spec fn orders_captures(
    r: Seq<Named<Vec<CapturedPartition>>>,
    dumps: Seq<RegistryDump>,
    at: Seq<int>,
    p: Seq<usize>,
) -> bool {
    &&& sorting::is_arrangement(p, at.len() as int)
    &&& r.len() == p.len()
    &&& forall|i: int|
        #![trigger r[i]]
        #![trigger p[i]]
        0 <= i < r.len() ==> 0 <= at[p[i] as int] < dumps.len() && is_collection_capture(
            r[i],
            dumps[at[p[i] as int]],
        )
    &&& forall|i: int, j: int|
        0 <= i < j < r.len() ==> sorting::text_le(
            (#[trigger] r[i]).name@,
            (#[trigger] r[j]).name@,
        )
}

proof fn lemma_capture_failure(dumps: Seq<RegistryDump>, database_id: u64, tid: u64, n: int)
    requires
        0 <= n <= dumps.len(),
        capture_failure(dumps.take(n), database_id, tid) is Some,
    ensures
        capture_failure(dumps, database_id, tid) == capture_failure(
            dumps.take(n),
            database_id,
            tid,
        ),
    decreases dumps.len() - n,
{
    if n < dumps.len() {
        assert(dumps.take(n + 1).drop_last() =~= dumps.take(n));
        lemma_capture_failure(dumps, database_id, tid, n + 1);
    } else {
        assert(dumps.take(n) =~= dumps);
    }
}

/// Capture the on-disk partitions of a tenant, by collection. Any failure
/// fails the capture: nothing is left out in silence.
pub fn capture_flushed_ts_segments(dumps: Vec<RegistryDump>, database_id: u64, tid: u64) -> (r:
    Result<Vec<Named<Vec<CapturedPartition>>>, Error>)
    ensures
        match capture_failure(dumps@, database_id, tid) {
            Some(e) => r is Err && r->Err_0@ == e,
            None => r is Ok && is_full_capture(r->Ok_0@, dumps@, database_id, tid),
        },
{
    let ghost all = dumps@;
    let mut out: Vec<Named<Vec<CapturedPartition>>> = Vec::new();
    for d in it: dumps.into_iter()
        invariant
            it.seq() == all,
            capture_failure(all.take(it.index() as int), database_id, tid) is None,
            are_collection_captures(
                out@,
                all,
                selected(all.take(it.index() as int), database_id, tid),
            ),
    {
        let ghost n = it.index() as int;
        let ghost before = out@;
        let ghost at = selected(all.take(n), database_id, tid);
        proof {
            assert(all.take(n + 1).drop_last() =~= all.take(n));
            assert(all.take(n + 1).last() == d);
        }
        if d.tid == tid && d.db == database_id {
            match capture_partitions(d.collection.as_str(), d.partitions) {
                Err(e) => {
                    proof {
                        lemma_capture_failure(all, database_id, tid, n + 1);
                    }
                    return Err(e);
                },
                Ok(partitions) => {
                    if partitions.len() > 0 {
                        let key = keys::snapshot_key(database_id, tid, d.collection.as_str());
                        out.push(Named { name: key, item: partitions });
                        proof {
                            let now = selected(all.take(n + 1), database_id, tid);
                            assert(now == at.push(n));
                            assert forall|i: int| 0 <= i < out@.len() implies 0 <= #[trigger] now[i]
                                < all.len() && is_collection_capture(out@[i], all[now[i]]) by {
                                if i < at.len() {
                                    assert(out@[i] == before[i]);
                                    assert(now[i] == at[i]);
                                }
                            }
                            assert(are_collection_captures(out@, all, now));
                        }
                    }
                },
            }
        }
    }
    proof {
        assert(all.take(all.len() as int) =~= all);
    }
    let p = sorting::stable_order(&out);
    let ghost unsorted = out@;
    let r = sorting::arrange(out, &p);
    proof {
        let at = selected(all, database_id, tid);
        assert forall|i: int| 0 <= i < r@.len() implies 0 <= at[#[trigger] p@[i] as int]
            < all.len() && is_collection_capture(r@[i], all[at[p@[i] as int]]) by {
            assert(r@[i] == unsorted[p@[i] as int]);
        }
        assert forall|i: int, j: int| 0 <= i < j < r@.len() implies sorting::text_le(
            (#[trigger] r@[i]).name@,
            (#[trigger] r@[j]).name@,
        ) by {
            assert(unsorted[p@[i] as int].name@ == r@[i].name@);
            assert(unsorted[p@[j] as int].name@ == r@[j].name@);
        }
        assert(sorting::is_arrangement(p@, at.len() as int));
        assert(r@.len() == p@.len());
        assert(orders_captures(r@, all, at, p@));
    }
    Ok(r)
}

/// What the engines hand out of a tenant.
pub struct TenantExport {
    pub documents: Result<Section, String>,
    pub indexes: Result<Section, String>,
    pub edges: Result<Section, String>,
    pub vectors: Vec<Exported>,
    pub kv_tables: Vec<ExportedTable>,
    /// None where the tenant has no CRDT engine; within it, none where its
    /// state could not be written out.
    pub crdt: Option<Option<Vec<u8>>>,
    pub timeseries: Vec<Exported>,
    /// What is on disk of every timeseries collection.
    pub registries: Vec<RegistryDump>,
}

/// The snapshot of a tenant.
pub struct TenantDataSnapshot {
    pub documents: Section,
    pub indexes: Section,
    pub edges: Section,
    pub vectors: Section,
    pub kv_tables: Section,
    pub crdt_state: Section,
    pub timeseries: Section,
    pub flushed_ts_segments: Vec<Named<Vec<CapturedPartition>>>,
}

/// Why no snapshot is taken: documents, index entries and partitions must be
/// read in full.
pub open spec fn snapshot_failure(x: TenantExport, database_id: u64, tenant_id: u64) -> Option<
    Seq<char>,
> {
    let flushed = capture_failure(x.registries@, database_id, tenant_id);
    if x.documents is Err {
        Some("snapshot: sparse doc scan failed: "@ + x.documents->Err_0@)
    } else if x.indexes is Err {
        Some("snapshot: sparse index scan failed: "@ + x.indexes->Err_0@)
    } else if flushed is Some {
        Some("snapshot: flushed ts segment capture failed: "@ + error::error_text(flushed->0))
    } else {
        None
    }
}

pub open spec fn crdt_section(crdt: Option<Option<Vec<u8>>>, tenant_id: u64) -> Seq<
    (Seq<char>, Seq<u8>),
> {
    match crdt {
        Some(Some(bytes)) => seq![(text::decimal(tenant_id as nat), bytes@)],
        _ => Seq::empty(),
    }
}

/// What a snapshot holds: the documents and index entries as they were read;
/// the edges, if they could be read; of the other engines what belongs to the
/// tenant and could be written out; of the partitions on disk all.
pub open spec fn is_snapshot(
    s: TenantDataSnapshot,
    x: TenantExport,
    database_id: u64,
    tenant_id: u64,
) -> bool {
    &&& x.documents == Ok::<Section, String>(s.documents)
    &&& x.indexes == Ok::<Section, String>(s.indexes)
    &&& match x.edges {
        Ok(edges) => s.edges == edges,
        Err(_) => s.edges@.len() == 0,
    }
    &&& section_views(s.vectors@) == exported_section(x.vectors@, tenant_id)
    &&& section_views(s.kv_tables@) == table_section(x.kv_tables@, tenant_id)
    &&& tables_read_back(x.kv_tables@, tenant_id)
    &&& section_views(s.crdt_state@) == crdt_section(x.crdt, tenant_id)
    &&& section_views(s.timeseries@) == exported_section(x.timeseries@, tenant_id)
    &&& is_full_capture(s.flushed_ts_segments@, x.registries@, database_id, tenant_id)
}

fn failed(head: &str, e: &str) -> (r: ErrorCode)
    ensures
        r@ == (ErrorCodeView::Internal { detail: head@ + e@ }),
{
    let mut detail = head.to_owned();
    detail.append(e);
    ErrorCode::Internal { detail }
}

/// Put together the snapshot of a tenant.
pub fn execute_create_tenant_snapshot(x: TenantExport, database_id: u64, tenant_id: u64) -> (r:
    Result<TenantDataSnapshot, ErrorCode>)
    ensures
        match snapshot_failure(x, database_id, tenant_id) {
            Some(detail) => r is Err && r->Err_0@ == (ErrorCodeView::Internal { detail }),
            None => r is Ok && is_snapshot(r->Ok_0, x, database_id, tenant_id),
        },
{
    let documents = match x.documents {
        Ok(documents) => documents,
        Err(e) => {
            return Err(failed("snapshot: sparse doc scan failed: ", e.as_str()));
        },
    };
    let indexes = match x.indexes {
        Ok(indexes) => indexes,
        Err(e) => {
            return Err(failed("snapshot: sparse index scan failed: ", e.as_str()));
        },
    };
    let edges = match x.edges {
        Ok(edges) => edges,
        Err(_) => Vec::new(),
    };
    let vectors = export_section(x.vectors, tenant_id);
    let kv_tables = export_tables(x.kv_tables, tenant_id);
    let mut crdt_state: Section = Vec::new();
    let ghost crdt = x.crdt;
    match x.crdt {
        Some(Some(bytes)) => {
            crdt_state.push((text::decimal_text(tenant_id), bytes));
        },
        _ => {},
    }
    proof {
        assert(section_views(crdt_state@) =~= crdt_section(crdt, tenant_id));
    }
    let timeseries = export_section(x.timeseries, tenant_id);
    let flushed_ts_segments = match capture_flushed_ts_segments(
        x.registries,
        database_id,
        tenant_id,
    ) {
        Ok(flushed) => flushed,
        Err(e) => {
            return Err(failed("snapshot: flushed ts segment capture failed: ", e.text().as_str()));
        },
    };
    Ok(
        TenantDataSnapshot {
            documents,
            indexes,
            edges,
            vectors,
            kv_tables,
            crdt_state,
            timeseries,
            flushed_ts_segments,
        },
    )
}

/// Whether the lengths of all of a tenant's tables can be written.
pub open spec fn tables_fit(tables: Seq<ExportedTable>, tenant_id: u64) -> bool {
    forall|i: int|
        0 <= i < tables.len() && (#[trigger] tables[i]).tid == Some(tenant_id)
            ==> codec::kv_entries_fit(codec::kv_entry_views(tables[i].entries@))
}

/// The name and the entries of each table of a tenant that could be written out.
pub open spec fn written_tables(tables: Seq<ExportedTable>, tenant_id: u64) -> Seq<
    (Seq<char>, Option<Seq<(Seq<u8>, Seq<u8>, u64)>>),
>
    decreases tables.len(),
{
    if tables.len() == 0 {
        Seq::empty()
    } else {
        let init = written_tables(tables.drop_last(), tenant_id);
        let last = tables.last();
        if last.tid == Some(tenant_id) && table_bytes(last) is Ok {
            init.push((table_name(last), Some(codec::kv_entry_views(last.entries@))))
        } else {
            init
        }
    }
}

/// The tables that are decoded from a snapshot are those that went into it:
/// under the same names, each with the same entries, in the same order.
pub proof fn law_a_snapshot_gives_back_its_tables(tables: Seq<ExportedTable>, tenant_id: u64)
    requires
        tables_read_back(tables, tenant_id),
        tables_fit(tables, tenant_id),
    ensures
        table_section(tables, tenant_id).map_values(
            |e: (Seq<char>, Seq<u8>)| (e.0, codec::kv_entries_of(e.1)),
        ) == written_tables(tables, tenant_id),
    decreases tables.len(),
{
    let read = |e: (Seq<char>, Seq<u8>)| (e.0, codec::kv_entries_of(e.1));
    if tables.len() > 0 {
        let init = tables.drop_last();
        assert forall|i: int| 0 <= i < init.len() implies #[trigger] init[i] == tables[i] by {}
        law_a_snapshot_gives_back_its_tables(init, tenant_id);
        assert(tables[tables.len() - 1] == tables.last());
        assert(table_section(tables, tenant_id).map_values(read) =~= written_tables(
            tables,
            tenant_id,
        ));
    } else {
        assert(table_section(tables, tenant_id).map_values(read) =~= written_tables(
            tables,
            tenant_id,
        ));
    }
}

/// What a snapshot files of a tenant's vectors and timeseries is found again
/// under the tenant and the name that it was filed for, whether its key is read
/// as that of a timeseries or of an index.
pub proof fn law_a_snapshot_section_names_its_collections(
    parts: Seq<Exported>,
    tenant_id: u64,
    i: int,
)
    requires
        0 <= i < exported_section(parts, tenant_id).len(),
    ensures
        ({
            let key = keys::timeseries_key(exported_section(parts, tenant_id)[i].0);
            key.1 == tenant_id && keys::vector_key(
                exported_section(parts, tenant_id)[i].0,
                tenant_id,
            ) == (key.0, key.2) && exists|j: int|
                0 <= j < parts.len() && (#[trigger] parts[j]).db == key.0 && parts[j].tid == key.1
                    && parts[j].name@ == key.2 && parts[j].bytes is Some
                    && parts[j].bytes->0@ == exported_section(parts, tenant_id)[i].1
        }),
    decreases parts.len(),
{
    if parts.len() > 0 {
        let init = parts.drop_last();
        let last = parts.last();
        let section = exported_section(parts, tenant_id);
        if i < exported_section(init, tenant_id).len() {
            law_a_snapshot_section_names_its_collections(init, tenant_id, i);
            let key = keys::timeseries_key(section[i].0);
            let j = choose|j: int|
                0 <= j < init.len() && (#[trigger] init[j]).db == key.0 && init[j].tid == key.1
                    && init[j].name@ == key.2 && init[j].bytes is Some && init[j].bytes->0@
                    == section[i].1;
            assert(parts[j] == init[j]);
        } else {
            keys::law_snapshot_key_parses_back(last.db, last.tid, last.name@);
            assert(parts[parts.len() - 1] == last);
        }
    }
}

/// A section holds what was exported of the tenant, in the order of the export,
/// each part under the key of its collection; a part that could not be written out,
/// and one of another tenant, is not in it.
pub proof fn law_a_section_holds_the_parts_of_its_tenant(parts: Seq<Exported>, tenant_id: u64)
    ensures
        exported_section(parts, tenant_id) == parts.filter(
            |p: Exported| p.tid == tenant_id && p.bytes is Some,
        ).map_values(
            |p: Exported| (keys::scoped_key(p.db, tenant_id, p.name@), p.bytes->0@),
        ),
    decreases parts.len(),
{
    reveal(Seq::filter);
    let pred = |p: Exported| p.tid == tenant_id && p.bytes is Some;
    let to = |p: Exported| (keys::scoped_key(p.db, tenant_id, p.name@), p.bytes->0@);
    if parts.len() > 0 {
        let short = parts.drop_last();
        law_a_section_holds_the_parts_of_its_tenant(short, tenant_id);
        if pred(parts.last()) {
            assert(short.filter(pred).push(parts.last()).map_values(to) =~= short.filter(
                pred,
            ).map_values(to).push(to(parts.last())));
        }
    } else {
        assert(parts.filter(pred).map_values(to) =~= exported_section(parts, tenant_id));
    }
}

/// The tables of a tenant that can be written out are in the snapshot, in their
/// order, each under the name of its collection, or under its number where it has
/// none.
pub proof fn law_a_snapshot_holds_the_tables_of_its_tenant(
    tables: Seq<ExportedTable>,
    tenant_id: u64,
)
    ensures
        table_section(tables, tenant_id) == tables.filter(
            |t: ExportedTable| t.tid == Some(tenant_id) && table_bytes(t) is Ok,
        ).map_values(
            |t: ExportedTable|
                (
                    match t.collection {
                        Some(name) => name@,
                        None => text::decimal(t.hash as nat),
                    },
                    table_bytes(t)->Ok_0,
                ),
        ),
    decreases tables.len(),
{
    reveal(Seq::filter);
    let pred = |t: ExportedTable| t.tid == Some(tenant_id) && table_bytes(t) is Ok;
    let to = |t: ExportedTable|
        (
            match t.collection {
                Some(name) => name@,
                None => text::decimal(t.hash as nat),
            },
            table_bytes(t)->Ok_0,
        );
    if tables.len() > 0 {
        let short = tables.drop_last();
        law_a_snapshot_holds_the_tables_of_its_tenant(short, tenant_id);
        if pred(tables.last()) {
            assert(short.filter(pred).push(tables.last()).map_values(to) =~= short.filter(
                pred,
            ).map_values(to).push(to(tables.last())));
        }
    } else {
        assert(tables.filter(pred).map_values(to) =~= table_section(tables, tenant_id));
    }
}

/// A captured partition holds the plain files of its directory whose names are
/// texts, each with its bytes.
pub proof fn law_a_capture_holds_the_plain_files(entries: Seq<DirEntry>)
    ensures
        files_of(entries) == entries.filter(
            |e: DirEntry| e.name is Some && e.is_file,
        ).map_values(|e: DirEntry| (e.name->0@, e.bytes@)),
    decreases entries.len(),
{
    reveal(Seq::filter);
    let pred = |e: DirEntry| e.name is Some && e.is_file;
    let to = |e: DirEntry| (e.name->0@, e.bytes@);
    if entries.len() > 0 {
        let short = entries.drop_last();
        law_a_capture_holds_the_plain_files(short);
        if pred(entries.last()) {
            assert(short.filter(pred).push(entries.last()).map_values(to) =~= short.filter(
                pred,
            ).map_values(to).push(to(entries.last())));
        }
    } else {
        assert(entries.filter(pred).map_values(to) =~= files_of(entries));
    }
}

proof fn lemma_readable_partitions(coll: Seq<char>, parts: Seq<PartitionDump>)
    ensures
        partitions_failure(coll, parts) is None <==> forall|i: int|
            0 <= i < parts.len() ==> (#[trigger] parts[i]).meta is Ok && parts[i].entries is Ok,
    decreases parts.len(),
{
    if parts.len() > 0 {
        let short = parts.drop_last();
        let n = parts.len() - 1;
        lemma_readable_partitions(coll, short);
        assert(parts[n] == parts.last());
        if partitions_failure(coll, short) is None {
            assert forall|i: int| 0 <= i < n implies (#[trigger] parts[i]).meta is Ok
                && parts[i].entries is Ok by {
                assert(short[i] == parts[i]);
            }
        } else {
            let i = choose|i: int|
                0 <= i < short.len() && !((#[trigger] short[i]).meta is Ok
                    && short[i].entries is Ok);
            assert(parts[i] == short[i]);
        }
    }
}

/// A capture succeeds exactly where the description and the directory of every
/// partition of the tenant's collections in the database could be read.
pub proof fn law_when_a_capture_succeeds(dumps: Seq<RegistryDump>, database_id: u64, tid: u64)
    ensures
        capture_failure(dumps, database_id, tid) is None <==> forall|i: int, k: int|
            #![trigger dumps[i].partitions@[k]]
            0 <= i < dumps.len() && dumps[i].tid == tid && dumps[i].db == database_id && 0 <= k
                < dumps[i].partitions@.len() ==> dumps[i].partitions@[k].meta is Ok
                && dumps[i].partitions@[k].entries is Ok,
    decreases dumps.len(),
{
    if dumps.len() > 0 {
        let short = dumps.drop_last();
        let n = dumps.len() - 1;
        let last = dumps.last();
        law_when_a_capture_succeeds(short, database_id, tid);
        lemma_readable_partitions(last.collection@, last.partitions@);
        assert(dumps[n] == last);
        if capture_failure(short, database_id, tid) is Some {
            let (i, k) = choose|i: int, k: int|
                #![trigger short[i].partitions@[k]]
                0 <= i < short.len() && short[i].tid == tid && short[i].db == database_id && 0 <= k
                    < short[i].partitions@.len() && !(short[i].partitions@[k].meta is Ok
                    && short[i].partitions@[k].entries is Ok);
            assert(dumps[i].partitions@[k] == short[i].partitions@[k]);
        } else {
            assert forall|i: int, k: int|
                #![trigger dumps[i].partitions@[k]]
                0 <= i < n && dumps[i].tid == tid && dumps[i].db == database_id && 0 <= k
                    < dumps[i].partitions@.len() implies dumps[i].partitions@[k].meta is Ok
                && dumps[i].partitions@[k].entries is Ok by {
                assert(short[i].partitions@[k] == dumps[i].partitions@[k]);
            }
            if is_of(last, database_id, tid) && partitions_failure(
                last.collection@,
                last.partitions@,
            ) is Some {
                let k = choose|k: int|
                    0 <= k < last.partitions@.len() && !((#[trigger] last.partitions@[k]).meta is Ok
                        && last.partitions@[k].entries is Ok);
                assert(dumps[n].partitions@[k] == last.partitions@[k]);
            }
        }
    }
}

/// The collections that are captured are those of the tenant in the database that
/// have a partition, in ascending order.
pub proof fn law_which_collections_are_captured(
    dumps: Seq<RegistryDump>,
    database_id: u64,
    tid: u64,
    i: int,
)
    ensures
        ({
            let at = selected(dumps, database_id, tid);
            &&& at.contains(i) <==> 0 <= i < dumps.len() && dumps[i].tid == tid && dumps[i].db
                == database_id && dumps[i].partitions@.len() > 0
            &&& forall|a: int, b: int| 0 <= a < b < at.len() ==> (#[trigger] at[a]) < (
            #[trigger] at[b])
            &&& forall|a: int| 0 <= a < at.len() ==> 0 <= (#[trigger] at[a]) < dumps.len()
        }),
    decreases dumps.len(),
{
    if dumps.len() > 0 {
        let short = dumps.drop_last();
        let n = dumps.len() - 1;
        let before = selected(short, database_id, tid);
        let at = selected(dumps, database_id, tid);
        law_which_collections_are_captured(short, database_id, tid, i);
        assert(dumps[n] == dumps.last());
        if 0 <= i < n {
            assert(short[i] == dumps[i]);
        }
        if at.len() > before.len() {
            assert(at[before.len() as int] == n);
            assert forall|a: int| 0 <= a < before.len() implies at[a] == before[a] by {}
        }
        if at.contains(i) {
            let a = choose|a: int| 0 <= a < at.len() && at[a] == i;
            if a < before.len() {
                assert(before[a] == i);
            }
        }
        if before.contains(i) {
            let a = choose|a: int| 0 <= a < before.len() && before[a] == i;
            assert(at[a] == i);
        }
    }
}

/// A snapshot fails exactly where the documents, the indexes or the partitions could
/// not be read, told in this order; edges that could not be read are left out.
pub proof fn law_when_a_snapshot_fails(x: TenantExport, database_id: u64, tenant_id: u64)
    ensures
        snapshot_failure(x, database_id, tenant_id) is None <==> x.documents is Ok && x.indexes is Ok
            && capture_failure(x.registries@, database_id, tenant_id) is None,
        x.documents matches Err(e) ==> snapshot_failure(x, database_id, tenant_id) == Some(
            "snapshot: sparse doc scan failed: "@ + e@,
        ),
        x.documents is Ok ==> (x.indexes matches Err(e) ==> snapshot_failure(
            x,
            database_id,
            tenant_id,
        ) == Some("snapshot: sparse index scan failed: "@ + e@)),
        x.crdt matches Some(Some(bytes)) ==> crdt_section(x.crdt, tenant_id).len() == 1
            && crdt_section(x.crdt, tenant_id)[0] == (text::decimal(tenant_id as nat), bytes@),
        !(x.crdt matches Some(Some(_))) ==> crdt_section(x.crdt, tenant_id).len() == 0,
{
}

/// A snapshot holds what each store gave: documents and index entries as they
/// were read, the edges or, where they could not be read, none, and of each
/// other engine what that engine wrote out for the tenant.
pub proof fn law_a_snapshot_holds_what_each_store_gave(
    s: TenantDataSnapshot,
    x: TenantExport,
    database_id: u64,
    tenant_id: u64,
)
    requires
        is_snapshot(s, x, database_id, tenant_id),
    ensures
        x.documents matches Ok(d) && d == s.documents,
        x.indexes matches Ok(d) && d == s.indexes,
        x.edges matches Ok(e) ==> e == s.edges,
        x.edges is Err ==> s.edges@.len() == 0,
        section_views(s.vectors@) == x.vectors@.filter(
            |p: Exported| p.tid == tenant_id && p.bytes is Some,
        ).map_values(|p: Exported| (keys::scoped_key(p.db, tenant_id, p.name@), p.bytes->0@)),
        section_views(s.timeseries@) == x.timeseries@.filter(
            |p: Exported| p.tid == tenant_id && p.bytes is Some,
        ).map_values(|p: Exported| (keys::scoped_key(p.db, tenant_id, p.name@), p.bytes->0@)),
        x.crdt matches Some(Some(bytes)) ==> s.crdt_state@.len() == 1
            && section_views(s.crdt_state@)[0] == (text::decimal(tenant_id as nat), bytes@),
        !(x.crdt matches Some(Some(_))) ==> s.crdt_state@.len() == 0,
{
    law_a_section_holds_the_parts_of_its_tenant(x.vectors@, tenant_id);
    law_a_section_holds_the_parts_of_its_tenant(x.timeseries@, tenant_id);
    assert(section_views(s.crdt_state@).len() == s.crdt_state@.len());
}


} // verus!
