//! Taking back the writes of a transaction.
//!
//! Each write leaves entries that say how to reverse it. What a core keeps in
//! memory is reversed here; what lies in a store is handed out as an operation,
//! and the entry is finished with what came of it.
use crate::core_loop::CoreLoop;
use crate::spatial;
use crate::spatial::{BoundingBox, SpatialKey};
use crate::text;
use crate::transaction::chain;
use crate::vectors::registry::IndexKey;
use vstd::prelude::*;
use vstd::string::*;

verus! {

/// A vector that a write added to or took from an index.
pub struct VectorDelta {
    pub index: IndexKey,
    pub vector_id: u32,
    pub collection: String,
    pub field: String,
    pub doc_id: String,
}

/// How to reverse one write.
pub enum UndoEntry {
    /// Delete the document, or put its old value back.
    PutDocument {
        collection: String,
        document_id: String,
        surrogate: u32,
        /// None where the document was new.
        old_value: Option<Vec<u8>>,
        /// The system time of the version that the write appended; none where
        /// the collection keeps no versions.
        bitemporal_sys_from_ms: Option<i64>,
        /// Field and value of each versioned index entry of that version.
        bitemporal_index_tuples: Vec<(String, String)>,
        /// Field and value of each index entry that the write added.
        secondary_index_added: Vec<(String, String)>,
        /// Field and value of each index entry that the write removed.
        secondary_index_removed: Vec<(String, String)>,
        /// The chain head before the write, where the collection keeps a chain.
        chain_hash_prior: Option<Option<String>>,
    },
    /// Put the document back.
    DeleteDocument {
        collection: String,
        document_id: String,
        surrogate: u32,
        old_value: Vec<u8>,
        bitemporal_sys_from_ms: Option<i64>,
        bitemporal_index_tuples: Vec<(String, String)>,
        secondary_index_tuples: Vec<(String, String)>,
        chain_hash_prior: Option<Option<String>>,
    },
    /// Take an inserted vector out again.
    InsertVector { delta: VectorDelta },
    /// Bring a deleted vector back.
    DeleteVector { delta: VectorDelta },
    /// Take a geometry entry out again.
    SpatialInsert { key: SpatialKey, entry_id: u64 },
    /// Bring a geometry entry back.
    SpatialDelete { key: SpatialKey, entry_id: u64, bbox: BoundingBox, document_id: String },
    /// Put column statistics back, or remove them where there were none.
    StatsRestore { key: String, prior: Option<Vec<u8>> },
    /// Unmark a node that the write marked as deleted.
    MarkNodeDeleted { database_id: u64, tid: u64, node_id: String },
    /// Bring a deleted edge back.
    DeleteEdge {
        collection: String,
        src_id: String,
        label: String,
        dst_id: String,
        old_properties: Vec<u8>,
    },
}

/// What an entry asks of the document store.
pub enum StorageOp {
    PutRow { collection: String, document_id: String, value: Vec<u8> },
    DeleteRow { collection: String, document_id: String },
    /// Remove the version that was appended at a system time, and its index
    /// entries, in one transaction.
    RemoveVersion {
        collection: String,
        document_id: String,
        sys_from_ms: i64,
        index_tuples: Vec<(String, String)>,
    },
}

pub open spec fn pair_views(v: Seq<(String, String)>) -> Seq<(Seq<char>, Seq<char>)> {
    v.map_values(|p: (String, String)| (p.0@, p.1@))
}

fn copy_pairs(v: &Vec<(String, String)>) -> (r: Vec<(String, String)>)
    ensures
        pair_views(r@) == pair_views(v@),
{
    let mut r: Vec<(String, String)> = Vec::new();
    let mut i: usize = 0;
    while i < v.len()
        invariant
            i <= v@.len(),
            r@.len() == i,
            forall|j: int| 0 <= j < i ==> (#[trigger] r@[j]).0@ == v@[j].0@ && r@[j].1@ == v@[j].1@,
        decreases v.len() - i,
    {
        r.push((v[i].0.clone(), v[i].1.clone()));
        i = i + 1;
    }
    proof {
        assert(pair_views(r@) =~= pair_views(v@));
    }
    r
}

pub open spec fn is_document(e: UndoEntry) -> bool {
    e is PutDocument || e is DeleteDocument
}

/// The store operation that reverses a document entry: the appended version
/// goes where there is one; else the old value comes back, or the row goes.
pub open spec fn reverses(e: UndoEntry, op: StorageOp) -> bool {
    match e {
        UndoEntry::PutDocument {
            collection,
            document_id,
            old_value,
            bitemporal_sys_from_ms,
            bitemporal_index_tuples,
            ..
        } => match bitemporal_sys_from_ms {
            Some(t) => op matches StorageOp::RemoveVersion {
                collection: c,
                document_id: d,
                sys_from_ms,
                index_tuples,
            } && c@ == collection@ && d@ == document_id@ && sys_from_ms == t && pair_views(
                index_tuples@,
            ) == pair_views(bitemporal_index_tuples@),
            None => match old_value {
                Some(old) => op matches StorageOp::PutRow { collection: c, document_id: d, value }
                    && c@ == collection@ && d@ == document_id@ && value@ == old@,
                None => op matches StorageOp::DeleteRow { collection: c, document_id: d } && c@
                    == collection@ && d@ == document_id@,
            },
        },
        UndoEntry::DeleteDocument {
            collection,
            document_id,
            old_value,
            bitemporal_sys_from_ms,
            bitemporal_index_tuples,
            ..
        } => match bitemporal_sys_from_ms {
            Some(t) => op matches StorageOp::RemoveVersion {
                collection: c,
                document_id: d,
                sys_from_ms,
                index_tuples,
            } && c@ == collection@ && d@ == document_id@ && sys_from_ms == t && pair_views(
                index_tuples@,
            ) == pair_views(bitemporal_index_tuples@),
            None => op matches StorageOp::PutRow { collection: c, document_id: d, value } && c@
                == collection@ && d@ == document_id@ && value@ == old_value@,
        },
        _ => false,
    }
}

/// The store operation of a document entry.
pub fn undo_storage_op(e: &UndoEntry) -> (op: StorageOp)
    requires
        is_document(*e),
    ensures
        reverses(*e, op),
{
    match e {
        UndoEntry::PutDocument {
            collection,
            document_id,
            old_value,
            bitemporal_sys_from_ms,
            bitemporal_index_tuples,
            ..
        } => match bitemporal_sys_from_ms {
            Some(t) => StorageOp::RemoveVersion {
                collection: collection.clone(),
                document_id: document_id.clone(),
                sys_from_ms: *t,
                index_tuples: copy_pairs(bitemporal_index_tuples),
            },
            None => match old_value {
                Some(old) => StorageOp::PutRow {
                    collection: collection.clone(),
                    document_id: document_id.clone(),
                    value: text::copy_bytes(old.as_slice()),
                },
                None => StorageOp::DeleteRow {
                    collection: collection.clone(),
                    document_id: document_id.clone(),
                },
            },
        },
        UndoEntry::DeleteDocument {
            collection,
            document_id,
            old_value,
            bitemporal_sys_from_ms,
            bitemporal_index_tuples,
            ..
        } => match bitemporal_sys_from_ms {
            Some(t) => StorageOp::RemoveVersion {
                collection: collection.clone(),
                document_id: document_id.clone(),
                sys_from_ms: *t,
                index_tuples: copy_pairs(bitemporal_index_tuples),
            },
            None => StorageOp::PutRow {
                collection: collection.clone(),
                document_id: document_id.clone(),
                value: text::copy_bytes(old_value.as_slice()),
            },
        },
        _ => StorageOp::DeleteRow { collection: String::new(), document_id: String::new() },
    }
}

/// Where the removal of a version failed.
#[derive(Clone, Copy, Debug, PartialEq, Eq, Structural)]
pub enum VersionStage {
    BeginWrite,
    VersionRemove,
    IndexRemove,
    Commit,
}

pub open spec fn stage_name(s: VersionStage) -> Seq<char> {
    match s {
        VersionStage::BeginWrite => "begin_write"@,
        VersionStage::VersionRemove => "version remove"@,
        VersionStage::IndexRemove => "index remove"@,
        VersionStage::Commit => "commit"@,
    }
}

fn stage_text(s: VersionStage) -> (r: &'static str)
    ensures
        r@ == stage_name(s),
{
    match s {
        VersionStage::BeginWrite => "begin_write",
        VersionStage::VersionRemove => "version remove",
        VersionStage::IndexRemove => "index remove",
        VersionStage::Commit => "commit",
    }
}

/// ` on {collection}/{document}: {error}` behind what failed.
pub open spec fn fault_text(
    what: Seq<char>,
    collection: Seq<char>,
    document_id: Seq<char>,
    error: Seq<char>,
) -> Seq<char> {
    what + (" on "@ + (collection + ("/"@ + (document_id + (": "@ + error)))))
}

fn build_fault(what: &str, collection: &str, document_id: &str, error: &str) -> (r: String)
    ensures
        r@ == fault_text(what@, collection@, document_id@, error@),
{
    let mut r = what.to_owned();
    r.append(" on ");
    r.append(collection);
    r.append("/");
    r.append(document_id);
    r.append(": ");
    r.append(error);
    proof {
        assert(r@ =~= fault_text(what@, collection@, document_id@, error@));
    }
    r
}

/// How the removal of a version came out: done, or the entry's position and
/// what failed.
pub fn undo_bitemporal_write(
    entry_index: usize,
    collection: &str,
    document_id: &str,
    failed: Option<(VersionStage, String)>,
) -> (r: Result<(), (usize, String)>)
    ensures
        match failed {
            None => r is Ok,
            Some((stage, error)) => r matches Err((i, detail)) && i == entry_index && detail@
                == fault_text(
                "bitemporal "@ + stage_name(stage),
                collection@,
                document_id@,
                error@,
            ),
        },
{
    match failed {
        None => Ok(()),
        Some((stage, error)) => {
            let mut what = "bitemporal ".to_owned();
            what.append(stage_text(stage));
            Err((entry_index, build_fault(what.as_str(), collection, document_id, error.as_str())))
        },
    }
}

/// What came of the store operation of an entry.
pub enum StorageOutcome {
    Done,
    /// The row could not be put or deleted.
    RowFault(String),
    /// The version could not be removed.
    VersionFault(VersionStage, String),
}

/// What is left to do once the store is reversed. None of it can fail an undo.
pub struct DocumentFollowUp {
    /// Take the row out of the text index.
    pub text_index_remove: Option<u32>,
    /// Index entries to remove, field and value.
    pub index_remove: Vec<(String, String)>,
    /// Index entries to put back.
    pub index_put: Vec<(String, String)>,
}

/// The failure that a document entry reports.
pub open spec fn document_fault(e: UndoEntry, outcome: StorageOutcome) -> Option<Seq<char>> {
    let (collection, document_id, plain) = match e {
        UndoEntry::PutDocument { collection, document_id, .. } => (
            collection@,
            document_id@,
            "document restore"@,
        ),
        UndoEntry::DeleteDocument { collection, document_id, .. } => (
            collection@,
            document_id@,
            "document re-insert"@,
        ),
        _ => (Seq::empty(), Seq::empty(), Seq::empty()),
    };
    match outcome {
        StorageOutcome::Done => None,
        StorageOutcome::RowFault(error) => Some(
            fault_text(plain, collection, document_id, error@),
        ),
        StorageOutcome::VersionFault(stage, error) => Some(
            fault_text("bitemporal "@ + stage_name(stage), collection, document_id, error@),
        ),
    }
}

pub open spec fn entry_collection(e: UndoEntry) -> Seq<char> {
    match e {
        UndoEntry::PutDocument { collection, .. } => collection@,
        UndoEntry::DeleteDocument { collection, .. } => collection@,
        _ => Seq::empty(),
    }
}

pub open spec fn entry_chain_prior(e: UndoEntry) -> Option<Option<Seq<char>>> {
    match e {
        UndoEntry::PutDocument { chain_hash_prior, .. } => chain::captured(chain_hash_prior),
        UndoEntry::DeleteDocument { chain_hash_prior, .. } => chain::captured(chain_hash_prior),
        _ => None,
    }
}

/// What is left to do behind a document entry.
pub open spec fn follows_up(e: UndoEntry, f: DocumentFollowUp) -> bool {
    match e {
        UndoEntry::PutDocument { surrogate, secondary_index_added, secondary_index_removed, .. } =>
            f.text_index_remove == Some(surrogate) && f.index_remove == secondary_index_added
            && f.index_put == secondary_index_removed,
        UndoEntry::DeleteDocument { secondary_index_tuples, .. } => f.text_index_remove is None
            && f.index_remove@.len() == 0 && f.index_put == secondary_index_tuples,
        _ => false,
    }
}

impl CoreLoop {
    /// Finish a document entry with what came of its store operation. A failure
    /// leaves the chain head as it is and names the entry.
    pub fn apply_undo_document(
        &mut self,
        database_id: u64,
        tid: u64,
        entry_index: usize,
        entry: UndoEntry,
        outcome: StorageOutcome,
    ) -> (r: Result<DocumentFollowUp, (usize, String)>)
        requires
            is_document(entry),
        ensures
            match document_fault(entry, outcome) {
                Some(fault) => r matches Err((i, detail)) && i == entry_index && detail@ == fault
                    && final(self).chains@ == old(self).chains@,
                None => r is Ok && follows_up(entry, r->Ok_0) && final(self).chains@
                    == chain::put_back(
                    old(self).chains@,
                    (database_id, tid, entry_collection(entry)),
                    entry_chain_prior(entry),
                ),
            },
            final(self).spatial@ == old(self).spatial@,
            final(self).core_id == old(self).core_id,
            final(self).vectors@ == old(self).vectors@,
            final(self).timeseries@ == old(self).timeseries@,
            final(self).columnar@ == old(self).columnar@,
            final(self).held@ == old(self).held@,
    {
        match entry {
            UndoEntry::PutDocument {
                collection,
                document_id,
                surrogate,
                secondary_index_added,
                secondary_index_removed,
                chain_hash_prior,
                ..
            } => {
                match outcome {
                    StorageOutcome::Done => {},
                    StorageOutcome::RowFault(error) => {
                        return Err(
                            (
                                entry_index,
                                build_fault(
                                    "document restore",
                                    collection.as_str(),
                                    document_id.as_str(),
                                    error.as_str(),
                                ),
                            ),
                        );
                    },
                    StorageOutcome::VersionFault(stage, error) => {
                        match undo_bitemporal_write(
                            entry_index,
                            collection.as_str(),
                            document_id.as_str(),
                            Some((stage, error)),
                        ) {
                            Err(e) => {
                                return Err(e);
                            },
                            Ok(_) => {},
                        }
                    },
                }
                self.chains.undo_chain_hash(
                    database_id,
                    tid,
                    collection.as_str(),
                    chain_hash_prior,
                );
                Ok(
                    DocumentFollowUp {
                        text_index_remove: Some(surrogate),
                        index_remove: secondary_index_added,
                        index_put: secondary_index_removed,
                    },
                )
            },
            UndoEntry::DeleteDocument {
                collection,
                document_id,
                secondary_index_tuples,
                chain_hash_prior,
                ..
            } => {
                match outcome {
                    StorageOutcome::Done => {},
                    StorageOutcome::RowFault(error) => {
                        return Err(
                            (
                                entry_index,
                                build_fault(
                                    "document re-insert",
                                    collection.as_str(),
                                    document_id.as_str(),
                                    error.as_str(),
                                ),
                            ),
                        );
                    },
                    StorageOutcome::VersionFault(stage, error) => {
                        match undo_bitemporal_write(
                            entry_index,
                            collection.as_str(),
                            document_id.as_str(),
                            Some((stage, error)),
                        ) {
                            Err(e) => {
                                return Err(e);
                            },
                            Ok(_) => {},
                        }
                    },
                }
                self.chains.undo_chain_hash(
                    database_id,
                    tid,
                    collection.as_str(),
                    chain_hash_prior,
                );
                Ok(
                    DocumentFollowUp {
                        text_index_remove: None,
                        index_remove: Vec::new(),
                        index_put: secondary_index_tuples,
                    },
                )
            },
            _ => Ok(
                DocumentFollowUp {
                    text_index_remove: None,
                    index_remove: Vec::new(),
                    index_put: Vec::new(),
                },
            ),
        }
    }

    /// Reverse a geometry entry.
    pub fn apply_undo_spatial(&mut self, entry: UndoEntry)
        requires
            entry is SpatialInsert || entry is SpatialDelete,
        ensures
            final(self).spatial@ == match entry {
                UndoEntry::SpatialInsert { key, entry_id } => spatial::without_entry(
                    old(self).spatial@,
                    spatial::entry_place(key, entry_id),
                ),
                UndoEntry::SpatialDelete { key, entry_id, bbox, document_id } => spatial::with_entry(
                    old(self).spatial@,
                    spatial::entry_place(key, entry_id),
                    bbox,
                    document_id@,
                ),
                _ => old(self).spatial@,
            },
            final(self).chains@ == old(self).chains@,
            final(self).core_id == old(self).core_id,
            final(self).vectors@ == old(self).vectors@,
            final(self).timeseries@ == old(self).timeseries@,
            final(self).columnar@ == old(self).columnar@,
            final(self).held@ == old(self).held@,
    {
        match entry {
            UndoEntry::SpatialInsert { key, entry_id } => {
                self.spatial.remove_entry(key, entry_id);
            },
            UndoEntry::SpatialDelete { key, entry_id, bbox, document_id } => {
                self.spatial.insert_entry(key, entry_id, bbox, document_id);
            },
            _ => {},
        }
    }
}

/// What an entry asks of the store of column statistics.
pub enum StatsOp {
    Write { key: String, value: Vec<u8> },
    Remove { key: String },
}

/// The operation that reverses a statistics entry: what was there comes back,
/// and what was not there goes.
pub open spec fn reverses_stats(e: UndoEntry, op: StatsOp) -> bool {
    match e {
        UndoEntry::StatsRestore { key, prior } => match prior {
            Some(p) => op matches StatsOp::Write { key: k, value } && k@ == key@ && value@ == p@,
            None => op matches StatsOp::Remove { key: k } && k@ == key@,
        },
        _ => false,
    }
}

/// The store operation of a statistics entry.
pub fn undo_stats_op(e: &UndoEntry) -> (op: StatsOp)
    requires
        e is StatsRestore,
    ensures
        reverses_stats(*e, op),
{
    match e {
        UndoEntry::StatsRestore { key, prior } => match prior {
            Some(p) => StatsOp::Write { key: key.clone(), value: text::copy_bytes(p.as_slice()) },
            None => StatsOp::Remove { key: key.clone() },
        },
        _ => StatsOp::Remove { key: String::new() },
    }
}

/// What an operation makes of the statistics.
pub open spec fn after_stats_op(stats: Map<Seq<char>, Seq<u8>>, op: StatsOp) -> Map<
    Seq<char>,
    Seq<u8>,
> {
    match op {
        StatsOp::Write { key, value } => stats.insert(key@, value@),
        StatsOp::Remove { key } => stats.remove(key@),
    }
}

/// The operation that reverses a change of statistics brings back the
/// statistics before the change, where the entry holds what was there.
pub proof fn law_undoing_a_change_restores_the_statistics(
    stats: Map<Seq<char>, Seq<u8>>,
    entry: UndoEntry,
    op: StatsOp,
    written: Seq<u8>,
)
    requires
        entry is StatsRestore,
        match entry->prior {
            Some(p) => stats.contains_key(entry->StatsRestore_key@)
                && stats[entry->StatsRestore_key@] == p@,
            None => !stats.contains_key(entry->StatsRestore_key@),
        },
        reverses_stats(entry, op),
    ensures
        after_stats_op(stats.insert(entry->StatsRestore_key@, written), op) == stats,
{
    assert(after_stats_op(stats.insert(entry->StatsRestore_key@, written), op) =~= stats);
}

/// Finish a statistics entry with what the store said.
pub fn apply_undo_stats(entry_index: usize, key: &str, failed: Option<String>) -> (r: Result<
    (),
    (usize, String),
>)
    ensures
        match failed {
            None => r is Ok,
            Some(error) => r matches Err((i, detail)) && i == entry_index && detail@
                == "stats restore "@ + (key@ + (": "@ + error@)),
        },
{
    match failed {
        None => Ok(()),
        Some(error) => {
            let mut detail = "stats restore ".to_owned();
            detail.append(key);
            detail.append(": ");
            detail.append(error.as_str());
            proof {
                assert(detail@ =~= "stats restore "@ + (key@ + (": "@ + error@)));
            }
            Err((entry_index, detail))
        },
    }
}

/// A document by its collection and its id.
pub type DocPlace = (Seq<char>, Seq<char>);

/// A document store: rows, versions by the system time they were appended at
/// (a tombstone has no body), and versioned index entries by their version,
/// field and value, each live or not.
#[verifier::ext_equal]
pub struct StoreModel {
    pub rows: Map<DocPlace, Seq<u8>>,
    pub versions: Map<(DocPlace, i64), Option<Seq<u8>>>,
    pub index: Map<((DocPlace, i64), (Seq<char>, Seq<char>)), bool>,
}

/// The store after a version was appended with its index entries.
pub open spec fn with_version(
    s: StoreModel,
    at: (DocPlace, i64),
    body: Option<Seq<u8>>,
    tuples: Seq<(Seq<char>, Seq<char>)>,
) -> StoreModel {
    StoreModel {
        versions: s.versions.insert(at, body),
        index: s.index.union_prefer_right(
            Map::new(
                |k: ((DocPlace, i64), (Seq<char>, Seq<char>))| k.0 == at && tuples.contains(k.1),
                |k: ((DocPlace, i64), (Seq<char>, Seq<char>))| body is Some,
            ),
        ),
        ..s
    }
}

/// The store after a version and its index entries were removed.
pub open spec fn without_version(
    s: StoreModel,
    at: (DocPlace, i64),
    tuples: Seq<(Seq<char>, Seq<char>)>,
) -> StoreModel {
    StoreModel {
        versions: s.versions.remove(at),
        index: s.index.restrict(
            Set::new(
                |k: ((DocPlace, i64), (Seq<char>, Seq<char>))| !(k.0 == at && tuples.contains(k.1)),
            ),
        ),
        ..s
    }
}

/// What an operation makes of the store.
pub open spec fn after_op(s: StoreModel, op: StorageOp) -> StoreModel {
    match op {
        StorageOp::PutRow { collection, document_id, value } => StoreModel {
            rows: s.rows.insert((collection@, document_id@), value@),
            ..s
        },
        StorageOp::DeleteRow { collection, document_id } => StoreModel {
            rows: s.rows.remove((collection@, document_id@)),
            ..s
        },
        StorageOp::RemoveVersion { collection, document_id, sys_from_ms, index_tuples } =>
        without_version(s, ((collection@, document_id@), sys_from_ms), pair_views(index_tuples@)),
    }
}

/// The document of a document entry.
pub open spec fn place_of(e: UndoEntry) -> DocPlace {
    match e {
        UndoEntry::PutDocument { collection, document_id, .. } => (collection@, document_id@),
        UndoEntry::DeleteDocument { collection, document_id, .. } => (collection@, document_id@),
        _ => arbitrary(),
    }
}

/// The store after the write that left a document entry; `body` is what a put
/// wrote.
pub open spec fn after_write(s: StoreModel, e: UndoEntry, body: Seq<u8>) -> StoreModel {
    match e {
        UndoEntry::PutDocument { bitemporal_sys_from_ms, bitemporal_index_tuples, .. } =>
        match bitemporal_sys_from_ms {
            Some(t) => with_version(
                s,
                (place_of(e), t),
                Some(body),
                pair_views(bitemporal_index_tuples@),
            ),
            None => StoreModel { rows: s.rows.insert(place_of(e), body), ..s },
        },
        UndoEntry::DeleteDocument { bitemporal_sys_from_ms, bitemporal_index_tuples, .. } =>
        match bitemporal_sys_from_ms {
            Some(t) => with_version(
                s,
                (place_of(e), t),
                None,
                pair_views(bitemporal_index_tuples@),
            ),
            None => StoreModel { rows: s.rows.remove(place_of(e)), ..s },
        },
        _ => s,
    }
}

/// Whether a version is new to the store, and so are its index entries.
pub open spec fn is_new_version(
    s: StoreModel,
    at: (DocPlace, i64),
    tuples: Seq<(Seq<char>, Seq<char>)>,
) -> bool {
    !s.versions.contains_key(at) && forall|t: (Seq<char>, Seq<char>)|
        tuples.contains(t) ==> !(#[trigger] s.index.contains_key((at, t)))
}

/// Whether a document entry holds what the store had before its write.
pub open spec fn captures(s: StoreModel, e: UndoEntry) -> bool {
    match e {
        UndoEntry::PutDocument { old_value, bitemporal_sys_from_ms, bitemporal_index_tuples, .. } =>
        match bitemporal_sys_from_ms {
            Some(t) => is_new_version(s, (place_of(e), t), pair_views(bitemporal_index_tuples@)),
            None => match old_value {
                Some(old) => s.rows.contains_key(place_of(e)) && s.rows[place_of(e)] == old@,
                None => !s.rows.contains_key(place_of(e)),
            },
        },
        UndoEntry::DeleteDocument {
            old_value,
            bitemporal_sys_from_ms,
            bitemporal_index_tuples,
            ..
        } => match bitemporal_sys_from_ms {
            Some(t) => is_new_version(s, (place_of(e), t), pair_views(bitemporal_index_tuples@)),
            None => s.rows.contains_key(place_of(e)) && s.rows[place_of(e)] == old_value@,
        },
        _ => false,
    }
}

proof fn lemma_removing_a_new_version(
    s: StoreModel,
    at: (DocPlace, i64),
    body: Option<Seq<u8>>,
    tuples: Seq<(Seq<char>, Seq<char>)>,
)
    requires
        is_new_version(s, at, tuples),
    ensures
        without_version(with_version(s, at, body, tuples), at, tuples) == s,
{
    let back = without_version(with_version(s, at, body, tuples), at, tuples);
    assert(back.versions =~= s.versions);
    assert forall|k: ((DocPlace, i64), (Seq<char>, Seq<char>))|
        back.index.contains_key(k) == s.index.contains_key(k) by {
        if k.0 == at && tuples.contains(k.1) {
            assert(!s.index.contains_key((at, k.1)));
        }
    }
    assert(back.index =~= s.index);
}

/// The operation that reverses a write brings back the store before the write.
pub proof fn law_undoing_a_write_restores_the_store(
    s: StoreModel,
    entry: UndoEntry,
    op: StorageOp,
    body: Seq<u8>,
)
    requires
        captures(s, entry),
        reverses(entry, op),
    ensures
        after_op(after_write(s, entry, body), op) == s,
{
    let at = place_of(entry);
    match entry {
        UndoEntry::PutDocument { bitemporal_sys_from_ms, bitemporal_index_tuples, .. } => {
            match bitemporal_sys_from_ms {
                Some(t) => {
                    let tuples = pair_views(bitemporal_index_tuples@);
                    lemma_removing_a_new_version(s, (at, t), Some(body), tuples);
                },
                None => {
                    assert(after_op(after_write(s, entry, body), op).rows =~= s.rows);
                },
            }
        },
        UndoEntry::DeleteDocument { bitemporal_sys_from_ms, bitemporal_index_tuples, .. } => {
            match bitemporal_sys_from_ms {
                Some(t) => {
                    let tuples = pair_views(bitemporal_index_tuples@);
                    lemma_removing_a_new_version(s, (at, t), None, tuples);
                },
                None => {
                    assert(after_op(after_write(s, entry, body), op).rows =~= s.rows);
                },
            }
        },
        _ => {},
    }
}

/// The store after the writes of a transaction, each with the body it wrote.
pub open spec fn after_writes(s: StoreModel, log: Seq<(UndoEntry, Seq<u8>)>) -> StoreModel
    decreases log.len(),
{
    if log.len() == 0 {
        s
    } else {
        after_write(after_writes(s, log.drop_last()), log.last().0, log.last().1)
    }
}

/// Whether each entry of a log holds what the store had before its write.
pub open spec fn log_captures(s: StoreModel, log: Seq<(UndoEntry, Seq<u8>)>) -> bool
    decreases log.len(),
{
    log.len() == 0 || (log_captures(s, log.drop_last()) && captures(
        after_writes(s, log.drop_last()),
        log.last().0,
    ))
}

/// The store after operations, from the last to the first.
pub open spec fn after_ops_reversed(s: StoreModel, ops: Seq<StorageOp>) -> StoreModel
    decreases ops.len(),
{
    if ops.len() == 0 {
        s
    } else {
        after_ops_reversed(after_op(s, ops.last()), ops.drop_last())
    }
}

/// Reversing the writes of a transaction, the last one first, brings back the
/// store before the transaction.
pub proof fn law_rolling_back_restores_the_store(
    s: StoreModel,
    log: Seq<(UndoEntry, Seq<u8>)>,
    ops: Seq<StorageOp>,
)
    requires
        log_captures(s, log),
        ops.len() == log.len(),
        forall|i: int| 0 <= i < log.len() ==> reverses((#[trigger] log[i]).0, ops[i]),
    ensures
        after_ops_reversed(after_writes(s, log), ops) == s,
    decreases log.len(),
{
    if log.len() > 0 {
        let n = log.len() - 1;
        assert(reverses(log[n].0, ops[n]));
        law_undoing_a_write_restores_the_store(
            after_writes(s, log.drop_last()),
            log.last().0,
            ops.last(),
            log.last().1,
        );
        assert forall|i: int| 0 <= i < log.drop_last().len() implies reverses(
            (#[trigger] log.drop_last()[i]).0,
            ops.drop_last()[i],
        ) by {
            assert(log.drop_last()[i] == log[i]);
        }
        law_rolling_back_restores_the_store(s, log.drop_last(), ops.drop_last());
    }
}

/// Undoing a write brings the secondary index back: what the write added goes and
/// what it removed returns.
pub proof fn law_undoing_a_write_restores_the_index(
    index: Set<(Seq<char>, Seq<char>)>,
    after: Set<(Seq<char>, Seq<char>)>,
    e: UndoEntry,
    f: DocumentFollowUp,
    t: (Seq<char>, Seq<char>),
)
    requires
        follows_up(e, f),
        match e {
            UndoEntry::PutDocument { secondary_index_added, secondary_index_removed, .. } => forall|
                x: (Seq<char>, Seq<char>),
            |
                #![trigger after.contains(x)]
                {
                    let added = pair_views(secondary_index_added@).contains(x);
                    let removed = pair_views(secondary_index_removed@).contains(x);
                    &&& added ==> !index.contains(x)
                    &&& removed ==> index.contains(x)
                    &&& after.contains(x) <==> added || (index.contains(x) && !removed)
                },
            UndoEntry::DeleteDocument { secondary_index_tuples, .. } => forall|
                x: (Seq<char>, Seq<char>),
            |
                #![trigger after.contains(x)]
                {
                    let removed = pair_views(secondary_index_tuples@).contains(x);
                    &&& removed ==> index.contains(x)
                    &&& after.contains(x) <==> index.contains(x) && !removed
                },
            _ => false,
        },
    ensures
        index.contains(t) <==> pair_views(f.index_put@).contains(t) || (after.contains(t)
            && !pair_views(f.index_remove@).contains(t)),
{
    assert(after.contains(t) || !after.contains(t));
}

/// The undo of a put takes the row out of the text index; that of a delete does
/// not. Undoing fails exactly where the store did, and then names the document.
pub proof fn law_an_undo_fails_with_the_store(e: UndoEntry, outcome: StorageOutcome, f: DocumentFollowUp)
    requires
        is_document(e),
    ensures
        document_fault(e, outcome) is None <==> outcome is Done,
        follows_up(e, f) ==> (e matches UndoEntry::PutDocument { surrogate, .. }
            ==> f.text_index_remove == Some(surrogate)),
        follows_up(e, f) && e is DeleteDocument ==> f.text_index_remove is None,
{
}

} // verus!
