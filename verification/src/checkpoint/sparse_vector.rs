//! Checkpoints of sparse vector indexes.
use crate::checkpoint::files;
use crate::checkpoint::files::FilePair;
use crate::checkpoint::index_key;
use crate::ids::{DatabaseId, TenantId};
use crate::text;
use vstd::prelude::*;
use vstd::string::*;

verus! {

/// The place of an index: database, tenant, collection and field.
pub type SparsePlace = (u64, u64, Seq<char>, Seq<char>);

pub fn sparse_vector_checkpoint_stem(db: u64, tid: u64, coll: &str, field: &str) -> (r: String)
    ensures
        r@ == index_key::stem(db, tid, coll@, field@),
{
    index_key::build_stem(db, tid, coll, field)
}

/// What the stems of all indexes of a collection begin with.
pub fn sparse_vector_checkpoint_prefix(db: u64, tid: u64, coll: &str) -> (r: String)
    ensures
        r@ == index_key::stem_prefix(db, tid, coll@),
{
    index_key::build_prefix(db, tid, coll)
}

pub fn parse_sparse_vector_key(stem: &str) -> (r: Option<(DatabaseId, TenantId, String, String)>)
    ensures
        match r {
            Some(k) => index_key::parsed_stem(stem@) == Some((k.0.0, k.1.0, k.2@, k.3@)),
            None => index_key::parsed_stem(stem@) is None,
        },
{
    index_key::parse_stem(stem)
}

/// A stem of the older form, which named no database: an index of the default
/// one.
pub fn parse_legacy_sparse_vector_key(stem: &str) -> (r: Option<
    (DatabaseId, TenantId, String, String),
>)
    ensures
        match r {
            Some(k) => k.0.0 == 0 && index_key::parsed_legacy_stem(stem@) == Some(
                (k.1.0, k.2@, k.3@),
            ),
            None => index_key::parsed_legacy_stem(stem@) is None,
        },
{
    index_key::parse_legacy_stem(stem)
}

/// A sparse vector index to checkpoint.
pub struct SparseDump {
    pub db: u64,
    pub tid: u64,
    pub coll: String,
    pub field: String,
    /// Whether it holds anything.
    pub is_empty: bool,
    /// How many bytes it is encoded as.
    pub bytes: usize,
    pub written: bool,
}

/// Whether an index writes a file.
pub open spec fn writes(d: SparseDump) -> bool {
    !d.is_empty && d.bytes > 0
}

/// The file that an index is written to, if it is.
pub fn sparse_vector_file(dir: &str, d: &SparseDump) -> (r: Option<FilePair>)
    ensures
        r is Some == writes(*d),
        r matches Some(pair) ==> files::is_pair(
            pair,
            dir@,
            index_key::stem(d.db, d.tid, d.coll@, d.field@),
            ".ckpt"@,
        ),
{
    if d.is_empty || d.bytes == 0 {
        return None;
    }
    let stem = index_key::build_stem(d.db, d.tid, d.coll.as_str(), d.field.as_str());
    Some(files::file_pair(dir, stem.as_str(), ".ckpt"))
}

/// How many indexes were written.
pub open spec fn written_count(dumps: Seq<SparseDump>) -> nat
    decreases dumps.len(),
{
    if dumps.len() == 0 {
        0
    } else {
        written_count(dumps.drop_last()) + if writes(dumps.last()) && dumps.last().written {
            1nat
        } else {
            0
        }
    }
}

/// How many indexes a checkpoint wrote: none where there is no directory for
/// them. An index that could not be written is not counted.
pub fn checkpoint_sparse_vector_indexes(dir_made: bool, dumps: &Vec<SparseDump>) -> (r: usize)
    ensures
        r == if dumps@.len() > 0 && dir_made {
            written_count(dumps@)
        } else {
            0
        },
{
    if dumps.len() == 0 || !dir_made {
        return 0;
    }
    let mut n: usize = 0;
    let mut i: usize = 0;
    while i < dumps.len()
        invariant
            i <= dumps@.len(),
            n <= i,
            n == written_count(dumps@.take(i as int)),
        decreases dumps.len() - i,
    {
        proof {
            assert(dumps@.take(i + 1).drop_last() =~= dumps@.take(i as int));
            assert(dumps@.take(i + 1).last() == dumps@[i as int]);
        }
        let d = &dumps[i];
        if !d.is_empty && d.bytes > 0 && d.written {
            n = n + 1;
        }
        i = i + 1;
    }
    proof {
        assert(dumps@.take(dumps@.len() as int) =~= dumps@);
    }
    n
}

/// A stem to rename: the older form of an index's stem, and its present one.
pub struct Rename {
    pub from: String,
    pub to: String,
}

/// What a file in the checkpoint directory is.
pub struct SparseEntry {
    pub db: u64,
    pub tid: u64,
    pub coll: String,
    pub field: String,
    pub rename: Option<Rename>,
}

/// The index that a file holds, by its name, and whether the name is of the
/// older form. The present form goes first.
pub open spec fn entry_of(name: Seq<char>) -> Option<(SparsePlace, bool)> {
    match files::stem_of(name, "ckpt"@) {
        None => None,
        Some(stem) => match index_key::parsed_stem(stem) {
            Some(place) => Some((place, false)),
            None => match index_key::parsed_legacy_stem(stem) {
                Some((tid, coll, field)) => Some(((0, tid, coll, field), true)),
                None => None,
            },
        },
    }
}

pub open spec fn entry_place(e: SparseEntry) -> SparsePlace {
    (e.db, e.tid, e.coll@, e.field@)
}

/// The renaming of a file whose name is of the older form.
pub fn migrate_legacy_file(old_stem: &str, db: u64, tid: u64, coll: &str, field: &str) -> (r: Option<
    Rename,
>)
    ensures
        ({
            let new_stem = index_key::stem(db, tid, coll@, field@);
            if new_stem == old_stem@ {
                r is None
            } else {
                r is Some && r->0.from@ == old_stem@ && r->0.to@ == new_stem
            }
        }),
{
    let new_stem = index_key::build_stem(db, tid, coll, field);
    if text::same_text(new_stem.as_str(), old_stem) {
        return None;
    }
    Some(Rename { from: old_stem.to_owned(), to: new_stem })
}

/// What a file is, by its name: the index it holds and, where the name is of
/// the older form, the renaming that brings it to the present one.
pub fn read_entry(name: &str) -> (r: Option<SparseEntry>)
    ensures
        match entry_of(name@) {
            None => r is None,
            Some((place, legacy)) => r is Some && entry_place(r->0) == place && r->0.rename is Some
                == legacy && (r->0.rename matches Some(m) ==> Some(m.from@) == files::stem_of(
                name@,
                "ckpt"@,
            ) && m.to@ == index_key::stem(place.0, place.1, place.2, place.3)),
        },
{
    let stem = match files::file_stem(name, "ckpt") {
        None => {
            return None;
        },
        Some(stem) => stem,
    };
    match index_key::parse_stem(stem.as_str()) {
        Some((db, tid, coll, field)) => {
            return Some(SparseEntry { db: db.0, tid: tid.0, coll, field, rename: None });
        },
        None => {},
    }
    match index_key::parse_legacy_stem(stem.as_str()) {
        None => None,
        Some((db, tid, coll, field)) => {
            let rename = migrate_legacy_file(
                stem.as_str(),
                db.0,
                tid.0,
                coll.as_str(),
                field.as_str(),
            );
            proof {
                index_key::law_stem_is_not_legacy(db.0, tid.0, coll@, field@);
            }
            Some(SparseEntry { db: db.0, tid: tid.0, coll, field, rename })
        },
    }
}

/// A file of the checkpoint directory.
pub struct SparseFile {
    pub name: String,
    /// Whether it could be read and holds an index.
    pub readable: bool,
}

/// A file that is loaded: its number, the index it holds, and whether its name is
/// of the older form.
pub type LoadView = (int, SparsePlace, bool);

/// The files that are loaded, in order: those whose names name an index, and that
/// are readable.
pub open spec fn loads(files: Seq<SparseFile>) -> Seq<LoadView>
    decreases files.len(),
{
    if files.len() == 0 {
        Seq::empty()
    } else {
        let before = loads(files.drop_last());
        match entry_of(files.last().name@) {
            None => before,
            Some((place, legacy)) => if files.last().readable {
                before.push((files.len() - 1, place, legacy))
            } else {
                before
            },
        }
    }
}

/// A file to load: its number, and what it is.
pub struct SparseLoad {
    pub file: usize,
    pub entry: SparseEntry,
}

pub open spec fn load_views(l: Seq<SparseLoad>) -> Seq<LoadView> {
    l.map_values(
        |x: SparseLoad| (x.file as int, entry_place(x.entry), x.entry.rename is Some),
    )
}

/// The files of the checkpoint directory that are loaded, each with the renaming
/// that brings its name to the present form. A later file of an index takes the
/// place of an earlier one.
pub fn load_sparse_vector_checkpoints(files: &Vec<SparseFile>) -> (r: Vec<SparseLoad>)
    ensures
        load_views(r@) == loads(files@),
{
    let mut out: Vec<SparseLoad> = Vec::new();
    let mut i: usize = 0;
    proof {
        assert(files@.take(0) =~= Seq::empty());
        assert(load_views(out@) =~= Seq::empty());
    }
    while i < files.len()
        invariant
            i <= files@.len(),
            load_views(out@) == loads(files@.take(i as int)),
        decreases files.len() - i,
    {
        proof {
            assert(files@.take(i + 1).drop_last() =~= files@.take(i as int));
            assert(files@.take(i + 1).last() == files@[i as int]);
        }
        let ghost before = out@;
        match read_entry(files[i].name.as_str()) {
            None => {},
            Some(entry) => {
                if files[i].readable {
                    let ghost legacy = entry.rename is Some;
                    let ghost place = entry_place(entry);
                    out.push(SparseLoad { file: i, entry });
                    proof {
                        assert(load_views(out@) =~= load_views(before).push(
                            (i as int, place, legacy),
                        ));
                    }
                }
            },
        }
        i = i + 1;
    }
    proof {
        assert(files@.take(files@.len() as int) =~= files@);
    }
    out
}

/// A name of the older form is renamed once: the new name is of the present
/// form and names the same index.
pub proof fn law_migration_runs_once(name: Seq<char>, new_stem: Seq<char>)
    requires
        entry_of(name) matches Some((place, legacy)) && legacy && new_stem == index_key::stem(
            place.0,
            place.1,
            place.2,
            place.3,
        ),
    ensures
        entry_of(new_stem + ".ckpt"@) == Some(((entry_of(name)->0).0, false)),
{
    let place = (entry_of(name)->0).0;
    text::lemma_decimal_shape(place.0 as nat);
    files::law_a_checkpoint_name_keeps_its_stem(new_stem);
    index_key::law_stem_parses_back(place.0, place.1, place.2, place.3);
}

/// A file is written for each index that holds something and has an encoding; those
/// that were written are counted.
pub proof fn law_each_written_index_counts(dumps: Seq<SparseDump>, d: SparseDump)
    ensures
        !d.is_empty && d.bytes > 0 && d.written ==> written_count(dumps.push(d)) == written_count(
            dumps,
        ) + 1,
        d.is_empty || d.bytes == 0 || !d.written ==> written_count(dumps.push(d)) == written_count(
            dumps,
        ),
        written_count(Seq::<SparseDump>::empty()) == 0,
        written_count(dumps) <= dumps.len(),
    decreases dumps.len(),
{
    assert(dumps.push(d).drop_last() =~= dumps);
    if dumps.len() > 0 {
        law_each_written_index_counts(dumps.drop_last(), d);
    }
}

/// A file is loaded exactly where it can be read and its name is that of an index;
/// the present form of a name comes before the old one, which belongs to the first
/// database.
pub proof fn law_a_readable_file_is_loaded(files: Seq<SparseFile>, f: SparseFile)
    ensures
        ({
            let before = loads(files);
            let after = loads(files.push(f));
            let stem = files::stem_of(f.name@, "ckpt"@);
            let present = stem is Some && index_key::parsed_stem(stem->0) is Some;
            let legacy = stem is Some && index_key::parsed_stem(stem->0) is None
                && index_key::parsed_legacy_stem(stem->0) is Some;
            &&& !f.readable || (!present && !legacy) ==> after == before
            &&& f.readable && present ==> after == before.push(
                (files.len() as int, index_key::parsed_stem(stem->0)->0, false),
            )
            &&& f.readable && legacy ==> {
                let (tid, coll, field) = index_key::parsed_legacy_stem(stem->0)->0;
                after == before.push((files.len() as int, (0u64, tid, coll, field), true))
            }
        }),
{
    assert(files.push(f).drop_last() =~= files);
}

} // verus!
