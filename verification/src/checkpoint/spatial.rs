//! Checkpoints of spatial indexes: a file for the entries of each index, and
//! one for the documents that its entries stand for.
use crate::checkpoint::files;
use crate::checkpoint::files::CheckpointOutcome;
use crate::checkpoint::index_key;
use crate::codec;
use crate::error::{Error, ErrorView};
use crate::ids::{DatabaseId, TenantId};
use crate::spatial;
use crate::spatial::{BoundingBox, Geometry, SpatialKey, SpatialState};
use crate::text;
use vstd::prelude::*;
use vstd::string::*;

verus! {

pub fn spatial_ckpt_dir(data_dir: &str, core_id: usize) -> (r: String)
    ensures
        r@ == files::core_dir(data_dir@, "spatial-ckpt"@, core_id),
{
    files::core_directory(data_dir, "spatial-ckpt", core_id)
}

/// The stem of an index's files.
pub fn checkpoint_stem(db: DatabaseId, tid: TenantId, coll: &str, field: &str) -> (r: String)
    ensures
        r@ == index_key::stem(db.0, tid.0, coll@, field@),
{
    index_key::build_stem(db.0, tid.0, coll, field)
}

/// What the stems of all indexes of a collection begin with.
pub fn spatial_checkpoint_prefix(db: u64, tid: u64, coll: &str) -> (r: String)
    ensures
        r@ == index_key::stem_prefix(db, tid, coll@),
{
    index_key::build_prefix(db, tid, coll)
}

/// The index that a stem names.
pub fn parse_spatial_key(stem: &str) -> (r: Option<(DatabaseId, TenantId, String, String)>)
    ensures
        match r {
            Some(k) => index_key::parsed_stem(stem@) == Some((k.0.0, k.1.0, k.2@, k.3@)),
            None => index_key::parsed_stem(stem@) is None,
        },
{
    index_key::parse_stem(stem)
}

/// A spatial index to checkpoint, with what came of encoding it (whether it has
/// any bytes), of writing its file and of writing that of its documents.
pub struct SpatialDump {
    pub key: SpatialKey,
    pub encoded: Result<bool, String>,
    pub publish_failed: Option<String>,
    pub map_publish_failed: Option<String>,
}

pub open spec fn dump_stem(d: SpatialDump) -> Seq<char> {
    index_key::stem(d.key.db, d.key.tid, d.key.coll@, d.key.field@)
}

pub open spec fn failure(
    dir: Seq<char>,
    name: Seq<char>,
    action: Seq<char>,
    e: Seq<char>,
) -> ErrorView {
    files::storage_failure("spatial"@, "spatial"@, action, text::joined_path(dir, name), e)
}

fn failed(dir: &str, stem: &str, suffix: &str, action: &str, e: &str) -> (r: Error)
    ensures
        r@ == failure(dir@, stem@ + suffix@, action@, e@),
{
    let mut name = stem.to_owned();
    name.append(suffix);
    let path = text::join_path(dir, name.as_str());
    files::storage_err("spatial", "spatial", action, path.as_str(), e)
}

/// What the file of an index's documents holds: none where it has none, and the
/// failure where they cannot be encoded.
pub open spec fn doc_map_bytes(stem: Seq<char>, docs: Seq<(u64, Seq<char>)>) -> Result<
    Option<Seq<u8>>,
    ErrorView,
> {
    if docs.len() == 0 {
        Ok(None)
    } else {
        match codec::numbered_encoding_of(docs) {
            Ok(bytes) => Ok(Some(bytes)),
            Err(e) => Err(
                ErrorView::Serialization {
                    format: "msgpack"@,
                    detail: "spatial doc_map encode failed for "@ + (stem + (": "@ + e)),
                },
            ),
        }
    }
}

/// The bytes of the file of an index's documents. They decode to the entries of
/// the index with their documents, where the lengths can be written.
pub fn spatial_doc_map(state: &SpatialState, key: &SpatialKey) -> (r: Result<Option<Vec<u8>>, Error>)
    ensures
        match doc_map_bytes(
            index_key::stem(key.db, key.tid, key.coll@, key.field@),
            state.listed_documents(spatial::index_place(*key)),
        ) {
            Err(e) => r is Err && r->Err_0@ == e,
            Ok(None) => r is Ok && r->Ok_0 is None,
            Ok(Some(bytes)) => r is Ok && r->Ok_0 is Some && r->Ok_0->0@ == bytes
                && (codec::numbered_fit(state.listed_documents(spatial::index_place(*key)))
                ==> codec::numbered_texts_of(bytes) is Some && spatial::lists_index(
                codec::numbered_texts_of(bytes)->0,
                state@,
                spatial::index_place(*key),
            )),
        },
{
    let docs = state.documents_of(key);
    proof {
        assert(codec::numbered_views(docs@) =~= spatial::document_views(docs@));
    }
    if docs.len() == 0 {
        return Ok(None);
    }
    match codec::encode_numbered_texts(&docs) {
        Ok(bytes) => Ok(Some(bytes)),
        Err(e) => {
            let stem = index_key::build_stem(key.db, key.tid, key.coll.as_str(), key.field.as_str());
            let mut detail = "spatial doc_map encode failed for ".to_owned();
            detail.append(stem.as_str());
            detail.append(": ");
            detail.append(e.as_str());
            proof {
                assert(detail@ =~= "spatial doc_map encode failed for "@ + (stem@ + (": "@ + e@)));
            }
            Err(Error::Serialization { format: "msgpack".to_owned(), detail })
        },
    }
}

/// How many files an index writes, or what fails. An index without bytes writes
/// neither of its files.
pub open spec fn dump_outcome(
    dir: Seq<char>,
    d: SpatialDump,
    docs: Seq<(u64, Seq<char>)>,
) -> Result<nat, ErrorView> {
    let stem = dump_stem(d);
    match d.encoded {
        Err(e) => Err(failure(dir, stem, "encode R-tree"@, e@)),
        Ok(false) => Ok(0),
        Ok(true) => match d.publish_failed {
            Some(e) => Err(failure(dir, stem + ".ckpt"@, "publish checkpoint"@, e@)),
            None => match doc_map_bytes(stem, docs) {
                Err(e) => Err(e),
                Ok(None) => Ok(1),
                Ok(Some(_)) => match d.map_publish_failed {
                    Some(e) => Err(failure(dir, stem + ".docmap"@, "publish doc_map"@, e@)),
                    None => Ok(2),
                },
            },
        },
    }
}

/// How many files are written, or the first failure.
pub open spec fn dumps_outcome(dir: Seq<char>, state: SpatialState, dumps: Seq<SpatialDump>) -> Result<
    nat,
    ErrorView,
>
    decreases dumps.len(),
{
    if dumps.len() == 0 {
        Ok(0)
    } else {
        match dumps_outcome(dir, state, dumps.drop_last()) {
            Err(e) => Err(e),
            Ok(n) => match dump_outcome(
                dir,
                dumps.last(),
                state.listed_documents(spatial::index_place(dumps.last().key)),
            ) {
                Err(e) => Err(e),
                Ok(m) => Ok(n + m),
            },
        }
    }
}

proof fn lemma_first_failure(dir: Seq<char>, state: SpatialState, dumps: Seq<SpatialDump>, n: int)
    requires
        0 <= n <= dumps.len(),
        dumps_outcome(dir, state, dumps.take(n)) is Err,
    ensures
        dumps_outcome(dir, state, dumps) == dumps_outcome(dir, state, dumps.take(n)),
    decreases dumps.len() - n,
{
    if n < dumps.len() {
        assert(dumps.take(n + 1).drop_last() =~= dumps.take(n));
        lemma_first_failure(dir, state, dumps, n + 1);
    } else {
        assert(dumps.take(n) =~= dumps);
    }
}

fn write_dump(dir: &str, state: &SpatialState, d: &SpatialDump) -> (r: Result<usize, Error>)
    ensures
        match dump_outcome(dir@, *d, state.listed_documents(spatial::index_place(d.key))) {
            Err(e) => r is Err && r->Err_0@ == e,
            Ok(n) => r is Ok && r->Ok_0 == n && n <= 2,
        },
{
    let stem = index_key::build_stem(
        d.key.db,
        d.key.tid,
        d.key.coll.as_str(),
        d.key.field.as_str(),
    );
    match &d.encoded {
        Err(e) => {
            let r = failed(dir, stem.as_str(), "", "encode R-tree", e.as_str());
            proof {
                reveal_strlit("");
                assert(stem@ + ""@ =~= stem@);
            }
            return Err(r);
        },
        Ok(has_bytes) => {
            if !*has_bytes {
                return Ok(0);
            }
        },
    }
    match &d.publish_failed {
        Some(e) => {
            return Err(failed(dir, stem.as_str(), ".ckpt", "publish checkpoint", e.as_str()));
        },
        None => {},
    }
    match spatial_doc_map(state, &d.key) {
        Err(e) => Err(e),
        Ok(None) => Ok(1),
        Ok(Some(_)) => match &d.map_publish_failed {
            Some(e) => Err(failed(dir, stem.as_str(), ".docmap", "publish doc_map", e.as_str())),
            None => Ok(2),
        },
    }
}

/// What a checkpoint of the spatial indexes came to: durable through
/// `watermark` only if every file of every index was written.
pub open spec fn checkpoint_outcome(
    dir: Seq<char>,
    watermark: u64,
    dir_failed: Option<String>,
    state: SpatialState,
    dumps: Seq<SpatialDump>,
) -> Result<CheckpointOutcome, ErrorView> {
    if dumps.len() == 0 {
        Ok(CheckpointOutcome { durable_lsn: watermark, files_written: 0 })
    } else {
        match dir_failed {
            Some(e) => Err(files::storage_failure("spatial"@, "spatial"@, "create dir"@, dir, e@)),
            None => match dumps_outcome(dir, state, dumps) {
                Err(e) => Err(e),
                Ok(n) => Ok(
                    CheckpointOutcome { durable_lsn: watermark, files_written: n as usize },
                ),
            },
        }
    }
}

pub fn checkpoint_spatial_indexes(
    state: &SpatialState,
    data_dir: &str,
    core_id: usize,
    watermark: u64,
    dir_failed: &Option<String>,
    dumps: &Vec<SpatialDump>,
) -> (r: Result<CheckpointOutcome, Error>)
    requires
        2 * dumps@.len() <= usize::MAX,
    ensures
        match checkpoint_outcome(
            files::core_dir(data_dir@, "spatial-ckpt"@, core_id),
            watermark,
            *dir_failed,
            *state,
            dumps@,
        ) {
            Ok(outcome) => r == Ok::<CheckpointOutcome, Error>(outcome),
            Err(e) => r is Err && r->Err_0@ == e,
        },
{
    if dumps.len() == 0 {
        return Ok(CheckpointOutcome { durable_lsn: watermark, files_written: 0 });
    }
    let dir = spatial_ckpt_dir(data_dir, core_id);
    match dir_failed {
        Some(e) => {
            return Err(
                files::storage_err("spatial", "spatial", "create dir", dir.as_str(), e.as_str()),
            );
        },
        None => {},
    }
    let mut files_written: usize = 0;
    let mut i: usize = 0;
    while i < dumps.len()
        invariant
            i <= dumps@.len(),
            2 * dumps@.len() <= usize::MAX,
            files_written <= 2 * i,
            dir@ == files::core_dir(data_dir@, "spatial-ckpt"@, core_id),
            dumps_outcome(dir@, *state, dumps@.take(i as int)) == Ok::<nat, ErrorView>(
                files_written as nat,
            ),
            dumps@.len() > 0,
            dir_failed is None,
        decreases dumps.len() - i,
    {
        proof {
            assert(dumps@.take(i + 1).drop_last() =~= dumps@.take(i as int));
            assert(dumps@.take(i + 1).last() == dumps@[i as int]);
        }
        match write_dump(dir.as_str(), state, &dumps[i]) {
            Err(e) => {
                proof {
                    lemma_first_failure(dir@, *state, dumps@, i + 1);
                }
                return Err(e);
            },
            Ok(n) => {
                files_written = files_written + n;
            },
        }
        i = i + 1;
    }
    proof {
        assert(dumps@.take(dumps@.len() as int) =~= dumps@);
    }
    Ok(CheckpointOutcome { durable_lsn: watermark, files_written })
}

/// A file of the checkpoint directory: its name, if it is text, the entries of
/// the index in it, unless it could not be read or was rejected, and the bytes
/// of the file of its documents, if that could be read.
pub struct SpatialFile {
    pub name: Option<String>,
    pub tree: Option<Vec<(u64, BoundingBox)>>,
    pub map_bytes: Option<Vec<u8>>,
}

/// The index that a file holds, by its name.
pub open spec fn file_place(f: SpatialFile) -> Option<spatial::IndexPlace> {
    match f.name {
        None => None,
        Some(name) => match files::stem_of(name@, "ckpt"@) {
            None => None,
            Some(stem) => index_key::parsed_stem(stem),
        },
    }
}

/// The documents in the file beside it.
pub open spec fn file_documents(f: SpatialFile) -> Seq<(u64, Seq<char>)> {
    match f.map_bytes {
        None => Seq::empty(),
        Some(bytes) => match codec::numbered_texts_of(bytes@) {
            None => Seq::empty(),
            Some(docs) => docs,
        },
    }
}

/// The geometry after a file.
pub open spec fn after_file(g: Geometry, f: SpatialFile) -> Geometry {
    match (file_place(f), f.tree) {
        (Some(place), Some(tree)) => Geometry {
            extents: spatial::with_tree(g.extents, place, tree@),
            documents: spatial::with_documents(g.documents, place, file_documents(f)),
        },
        _ => g,
    }
}

pub open spec fn after_files(g: Geometry, list: Seq<SpatialFile>) -> Geometry
    decreases list.len(),
{
    if list.len() == 0 {
        g
    } else {
        after_file(after_files(g, list.drop_last()), list.last())
    }
}

pub open spec fn loads(f: SpatialFile) -> bool {
    file_place(f) is Some && f.tree is Some
}

pub open spec fn loaded_count(list: Seq<SpatialFile>) -> nat
    decreases list.len(),
{
    if list.len() == 0 {
        0
    } else {
        loaded_count(list.drop_last()) + if loads(list.last()) {
            1nat
        } else {
            0
        }
    }
}

/// The index that a file of the directory holds; none for another file, which is
/// not read.
pub fn key_of_file(name: &Option<String>) -> (r: Option<SpatialKey>)
    ensures
        match *name {
            None => r is None,
            Some(n) => match files::stem_of(n@, "ckpt"@) {
                None => r is None,
                Some(stem) => match index_key::parsed_stem(stem) {
                    None => r is None,
                    Some(place) => r is Some && spatial::index_place(r->0) == place,
                },
            },
        },
{
    match name {
        None => None,
        Some(n) => match files::file_stem(n.as_str(), "ckpt") {
            None => None,
            Some(stem) => match index_key::parse_stem(stem.as_str()) {
                None => None,
                Some((db, tid, coll, field)) => Some(
                    SpatialKey { db: db.0, tid: tid.0, coll, field },
                ),
            },
        },
    }
}

fn documents_in(map_bytes: &Option<Vec<u8>>) -> (r: Vec<(u64, String)>)
    ensures
        spatial::document_views(r@) == match *map_bytes {
            None => Seq::empty(),
            Some(bytes) => match codec::numbered_texts_of(bytes@) {
                None => Seq::empty(),
                Some(docs) => docs,
            },
        },
{
    let r: Vec<(u64, String)> = match map_bytes {
        None => Vec::new(),
        Some(bytes) => match codec::decode_numbered_texts(bytes.as_slice()) {
            None => Vec::new(),
            Some(docs) => docs,
        },
    };
    proof {
        assert(spatial::document_views(r@) =~= codec::numbered_views(r@));
    }
    r
}

/// Load the checkpoints of a core's own directory. A file that cannot be used
/// is passed over. Says how many indexes were loaded.
pub fn load_spatial_checkpoints(state: &mut SpatialState, list: &Vec<SpatialFile>) -> (r: usize)
    ensures
        final(state)@ == after_files(old(state)@, list@),
        r == loaded_count(list@),
{
    let mut loaded: usize = 0;
    let mut i: usize = 0;
    while i < list.len()
        invariant
            i <= list@.len(),
            loaded <= i,
            loaded == loaded_count(list@.take(i as int)),
            state@ == after_files(old(state)@, list@.take(i as int)),
        decreases list.len() - i,
    {
        proof {
            assert(list@.take(i + 1).drop_last() =~= list@.take(i as int));
            assert(list@.take(i + 1).last() == list@[i as int]);
        }
        match key_of_file(&list[i].name) {
            None => {},
            Some(key) => match &list[i].tree {
                None => {},
                Some(tree) => {
                    let docs = documents_in(&list[i].map_bytes);
                    state.load_index(&key, tree, &docs);
                    loaded = loaded + 1;
                },
            },
        }
        i = i + 1;
    }
    proof {
        assert(list@.take(list@.len() as int) =~= list@);
    }
    loaded
}

/// The file of an index names the index.
pub proof fn law_a_checkpoint_file_names_its_index(d: SpatialDump, f: SpatialFile)
    requires
        f.name is Some,
        f.name->0@ == dump_stem(d) + ".ckpt"@,
    ensures
        file_place(f) == Some(spatial::index_place(d.key)),
{
    text::lemma_decimal_shape(d.key.db as nat);
    files::law_a_checkpoint_name_keeps_its_stem(dump_stem(d));
    index_key::law_stem_parses_back(d.key.db, d.key.tid, d.key.coll@, d.key.field@);
}

/// Loading what was written of an index into a core without it brings every
/// document of the index's entries back.
pub proof fn law_loading_brings_the_documents_back(
    g: Geometry,
    place: spatial::IndexPlace,
    docs: Seq<(u64, Seq<char>)>,
    documents: Map<spatial::EntryPlace, Seq<char>>,
    id: u64,
)
    requires
        spatial::lists_index(docs, g, place),
        g.documents.contains_key((place, id)),
    ensures
        spatial::with_documents(documents, place, docs).contains_key((place, id)),
        spatial::with_documents(documents, place, docs)[(place, id)] == g.documents[(place, id)],
{
    let x = (id, g.documents[(place, id)]);
    let i = choose|i: int| 0 <= i < docs.len() && docs[i] == x;
    lemma_document_loaded(g, place, docs, documents, i);
}

proof fn lemma_document_loaded(
    g: Geometry,
    place: spatial::IndexPlace,
    docs: Seq<(u64, Seq<char>)>,
    documents: Map<spatial::EntryPlace, Seq<char>>,
    i: int,
)
    requires
        0 <= i < docs.len(),
        forall|j: int|
            0 <= j < docs.len() ==> g.documents.contains_key((place, (#[trigger] docs[j]).0))
                && g.documents[(place, docs[j].0)] == docs[j].1,
    ensures
        spatial::with_documents(documents, place, docs).contains_key((place, docs[i].0)),
        spatial::with_documents(documents, place, docs)[(place, docs[i].0)] == docs[i].1,
    decreases docs.len(),
{
    let init = docs.drop_last();
    if i < init.len() {
        assert forall|j: int| 0 <= j < init.len() implies g.documents.contains_key(
            (place, (#[trigger] init[j]).0),
        ) && g.documents[(place, init[j].0)] == init[j].1 by {
            assert(init[j] == docs[j]);
        }
        lemma_document_loaded(g, place, init, documents, i);
        assert(g.documents[(place, docs[i].0)] == docs[i].1);
        assert(g.documents[(place, docs[docs.len() - 1].0)] == docs[docs.len() - 1].1);
    }
}

/// An index that encodes to something has a file for its tree, and a second one for
/// its documents where it has any; an index that encodes to nothing has none. A
/// failure on the way is the failure of the checkpoint.
pub proof fn law_how_many_files_an_index_has(
    dir: Seq<char>,
    d: SpatialDump,
    docs: Seq<(u64, Seq<char>)>,
)
    ensures
        ({
            let r = dump_outcome(dir, d, docs);
            let empty = d.encoded matches Ok(some) && !some;
            let full = d.encoded matches Ok(some) && some;
            &&& r is Ok <==> empty || (full && d.publish_failed is None && (docs.len() == 0 || (
            codec::numbered_encoding_of(docs) is Ok && d.map_publish_failed is None)))
            &&& r is Ok && empty ==> r->Ok_0 == 0
            &&& r is Ok && full && docs.len() == 0 ==> r->Ok_0 == 1
            &&& r is Ok && full && docs.len() > 0 ==> r->Ok_0 == 2
        }),
{
}

/// A checkpoint that succeeds covers the log up to the watermark and counts the
/// files of every index; it fails where the directory or any index does.
pub proof fn law_a_checkpoint_covers_the_watermark(
    dir: Seq<char>,
    watermark: u64,
    dir_failed: Option<String>,
    state: SpatialState,
    dumps: Seq<SpatialDump>,
)
    ensures
        checkpoint_outcome(dir, watermark, dir_failed, state, dumps) matches Ok(c) ==> c.durable_lsn
            == watermark,
        dumps.len() == 0 ==> (checkpoint_outcome(
            dir,
            watermark,
            dir_failed,
            state,
            dumps,
        ) matches Ok(c) && c.files_written == 0),
        dumps.len() > 0 ==> (checkpoint_outcome(dir, watermark, dir_failed, state, dumps) is Ok
            <==> dir_failed is None && forall|i: int|
            0 <= i < dumps.len() ==> dump_outcome(
                dir,
                #[trigger] dumps[i],
                state.listed_documents(spatial::index_place(dumps[i].key)),
            ) is Ok),
{
    lemma_dumps(dir, state, dumps);
}

proof fn lemma_dumps(dir: Seq<char>, state: SpatialState, dumps: Seq<SpatialDump>)
    ensures
        dumps_outcome(dir, state, dumps) is Ok <==> forall|i: int|
            0 <= i < dumps.len() ==> dump_outcome(
                dir,
                #[trigger] dumps[i],
                state.listed_documents(spatial::index_place(dumps[i].key)),
            ) is Ok,
    decreases dumps.len(),
{
    if dumps.len() > 0 {
        let short = dumps.drop_last();
        let n = dumps.len() - 1;
        lemma_dumps(dir, state, short);
        assert(dumps[n] == dumps.last());
        if dumps_outcome(dir, state, short) is Ok {
            assert forall|i: int| 0 <= i < n implies dump_outcome(
                dir,
                #[trigger] dumps[i],
                state.listed_documents(spatial::index_place(dumps[i].key)),
            ) is Ok by {
                assert(short[i] == dumps[i]);
            }
        } else {
            let i = choose|i: int|
                0 <= i < short.len() && !(dump_outcome(
                    dir,
                    #[trigger] short[i],
                    state.listed_documents(spatial::index_place(short[i].key)),
                ) is Ok);
            assert(short[i] == dumps[i]);
        }
    }
}

/// Each index adds its files to those of the indexes before it.
pub proof fn law_the_files_add_up(
    dir: Seq<char>,
    state: SpatialState,
    dumps: Seq<SpatialDump>,
    d: SpatialDump,
)
    ensures
        ({
            let before = dumps_outcome(dir, state, dumps);
            let own = dump_outcome(
                dir,
                d,
                state.listed_documents(spatial::index_place(d.key)),
            );
            let after = dumps_outcome(dir, state, dumps.push(d));
            &&& before is Ok && own is Ok ==> after == Ok::<nat, ErrorView>(
                before->Ok_0 + own->Ok_0,
            )
            &&& before is Ok && own is Err ==> after == own
            &&& before is Err ==> after == before
        }),
{
    assert(dumps.push(d).drop_last() =~= dumps);
}

/// A file whose tree can be read and whose name is that of an index replaces the
/// entries of that index and adds its documents, and counts; every other file
/// changes nothing.
pub proof fn law_a_file_loads_its_own_index(
    g: Geometry,
    list: Seq<SpatialFile>,
    f: SpatialFile,
    at: spatial::EntryPlace,
)
    ensures
        ({
            let before = after_files(g, list);
            let after = after_files(g, list.push(f));
            let usable = f.tree is Some && file_place(f) is Some;
            &&& !usable ==> after == before && loaded_count(list.push(f)) == loaded_count(list)
            &&& usable ==> loaded_count(list.push(f)) == loaded_count(list) + 1
            &&& usable && at.0 != file_place(f)->0 ==> after.extents.contains_key(at)
                == before.extents.contains_key(at) && (before.extents.contains_key(at)
                ==> after.extents[at] == before.extents[at]) && after.documents.contains_key(at)
                == before.documents.contains_key(at) && (before.documents.contains_key(at)
                ==> after.documents[at] == before.documents[at])
            &&& usable && at.0 == file_place(f)->0 ==> (after.extents.contains_key(at)
                <==> exists|i: int|
                0 <= i < f.tree->0@.len() && (#[trigger] f.tree->0@[i]).0 == at.1)
        }),
{
    assert(list.push(f).drop_last() =~= list);
    if f.tree is Some && file_place(f) is Some {
        let place = file_place(f)->0;
        let before = after_files(g, list);
        spatial::law_a_loaded_tree_replaces_the_index(before.extents, place, f.tree->0@, at);
        if at.0 != place {
            spatial::law_unlisted_documents_stay(before.documents, place, file_documents(f), at);
        }
    }
}

} // verus!
