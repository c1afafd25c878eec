//! Checkpoints of vector indexes.
use crate::checkpoint::files;
use crate::checkpoint::files::CheckpointOutcome;
use crate::core_loop::CoreLoop;
use crate::error::{Error, ErrorView};
use crate::hex;
use crate::ids::{DatabaseId, TenantId};
use crate::maps::MapKey;
use crate::snapshot::keys;
use crate::text;
use crate::vectors::registry;
use crate::vectors::registry::{IndexKey, Registry, VectorRegistry};
use vstd::prelude::*;
use vstd::string::*;
use vstd::utf8::*;

verus! {

pub fn vector_ckpt_dir(data_dir: &str, core_id: usize) -> (r: String)
    ensures
        r@ == files::core_dir(data_dir@, "vector-ckpt"@, core_id),
{
    files::core_directory(data_dir, "vector-ckpt", core_id)
}

/// `{ckpt_dir}/gen-{generation}`
pub open spec fn generation_dir(ckpt_dir: Seq<char>, generation: u64) -> Seq<char> {
    text::joined_path(ckpt_dir, "gen-"@ + text::decimal(generation as nat))
}

/// The directory of one generation's files.
pub fn vector_ckpt_gen_dir(ckpt_dir: &str, generation: u64) -> (r: String)
    ensures
        r@ == generation_dir(ckpt_dir@, generation),
{
    let mut leaf = "gen-".to_owned();
    text::push_decimal(&mut leaf, generation);
    text::join_path(ckpt_dir, leaf.as_str())
}

/// Two generations never share a directory.
pub proof fn law_generation_directories_are_distinct(ckpt_dir: Seq<char>, a: u64, b: u64)
    requires
        generation_dir(ckpt_dir, a) == generation_dir(ckpt_dir, b),
    ensures
        a == b,
{
    reveal_strlit("gen-");
    let x = "gen-"@ + text::decimal(a as nat);
    let y = "gen-"@ + text::decimal(b as nat);
    assert(x[0] == 'g' && y[0] == 'g');
    files::lemma_join_is_injective(ckpt_dir, x, y);
    assert(x.subrange(4, x.len() as int) =~= text::decimal(a as nat));
    assert(y.subrange(4, y.len() as int) =~= text::decimal(b as nat));
    text::law_decimal_is_injective(a as nat, b as nat);
}

/// `db-{db}-tenant-{tid}-key-` and the hexadecimal text of the index name. The
/// name is the user's, and the stem becomes a part of a path.
pub open spec fn vector_stem(db: u64, tid: u64, coll_key: Seq<char>) -> Seq<char> {
    "db-"@ + (text::decimal(db as nat) + "-tenant-"@ + (text::decimal(tid as nat) + "-key-"@
        + hex::hex_text(encode_utf8(coll_key))))
}

pub fn vector_ckpt_stem(db: u64, tid: u64, coll_key: &str) -> (r: String)
    ensures
        r@ == vector_stem(db, tid, coll_key@),
{
    let mut r = "db-".to_owned();
    text::push_decimal(&mut r, db);
    r.append("-tenant-");
    text::push_decimal(&mut r, tid);
    r.append("-key-");
    hex::push_hex(&mut r, coll_key.as_bytes());
    proof {
        assert(r@ =~= vector_stem(db, tid, coll_key@));
    }
    r
}

/// The parts of a text of the form of a stem, however its numbers and its digits
/// are written.
pub open spec fn read_vector_stem(stem: Seq<char>) -> Option<registry::IndexId> {
    if !text::begins_with(stem, "db-"@) {
        None
    } else {
        match text::split_at_text(stem.subrange(3, stem.len() as int), "-tenant-"@) {
            None => None,
            Some((db_text, rest)) => match text::parsed_u64(db_text) {
                None => None,
                Some(db) => match text::split_at_text(rest, "-key-"@) {
                    None => None,
                    Some((tid_text, digits)) => match text::parsed_u64(tid_text) {
                        None => None,
                        Some(tid) => match hex::unhex(digits) {
                            None => None,
                            Some(bytes) => if valid_utf8(bytes) {
                                Some((db, tid, decode_utf8(bytes)))
                            } else {
                                None
                            },
                        },
                    },
                },
            },
        }
    }
}

/// The index that a stem names. A text that is no index's stem, letter for
/// letter, names none.
pub open spec fn parsed_vector_stem(stem: Seq<char>) -> Option<registry::IndexId> {
    match read_vector_stem(stem) {
        Some((db, tid, name)) if stem == vector_stem(db, tid, name) => Some((db, tid, name)),
        _ => None,
    }
}

pub fn parse_vector_ckpt_stem(stem: &str) -> (r: Option<(DatabaseId, TenantId, String)>)
    ensures
        match parsed_vector_stem(stem@) {
            Some(id) => r is Some && ((r->0).0.0, (r->0).1.0, (r->0).2@) == id,
            None => r is None,
        },
        r is Some ==> stem@ == vector_stem((r->0).0.0, (r->0).1.0, (r->0).2@),
{
    let chars = text::to_chars(stem);
    let prefix = text::to_chars("db-");
    let tenant = text::to_chars("-tenant-");
    let key = text::to_chars("-key-");
    proof {
        reveal_strlit("db-");
    }
    if !text::has_prefix(&chars, &prefix) {
        return None;
    }
    let rest = text::slice_chars(&chars, 3, chars.len());
    let (db_text, rest) = match text::split_at_pattern(&rest, &tenant) {
        None => {
            return None;
        },
        Some(parts) => parts,
    };
    let db: u64 = match text::parse_u64(&db_text) {
        None => {
            return None;
        },
        Some(db) => db,
    };
    let (tid_text, digits) = match text::split_at_pattern(&rest, &key) {
        None => {
            return None;
        },
        Some(parts) => parts,
    };
    let tid: u64 = match text::parse_u64(&tid_text) {
        None => {
            return None;
        },
        Some(tid) => tid,
    };
    let bytes = match hex::unhex_chars(&digits) {
        None => {
            return None;
        },
        Some(bytes) => bytes,
    };
    match text::string_from_utf8(bytes) {
        Ok(coll_key) => {
            let written = vector_ckpt_stem(db, tid, coll_key.as_str());
            if text::same_text(written.as_str(), stem) {
                Some((DatabaseId(db), TenantId(tid), coll_key))
            } else {
                None
            }
        },
        Err(_) => None,
    }
}

/// Only what is written as an index's stem is read as one: a stem names the
/// index that it is the stem of, and every other text names none.
pub proof fn law_only_written_stems_are_read(stem: Seq<char>)
    ensures
        match parsed_vector_stem(stem) {
            Some((db, tid, name)) => stem == vector_stem(db, tid, name),
            None => forall|db: u64, tid: u64, name: Seq<char>|
                stem != #[trigger] vector_stem(db, tid, name),
        },
{
    assert forall|db: u64, tid: u64, name: Seq<char>| stem == #[trigger] vector_stem(
        db,
        tid,
        name,
    ) implies parsed_vector_stem(stem) is Some by {
        law_vector_stem_parses_back(db, tid, name);
    }
}

/// Parsing a stem gives back the index it was made for, whatever its name.
pub proof fn law_vector_stem_parses_back(db: u64, tid: u64, coll_key: Seq<char>)
    ensures
        parsed_vector_stem(vector_stem(db, tid, coll_key)) == Some((db, tid, coll_key)),
{
    reveal_strlit("db-");
    reveal_strlit("-tenant-");
    reveal_strlit("-key-");
    let s = vector_stem(db, tid, coll_key);
    let d = text::decimal(db as nat);
    let t = text::decimal(tid as nat);
    let h = hex::hex_text(encode_utf8(coll_key));
    let inner = t + "-key-"@ + h;
    let body = d + "-tenant-"@ + inner;
    assert(s.take(3) =~= "db-"@);
    assert(s.subrange(3, s.len() as int) =~= body);
    text::lemma_decimal_lacks(db as nat, '-');
    text::lemma_decimal_lacks(tid as nat, '-');
    text::lemma_split_at_text(d, "-tenant-"@, inner);
    text::lemma_split_at_text(t, "-key-"@, h);
    text::law_decimal_parses_back(db);
    text::law_decimal_parses_back(tid);
    hex::law_unhex_inverts_hex(encode_utf8(coll_key));
    encode_utf8_valid_utf8(coll_key);
    encode_utf8_decode_utf8(coll_key);
}

proof fn lemma_encoding_of_concatenation(a: Seq<char>, b: Seq<char>)
    ensures
        encode_utf8(a + b) == encode_utf8(a) + encode_utf8(b),
    decreases a.len(),
{
    if a.len() == 0 {
        assert(a + b =~= b);
        assert(encode_utf8(a) + encode_utf8(b) =~= encode_utf8(b));
    } else {
        lemma_encoding_of_concatenation(a.drop_first(), b);
        assert((a + b).drop_first() =~= a.drop_first() + b);
        assert(encode_utf8(a + b) =~= encode_utf8(a) + encode_utf8(b));
    }
}

/// The stem of an index whose name begins with another's begins with the
/// other's stem, so that a collection's stem finds the indexes of its fields.
pub proof fn law_field_stems_extend_the_collection_stem(
    db: u64,
    tid: u64,
    coll: Seq<char>,
    rest: Seq<char>,
)
    ensures
        text::begins_with(vector_stem(db, tid, coll + rest), vector_stem(db, tid, coll)),
{
    lemma_encoding_of_concatenation(coll, rest);
    hex::law_hex_of_concatenation(encode_utf8(coll), encode_utf8(rest));
    let s = vector_stem(db, tid, coll);
    let t = vector_stem(db, tid, coll + rest);
    assert(t =~= s + hex::hex_text(encode_utf8(rest)));
    assert(t.take(s.len() as int) =~= s);
}

/// Whether a text is one part of a path and nothing else: no separator, no
/// drive, neither empty nor a relative step.
pub open spec fn is_plain_component(s: Seq<char>) -> bool {
    s.len() > 0 && s != "."@ && s != ".."@ && forall|i: int|
        0 <= i < s.len() ==> #[trigger] s[i] != '/' && s[i] != '\\' && s[i] != ':' && s[i] != '\0'
}

pub fn is_plain_path_component(s: &str) -> (r: bool)
    ensures
        r == is_plain_component(s@),
{
    let chars = text::to_chars(s);
    if chars.len() == 0 || text::same_text(s, ".") || text::same_text(s, "..") {
        return false;
    }
    let mut i: usize = 0;
    while i < chars.len()
        invariant
            chars@ == s@,
            i <= chars@.len(),
            forall|j: int|
                0 <= j < i ==> #[trigger] chars@[j] != '/' && chars@[j] != '\\' && chars@[j] != ':'
                    && chars@[j] != '\0',
        decreases chars.len() - i,
    {
        let c: char = chars[i];
        if c == '/' || c == '\\' || c == ':' || c == '\0' {
            proof {
                assert(s@[i as int] == c);
            }
            return false;
        }
        i = i + 1;
    }
    true
}

/// The file of an index is one plain part of a path whatever the index is
/// named: no name reaches outside the checkpoint directory.
pub proof fn law_a_stem_is_a_plain_component(db: u64, tid: u64, coll_key: Seq<char>)
    ensures
        is_plain_component(vector_stem(db, tid, coll_key) + ".ckpt"@),
{
    reveal_strlit("db-");
    reveal_strlit("-tenant-");
    reveal_strlit("-key-");
    reveal_strlit(".ckpt");
    reveal_strlit(".");
    reveal_strlit("..");
    let d = text::decimal(db as nat);
    let t = text::decimal(tid as nat);
    let h = hex::hex_text(encode_utf8(coll_key));
    let s = vector_stem(db, tid, coll_key) + ".ckpt"@;
    text::lemma_decimal_shape(db as nat);
    text::lemma_decimal_shape(tid as nat);
    hex::lemma_hex_len(encode_utf8(coll_key));
    assert(s.len() >= 8);
    assert forall|i: int| 0 <= i < s.len() implies #[trigger] s[i] != '/' && s[i] != '\\' && s[i]
        != ':' && s[i] != '\0' by {
        let a = 3 + d.len();
        let b = a + 8 + t.len();
        let c = b + 5 + h.len();
        if i < 3 {
            assert(s[i] == "db-"@[i]);
        } else if i < a {
            assert(s[i] == d[i - 3]);
            assert(text::is_digit(d[i - 3]));
        } else if i < a + 8 {
            assert(s[i] == "-tenant-"@[i - a]);
        } else if i < b {
            assert(s[i] == t[i - a - 8]);
            assert(text::is_digit(t[i - a - 8]));
        } else if i < b + 5 {
            assert(s[i] == "-key-"@[i - b]);
        } else if i < c {
            assert(s[i] == h[i - b - 5]);
            assert(hex::hex_value(h[i - b - 5]) is Some);
        } else {
            assert(s[i] == ".ckpt"@[i - c]);
        }
    }
}

/// The index that a build key `{db}:{tid}:{name}` names. Only the first two
/// colons separate.
pub open spec fn parsed_build_key(s: Seq<char>) -> Option<registry::IndexId> {
    match text::split_once(s, ':') {
        None => None,
        Some((first, rest)) => match text::split_once(rest, ':') {
            None => None,
            Some((second, third)) => match (text::parsed_u64(first), text::parsed_u64(second)) {
                (Some(db), Some(tid)) => Some((db, tid, third)),
                _ => None,
            },
        },
    }
}

pub fn parse_build_key(s: &str) -> (r: Option<(DatabaseId, TenantId, String)>)
    ensures
        match parsed_build_key(s@) {
            Some(id) => r is Some && ((r->0).0.0, (r->0).1.0, (r->0).2@) == id,
            None => r is None,
        },
{
    let chars = text::to_chars(s);
    match text::split_once_chars(&chars, ':') {
        None => None,
        Some((first, rest)) => match text::split_once_chars(&rest, ':') {
            None => None,
            Some((second, third)) => match (text::parse_u64(&first), text::parse_u64(&second)) {
                (Some(db), Some(tid)) => {
                    let name = text::from_chars(&third, 0, third.len());
                    proof {
                        assert(name@ =~= third@);
                    }
                    Some((DatabaseId(db), TenantId(tid), name))
                },
                _ => None,
            },
        },
    }
}

/// Parsing a build key gives back the index it was made for.
pub proof fn law_build_key_parses_back(db: u64, tid: u64, name: Seq<char>)
    ensures
        parsed_build_key(keys::scoped_key(db, tid, name)) == Some((db, tid, name)),
{
    keys::lemma_scoped_splits(db, tid, name);
    text::law_decimal_parses_back(db);
    text::law_decimal_parses_back(tid);
}

/// A graph that the background builder has finished.
pub struct BuildComplete {
    pub key: String,
    pub segment_id: u32,
}

/// A building segment to seal.
pub struct Promotion {
    pub index: IndexKey,
    pub segment_id: u32,
}

/// The segments that finished builds seal: of each, the index that its key
/// names, if there is one. A key that names none is dropped.
pub open spec fn promotions(s: Registry, builds: Seq<BuildComplete>) -> Seq<
    (registry::IndexId, u32),
>
    decreases builds.len(),
{
    if builds.len() == 0 {
        Seq::empty()
    } else {
        let init = promotions(s, builds.drop_last());
        match parsed_build_key(builds.last().key@) {
            Some(id) => if s.dims.contains_key(id) {
                init.push((id, builds.last().segment_id))
            } else {
                init
            },
            None => init,
        }
    }
}

pub open spec fn promotion_views(p: Seq<Promotion>) -> Seq<(registry::IndexId, u32)> {
    p.map_values(|x: Promotion| (x.index.key(), x.segment_id))
}

impl CoreLoop {
    /// The segments that finished builds seal, in the order in which they came.
    pub fn poll_build_completions(&self, builds: &Vec<BuildComplete>) -> (r: Vec<Promotion>)
        ensures
            promotion_views(r@) == promotions(self.vectors@, builds@),
    {
        let mut out: Vec<Promotion> = Vec::new();
        let mut i: usize = 0;
        proof {
            assert(promotion_views(out@) =~= promotions(self.vectors@, builds@.take(0)));
        }
        while i < builds.len()
            invariant
                i <= builds@.len(),
                promotion_views(out@) == promotions(self.vectors@, builds@.take(i as int)),
            decreases builds.len() - i,
        {
            let ghost before = out@;
            proof {
                assert(builds@.take(i + 1).drop_last() =~= builds@.take(i as int));
                assert(builds@.take(i + 1).last() == builds@[i as int]);
            }
            match parse_build_key(builds[i].key.as_str()) {
                None => {},
                Some((db, tid, name)) => {
                    let index = IndexKey { db: db.0, tid: tid.0, name };
                    if self.vectors.dim_of(&index).is_some() {
                        let segment_id: u32 = builds[i].segment_id;
                        let ghost id = index.key();
                        out.push(Promotion { index, segment_id });
                        proof {
                            assert(promotion_views(out@) =~= promotion_views(before).push(
                                (id, segment_id),
                            ));
                        }
                    }
                },
            }
            i = i + 1;
        }
        proof {
            assert(builds@.take(builds@.len() as int) =~= builds@);
        }
        out
    }
}

/// A vector index to checkpoint, with what came of encoding it and of writing
/// its file.
pub struct VectorDump {
    pub key: IndexKey,
    /// How many vectors it holds.
    pub len: usize,
    pub encode_failed: Option<String>,
    pub write_failed: Option<String>,
}

pub open spec fn encode_text(name: Seq<char>, len: usize, e: Seq<char>) -> Seq<char> {
    "vector checkpoint encode failed for "@ + (name + (" ("@ + (text::decimal(len as nat) + (
    " vectors): "@ + e))))
}

/// The name of an index's file without its extension.
pub open spec fn dump_name(d: VectorDump) -> Seq<char> {
    keys::scoped_key(d.key.db, d.key.tid, d.key.name@)
}

/// What keeps an index from being checkpointed. An empty index writes nothing.
pub open spec fn dump_failure(dir: Seq<char>, d: VectorDump) -> Option<ErrorView> {
    if d.len == 0 {
        None
    } else {
        match d.encode_failed {
            Some(e) => Some(
                ErrorView::Serialization {
                    format: "msgpack"@,
                    detail: encode_text(dump_name(d), d.len, e@),
                },
            ),
            None => match d.write_failed {
                Some(e) => Some(
                    files::storage_failure(
                        "vector"@,
                        "vector"@,
                        "publish checkpoint"@,
                        text::joined_path(dir, dump_name(d) + ".ckpt"@),
                        e@,
                    ),
                ),
                None => None,
            },
        }
    }
}

/// How many files are written, or the first failure.
pub open spec fn dumps_outcome(dir: Seq<char>, dumps: Seq<VectorDump>) -> Result<nat, ErrorView>
    decreases dumps.len(),
{
    if dumps.len() == 0 {
        Ok(0)
    } else {
        match dumps_outcome(dir, dumps.drop_last()) {
            Err(e) => Err(e),
            Ok(n) => match dump_failure(dir, dumps.last()) {
                Some(e) => Err(e),
                None => Ok(if dumps.last().len == 0 {
                    n
                } else {
                    n + 1
                }),
            },
        }
    }
}

proof fn lemma_first_dump_failure(dir: Seq<char>, dumps: Seq<VectorDump>, n: int)
    requires
        0 <= n <= dumps.len(),
        dumps_outcome(dir, dumps.take(n)) is Err,
    ensures
        dumps_outcome(dir, dumps) == dumps_outcome(dir, dumps.take(n)),
    decreases dumps.len() - n,
{
    if n < dumps.len() {
        assert(dumps.take(n + 1).drop_last() =~= dumps.take(n));
        lemma_first_dump_failure(dir, dumps, n + 1);
    } else {
        assert(dumps.take(n) =~= dumps);
    }
}

fn check_dump(dir: &str, d: &VectorDump) -> (r: Result<(), Error>)
    ensures
        match dump_failure(dir@, *d) {
            Some(e) => r is Err && r->Err_0@ == e,
            None => r is Ok,
        },
{
    if d.len == 0 {
        return Ok(());
    }
    let name = keys::snapshot_key(d.key.db, d.key.tid, d.key.name.as_str());
    match &d.encode_failed {
        Some(e) => {
            let mut detail = "vector checkpoint encode failed for ".to_owned();
            detail.append(name.as_str());
            detail.append(" (");
            text::push_decimal(&mut detail, d.len as u64);
            detail.append(" vectors): ");
            detail.append(e.as_str());
            proof {
                assert(detail@ =~= encode_text(name@, d.len, e@));
            }
            return Err(Error::Serialization { format: "msgpack".to_owned(), detail });
        },
        None => {},
    }
    match &d.write_failed {
        Some(e) => {
            let pair = files::file_pair(dir, name.as_str(), ".ckpt");
            Err(
                files::storage_err(
                    "vector",
                    "vector",
                    "publish checkpoint",
                    pair.path.as_str(),
                    e.as_str(),
                ),
            )
        },
        None => Ok(()),
    }
}

/// What a checkpoint of the vector indexes came to: durable through `watermark`
/// only if every index that holds anything was written, and an error otherwise.
pub open spec fn checkpoint_outcome(
    dir: Seq<char>,
    watermark: u64,
    dir_failed: Option<String>,
    dumps: Seq<VectorDump>,
) -> Result<CheckpointOutcome, ErrorView> {
    if dumps.len() == 0 {
        Ok(CheckpointOutcome { durable_lsn: watermark, files_written: 0 })
    } else {
        match dir_failed {
            Some(e) => Err(files::storage_failure("vector"@, "vector"@, "create dir"@, dir, e@)),
            None => match dumps_outcome(dir, dumps) {
                Err(e) => Err(e),
                Ok(n) => Ok(
                    CheckpointOutcome { durable_lsn: watermark, files_written: n as usize },
                ),
            },
        }
    }
}

pub fn checkpoint_vector_indexes(
    data_dir: &str,
    core_id: usize,
    watermark: u64,
    dir_failed: &Option<String>,
    dumps: &Vec<VectorDump>,
) -> (r: Result<CheckpointOutcome, Error>)
    ensures
        match checkpoint_outcome(
            files::core_dir(data_dir@, "vector-ckpt"@, core_id),
            watermark,
            *dir_failed,
            dumps@,
        ) {
            Ok(outcome) => r == Ok::<CheckpointOutcome, Error>(outcome),
            Err(e) => r is Err && r->Err_0@ == e,
        },
{
    if dumps.len() == 0 {
        return Ok(CheckpointOutcome { durable_lsn: watermark, files_written: 0 });
    }
    let dir = vector_ckpt_dir(data_dir, core_id);
    match dir_failed {
        Some(e) => {
            return Err(
                files::storage_err("vector", "vector", "create dir", dir.as_str(), e.as_str()),
            );
        },
        None => {},
    }
    let mut files_written: usize = 0;
    let mut i: usize = 0;
    while i < dumps.len()
        invariant
            i <= dumps@.len(),
            files_written <= i,
            dir@ == files::core_dir(data_dir@, "vector-ckpt"@, core_id),
            dumps_outcome(dir@, dumps@.take(i as int)) == Ok::<nat, ErrorView>(
                files_written as nat,
            ),
            dumps@.len() > 0,
            dir_failed is None,
        decreases dumps.len() - i,
    {
        proof {
            assert(dumps@.take(i + 1).drop_last() =~= dumps@.take(i as int));
            assert(dumps@.take(i + 1).last() == dumps@[i as int]);
        }
        match check_dump(dir.as_str(), &dumps[i]) {
            Err(e) => {
                proof {
                    lemma_first_dump_failure(dir@, dumps@, i + 1);
                }
                return Err(e);
            },
            Ok(()) => {},
        }
        if dumps[i].len > 0 {
            files_written = files_written + 1;
        }
        i = i + 1;
    }
    proof {
        assert(dumps@.take(dumps@.len() as int) =~= dumps@);
    }
    Ok(CheckpointOutcome { durable_lsn: watermark, files_written })
}

/// A checkpoint is all or nothing: it reports a position only if no index that
/// holds anything failed.
pub proof fn law_a_checkpoint_is_all_or_nothing(
    dir: Seq<char>,
    watermark: u64,
    dir_failed: Option<String>,
    dumps: Seq<VectorDump>,
    i: int,
)
    requires
        checkpoint_outcome(dir, watermark, dir_failed, dumps) is Ok,
        0 <= i < dumps.len(),
        dumps[i].len > 0,
    ensures
        dumps[i].encode_failed is None,
        dumps[i].write_failed is None,
    decreases dumps.len(),
{
    lemma_no_dump_failed(dir, dumps, i);
}

proof fn lemma_no_dump_failed(dir: Seq<char>, dumps: Seq<VectorDump>, i: int)
    requires
        dumps_outcome(dir, dumps) is Ok,
        0 <= i < dumps.len(),
    ensures
        dump_failure(dir, dumps[i]) is None,
    decreases dumps.len(),
{
    if i < dumps.len() - 1 {
        lemma_no_dump_failed(dir, dumps.drop_last(), i);
    }
}

/// A file of the checkpoint directory: its name, if it is text, and the
/// dimension of the index in it, or what reading or decoding it failed with.
pub struct VectorFile {
    pub name: Option<String>,
    pub loaded: Result<usize, Error>,
}

/// The index that a file holds, by its name.
pub open spec fn file_index(f: VectorFile) -> Option<registry::IndexId> {
    match f.name {
        None => None,
        Some(name) => match files::stem_of(name@, "ckpt"@) {
            None => None,
            Some(stem) => parsed_build_key(stem),
        },
    }
}

/// The registry after the files, up to the first that cannot be loaded, and
/// its failure. Files that are no checkpoint are passed over.
pub open spec fn after_files(s: Registry, list: Seq<VectorFile>) -> (Registry, Option<Error>)
    decreases list.len(),
{
    if list.len() == 0 {
        (s, None)
    } else {
        let (before, failed) = after_files(s, list.drop_last());
        if failed is Some {
            (before, failed)
        } else {
            match file_index(list.last()) {
                None => (before, None),
                Some(id) => match list.last().loaded {
                    Ok(dim) => (Registry { dims: before.dims.insert(id, dim), ..before }, None),
                    Err(e) => (before, Some(e)),
                },
            }
        }
    }
}

proof fn lemma_load_failure_stays(s: Registry, list: Seq<VectorFile>, n: int)
    requires
        0 <= n <= list.len(),
        after_files(s, list.take(n)).1 is Some,
    ensures
        after_files(s, list) == after_files(s, list.take(n)),
    decreases list.len() - n,
{
    if n < list.len() {
        assert(list.take(n + 1).drop_last() =~= list.take(n));
        lemma_load_failure_stays(s, list, n + 1);
    } else {
        assert(list.take(n) =~= list);
    }
}

/// The index that a file of the directory holds; none for another file, which is
/// not read.
pub fn index_of_file(name: &Option<String>) -> (r: Option<IndexKey>)
    ensures
        match *name {
            None => r is None,
            Some(n) => match files::stem_of(n@, "ckpt"@) {
                None => r is None,
                Some(stem) => match parsed_build_key(stem) {
                    None => r is None,
                    Some(id) => r is Some && r->0.key() == id,
                },
            },
        },
{
    match name {
        None => None,
        Some(n) => match files::file_stem(n.as_str(), "ckpt") {
            None => None,
            Some(stem) => match parse_build_key(stem.as_str()) {
                None => None,
                Some((db, tid, name)) => Some(IndexKey { db: db.0, tid: tid.0, name }),
            },
        },
    }
}

/// Load the checkpoints of a core's own directory. A checkpoint that is there
/// and cannot be read or decoded stops the start: once the log below it is
/// gone, it is the only copy of its vectors. A missing directory is no error.
pub fn load_vector_checkpoints(
    reg: &mut VectorRegistry,
    dir: &str,
    dir_exists: bool,
    listed: Result<Vec<VectorFile>, String>,
) -> (r: Result<(), Error>)
    ensures
        if !dir_exists {
            r is Ok && final(reg)@ == old(reg)@
        } else {
            match listed {
                Err(e) => r is Err && r->Err_0@ == files::storage_failure(
                    "vector"@,
                    "vector"@,
                    "read checkpoint dir"@,
                    dir@,
                    e@,
                ) && final(reg)@ == old(reg)@,
                Ok(list) => ({
                    let (after, failed) = after_files(old(reg)@, list@);
                    final(reg)@ == after && match failed {
                        None => r is Ok,
                        Some(e) => r is Err && r->Err_0 == e,
                    }
                }),
            }
        },
{
    if !dir_exists {
        return Ok(());
    }
    let list = match listed {
        Ok(list) => list,
        Err(e) => {
            return Err(
                files::storage_err("vector", "vector", "read checkpoint dir", dir, e.as_str()),
            );
        },
    };
    let ghost all = list@;
    for f in it: list.into_iter()
        invariant
            it.seq() == all,
            dir_exists,
            listed matches Ok(l) && l@ == all,
            after_files(old(reg)@, all.take(it.index() as int)) == (reg@, None::<Error>),
    {
        let ghost n = it.index() as int;
        proof {
            assert(all.take(n + 1).drop_last() =~= all.take(n));
            assert(all.take(n + 1).last() == f);
        }
        match index_of_file(&f.name) {
            None => {},
            Some(key) => match f.loaded {
                Ok(dim) => {
                    reg.set_dim(key, dim);
                },
                Err(e) => {
                    proof {
                        lemma_load_failure_stays(old(reg)@, all, n + 1);
                    }
                    return Err(e);
                },
            },
        }
    }
    proof {
        assert(all.take(all.len() as int) =~= all);
    }
    Ok(())
}

/// A checkpoint that was written for an index is found again under that index.
pub proof fn law_a_checkpoint_file_names_its_index(d: VectorDump, f: VectorFile)
    requires
        f.name is Some,
        f.name->0@ == dump_name(d) + ".ckpt"@,
    ensures
        file_index(f) == Some(d.key.key()),
{
    text::lemma_decimal_shape(d.key.db as nat);
    files::law_a_checkpoint_name_keeps_its_stem(dump_name(d));
    law_build_key_parses_back(d.key.db, d.key.tid, d.key.name@);
}

/// A finished build is promoted exactly where its key names an index that exists;
/// builds are promoted in the order in which they finished.
pub proof fn law_a_build_of_a_known_index_is_promoted(
    s: Registry,
    builds: Seq<BuildComplete>,
    b: BuildComplete,
)
    ensures
        ({
            let before = promotions(s, builds);
            let after = promotions(s, builds.push(b));
            let id = parsed_build_key(b.key@);
            &&& id is Some && s.dims.contains_key(id->0) ==> after == before.push(
                (id->0, b.segment_id),
            )
            &&& id is None || !s.dims.contains_key(id->0) ==> after == before
        }),
{
    assert(builds.push(b).drop_last() =~= builds);
}

/// An index that holds vectors fails a checkpoint where it cannot be encoded or
/// written, and counts as one file otherwise; an empty index is passed over.
pub proof fn law_each_index_is_one_file(dir: Seq<char>, dumps: Seq<VectorDump>, d: VectorDump)
    ensures
        ({
            let before = dumps_outcome(dir, dumps);
            let after = dumps_outcome(dir, dumps.push(d));
            let fails = d.len > 0 && (d.encode_failed is Some || d.write_failed is Some);
            &&& before is Err ==> after == before
            &&& before is Ok && fails ==> after is Err
            &&& before is Ok && !fails && d.len > 0 ==> after == Ok::<nat, ErrorView>(
                before->Ok_0 + 1,
            )
            &&& before is Ok && d.len == 0 ==> after == before
        }),
        dumps_outcome(dir, Seq::<VectorDump>::empty()) == Ok::<nat, ErrorView>(0),
{
    assert(dumps.push(d).drop_last() =~= dumps);
}

/// A checkpoint that succeeds covers the log up to the watermark; one without an
/// index writes nothing, whatever became of the directory.
pub proof fn law_a_checkpoint_covers_the_watermark(
    dir: Seq<char>,
    watermark: u64,
    dir_failed: Option<String>,
    dumps: Seq<VectorDump>,
)
    ensures
        checkpoint_outcome(dir, watermark, dir_failed, dumps) matches Ok(c) ==> c.durable_lsn
            == watermark,
        dumps.len() == 0 ==> (checkpoint_outcome(dir, watermark, dir_failed, dumps) matches Ok(c)
            && c.files_written == 0),
        dumps.len() > 0 && dir_failed is Some ==> checkpoint_outcome(
            dir,
            watermark,
            dir_failed,
            dumps,
        ) is Err,
        dumps.len() > 0 && dir_failed is None ==> (checkpoint_outcome(
            dir,
            watermark,
            dir_failed,
            dumps,
        ) is Ok <==> dumps_outcome(dir, dumps) is Ok),
{
}

/// A file brings back the index that its name is of, at the dimension that was
/// loaded; a file of another name is passed over, and the first that cannot be
/// loaded ends the loading with its error.
pub proof fn law_a_file_brings_back_its_index(
    s: Registry,
    list: Seq<VectorFile>,
    f: VectorFile,
    other: registry::IndexId,
)
    ensures
        ({
            let (before, stopped) = after_files(s, list);
            let (after, failed) = after_files(s, list.push(f));
            let id = file_index(f);
            &&& stopped is Some ==> after == before && failed == stopped
            &&& stopped is None && id is None ==> after == before && failed is None
            &&& stopped is None && id is Some ==> match f.loaded {
                Err(e) => after == before && failed == Some(e),
                Ok(dim) => failed is None && after.dims.contains_key(id->0) && after.dims[id->0]
                    == dim && (other != id->0 ==> after.dims.contains_key(other)
                    == before.dims.contains_key(other) && (before.dims.contains_key(other)
                    ==> after.dims[other] == before.dims[other])),
            }
            &&& after.params == before.params
            &&& after.configs == before.configs
            &&& after.ivf == before.ivf
        }),
{
    assert(list.push(f).drop_last() =~= list);
}

} // verus!
