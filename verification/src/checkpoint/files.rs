//! What the checkpoints of all engines share: directories, file names, the
//! outcome, and errors.
use crate::error::{Error, ErrorView};
use crate::text;
use vstd::prelude::*;
use vstd::string::*;

verus! {

/// `{data_dir}/{family}/core-{core_id}`: cores share a data directory, and each
/// has a directory of its own in it, so that none loads what another wrote.
pub open spec fn core_dir(data_dir: Seq<char>, family: Seq<char>, core_id: usize) -> Seq<char> {
    text::joined_path(
        text::joined_path(data_dir, family),
        "core-"@ + text::decimal(core_id as nat),
    )
}

pub fn core_directory(data_dir: &str, family: &str, core_id: usize) -> (r: String)
    ensures
        r@ == core_dir(data_dir@, family@, core_id),
{
    let mut leaf = "core-".to_owned();
    text::push_decimal(&mut leaf, core_id as u64);
    text::join_path(text::join_path(data_dir, family).as_str(), leaf.as_str())
}

/// Joining two components to one directory gives one path only for one
/// component, unless a component is absolute.
pub proof fn lemma_join_is_injective(base: Seq<char>, a: Seq<char>, b: Seq<char>)
    requires
        !(a.len() > 0 && a[0] == '/'),
        !(b.len() > 0 && b[0] == '/'),
        text::joined_path(base, a) == text::joined_path(base, b),
    ensures
        a == b,
{
    let head = if base.len() == 0 || base.last() == '/' {
        base
    } else {
        base + seq!['/']
    };
    let n = head.len() as int;
    assert((head + a).subrange(n, (head + a).len() as int) =~= a);
    assert((head + b).subrange(n, (head + b).len() as int) =~= b);
}

/// Two cores never share a checkpoint directory.
pub proof fn law_core_directories_are_distinct(
    data_dir: Seq<char>,
    family: Seq<char>,
    a: usize,
    b: usize,
)
    requires
        core_dir(data_dir, family, a) == core_dir(data_dir, family, b),
    ensures
        a == b,
{
    reveal_strlit("core-");
    let x = "core-"@ + text::decimal(a as nat);
    let y = "core-"@ + text::decimal(b as nat);
    assert(x[0] == 'c' && y[0] == 'c');
    lemma_join_is_injective(text::joined_path(data_dir, family), x, y);
    assert(x.subrange(5, x.len() as int) =~= text::decimal(a as nat));
    assert(y.subrange(5, y.len() as int) =~= text::decimal(b as nat));
    text::law_decimal_is_injective(a as nat, b as nat);
}

/// The position of the last dot in a file name, or -1.
pub open spec fn last_dot(name: Seq<char>) -> int
    decreases name.len(),
{
    if name.len() == 0 {
        -1
    } else if name.last() == '.' {
        name.len() - 1
    } else {
        last_dot(name.drop_last())
    }
}

/// Stem and extension of a file name. A dot at the front starts no extension.
pub open spec fn stem_and_extension(name: Seq<char>) -> (Seq<char>, Option<Seq<char>>) {
    let at = last_dot(name);
    if at <= 0 || name == ".."@ {
        (name, None)
    } else {
        (name.take(at), Some(name.subrange(at + 1, name.len() as int)))
    }
}

fn find_last_dot(name: &Vec<char>) -> (r: Option<usize>)
    ensures
        match r {
            Some(at) => at < name@.len() && last_dot(name@) == at,
            None => last_dot(name@) == -1,
        },
{
    let mut n: usize = name.len();
    proof {
        assert(name@.take(n as int) =~= name@);
    }
    while n > 0
        invariant
            n <= name@.len(),
            last_dot(name@) == last_dot(name@.take(n as int)),
        decreases n,
    {
        proof {
            assert(name@.take(n as int).last() == name@[n - 1]);
            assert(name@.take(n as int).drop_last() =~= name@.take(n - 1));
        }
        if name[n - 1] == '.' {
            return Some(n - 1);
        }
        n = n - 1;
    }
    None
}

/// The stem of a file name with the given extension.
pub open spec fn stem_of(name: Seq<char>, extension: Seq<char>) -> Option<Seq<char>> {
    match stem_and_extension(name) {
        (stem, Some(e)) => if e == extension && stem.len() > 0 {
            Some(stem)
        } else {
            None
        },
        (_, None) => None,
    }
}

pub fn file_stem(name: &str, extension: &str) -> (r: Option<String>)
    ensures
        match stem_of(name@, extension@) {
            Some(stem) => r is Some && r->0@ == stem,
            None => r is None,
        },
{
    if text::same_text(name, "..") {
        return None;
    }
    let chars = text::to_chars(name);
    match find_last_dot(&chars) {
        None => None,
        Some(at) => {
            if at == 0 {
                return None;
            }
            let e = text::from_chars(&chars, at + 1, chars.len());
            if text::same_text(e.as_str(), extension) {
                let stem = text::from_chars(&chars, 0, at);
                proof {
                    assert(stem@ =~= name@.take(at as int));
                }
                Some(stem)
            } else {
                None
            }
        },
    }
}

/// The file name of a stem reads back as the stem.
pub proof fn law_a_checkpoint_name_keeps_its_stem(stem: Seq<char>)
    requires
        stem.len() > 0,
    ensures
        stem_of(stem + ".ckpt"@, "ckpt"@) == Some(stem),
{
    reveal_strlit(".ckpt");
    reveal_strlit("ckpt");
    reveal_strlit("..");
    let n = stem.len() as int;
    let name = stem + ".ckpt"@;
    let a = name.drop_last();
    let b = a.drop_last();
    let c = b.drop_last();
    let d = c.drop_last();
    assert(name.last() == 't' && a.last() == 'p' && b.last() == 'k' && c.last() == 'c' && d.last()
        == '.');
    assert(last_dot(d) == n);
    assert(last_dot(c) == n);
    assert(last_dot(b) == n);
    assert(last_dot(a) == n);
    assert(last_dot(name) == n);
    assert(name.take(n) =~= stem);
    assert(name.subrange(n + 1, name.len() as int) =~= "ckpt"@);
}

/// A file and the temporary file that is renamed to it once it is written.
pub struct FilePair {
    pub tmp: String,
    pub path: String,
}

pub open spec fn is_pair(p: FilePair, dir: Seq<char>, stem: Seq<char>, suffix: Seq<char>) -> bool {
    p.path@ == text::joined_path(dir, stem + suffix) && p.tmp@ == text::joined_path(
        dir,
        stem + suffix + ".tmp"@,
    )
}

pub fn file_pair(dir: &str, stem: &str, suffix: &str) -> (r: FilePair)
    ensures
        is_pair(r, dir@, stem@, suffix@),
{
    let mut name = stem.to_owned();
    name.append(suffix);
    let path = text::join_path(dir, name.as_str());
    name.append(".tmp");
    FilePair { tmp: text::join_path(dir, name.as_str()), path }
}

/// What a checkpoint came to.
#[derive(Clone, Copy, Debug, PartialEq, Eq, Structural)]
pub struct CheckpointOutcome {
    /// Every write up to this position of the log is in the files.
    pub durable_lsn: u64,
    pub files_written: usize,
}

/// A failure of the file system while an engine's checkpoint is written or read.
pub open spec fn storage_failure(
    engine: Seq<char>,
    label: Seq<char>,
    action: Seq<char>,
    path: Seq<char>,
    e: Seq<char>,
) -> ErrorView {
    ErrorView::Storage {
        engine,
        detail: label + (" checkpoint: failed to "@ + (action + (" at "@ + (path + (": "@ + e))))),
    }
}

pub fn storage_err(engine: &str, label: &str, action: &str, path: &str, e: &str) -> (r: Error)
    ensures
        r@ == storage_failure(engine@, label@, action@, path@, e@),
{
    let mut detail = label.to_owned();
    detail.append(" checkpoint: failed to ");
    detail.append(action);
    detail.append(" at ");
    detail.append(path);
    detail.append(": ");
    detail.append(e);
    proof {
        assert(detail@ =~= label@ + (" checkpoint: failed to "@ + (action@ + (" at "@ + (path@ + (
        ": "@ + e@))))));
    }
    Error::Storage { engine: engine.to_owned(), detail }
}

/// A manifest: the version of its format and the generation of files it names.
#[derive(Clone, Copy, Debug, PartialEq, Eq, Structural)]
pub struct Manifest {
    pub format_version: u32,
    pub generation: u64,
}

/// The manifest to go by: none where there is no file, where it cannot be read
/// or decoded, or where its version is not the expected one. Without a manifest
/// nothing is restored and the whole log is replayed.
pub fn live_manifest(present: bool, decoded: Option<Manifest>, expected_version: u32) -> (r: Option<
    Manifest,
>)
    ensures
        match r {
            Some(m) => present && decoded == Some(m) && m.format_version == expected_version,
            None => !present || decoded is None || decoded->0.format_version != expected_version,
        },
{
    if !present {
        return None;
    }
    match decoded {
        Some(m) => if m.format_version == expected_version {
            Some(m)
        } else {
            None
        },
        None => None,
    }
}

/// A file has a stem under an extension exactly where its name is the stem, a dot
/// and the extension.
pub proof fn law_a_name_is_its_stem_and_extension(
    name: Seq<char>,
    stem: Seq<char>,
    extension: Seq<char>,
)
    requires
        extension.len() > 0,
        !extension.contains('.'),
    ensures
        stem_of(name, extension) == Some(stem) <==> stem.len() > 0 && name == stem + (seq!['.']
            + extension),
{
    lemma_last_dot(name);
    let at = last_dot(name);
    if stem.len() > 0 && name == stem + (seq!['.'] + extension) {
        let n = stem.len() as int;
        assert(name[n] == '.');
        assert forall|i: int| n < i < name.len() implies name[i] != '.' by {
            assert(name[i] == extension[i - n - 1]);
            assert(extension.contains(extension[i - n - 1]));
        }
        assert(at == n);
        assert(name.take(n) =~= stem);
        assert(name.subrange(n + 1, name.len() as int) =~= extension);
        reveal_strlit("..");
        assert(name.last() == extension.last());
        assert(extension.contains(extension.last()));
        assert(".."@.last() == '.');
    }
    if stem_of(name, extension) == Some(stem) {
        assert(name =~= name.take(at) + (seq!['.'] + name.subrange(at + 1, name.len() as int)));
    }
}

proof fn lemma_last_dot(name: Seq<char>)
    ensures
        -1 <= last_dot(name) < name.len(),
        last_dot(name) >= 0 ==> name[last_dot(name)] == '.',
        forall|i: int| last_dot(name) < i < name.len() ==> (#[trigger] name[i]) != '.',
    decreases name.len(),
{
    if name.len() > 0 && name.last() != '.' {
        let short = name.drop_last();
        lemma_last_dot(short);
        assert forall|i: int| last_dot(name) < i < name.len() implies (#[trigger] name[i])
            != '.' by {
            if i < short.len() {
                assert(short[i] != '.');
            }
        }
    }
}

} // verus!
