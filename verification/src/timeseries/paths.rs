//! The directories of timeseries segments.
use crate::text;
use vstd::prelude::*;

verus! {

/// `{data_dir}/ts/{database}/{tenant}/{collection}`
pub open spec fn collection_dir(data_dir: Seq<char>, db: u64, tid: u64, coll: Seq<char>) -> Seq<
    char,
> {
    text::joined_path(
        text::joined_path(
            text::joined_path(text::joined_path(data_dir, "ts"@), text::decimal(db as nat)),
            text::decimal(tid as nat),
        ),
        coll,
    )
}

pub fn ts_collection_dir(data_dir: &str, database_id: u64, tenant_id: u64, collection: &str) -> (r:
    String)
    ensures
        r@ == collection_dir(data_dir@, database_id, tenant_id, collection@),
{
    let base = text::join_path(data_dir, "ts");
    let in_db = text::join_path(base.as_str(), text::decimal_text(database_id).as_str());
    let in_tenant = text::join_path(in_db.as_str(), text::decimal_text(tenant_id).as_str());
    text::join_path(in_tenant.as_str(), collection)
}

/// The directory of a collection before directories were kept apart by
/// database and tenant: `{data_dir}/ts/{collection}`.
pub open spec fn legacy_dir(data_dir: Seq<char>, coll: Seq<char>) -> Seq<char> {
    text::joined_path(text::joined_path(data_dir, "ts"@), coll)
}

pub fn legacy_ts_collection_dir(data_dir: &str, collection: &str) -> (r: String)
    ensures
        r@ == legacy_dir(data_dir@, collection@),
{
    text::join_path(text::join_path(data_dir, "ts").as_str(), collection)
}

/// A directory to move into place, its new parent created first.
pub struct DirMove {
    pub from: String,
    pub to: String,
}

/// The move that brings a collection's directory to where it belongs: only
/// where nothing stands there yet and the legacy place holds a directory.
pub fn migrate_legacy_ts_dir(
    data_dir: &str,
    database_id: u64,
    tenant_id: u64,
    collection: &str,
    new_exists: bool,
    legacy_exists: bool,
    legacy_is_dir: bool,
) -> (r: Option<DirMove>)
    ensures
        if !new_exists && legacy_exists && legacy_is_dir {
            r is Some && r->0.from@ == legacy_dir(data_dir@, collection@) && r->0.to@
                == collection_dir(data_dir@, database_id, tenant_id, collection@)
        } else {
            r is None
        },
{
    if !new_exists && legacy_exists && legacy_is_dir {
        Some(
            DirMove {
                from: legacy_ts_collection_dir(data_dir, collection),
                to: ts_collection_dir(data_dir, database_id, tenant_id, collection),
            },
        )
    } else {
        None
    }
}

/// Whether a name stays under the directory that it is joined to.
pub open spec fn is_relative(coll: Seq<char>) -> bool {
    !(coll.len() > 0 && coll[0] == '/')
}

proof fn lemma_dir_shape(data_dir: Seq<char>, db: u64, tid: u64, coll: Seq<char>)
    requires
        is_relative(coll),
    ensures
        collection_dir(data_dir, db, tid, coll) == (text::joined_path(data_dir, "ts"@) + seq!['/'])
            + (text::decimal(db as nat) + seq!['/'] + (text::decimal(tid as nat) + seq!['/'] + coll)),
{
    reveal_strlit("ts");
    text::lemma_decimal_shape(db as nat);
    text::lemma_decimal_shape(tid as nat);
    let d = text::decimal(db as nat);
    let t = text::decimal(tid as nat);
    let base = text::joined_path(data_dir, "ts"@);
    assert(base.last() == 's');
    assert(text::is_digit(d[0]));
    assert(text::is_digit(t[0]));
    assert(text::is_digit(d.last()));
    assert(text::is_digit(t.last()));
    let one = text::joined_path(base, d);
    assert(one == base + seq!['/'] + d);
    assert(one.last() == d.last());
    let two = text::joined_path(one, t);
    assert(two == one + seq!['/'] + t);
    assert(two.last() == t.last());
    let three = text::joined_path(two, coll);
    assert(three == two + seq!['/'] + coll);
    assert(three =~= (base + seq!['/']) + (d + seq!['/'] + (t + seq!['/'] + coll)));
}

/// Two collections share a directory only if they are the same collection.
pub proof fn law_directories_are_distinct(
    data_dir: Seq<char>,
    db1: u64,
    tid1: u64,
    coll1: Seq<char>,
    db2: u64,
    tid2: u64,
    coll2: Seq<char>,
)
    requires
        is_relative(coll1),
        is_relative(coll2),
        collection_dir(data_dir, db1, tid1, coll1) == collection_dir(data_dir, db2, tid2, coll2),
    ensures
        db1 == db2,
        tid1 == tid2,
        coll1 == coll2,
{
    lemma_dir_shape(data_dir, db1, tid1, coll1);
    lemma_dir_shape(data_dir, db2, tid2, coll2);
    let base = text::joined_path(data_dir, "ts"@) + seq!['/'];
    let t1 = text::decimal(tid1 as nat) + seq!['/'] + coll1;
    let t2 = text::decimal(tid2 as nat) + seq!['/'] + coll2;
    let r1 = text::decimal(db1 as nat) + seq!['/'] + t1;
    let r2 = text::decimal(db2 as nat) + seq!['/'] + t2;
    let n = base.len() as int;
    assert((base + r1).subrange(n, (base + r1).len() as int) =~= r1);
    assert((base + r2).subrange(n, (base + r2).len() as int) =~= r2);
    text::lemma_decimal_lacks(db1 as nat, '/');
    text::lemma_decimal_lacks(db2 as nat, '/');
    text::lemma_decimal_lacks(tid1 as nat, '/');
    text::lemma_decimal_lacks(tid2 as nat, '/');
    text::lemma_split_once_at(text::decimal(db1 as nat), '/', t1);
    text::lemma_split_once_at(text::decimal(db2 as nat), '/', t2);
    text::lemma_split_once_at(text::decimal(tid1 as nat), '/', coll1);
    text::lemma_split_once_at(text::decimal(tid2 as nat), '/', coll2);
    text::law_decimal_is_injective(db1 as nat, db2 as nat);
    text::law_decimal_is_injective(tid1 as nat, tid2 as nat);
}

} // verus!
