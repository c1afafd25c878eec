//! The keys of snapshot sections.
use crate::text;
use vstd::prelude::*;
use vstd::string::*;

verus! {

/// `{database}:{tenant}:{collection}`
pub open spec fn scoped_key(db: u64, tid: u64, coll: Seq<char>) -> Seq<char> {
    text::decimal(db as nat) + seq![':'] + (text::decimal(tid as nat) + seq![':'] + coll)
}

/// The key under which a snapshot files a collection.
pub fn snapshot_key(db: u64, tid: u64, coll: &str) -> (r: String)
    ensures
        r@ == scoped_key(db, tid, coll@),
{
    let mut r = text::decimal_text(db);
    r.push(':');
    text::push_decimal(&mut r, tid);
    r.push(':');
    r.append(coll);
    proof {
        assert(r@ =~= scoped_key(db, tid, coll@));
    }
    r
}

/// A number, or zero where the text is none.
pub open spec fn number_or_zero(s: Seq<char>) -> u64 {
    match text::parsed_u64(s) {
        Some(n) => n,
        None => 0,
    }
}

fn parse_or_zero(s: &Vec<char>) -> (r: u64)
    ensures
        r == number_or_zero(s@),
{
    match text::parse_u64(s) {
        Some(n) => n,
        None => 0,
    }
}

/// Database, tenant and collection of a key. Only the first two colons
/// separate; a key with one colon has no database, one without has no tenant
/// either.
pub open spec fn timeseries_key(key: Seq<char>) -> (u64, u64, Seq<char>) {
    match text::split_once(key, ':') {
        None => (0, 0, key),
        Some((first, rest)) => match text::split_once(rest, ':') {
            None => (0, number_or_zero(first), rest),
            Some((second, third)) => (number_or_zero(first), number_or_zero(second), third),
        },
    }
}

pub fn parse_timeseries_snapshot_key(key: &str) -> (r: (u64, u64, String))
    ensures
        (r.0, r.1, r.2@) == timeseries_key(key@),
{
    let chars = text::to_chars(key);
    match text::split_once_chars(&chars, ':') {
        None => (0, 0, key.to_owned()),
        Some((first, rest)) => match text::split_once_chars(&rest, ':') {
            None => {
                let coll = text::from_chars(&rest, 0, rest.len());
                proof {
                    assert(coll@ =~= rest@);
                }
                (0, parse_or_zero(&first), coll)
            },
            Some((second, third)) => {
                let coll = text::from_chars(&third, 0, third.len());
                proof {
                    assert(coll@ =~= third@);
                }
                (parse_or_zero(&first), parse_or_zero(&second), coll)
            },
        },
    }
}

/// Database and index name of a vector key: both numbers, where the key has
/// them; else the name behind the tenant, in the default database.
pub open spec fn vector_key(key: Seq<char>, tenant_id: u64) -> (u64, Seq<char>) {
    let scoped = match text::split_once(key, ':') {
        None => None,
        Some((first, rest)) => match text::split_once(rest, ':') {
            None => None,
            Some((second, third)) => match (text::parsed_u64(first), text::parsed_u64(second)) {
                (Some(db), Some(_)) => Some((db, third)),
                _ => None,
            },
        },
    };
    match scoped {
        Some(found) => found,
        None => {
            let prefix = text::decimal(tenant_id as nat) + seq![':'];
            if text::begins_with(key, prefix) {
                (0, key.subrange(prefix.len() as int, key.len() as int))
            } else {
                (0, key)
            }
        },
    }
}

pub fn parse_vector_snapshot_key(key: &str, tenant_id: u64) -> (r: (u64, String))
    ensures
        (r.0, r.1@) == vector_key(key@, tenant_id),
{
    let chars = text::to_chars(key);
    match text::split_once_chars(&chars, ':') {
        None => {},
        Some((first, rest)) => match text::split_once_chars(&rest, ':') {
            None => {},
            Some((second, third)) => match (text::parse_u64(&first), text::parse_u64(&second)) {
                (Some(db), Some(_)) => {
                    let name = text::from_chars(&third, 0, third.len());
                    proof {
                        assert(name@ =~= third@);
                    }
                    return (db, name);
                },
                _ => {},
            },
        },
    }
    let mut prefix = text::decimal_text(tenant_id);
    prefix.push(':');
    proof {
        assert(prefix@ =~= text::decimal(tenant_id as nat) + seq![':']);
    }
    let p = text::to_chars(prefix.as_str());
    if text::has_prefix(&chars, &p) {
        let name = text::from_chars(&chars, p.len(), chars.len());
        (0, name)
    } else {
        (0, key.to_owned())
    }
}

/// The database that a collection's name is qualified with; the default one
/// for a bare name.
pub open spec fn qualified_database(collection: Seq<char>) -> u64 {
    match text::split_once(collection, '/') {
        Some((prefix, _)) => number_or_zero(prefix),
        None => 0,
    }
}

pub fn database_id_from_qualified(collection: &str) -> (r: u64)
    ensures
        r == qualified_database(collection@),
{
    let chars = text::to_chars(collection);
    match text::split_once_chars(&chars, '/') {
        Some((prefix, _)) => parse_or_zero(&prefix),
        None => 0,
    }
}

/// The two separators of a scoped key.
pub proof fn lemma_scoped_splits(db: u64, tid: u64, coll: Seq<char>)
    ensures
        text::split_once(scoped_key(db, tid, coll), ':') == Some(
            (text::decimal(db as nat), text::decimal(tid as nat) + seq![':'] + coll),
        ),
        text::split_once(text::decimal(tid as nat) + seq![':'] + coll, ':') == Some(
            (text::decimal(tid as nat), coll),
        ),
{
    text::lemma_decimal_lacks(db as nat, ':');
    text::lemma_decimal_lacks(tid as nat, ':');
    text::lemma_split_once_at(
        text::decimal(db as nat),
        ':',
        text::decimal(tid as nat) + seq![':'] + coll,
    );
    text::lemma_split_once_at(text::decimal(tid as nat), ':', coll);
}

/// Parsing the key of a snapshot section gives back what it was made from,
/// also where the collection's name holds a colon.
pub proof fn law_snapshot_key_parses_back(db: u64, tid: u64, coll: Seq<char>)
    ensures
        timeseries_key(scoped_key(db, tid, coll)) == (db, tid, coll),
        vector_key(scoped_key(db, tid, coll), tid) == (db, coll),
{
    lemma_scoped_splits(db, tid, coll);
    text::law_decimal_parses_back(db);
    text::law_decimal_parses_back(tid);
}

/// The older forms of a key: without a database the key is of the first one, without
/// a tenant of the first tenant too, and the rest is the collection. A vector key
/// may also stand alone or behind the tenant that is restored.
pub proof fn law_older_keys_belong_to_the_first_database(tid: u64, coll: Seq<char>)
    requires
        !coll.contains(':'),
    ensures
        timeseries_key(coll) == (0u64, 0u64, coll),
        timeseries_key(text::decimal(tid as nat) + seq![':'] + coll) == (0u64, tid, coll),
        vector_key(text::decimal(tid as nat) + seq![':'] + coll, tid) == (0u64, coll),
        vector_key(coll, tid) == (0u64, coll),
{
    let t = text::decimal(tid as nat);
    let key = t + seq![':'] + coll;
    text::lemma_decimal_lacks(tid as nat, ':');
    text::law_decimal_parses_back(tid);
    text::lemma_split_once_at(t, ':', coll);
    text::lemma_index_is(coll, ':', 0, coll.len() as int);
    let prefix = t + seq![':'];
    assert(key.take(prefix.len() as int) =~= prefix);
    assert(key.subrange(prefix.len() as int, key.len() as int) =~= coll);
    if text::begins_with(coll, prefix) {
        assert(prefix[t.len() as int] == ':');
        assert(coll.take(prefix.len() as int)[t.len() as int] == coll[t.len() as int]);
        assert(coll.contains(':'));
    }
}

/// A key is the numbers of its database and tenant in decimal and its collection,
/// with a colon between them.
pub proof fn law_the_parts_of_a_snapshot_key(db: u64, tid: u64, coll: Seq<char>)
    ensures
        text::split_once(scoped_key(db, tid, coll), ':') == Some(
            (text::decimal(db as nat), text::decimal(tid as nat) + seq![':'] + coll),
        ),
{
    text::lemma_decimal_lacks(db as nat, ':');
    let rest = text::decimal(tid as nat) + seq![':'] + coll;
    text::lemma_split_once_at(text::decimal(db as nat), ':', rest);
}

/// A qualified collection belongs to the database whose number stands before its
/// first slash; without a slash, or without a number, to the first one.
pub proof fn law_a_slash_names_the_database(db: u64, coll: Seq<char>, head: Seq<char>)
    ensures
        qualified_database(text::decimal(db as nat) + seq!['/'] + coll) == db,
        !coll.contains('/') ==> qualified_database(coll) == 0,
        !head.contains('/') && text::parsed_u64(head) is None ==> qualified_database(
            head + seq!['/'] + coll,
        ) == 0,
{
    text::lemma_decimal_lacks(db as nat, '/');
    text::law_decimal_parses_back(db);
    text::lemma_split_once_at(text::decimal(db as nat), '/', coll);
    if !coll.contains('/') {
        text::lemma_index_is(coll, '/', 0, coll.len() as int);
    }
    if !head.contains('/') {
        text::lemma_split_once_at(head, '/', coll);
    }
}

} // verus!
