//! The file-name stem of an index over one field of one collection:
//! database, tenant, collection and field, separated by `_`.
use crate::checkpoint::encoding;
use crate::ids::{DatabaseId, TenantId};
use crate::text;
use vstd::prelude::*;
use vstd::string::*;

verus! {

/// The part of a stem that every index of one collection shares.
pub open spec fn stem_prefix(db: u64, tid: u64, coll: Seq<char>) -> Seq<char> {
    text::decimal(db as nat) + seq!['_'] + (text::decimal(tid as nat) + seq!['_']
        + (encoding::encoded(coll) + seq!['_']))
}

/// The stem of one index.
pub open spec fn stem(db: u64, tid: u64, coll: Seq<char>, field: Seq<char>) -> Seq<char> {
    stem_prefix(db, tid, coll) + encoding::encoded(field)
}

/// The key that a stem names: four parts, the first two numbers.
pub open spec fn parsed_stem(s: Seq<char>) -> Option<(u64, u64, Seq<char>, Seq<char>)> {
    let parts = text::split_parts(s, '_');
    if parts.len() == 4 {
        match (text::parsed_u64(parts[0]), text::parsed_u64(parts[1])) {
            (Some(db), Some(tid)) => Some(
                (db, tid, encoding::decoded(parts[2]), encoding::decoded(parts[3])),
            ),
            _ => None,
        }
    } else {
        None
    }
}

/// The key that a stem of the older three-part form names: tenant, collection
/// and field, taken as they stand.
pub open spec fn parsed_legacy_stem(s: Seq<char>) -> Option<(u64, Seq<char>, Seq<char>)> {
    let parts = text::split_parts(s, '_');
    if parts.len() == 3 {
        match text::parsed_u64(parts[0]) {
            Some(tid) => Some((tid, parts[1], parts[2])),
            None => None,
        }
    } else {
        None
    }
}

pub fn build_prefix(db: u64, tid: u64, coll: &str) -> (r: String)
    ensures
        r@ == stem_prefix(db, tid, coll@),
{
    let mut r = text::decimal_text(db);
    r.push('_');
    text::push_decimal(&mut r, tid);
    r.push('_');
    let enc = encoding::enc_component(coll);
    r.append(enc.as_str());
    r.push('_');
    proof {
        assert(r@ =~= stem_prefix(db, tid, coll@));
    }
    r
}

pub fn build_stem(db: u64, tid: u64, coll: &str, field: &str) -> (r: String)
    ensures
        r@ == stem(db, tid, coll@, field@),
{
    let mut r = build_prefix(db, tid, coll);
    let enc = encoding::enc_component(field);
    r.append(enc.as_str());
    r
}

pub fn parse_stem(s: &str) -> (r: Option<(DatabaseId, TenantId, String, String)>)
    ensures
        match r {
            Some((db, tid, coll, field)) => parsed_stem(s@) == Some((db.0, tid.0, coll@, field@)),
            None => parsed_stem(s@) is None,
        },
{
    let chars = text::to_chars(s);
    let parts = text::split_chars(&chars, '_');
    let ghost views = text::chars_views(parts@);
    if parts.len() != 4 {
        return None;
    }
    proof {
        assert(views[0] == parts@[0]@ && views[1] == parts@[1]@);
        assert(views[2] == parts@[2]@ && views[3] == parts@[3]@);
    }
    let db = match text::parse_u64(&parts[0]) {
        Some(n) => n,
        None => {
            return None;
        },
    };
    let tid = match text::parse_u64(&parts[1]) {
        Some(n) => n,
        None => {
            return None;
        },
    };
    let coll = text::from_chars(&parts[2], 0, parts[2].len());
    let field = text::from_chars(&parts[3], 0, parts[3].len());
    proof {
        assert(coll@ =~= views[2]);
        assert(field@ =~= views[3]);
    }
    Some(
        (
            DatabaseId(db),
            TenantId(tid),
            encoding::dec_component(coll.as_str()),
            encoding::dec_component(field.as_str()),
        ),
    )
}

pub fn parse_legacy_stem(s: &str) -> (r: Option<(DatabaseId, TenantId, String, String)>)
    ensures
        match r {
            Some((db, tid, coll, field)) => db.0 == 0 && parsed_legacy_stem(s@) == Some(
                (tid.0, coll@, field@),
            ),
            None => parsed_legacy_stem(s@) is None,
        },
{
    let chars = text::to_chars(s);
    let parts = text::split_chars(&chars, '_');
    let ghost views = text::chars_views(parts@);
    if parts.len() != 3 {
        return None;
    }
    proof {
        assert(views[0] == parts@[0]@ && views[1] == parts@[1]@ && views[2] == parts@[2]@);
    }
    let tid = match text::parse_u64(&parts[0]) {
        Some(n) => n,
        None => {
            return None;
        },
    };
    let coll = text::from_chars(&parts[1], 0, parts[1].len());
    let field = text::from_chars(&parts[2], 0, parts[2].len());
    proof {
        assert(coll@ =~= views[1]);
        assert(field@ =~= views[2]);
    }
    Some((DatabaseId::default_id(), TenantId(tid), coll, field))
}

/// Parsing a stem gives back the key it was built from, whatever the names hold.
pub proof fn law_stem_parses_back(db: u64, tid: u64, coll: Seq<char>, field: Seq<char>)
    ensures
        parsed_stem(stem(db, tid, coll, field)) == Some((db, tid, coll, field)),
{
    let a = text::decimal(db as nat);
    let b = text::decimal(tid as nat);
    let c = encoding::encoded(coll);
    let d = encoding::encoded(field);
    text::lemma_decimal_lacks(db as nat, '_');
    text::lemma_decimal_lacks(tid as nat, '_');
    encoding::law_encoded_has_no_separator(coll);
    encoding::law_encoded_has_no_separator(field);
    let s = stem(db, tid, coll, field);
    let s3 = c + seq!['_'] + d;
    let s2 = b + seq!['_'] + s3;
    assert(s =~= a + seq!['_'] + s2);
    text::lemma_split_parts_cons(a, s2, '_');
    text::lemma_split_parts_cons(b, s3, '_');
    text::lemma_split_parts_cons(c, d, '_');
    text::lemma_split_parts_single(d, '_');
    assert(text::split_parts(s, '_') =~= seq![a, b, c, d]);
    text::law_decimal_parses_back(db);
    text::law_decimal_parses_back(tid);
    encoding::law_decoding_inverts_encoding(coll);
    encoding::law_decoding_inverts_encoding(field);
}

/// A stem never reads as the older three-part form.
pub proof fn law_stem_is_not_legacy(db: u64, tid: u64, coll: Seq<char>, field: Seq<char>)
    ensures
        parsed_legacy_stem(stem(db, tid, coll, field)) is None,
{
    law_stem_parses_back(db, tid, coll, field);
}

/// A stem begins with the prefix of its collection, and with the prefix of no
/// other collection.
pub proof fn law_prefix_selects_the_collection(
    db: u64,
    tid: u64,
    coll: Seq<char>,
    field: Seq<char>,
    db2: u64,
    tid2: u64,
    coll2: Seq<char>,
)
    ensures
        text::begins_with(stem(db, tid, coll, field), stem_prefix(db2, tid2, coll2)) <==> (db == db2
            && tid == tid2 && coll == coll2),
{
    let s = stem(db, tid, coll, field);
    let p = stem_prefix(db2, tid2, coll2);
    if db == db2 && tid == tid2 && coll == coll2 {
        assert(s.take(p.len() as int) =~= p);
    }
    if text::begins_with(s, p) {
        let rest = s.subrange(p.len() as int, s.len() as int);
        assert(s =~= p + rest);
        let a = text::decimal(db2 as nat);
        let b = text::decimal(tid2 as nat);
        let c = encoding::encoded(coll2);
        text::lemma_decimal_lacks(db2 as nat, '_');
        text::lemma_decimal_lacks(tid2 as nat, '_');
        encoding::law_encoded_has_no_separator(coll2);
        let s3 = c + seq!['_'] + rest;
        let s2 = b + seq!['_'] + s3;
        assert(s =~= a + seq!['_'] + s2);
        text::lemma_split_parts_cons(a, s2, '_');
        text::lemma_split_parts_cons(b, s3, '_');
        text::lemma_split_parts_cons(c, rest, '_');
        let parts = text::split_parts(s, '_');
        assert(parts[0] == a);
        assert(parts[1] == text::split_parts(s2, '_')[0]);
        assert(parts[2] == text::split_parts(s2, '_')[1]);
        assert(parts[2] == text::split_parts(s3, '_')[0]);
        law_stem_parses_back(db, tid, coll, field);
        text::law_decimal_parses_back(db2);
        text::law_decimal_parses_back(tid2);
        encoding::law_decoding_inverts_encoding(coll2);
    }
}

/// An older name belongs to a tenant alone: it is the tenant's number, the
/// collection and the field as they are, with an underscore between them.
pub proof fn law_an_older_name_has_three_parts(tid: u64, coll: Seq<char>, field: Seq<char>)
    requires
        !coll.contains('_'),
        !field.contains('_'),
    ensures
        parsed_legacy_stem(text::decimal(tid as nat) + seq!['_'] + (coll + seq!['_'] + field))
            == Some((tid, coll, field)),
        parsed_stem(text::decimal(tid as nat) + seq!['_'] + (coll + seq!['_'] + field)) is None,
{
    let t = text::decimal(tid as nat);
    text::lemma_decimal_lacks(tid as nat, '_');
    text::law_decimal_parses_back(tid);
    text::lemma_split_parts_cons(t, coll + seq!['_'] + field, '_');
    text::lemma_split_parts_cons(coll, field, '_');
    text::lemma_split_parts_single(field, '_');
    let parts = seq![t] + (seq![coll] + seq![field]);
    assert(parts.len() == 3);
    assert(parts[0] == t && parts[1] == coll && parts[2] == field);
}

} // verus!
