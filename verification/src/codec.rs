//! MessagePack payloads: what `zerompk` reads from and writes to bytes.
//!
//! `zerompk` reads a tuple from an array of exactly as many elements as the
//! tuple has, so that two shapes of different lengths never take one payload.
//! It writes lengths in at most 32 bits: what is longer does not read back.
use crate::text;
use vstd::prelude::*;
use vstd::utf8::*;

verus! {

/// Whether the length of a text can be written.
pub open spec fn text_fits(s: Seq<char>) -> bool {
    encode_utf8(s).len() <= u32::MAX
}

/// A character takes at most four bytes.
pub proof fn lemma_text_size(s: Seq<char>)
    ensures
        encode_utf8(s).len() <= 4 * s.len(),
    decreases s.len(),
{
    if s.len() > 0 {
        lemma_text_size(s.drop_first());
    }
}

/// Whether the lengths of a list of texts, and of each of them, can be written.
pub open spec fn texts_fit(l: Seq<Seq<char>>) -> bool {
    l.len() <= u32::MAX && forall|i: int| 0 <= i < l.len() ==> text_fits(#[trigger] l[i])
}

/// Whether the lengths of a numbered list of texts can be written.
pub open spec fn numbered_fit(l: Seq<(u64, Seq<char>)>) -> bool {
    l.len() <= u32::MAX && forall|i: int| 0 <= i < l.len() ==> text_fits((#[trigger] l[i]).1)
}

/// What `zerompk::from_msgpack` reads as tag, collection, key, value, lifetime
/// and expiry.
pub uninterp spec fn kv_put_expiring_of(b: Seq<u8>) -> Option<
    (Seq<char>, Seq<char>, Seq<u8>, Seq<u8>, u64, u64),
>;

/// `zerompk::from_msgpack` on a six-element tuple; a decode error is `None`.
#[verifier::external_body]
pub(crate) fn decode_kv_put_expiring(b: &[u8]) -> (r: Option<
    (String, String, Vec<u8>, Vec<u8>, u64, u64),
>)
    ensures
        match r {
            Some(t) => kv_put_expiring_of(b@) == Some((t.0@, t.1@, t.2@, t.3@, t.4, t.5)),
            None => kv_put_expiring_of(b@) is None,
        },
{
    zerompk::from_msgpack::<(String, String, Vec<u8>, Vec<u8>, u64, u64)>(b).ok()
}

/// What `zerompk::from_msgpack` reads as tag, collection, key, value and
/// lifetime.
pub uninterp spec fn kv_put_of(b: Seq<u8>) -> Option<
    (Seq<char>, Seq<char>, Seq<u8>, Seq<u8>, u64),
>;

/// `zerompk::from_msgpack` on a five-element tuple; a decode error is `None`.
#[verifier::external_body]
pub(crate) fn decode_kv_put(b: &[u8]) -> (r: Option<(String, String, Vec<u8>, Vec<u8>, u64)>)
    ensures
        match r {
            Some(t) => kv_put_of(b@) == Some((t.0@, t.1@, t.2@, t.3@, t.4)),
            None => kv_put_of(b@) is None,
        },
{
    zerompk::from_msgpack::<(String, String, Vec<u8>, Vec<u8>, u64)>(b).ok()
}

/// Key and value of each entry.
pub open spec fn entry_views(e: Seq<(Vec<u8>, Vec<u8>)>) -> Seq<(Seq<u8>, Seq<u8>)> {
    e.map_values(|p: (Vec<u8>, Vec<u8>)| (p.0@, p.1@))
}

/// What `zerompk::from_msgpack` reads as tag, collection, entries, lifetime and
/// expiry.
pub uninterp spec fn kv_batch_expiring_of(b: Seq<u8>) -> Option<
    (Seq<char>, Seq<char>, Seq<(Seq<u8>, Seq<u8>)>, u64, u64),
>;

/// `zerompk::from_msgpack` on a five-element tuple; a decode error is `None`.
#[verifier::external_body]
pub(crate) fn decode_kv_batch_expiring(b: &[u8]) -> (r: Option<
    (String, String, Vec<(Vec<u8>, Vec<u8>)>, u64, u64),
>)
    ensures
        match r {
            Some(t) => kv_batch_expiring_of(b@) == Some((t.0@, t.1@, entry_views(t.2@), t.3, t.4)),
            None => kv_batch_expiring_of(b@) is None,
        },
{
    zerompk::from_msgpack::<(String, String, Vec<(Vec<u8>, Vec<u8>)>, u64, u64)>(b).ok()
}

/// What `zerompk::from_msgpack` reads as tag, collection, entries and lifetime.
pub uninterp spec fn kv_batch_of(b: Seq<u8>) -> Option<
    (Seq<char>, Seq<char>, Seq<(Seq<u8>, Seq<u8>)>, u64),
>;

/// `zerompk::from_msgpack` on a four-element tuple; a decode error is `None`.
#[verifier::external_body]
pub(crate) fn decode_kv_batch(b: &[u8]) -> (r: Option<
    (String, String, Vec<(Vec<u8>, Vec<u8>)>, u64),
>)
    ensures
        match r {
            Some(t) => kv_batch_of(b@) == Some((t.0@, t.1@, entry_views(t.2@), t.3)),
            None => kv_batch_of(b@) is None,
        },
{
    zerompk::from_msgpack::<(String, String, Vec<(Vec<u8>, Vec<u8>)>, u64)>(b).ok()
}

pub open spec fn key_views(keys: Seq<Vec<u8>>) -> Seq<Seq<u8>> {
    keys.map_values(|k: Vec<u8>| k@)
}

/// What `zerompk::from_msgpack` reads as tag, collection and keys.
pub uninterp spec fn kv_delete_of(b: Seq<u8>) -> Option<(Seq<char>, Seq<char>, Seq<Seq<u8>>)>;

/// `zerompk::from_msgpack` on a three-element tuple; a decode error is `None`.
#[verifier::external_body]
pub(crate) fn decode_kv_delete(b: &[u8]) -> (r: Option<(String, String, Vec<Vec<u8>>)>)
    ensures
        match r {
            Some(t) => kv_delete_of(b@) == Some((t.0@, t.1@, key_views(t.2@))),
            None => kv_delete_of(b@) is None,
        },
{
    zerompk::from_msgpack::<(String, String, Vec<Vec<u8>>)>(b).ok()
}

/// What `zerompk::from_msgpack` reads as a pair of texts.
pub uninterp spec fn text_pair_of(b: Seq<u8>) -> Option<(Seq<char>, Seq<char>)>;

/// `zerompk::from_msgpack` on a pair of texts; a decode error is `None`.
#[verifier::external_body]
pub(crate) fn decode_text_pair(b: &[u8]) -> (r: Option<(String, String)>)
    ensures
        match r {
            Some(t) => text_pair_of(b@) == Some((t.0@, t.1@)),
            None => text_pair_of(b@) is None,
        },
{
    zerompk::from_msgpack::<(String, String)>(b).ok()
}

/// What `zerompk::from_msgpack` reads as the nine parameters of a vector index:
/// collection, connections, construction width, metric, structure, three
/// quantisation numbers and field.
pub uninterp spec fn vector_params_of(b: Seq<u8>) -> Option<
    (Seq<char>, u64, u64, Seq<char>, Seq<char>, u64, u64, u64, Seq<char>),
>;

/// `zerompk::from_msgpack` on a nine-element tuple; a decode error is `None`.
#[verifier::external_body]
pub(crate) fn decode_vector_params(b: &[u8]) -> (r: Option<
    (String, u64, u64, String, String, u64, u64, u64, String),
>)
    ensures
        match r {
            Some(t) => vector_params_of(b@) == Some(
                (t.0@, t.1, t.2, t.3@, t.4@, t.5, t.6, t.7, t.8@),
            ),
            None => vector_params_of(b@) is None,
        },
{
    zerompk::from_msgpack::<(String, u64, u64, String, String, u64, u64, u64, String)>(b).ok()
}

/// What `zerompk::from_msgpack` reads as collection, connections, construction
/// width and metric.
pub uninterp spec fn vector_params_short_of(b: Seq<u8>) -> Option<
    (Seq<char>, u64, u64, Seq<char>),
>;

/// `zerompk::from_msgpack` on a four-element tuple; a decode error is `None`.
#[verifier::external_body]
pub(crate) fn decode_vector_params_short(b: &[u8]) -> (r: Option<(String, u64, u64, String)>)
    ensures
        match r {
            Some(t) => vector_params_short_of(b@) == Some((t.0@, t.1, t.2, t.3@)),
            None => vector_params_short_of(b@) is None,
        },
{
    zerompk::from_msgpack::<(String, u64, u64, String)>(b).ok()
}

/// What `zerompk::from_msgpack` reads as a text and a 32-bit number.
pub uninterp spec fn text_number_of(b: Seq<u8>) -> Option<(Seq<char>, u32)>;

/// `zerompk::from_msgpack` on a text and a number; a decode error is `None`.
#[verifier::external_body]
pub(crate) fn decode_text_number(b: &[u8]) -> (r: Option<(String, u32)>)
    ensures
        match r {
            Some(t) => text_number_of(b@) == Some((t.0@, t.1)),
            None => text_number_of(b@) is None,
        },
{
    zerompk::from_msgpack::<(String, u32)>(b).ok()
}

/// What `zerompk::from_msgpack` reads as collection, surrogate, field and the
/// writer's place.
pub uninterp spec fn surrogate_delete_of(b: Seq<u8>) -> Option<
    (Seq<char>, u32, Seq<char>, Option<(u64, u64, u64, u64)>),
>;

/// `zerompk::from_msgpack` on a four-element tuple; a decode error is `None`.
#[verifier::external_body]
pub(crate) fn decode_surrogate_delete(b: &[u8]) -> (r: Option<
    (String, u32, String, Option<(u64, u64, u64, u64)>),
>)
    ensures
        match r {
            Some(t) => surrogate_delete_of(b@) == Some((t.0@, t.1, t.2@, t.3)),
            None => surrogate_delete_of(b@) is None,
        },
{
    zerompk::from_msgpack::<(String, u32, String, Option<(u64, u64, u64, u64)>)>(b).ok()
}

/// What `zerompk::from_msgpack` reads as collection, node and the writer's place.
pub uninterp spec fn node_delete_of(b: Seq<u8>) -> Option<
    (Seq<char>, u32, Option<(u64, u64, u64, u64)>),
>;

/// `zerompk::from_msgpack` on a three-element tuple; a decode error is `None`.
#[verifier::external_body]
pub(crate) fn decode_node_delete(b: &[u8]) -> (r: Option<
    (String, u32, Option<(u64, u64, u64, u64)>),
>)
    ensures
        match r {
            Some(t) => node_delete_of(b@) == Some((t.0@, t.1, t.2)),
            None => node_delete_of(b@) is None,
        },
{
    zerompk::from_msgpack::<(String, u32, Option<(u64, u64, u64, u64)>)>(b).ok()
}

/// Key, value and expiry of each entry.
pub open spec fn kv_entry_views(e: Seq<(Vec<u8>, Vec<u8>, u64)>) -> Seq<(Seq<u8>, Seq<u8>, u64)> {
    e.map_values(|p: (Vec<u8>, Vec<u8>, u64)| (p.0@, p.1@, p.2))
}

/// What `zerompk::from_msgpack` reads as the entries of a key-value table.
pub uninterp spec fn kv_entries_of(b: Seq<u8>) -> Option<Seq<(Seq<u8>, Seq<u8>, u64)>>;

/// `zerompk::from_msgpack` on a list of entries; a decode error is `None`.
#[verifier::external_body]
pub(crate) fn decode_kv_entries(b: &[u8]) -> (r: Option<Vec<(Vec<u8>, Vec<u8>, u64)>>)
    ensures
        match r {
            Some(t) => kv_entries_of(b@) == Some(kv_entry_views(t@)),
            None => kv_entries_of(b@) is None,
        },
{
    zerompk::from_msgpack::<Vec<(Vec<u8>, Vec<u8>, u64)>>(b).ok()
}

/// Whether the lengths of a table's entries can be written.
pub open spec fn kv_entries_fit(e: Seq<(Seq<u8>, Seq<u8>, u64)>) -> bool {
    e.len() <= u32::MAX && forall|i: int|
        0 <= i < e.len() ==> (#[trigger] e[i]).0.len() <= u32::MAX && e[i].1.len() <= u32::MAX
}

/// The bytes that `zerompk::to_msgpack_vec` writes of the entries of a key-value
/// table, or what it fails with.
pub uninterp spec fn kv_entries_encoding_of(e: Seq<(Seq<u8>, Seq<u8>, u64)>) -> Result<
    Seq<u8>,
    Seq<char>,
>;

/// `zerompk::to_msgpack_vec` on a list of entries. What it writes reads back as
/// the entries, where the lengths can be written.
#[verifier::external_body]
pub(crate) fn encode_kv_entries(e: &Vec<(Vec<u8>, Vec<u8>, u64)>) -> (r: Result<Vec<u8>, String>)
    ensures
        match r {
            Ok(b) => kv_entries_encoding_of(kv_entry_views(e@)) == Ok::<Seq<u8>, Seq<char>>(b@)
                && (kv_entries_fit(kv_entry_views(e@)) ==> kv_entries_of(b@) == Some(
                kv_entry_views(e@),
            )),
            Err(x) => kv_entries_encoding_of(kv_entry_views(e@)) == Err::<Seq<u8>, Seq<char>>(x@),
        },
{
    zerompk::to_msgpack_vec(e).map_err(|x| format!("{x}"))
}

/// The lines that `zerompk::from_msgpack` reads, or what it fails with.
pub uninterp spec fn lines_of(b: Seq<u8>) -> Result<Seq<Seq<char>>, Seq<char>>;

/// `zerompk::from_msgpack` on a list of texts, with the error's text where the
/// bytes do not decode.
#[verifier::external_body]
pub(crate) fn decode_lines(b: &[u8]) -> (r: Result<Vec<String>, String>)
    ensures
        match r {
            Ok(lines) => lines_of(b@) == Ok::<Seq<Seq<char>>, Seq<char>>(
                text::text_views(lines@),
            ),
            Err(e) => lines_of(b@) == Err::<Seq<Seq<char>>, Seq<char>>(e@),
        },
{
    zerompk::from_msgpack::<Vec<String>>(b).map_err(|e| format!("{e}"))
}

/// The bytes that `zerompk::to_msgpack_vec` writes of a list of texts, or what
/// it fails with.
pub uninterp spec fn lines_encoding_of(lines: Seq<Seq<char>>) -> Result<Seq<u8>, Seq<char>>;

/// `zerompk::to_msgpack_vec` on a list of texts. What it writes reads back as
/// the texts, where their lengths can be written.
#[verifier::external_body]
pub(crate) fn encode_lines(lines: &Vec<String>) -> (r: Result<Vec<u8>, String>)
    ensures
        match r {
            Ok(b) => lines_encoding_of(text::text_views(lines@)) == Ok::<Seq<u8>, Seq<char>>(b@)
                && (texts_fit(text::text_views(lines@)) ==> lines_of(b@) == Ok::<
                Seq<Seq<char>>,
                Seq<char>,
            >(text::text_views(lines@))),
            Err(e) => lines_encoding_of(text::text_views(lines@)) == Err::<Seq<u8>, Seq<char>>(e@),
        },
{
    zerompk::to_msgpack_vec(lines).map_err(|e| format!("{e}"))
}

/// Whether a payload begins as an array.
pub open spec fn is_array(b: Seq<u8>) -> bool {
    b.len() > 0 && (0x90 <= b[0] <= 0x9f || b[0] == 0xdc || b[0] == 0xdd)
}

/// Whether a payload begins as a map.
pub open spec fn is_map(b: Seq<u8>) -> bool {
    b.len() > 0 && (0x80 <= b[0] <= 0x8f || b[0] == 0xde || b[0] == 0xdf)
}

/// Whether a payload begins as a map.
pub fn begins_map(b: &[u8]) -> (r: bool)
    ensures
        r == is_map(b@),
{
    if b.len() == 0 {
        return false;
    }
    (0x80 <= b[0] && b[0] <= 0x8f) || b[0] == 0xde || b[0] == 0xdf
}

/// What `zerompk::from_msgpack` reads as kind, collection, rows and provenance.
pub uninterp spec fn batch_with_provenance_of(b: Seq<u8>) -> Option<
    (Seq<char>, Seq<char>, Seq<u8>, Option<(u64, u64, u64, u64)>),
>;

/// `zerompk::from_msgpack` on a four-element tuple; a decode error is `None`. A
/// tuple is read from an array alone.
#[verifier::external_body]
pub(crate) fn decode_batch_with_provenance(b: &[u8]) -> (r: Option<
    (String, String, Vec<u8>, Option<(u64, u64, u64, u64)>),
>)
    ensures
        match r {
            Some(t) => batch_with_provenance_of(b@) == Some((t.0@, t.1@, t.2@, t.3))
                && is_array(b@),
            None => batch_with_provenance_of(b@) is None,
        },
{
    zerompk::from_msgpack::<(String, String, Vec<u8>, Option<(u64, u64, u64, u64)>)>(b).ok()
}

/// What `zerompk::from_msgpack` reads as kind, collection and rows.
pub uninterp spec fn tagged_batch_of(b: Seq<u8>) -> Option<(Seq<char>, Seq<char>, Seq<u8>)>;

/// `zerompk::from_msgpack` on a three-element tuple; a decode error is `None`. A
/// tuple is read from an array alone.
#[verifier::external_body]
pub(crate) fn decode_tagged_batch(b: &[u8]) -> (r: Option<(String, String, Vec<u8>)>)
    ensures
        match r {
            Some(t) => tagged_batch_of(b@) == Some((t.0@, t.1@, t.2@)) && is_array(b@),
            None => tagged_batch_of(b@) is None,
        },
{
    zerompk::from_msgpack::<(String, String, Vec<u8>)>(b).ok()
}

/// What `zerompk::from_msgpack` reads as collection and rows.
pub uninterp spec fn bare_batch_of(b: Seq<u8>) -> Option<(Seq<char>, Seq<u8>)>;

/// `zerompk::from_msgpack` on a pair; a decode error is `None`. A pair is read
/// from an array alone.
#[verifier::external_body]
pub(crate) fn decode_bare_batch(b: &[u8]) -> (r: Option<(String, Vec<u8>)>)
    ensures
        match r {
            Some(t) => bare_batch_of(b@) == Some((t.0@, t.1@)) && is_array(b@),
            None => bare_batch_of(b@) is None,
        },
{
    zerompk::from_msgpack::<(String, Vec<u8>)>(b).ok()
}

pub open spec fn numbered_views(e: Seq<(u64, String)>) -> Seq<(u64, Seq<char>)> {
    e.map_values(|x: (u64, String)| (x.0, x.1@))
}

/// What `zerompk::from_msgpack` reads as numbers with texts.
pub uninterp spec fn numbered_texts_of(b: Seq<u8>) -> Option<Seq<(u64, Seq<char>)>>;

/// `zerompk::from_msgpack` on a list of pairs of a number and a text; a decode
/// error is `None`.
#[verifier::external_body]
pub(crate) fn decode_numbered_texts(b: &[u8]) -> (r: Option<Vec<(u64, String)>>)
    ensures
        match r {
            Some(t) => numbered_texts_of(b@) == Some(numbered_views(t@)),
            None => numbered_texts_of(b@) is None,
        },
{
    zerompk::from_msgpack::<Vec<(u64, String)>>(b).ok()
}

/// The bytes that `zerompk::to_msgpack_vec` writes of numbers with texts, or
/// what it fails with.
pub uninterp spec fn numbered_encoding_of(e: Seq<(u64, Seq<char>)>) -> Result<
    Seq<u8>,
    Seq<char>,
>;

/// `zerompk::to_msgpack_vec` on a list of pairs of a number and a text. What it
/// writes reads back as the list, where the lengths can be written.
#[verifier::external_body]
pub(crate) fn encode_numbered_texts(e: &Vec<(u64, String)>) -> (r: Result<Vec<u8>, String>)
    ensures
        match r {
            Ok(b) => numbered_encoding_of(numbered_views(e@)) == Ok::<Seq<u8>, Seq<char>>(b@)
                && (numbered_fit(numbered_views(e@)) ==> numbered_texts_of(b@) == Some(
                numbered_views(e@),
            )),
            Err(x) => numbered_encoding_of(numbered_views(e@)) == Err::<Seq<u8>, Seq<char>>(x@),
        },
{
    zerompk::to_msgpack_vec(e).map_err(|x| format!("{x}"))
}

/// Whether the lengths of a key-value entry can be written.
pub open spec fn entry_fits(collection: Seq<char>, key: Seq<u8>, value: Seq<u8>) -> bool {
    text_fits(collection) && key.len() <= u32::MAX && value.len() <= u32::MAX
}

/// The bytes that `zerompk::to_msgpack_vec` writes of tag, collection, key, value
/// and lifetime, or what it fails with.
pub uninterp spec fn kv_put_encoding_of(
    tag: Seq<char>,
    collection: Seq<char>,
    key: Seq<u8>,
    value: Seq<u8>,
    ttl_ms: u64,
) -> Result<Seq<u8>, Seq<char>>;

/// `zerompk::to_msgpack_vec` on a five-element tuple. What it writes reads back
/// as the tuple, where the lengths can be written, and never as a tuple of six.
#[verifier::external_body]
pub(crate) fn encode_kv_put(
    tag: &str,
    collection: &str,
    key: &Vec<u8>,
    value: &Vec<u8>,
    ttl_ms: u64,
) -> (r: Result<Vec<u8>, String>)
    ensures
        match r {
            Ok(b) => kv_put_encoding_of(tag@, collection@, key@, value@, ttl_ms) == Ok::<
                Seq<u8>,
                Seq<char>,
            >(b@) && (text_fits(tag@) && entry_fits(collection@, key@, value@) ==> kv_put_of(b@)
                == Some((tag@, collection@, key@, value@, ttl_ms))) && kv_put_expiring_of(b@) is None,
            Err(e) => kv_put_encoding_of(tag@, collection@, key@, value@, ttl_ms) == Err::<
                Seq<u8>,
                Seq<char>,
            >(e@),
        },
{
    zerompk::to_msgpack_vec(&(tag, collection, key, value, ttl_ms)).map_err(|e| format!("{e}"))
}

/// The bytes that `zerompk::to_msgpack_vec` writes of tag, collection, key,
/// value, lifetime and expiry, or what it fails with.
pub uninterp spec fn kv_put_expiring_encoding_of(
    tag: Seq<char>,
    collection: Seq<char>,
    key: Seq<u8>,
    value: Seq<u8>,
    ttl_ms: u64,
    expire_at_ms: u64,
) -> Result<Seq<u8>, Seq<char>>;

/// `zerompk::to_msgpack_vec` on a six-element tuple. What it writes reads back as
/// the tuple, where the lengths can be written.
#[verifier::external_body]
pub(crate) fn encode_kv_put_expiring(
    tag: &str,
    collection: &str,
    key: &Vec<u8>,
    value: &Vec<u8>,
    ttl_ms: u64,
    expire_at_ms: u64,
) -> (r: Result<Vec<u8>, String>)
    ensures
        match r {
            Ok(b) => kv_put_expiring_encoding_of(
                tag@,
                collection@,
                key@,
                value@,
                ttl_ms,
                expire_at_ms,
            ) == Ok::<Seq<u8>, Seq<char>>(b@) && (text_fits(tag@) && entry_fits(
                collection@,
                key@,
                value@,
            ) ==> kv_put_expiring_of(b@) == Some(
                (tag@, collection@, key@, value@, ttl_ms, expire_at_ms),
            )),
            Err(e) => kv_put_expiring_encoding_of(
                tag@,
                collection@,
                key@,
                value@,
                ttl_ms,
                expire_at_ms,
            ) == Err::<Seq<u8>, Seq<char>>(e@),
        },
{
    zerompk::to_msgpack_vec(&(tag, collection, key, value, ttl_ms, expire_at_ms)).map_err(
        |e| format!("{e}"),
    )
}

/// The bytes that `zerompk::to_msgpack_vec` writes of tag, collection and keys,
/// or what it fails with.
pub uninterp spec fn kv_delete_encoding_of(
    tag: Seq<char>,
    collection: Seq<char>,
    keys: Seq<Seq<u8>>,
) -> Result<Seq<u8>, Seq<char>>;

/// Whether the lengths of a list of keys, and of each of them, can be written.
pub open spec fn keys_fit(keys: Seq<Seq<u8>>) -> bool {
    keys.len() <= u32::MAX && forall|i: int|
        0 <= i < keys.len() ==> (#[trigger] keys[i]).len() <= u32::MAX
}

/// `zerompk::to_msgpack_vec` on a three-element tuple. What it writes reads back
/// as the tuple, where the lengths can be written.
#[verifier::external_body]
pub(crate) fn encode_kv_delete(tag: &str, collection: &str, keys: &Vec<Vec<u8>>) -> (r: Result<
    Vec<u8>,
    String,
>)
    ensures
        match r {
            Ok(b) => kv_delete_encoding_of(tag@, collection@, key_views(keys@)) == Ok::<
                Seq<u8>,
                Seq<char>,
            >(b@) && (text_fits(tag@) && text_fits(collection@) && keys_fit(key_views(keys@))
                ==> kv_delete_of(b@) == Some((tag@, collection@, key_views(keys@)))),
            Err(e) => kv_delete_encoding_of(tag@, collection@, key_views(keys@)) == Err::<
                Seq<u8>,
                Seq<char>,
            >(e@),
        },
{
    zerompk::to_msgpack_vec(&(tag, collection, keys)).map_err(|e| format!("{e}"))
}

/// An edge with its properties and the surrogates of its ends.
pub struct EdgePut {
    pub src: String,
    pub label: String,
    pub dst: String,
    pub properties: Vec<u8>,
    pub src_surrogate: u32,
    pub dst_surrogate: u32,
}

/// The bytes that `zerompk::to_msgpack_vec` writes of collection, source, label,
/// destination, properties and two surrogates, or what it fails with.
pub uninterp spec fn edge_put_encoding_of(
    collection: Seq<char>,
    src: Seq<char>,
    label: Seq<char>,
    dst: Seq<char>,
    properties: Seq<u8>,
    src_surrogate: u32,
    dst_surrogate: u32,
) -> Result<Seq<u8>, Seq<char>>;

/// What `zerompk::from_msgpack` reads as collection, source, label, destination,
/// properties and two surrogates.
pub uninterp spec fn edge_put_of(b: Seq<u8>) -> Option<
    (Seq<char>, Seq<char>, Seq<char>, Seq<char>, Seq<u8>, u32, u32),
>;

/// `zerompk::from_msgpack` on a seven-element tuple; a decode error is `None`.
#[verifier::external_body]
pub(crate) fn decode_edge_put(b: &[u8]) -> (r: Option<
    (String, String, String, String, Vec<u8>, u32, u32),
>)
    ensures
        match r {
            Some(t) => edge_put_of(b@) == Some((t.0@, t.1@, t.2@, t.3@, t.4@, t.5, t.6)),
            None => edge_put_of(b@) is None,
        },
{
    zerompk::from_msgpack::<(String, String, String, String, Vec<u8>, u32, u32)>(b).ok()
}

/// Whether the lengths of an edge's names can be written.
pub open spec fn edge_fits(
    collection: Seq<char>,
    src: Seq<char>,
    label: Seq<char>,
    dst: Seq<char>,
) -> bool {
    text_fits(collection) && text_fits(src) && text_fits(label) && text_fits(dst)
}

/// `zerompk::to_msgpack_vec` on a seven-element tuple. What it writes reads back
/// as the tuple, where the lengths can be written.
#[verifier::external_body]
pub(crate) fn encode_edge_put(collection: &str, e: &EdgePut) -> (r: Result<Vec<u8>, String>)
    ensures
        match r {
            Ok(b) => edge_put_encoding_of(
                collection@,
                e.src@,
                e.label@,
                e.dst@,
                e.properties@,
                e.src_surrogate,
                e.dst_surrogate,
            ) == Ok::<Seq<u8>, Seq<char>>(b@) && (edge_fits(collection@, e.src@, e.label@, e.dst@)
                && e.properties@.len() <= u32::MAX ==> edge_put_of(b@) == Some(
                (
                    collection@,
                    e.src@,
                    e.label@,
                    e.dst@,
                    e.properties@,
                    e.src_surrogate,
                    e.dst_surrogate,
                ),
            )),
            Err(x) => edge_put_encoding_of(
                collection@,
                e.src@,
                e.label@,
                e.dst@,
                e.properties@,
                e.src_surrogate,
                e.dst_surrogate,
            ) == Err::<Seq<u8>, Seq<char>>(x@),
        },
{
    zerompk::to_msgpack_vec(
        &(
            collection,
            e.src.as_str(),
            e.label.as_str(),
            e.dst.as_str(),
            &e.properties,
            e.src_surrogate,
            e.dst_surrogate,
        ),
    ).map_err(|x| format!("{x}"))
}

/// The bytes that `zerompk::to_msgpack_vec` writes of collection, source, label
/// and destination, or what it fails with.
pub uninterp spec fn edge_delete_encoding_of(
    collection: Seq<char>,
    src: Seq<char>,
    label: Seq<char>,
    dst: Seq<char>,
) -> Result<Seq<u8>, Seq<char>>;

/// What `zerompk::from_msgpack` reads as collection, source, label and
/// destination.
pub uninterp spec fn edge_delete_of(b: Seq<u8>) -> Option<
    (Seq<char>, Seq<char>, Seq<char>, Seq<char>),
>;

/// `zerompk::from_msgpack` on a four-element tuple; a decode error is `None`.
#[verifier::external_body]
pub(crate) fn decode_edge_delete(b: &[u8]) -> (r: Option<(String, String, String, String)>)
    ensures
        match r {
            Some(t) => edge_delete_of(b@) == Some((t.0@, t.1@, t.2@, t.3@)),
            None => edge_delete_of(b@) is None,
        },
{
    zerompk::from_msgpack::<(String, String, String, String)>(b).ok()
}

/// `zerompk::to_msgpack_vec` on a four-element tuple. What it writes reads back
/// as the tuple, where the lengths can be written.
#[verifier::external_body]
pub(crate) fn encode_edge_delete(collection: &str, src: &str, label: &str, dst: &str) -> (r: Result<
    Vec<u8>,
    String,
>)
    ensures
        match r {
            Ok(b) => edge_delete_encoding_of(collection@, src@, label@, dst@) == Ok::<
                Seq<u8>,
                Seq<char>,
            >(b@) && (edge_fits(collection@, src@, label@, dst@) ==> edge_delete_of(b@) == Some(
                (collection@, src@, label@, dst@),
            )),
            Err(x) => edge_delete_encoding_of(collection@, src@, label@, dst@) == Err::<
                Seq<u8>,
                Seq<char>,
            >(x@),
        },
{
    zerompk::to_msgpack_vec(&(collection, src, label, dst)).map_err(|x| format!("{x}"))
}

} // verus!
