//! Key-value writes within a transaction.
//!
//! A key is any byte string, so the overlay knows a key-value row by the
//! hexadecimal text of its key. A delete names keys alone: the row is found
//! through the overlay where it is staged, and else through the stored binding.
use crate::error::{ErrorCode, ErrorCodeView, ErrorView};
use crate::hex;
use crate::ids::{DatabaseId, TenantId};
use crate::overlay::staged;
use crate::overlay::staged::{Staged, TxnOverlay};
use crate::text;
use crate::transaction::plan::KvOp;
use crate::transaction::stage_write;
use crate::transaction::stage_write::{OverlayPk, StageCtx, StageError};
use vstd::prelude::*;
use vstd::string::*;

verus! {

/// The document id of a key.
pub fn hex_key(key: &[u8]) -> (r: String)
    ensures
        r@ == hex::hex_text(key@),
{
    hex::hex_string(key)
}

/// The key of a document id; none for a text that is no key's.
pub fn unhex_key(s: &str) -> (r: Option<Vec<u8>>)
    ensures
        match r {
            Some(key) => hex::unhex(s@) == Some(key@),
            None => hex::unhex(s@) is None,
        },
{
    let chars = text::to_chars(s);
    hex::unhex_chars(&chars)
}

/// Why the merge of an existing value with an incoming one failed.
#[derive(Clone, Copy, Debug, PartialEq, Eq, Structural)]
pub enum MergeFailure {
    Existing,
    Incoming,
    Encode,
}

pub open spec fn merge_text(f: MergeFailure) -> Seq<char> {
    match f {
        MergeFailure::Existing =>
            "failed to decode existing KV value for staged ON CONFLICT DO UPDATE"@,
        MergeFailure::Incoming =>
            "failed to decode incoming KV value for staged ON CONFLICT DO UPDATE"@,
        MergeFailure::Encode =>
            "failed to encode merged KV value for staged ON CONFLICT DO UPDATE"@,
    }
}

/// What a staged key-value write is answered with.
#[derive(Clone, Copy, Debug, PartialEq, Eq, Structural)]
pub enum KvReply {
    /// How many rows it affected.
    Affected(usize),
    /// One row, which was there already or not.
    Upserted { updated: bool },
}

/// Whether a write staged nothing and failed with `e`.
pub open spec fn kv_refused(
    before: TxnOverlay,
    after: TxnOverlay,
    e: ErrorView,
    r: Result<KvReply, StageError>,
) -> bool {
    stage_write::same_overlay(before, after) && (r matches Err(StageError::Refused(x)) && x@ == e)
}

pub open spec fn kv_failed(
    before: TxnOverlay,
    after: TxnOverlay,
    e: ErrorCodeView,
    r: Result<KvReply, StageError>,
) -> bool {
    stage_write::same_overlay(before, after) && (r matches Err(StageError::Failed(x)) && x@ == e)
}

/// What staging a value comes to, with the answer `reply` where it is staged.
pub open spec fn kv_put_outcome(
    before: TxnOverlay,
    after: TxnOverlay,
    ctx: StageCtx,
    value: Seq<u8>,
    limit: usize,
    reply: KvReply,
    r: Result<KvReply, StageError>,
) -> bool {
    if stage_write::exceeds(before, value, limit) {
        kv_refused(before, after, ErrorView::TxnOverlayMemoryExceeded { limit }, r)
    } else {
        r == Ok::<KvReply, StageError>(reply) && exists|body: Vec<u8>|
            body@ == value && #[trigger] stage_write::staged_row(
                before,
                after,
                ctx,
                Staged::Put(body),
            )
    }
}

fn stage_value(
    o: &mut TxnOverlay,
    ctx: &StageCtx,
    value: Vec<u8>,
    limit: usize,
    reply: KvReply,
) -> (r: Result<KvReply, StageError>)
    requires
        old(o).put_bytes() <= usize::MAX,
    ensures
        kv_put_outcome(*old(o), *final(o), *ctx, value@, limit, reply, r),
{
    let ghost body = value;
    let done = stage_write::stage_put_capped(o, ctx, value, limit);
    proof {
        if !stage_write::exceeds(*old(o), body@, limit) {
            assert(stage_write::staged_row(*old(o), *o, *ctx, Staged::Put(body)));
        }
    }
    match done {
        Ok(_) => Ok(reply),
        Err(e) => Err(StageError::Refused(e)),
    }
}

/// Stage a put, whether or not the key is there.
pub fn stage_kv_put(o: &mut TxnOverlay, ctx: &StageCtx, value: &[u8], limit: usize) -> (r: Result<
    KvReply,
    StageError,
>)
    requires
        old(o).put_bytes() <= usize::MAX,
    ensures
        kv_put_outcome(*old(o), *final(o), *ctx, value@, limit, KvReply::Affected(1), r),
{
    stage_value(o, ctx, text::copy_bytes(value), limit, KvReply::Affected(1))
}

/// What is staged for the row of a write, if anything is.
pub open spec fn staged_for(o: TxnOverlay, ctx: StageCtx) -> Option<Staged> {
    let row = ((ctx.database_id, ctx.tid, ctx.collection@), ctx.surrogate);
    if o.rows().contains_key(row) {
        Some(o.rows()[row])
    } else {
        None
    }
}

/// Whether a key is there: by the overlay where its row is staged, else by what
/// is stored.
pub open spec fn kv_present(
    o: TxnOverlay,
    row: ((u64, u64, Seq<char>), u32),
    stored: Option<Vec<u8>>,
) -> bool {
    match stage_write::overlay_pk(o, row) {
        OverlayPk::Present => true,
        OverlayPk::Absent => false,
        OverlayPk::Unstaged => stored is Some,
    }
}

pub fn stage_kv_pk_present(o: &TxnOverlay, ctx: &StageCtx, stored: &Option<Vec<u8>>) -> (r: bool)
    ensures
        r <==> match staged_for(*o, *ctx) {
            Some(s) => s is Put,
            None => *stored is Some,
        },
        r == kv_present(*o, stage_write::row_of(*ctx), *stored),
{
    match stage_write::stage_overlay_pk(o, ctx) {
        OverlayPk::Present => true,
        OverlayPk::Absent => false,
        OverlayPk::Unstaged => match stored {
            Some(_) => true,
            None => false,
        },
    }
}

/// Stage an insert; a key that is there refuses it.
pub fn stage_kv_insert(
    o: &mut TxnOverlay,
    ctx: &StageCtx,
    key: &[u8],
    value: &[u8],
    stored: &Option<Vec<u8>>,
    limit: usize,
) -> (r: Result<KvReply, StageError>)
    requires
        old(o).put_bytes() <= usize::MAX,
    ensures
        staged_for(*old(o), *ctx) is None && *stored is Some ==> r is Err && final(o).rows() == old(
            o,
        ).rows() && final(o).ids() == old(o).ids() && (r->Err_0 matches StageError::Refused(e)
            && e@ is RejectedConstraint),
        staged_for(*old(o), *ctx) matches Some(Staged::Put(_)) ==> r is Err && final(o).rows()
            == old(o).rows(),
        r is Ok ==> (staged_for(*final(o), *ctx) matches Some(Staged::Put(body)) && body@ == value@),
        if kv_present(*old(o), stage_write::row_of(*ctx), *stored) {
            kv_refused(
                *old(o),
                *final(o),
                stage_write::duplicate(text::lossy_text_of(key@), ctx.collection@),
                r,
            )
        } else {
            kv_put_outcome(*old(o), *final(o), *ctx, value@, limit, KvReply::Affected(1), r)
        },
{
    if stage_kv_pk_present(o, ctx, stored) {
        let key_text = text::lossy_text(key);
        return Err(
            StageError::Refused(
                stage_write::duplicate_error(key_text.as_str(), ctx.collection.as_str()),
            ),
        );
    }
    stage_kv_put(o, ctx, value, limit)
}

/// Stage an insert; a key that is there leaves it without effect.
pub fn stage_kv_insert_if_absent(
    o: &mut TxnOverlay,
    ctx: &StageCtx,
    value: &[u8],
    stored: &Option<Vec<u8>>,
    limit: usize,
) -> (r: Result<KvReply, StageError>)
    requires
        old(o).put_bytes() <= usize::MAX,
    ensures
        staged_for(*old(o), *ctx) is None && *stored is Some ==> r == Ok::<KvReply, StageError>(
            KvReply::Affected(0),
        ) && final(o).rows() == old(o).rows() && final(o).ids() == old(o).ids(),
        staged_for(*old(o), *ctx) matches Some(Staged::Put(_)) ==> r == Ok::<KvReply, StageError>(
            KvReply::Affected(0),
        ) && final(o).rows() == old(o).rows(),
        r == Ok::<KvReply, StageError>(KvReply::Affected(1)) ==> (staged_for(
            *final(o),
            *ctx,
        ) matches Some(Staged::Put(body)) && body@ == value@),
        if kv_present(*old(o), stage_write::row_of(*ctx), *stored) {
            r == Ok::<KvReply, StageError>(KvReply::Affected(0)) && stage_write::same_overlay(
                *old(o),
                *final(o),
            )
        } else {
            kv_put_outcome(*old(o), *final(o), *ctx, value@, limit, KvReply::Affected(1), r)
        },
{
    if stage_kv_pk_present(o, ctx, stored) {
        return Ok(KvReply::Affected(0));
    }
    stage_kv_put(o, ctx, value, limit)
}

/// The value of a key: the staged one, none where the row is staged as deleted,
/// else the stored one.
pub open spec fn kv_current(
    o: TxnOverlay,
    row: ((u64, u64, Seq<char>), u32),
    stored: Option<Vec<u8>>,
) -> Option<Seq<u8>> {
    if o.rows().contains_key(row) {
        match o.rows()[row] {
            Staged::Put(body) => Some(body@),
            Staged::Tombstone => None,
        }
    } else {
        match stored {
            Some(value) => Some(value@),
            None => None,
        }
    }
}

/// The value of a key.
pub fn resolve_kv_current(o: &TxnOverlay, ctx: &StageCtx, stored: &Option<Vec<u8>>) -> (r: Option<
    Vec<u8>,
>)
    ensures
        match r {
            Some(v) => kv_current(*o, stage_write::row_of(*ctx), *stored) == Some(v@),
            None => kv_current(*o, stage_write::row_of(*ctx), *stored) is None,
        },
{
    match o.get(&ctx.coll_key(), ctx.surrogate) {
        Some(Staged::Put(body)) => Some(text::copy_bytes(body.as_slice())),
        Some(Staged::Tombstone) => None,
        None => match stored {
            Some(value) => Some(text::copy_bytes(value.as_slice())),
            None => None,
        },
    }
}

/// A key is there exactly where it has a value: the staged one where its row is
/// staged, else the stored one, whatever that is.
pub proof fn law_a_key_is_there_where_it_has_a_value(
    o: TxnOverlay,
    row: ((u64, u64, Seq<char>), u32),
    stored: Option<Vec<u8>>,
)
    ensures
        kv_present(o, row, stored) <==> kv_current(o, row, stored) is Some,
        !o.rows().contains_key(row) ==> (kv_present(o, row, stored) <==> stored is Some),
        o.rows().contains_key(row) ==> (kv_present(o, row, stored) <==> o.rows()[row] is Put),
        !o.rows().contains_key(row) && stored is Some ==> kv_current(o, row, stored) == Some(
            stored->0@,
        ),
        o.rows().contains_key(row) && o.rows()[row] is Put ==> kv_current(o, row, stored) == Some(
            o.rows()[row]->Put_0@,
        ),
{
}

/// Whether `merged` may come of merging an incoming value into an existing one.
pub open spec fn may_merge<F: Fn(&Vec<u8>, &[u8]) -> Result<Vec<u8>, MergeFailure>>(
    merge: F,
    existing: Seq<u8>,
    value: &[u8],
    merged: Result<Vec<u8>, MergeFailure>,
) -> bool {
    exists|cur: Vec<u8>| cur@ == existing && #[trigger] merge.ensures((&cur, value), merged)
}

/// What an update on conflict comes to where the merge gives `merged`.
pub open spec fn conflict_outcome(
    before: TxnOverlay,
    after: TxnOverlay,
    ctx: StageCtx,
    merged: Result<Vec<u8>, MergeFailure>,
    limit: usize,
    r: Result<KvReply, StageError>,
) -> bool {
    match merged {
        Ok(body) => kv_put_outcome(
            before,
            after,
            ctx,
            body@,
            limit,
            KvReply::Upserted { updated: true },
            r,
        ),
        Err(f) => kv_failed(before, after, ErrorCodeView::Internal { detail: merge_text(f) }, r),
    }
}

/// Whether a key that was there came to be updated.
pub open spec fn updated_on_conflict<F: Fn(&Vec<u8>, &[u8]) -> Result<Vec<u8>, MergeFailure>>(
    before: TxnOverlay,
    after: TxnOverlay,
    ctx: StageCtx,
    existing: Seq<u8>,
    value: Seq<u8>,
    merge: F,
    limit: usize,
    r: Result<KvReply, StageError>,
) -> bool {
    exists|incoming: &[u8], merged: Result<Vec<u8>, MergeFailure>|
        incoming@ == value && #[trigger] may_merge(merge, existing, incoming, merged)
            && conflict_outcome(before, after, ctx, merged, limit, r)
}

fn merge_error(f: MergeFailure) -> (r: ErrorCode)
    ensures
        r@ == (ErrorCodeView::Internal { detail: merge_text(f) }),
{
    let detail = match f {
        MergeFailure::Existing =>
            "failed to decode existing KV value for staged ON CONFLICT DO UPDATE".to_owned(),
        MergeFailure::Incoming =>
            "failed to decode incoming KV value for staged ON CONFLICT DO UPDATE".to_owned(),
        MergeFailure::Encode =>
            "failed to encode merged KV value for staged ON CONFLICT DO UPDATE".to_owned(),
    };
    ErrorCode::Internal { detail }
}

/// Stage an insert; a key that is there is updated with what `merge` makes of its
/// value and the incoming one.
pub fn stage_kv_insert_on_conflict_update<
    F: Fn(&Vec<u8>, &[u8]) -> Result<Vec<u8>, MergeFailure>,
>(
    o: &mut TxnOverlay,
    ctx: &StageCtx,
    value: &[u8],
    stored: &Option<Vec<u8>>,
    merge: F,
    limit: usize,
) -> (r: Result<KvReply, StageError>)
    requires
        old(o).put_bytes() <= usize::MAX,
        forall|a: &Vec<u8>, b: &[u8]| #[trigger] merge.requires((a, b)),
    ensures
        match kv_current(*old(o), stage_write::row_of(*ctx), *stored) {
            None => kv_put_outcome(
                *old(o),
                *final(o),
                *ctx,
                value@,
                limit,
                KvReply::Upserted { updated: false },
                r,
            ),
            Some(existing) => updated_on_conflict(
                *old(o),
                *final(o),
                *ctx,
                existing,
                value@,
                merge,
                limit,
                r,
            ),
        },
{
    match resolve_kv_current(o, ctx, stored) {
        None => stage_value(
            o,
            ctx,
            text::copy_bytes(value),
            limit,
            KvReply::Upserted { updated: false },
        ),
        Some(existing) => {
            let merged = merge(&existing, value);
            let ghost outcome = merged;
            let r = match merged {
                Ok(body) => stage_value(o, ctx, body, limit, KvReply::Upserted { updated: true }),
                Err(f) => Err(StageError::Failed(merge_error(f))),
            };
            proof {
                assert(may_merge(merge, existing@, value, outcome));
                assert(conflict_outcome(*old(o), *o, *ctx, outcome, limit, r));
                assert(updated_on_conflict(*old(o), *o, *ctx, existing@, value@, merge, limit, r));
            }
            r
        },
    }
}

/// The row that a delete of `key` falls on; none where the key is not there.
pub open spec fn doomed(
    s: stage_write::OverlayState,
    place: (u64, u64, Seq<char>),
    key: Seq<u8>,
    stored: Option<u32>,
) -> Option<u32> {
    let id = (place, hex::hex_text(key));
    if s.ids.contains_key(id) && s.rows.contains_key((place, s.ids[id])) {
        match s.rows[(place, s.ids[id])] {
            Staged::Put(_) => Some(s.ids[id]),
            Staged::Tombstone => None,
        }
    } else {
        stored
    }
}

/// The overlay with a row staged as deleted.
pub open spec fn tombstoned(
    s: stage_write::OverlayState,
    place: (u64, u64, Seq<char>),
    key: Seq<u8>,
    surrogate: u32,
) -> stage_write::OverlayState {
    stage_write::OverlayState {
        rows: s.rows.insert((place, surrogate), Staged::Tombstone),
        ids: s.ids.insert((place, hex::hex_text(key)), surrogate),
        bytes: s.bytes - if s.rows.contains_key((place, surrogate)) {
            staged::staged_bytes(s.rows[(place, surrogate)]) as int
        } else {
            0
        },
    }
}

pub open spec fn key_views(keys: Seq<Vec<u8>>) -> Seq<Seq<u8>> {
    keys.map_values(|k: Vec<u8>| k@)
}

/// The overlay after the deletion of keys in turn, and how many were there.
pub open spec fn kv_deleted(
    s: stage_write::OverlayState,
    place: (u64, u64, Seq<char>),
    keys: Seq<Seq<u8>>,
    stored: Seq<Option<u32>>,
) -> (stage_write::OverlayState, nat)
    decreases keys.len(),
{
    if keys.len() == 0 {
        (s, 0)
    } else {
        let (before, n) = kv_deleted(s, place, keys.drop_last(), stored);
        match doomed(before, place, keys.last(), stored[keys.len() - 1]) {
            Some(surrogate) => (tombstoned(before, place, keys.last(), surrogate), n + 1),
            None => (before, n),
        }
    }
}

proof fn lemma_deleted_count(
    s: stage_write::OverlayState,
    place: (u64, u64, Seq<char>),
    keys: Seq<Seq<u8>>,
    stored: Seq<Option<u32>>,
)
    ensures
        kv_deleted(s, place, keys, stored).1 <= keys.len(),
    decreases keys.len(),
{
    if keys.len() > 0 {
        lemma_deleted_count(s, place, keys.drop_last(), stored);
    }
}

/// Stage the deletion of keys. `stored` holds, for each key, the surrogate it is
/// stored under.
pub fn stage_kv_delete(
    o: &mut TxnOverlay,
    database_id: u64,
    tid: u64,
    collection: &str,
    keys: &Vec<Vec<u8>>,
    stored: &Vec<Option<u32>>,
) -> (r: usize)
    requires
        stored@.len() == keys@.len(),
    ensures
        (stage_write::state_of(*final(o)), r as nat) == kv_deleted(
            stage_write::state_of(*old(o)),
            (database_id, tid, collection@),
            key_views(keys@),
            stored@,
        ),
        final(o).ttls() == old(o).ttls(),
{
    let ghost place = (database_id, tid, collection@);
    let ghost all = key_views(keys@);
    let ghost start = stage_write::state_of(*o);
    let mut deleted: usize = 0;
    let mut i: usize = 0;
    proof {
        assert(all.take(0) =~= Seq::empty());
    }
    while i < keys.len()
        invariant
            i <= keys@.len(),
            stored@.len() == keys@.len(),
            place == (database_id, tid, collection@),
            all == key_views(keys@),
            deleted <= i,
            o.ttls() == old(o).ttls(),
            start == stage_write::state_of(*old(o)),
            (stage_write::state_of(*o), deleted as nat) == kv_deleted(start, place, all.take(i as int), stored@),
        decreases keys.len() - i,
    {
        proof {
            assert(all.take(i + 1).drop_last() =~= all.take(i as int));
            assert(all.take(i + 1).last() == keys@[i as int]@);
            lemma_deleted_count(start, place, all.take(i + 1), stored@);
        }
        let ghost before = stage_write::state_of(*o);
        let doc_id = hex_key(keys[i].as_slice());
        let coll_key = (DatabaseId(database_id), TenantId(tid), collection.to_owned());
        let found: Option<u32> = match o.get_by_doc_id(&coll_key, doc_id.as_str()) {
            Some(Staged::Put(_)) => o.surrogate_for_doc_id(&coll_key, doc_id.as_str()),
            Some(Staged::Tombstone) => None,
            None => stored[i],
        };
        proof {
            assert(found == doomed(before, place, keys@[i as int]@, stored@[i as int]));
        }
        match found {
            Some(surrogate) => {
                o.insert_tombstone(coll_key, surrogate, doc_id.as_str());
                deleted = deleted + 1;
                proof {
                    assert(stage_write::state_of(*o) =~= tombstoned(before, place, keys@[i as int]@, surrogate));
                }
            },
            None => {},
        }
        i = i + 1;
    }
    proof {
        assert(all.take(all.len() as int) =~= all);
    }
    deleted
}

/// What a key-value store holds for the keys of an operation.
pub struct KvStored {
    /// The value of the operation's key.
    pub value: Option<Vec<u8>>,
    /// For each key of a delete, the surrogate it is stored under.
    pub surrogates: Vec<Option<u32>>,
}

/// What came of routing a key-value operation.
pub enum KvRouted {
    Staged(Result<KvReply, StageError>),
    /// The operation reads what it changes: it is staged as an atomic one.
    Atomic,
}

/// Whether `ctx` is about a key: its row is known by the key's text.
pub open spec fn is_ctx(
    ctx: StageCtx,
    database_id: u64,
    tid: u64,
    collection: Seq<char>,
    key: Seq<u8>,
    surrogate: u32,
) -> bool {
    stage_write::row_of(ctx) == ((database_id, tid, collection), surrogate) && ctx.document_id@
        == hex::hex_text(key)
}

fn kv_stage_ctx(database_id: u64, tid: u64, collection: &str, key: &[u8], surrogate: u32) -> (r:
    StageCtx)
    ensures
        is_ctx(r, database_id, tid, collection@, key@, surrogate),
        r.collection@ == collection@,
{
    StageCtx::new(database_id, tid, collection, hex_key(key).as_str(), surrogate)
}

/// What an operation on one key comes to.
pub open spec fn point_outcome<F: Fn(&Vec<u8>, &[u8]) -> Result<Vec<u8>, MergeFailure>>(
    before: TxnOverlay,
    after: TxnOverlay,
    ctx: StageCtx,
    op: KvOp,
    stored: Option<Vec<u8>>,
    merge: F,
    limit: usize,
    r: Result<KvReply, StageError>,
) -> bool {
    match op {
        KvOp::Put { collection, key, value, surrogate } => kv_put_outcome(
            before,
            after,
            ctx,
            value@,
            limit,
            KvReply::Affected(1),
            r,
        ),
        KvOp::Insert { collection, key, value, surrogate } => if kv_present(
            before,
            stage_write::row_of(ctx),
            stored,
        ) {
            kv_refused(
                before,
                after,
                stage_write::duplicate(text::lossy_text_of(key@), collection@),
                r,
            )
        } else {
            kv_put_outcome(before, after, ctx, value@, limit, KvReply::Affected(1), r)
        },
        KvOp::InsertIfAbsent { collection, key, value, surrogate } => if kv_present(
            before,
            stage_write::row_of(ctx),
            stored,
        ) {
            r == Ok::<KvReply, StageError>(KvReply::Affected(0)) && stage_write::same_overlay(
                before,
                after,
            )
        } else {
            kv_put_outcome(before, after, ctx, value@, limit, KvReply::Affected(1), r)
        },
        KvOp::InsertOnConflictUpdate { collection, key, value, surrogate } => match kv_current(
            before,
            stage_write::row_of(ctx),
            stored,
        ) {
            None => kv_put_outcome(
                before,
                after,
                ctx,
                value@,
                limit,
                KvReply::Upserted { updated: false },
                r,
            ),
            Some(existing) => updated_on_conflict(
                before,
                after,
                ctx,
                existing,
                value@,
                merge,
                limit,
                r,
            ),
        },
        _ => true,
    }
}

/// The key that an operation on one key is about, with its collection and
/// surrogate.
pub open spec fn point_of(op: KvOp) -> Option<(Seq<char>, Seq<u8>, u32)> {
    match op {
        KvOp::Put { collection, key, value, surrogate } => Some((collection@, key@, surrogate)),
        KvOp::Insert { collection, key, value, surrogate } => Some((collection@, key@, surrogate)),
        KvOp::InsertIfAbsent { collection, key, value, surrogate } => Some(
            (collection@, key@, surrogate),
        ),
        KvOp::InsertOnConflictUpdate { collection, key, value, surrogate } => Some(
            (collection@, key@, surrogate),
        ),
        _ => None,
    }
}

/// Whether an operation on one key was staged for that key.
pub open spec fn point_staged<F: Fn(&Vec<u8>, &[u8]) -> Result<Vec<u8>, MergeFailure>>(
    before: TxnOverlay,
    after: TxnOverlay,
    database_id: u64,
    tid: u64,
    point: (Seq<char>, Seq<u8>, u32),
    op: KvOp,
    stored: Option<Vec<u8>>,
    merge: F,
    limit: usize,
    r: Result<KvReply, StageError>,
) -> bool {
    exists|ctx: StageCtx|
        is_ctx(ctx, database_id, tid, point.0, point.1, point.2) && #[trigger] point_outcome(
            before,
            after,
            ctx,
            op,
            stored,
            merge,
            limit,
            r,
        )
}

/// Whether an operation is staged as an atomic one.
pub open spec fn is_atomic(op: KvOp) -> bool {
    op is BatchPut || op is Incr || op is IncrFloat || op is Cas || op is GetSet
}

/// What came of routing a key-value operation.
pub open spec fn kv_routed<F: Fn(&Vec<u8>, &[u8]) -> Result<Vec<u8>, MergeFailure>>(
    before: TxnOverlay,
    after: TxnOverlay,
    database_id: u64,
    tid: u64,
    op: KvOp,
    stored: KvStored,
    merge: F,
    limit: usize,
    r: KvRouted,
) -> bool {
    match point_of(op) {
        Some(point) => r is Staged && point_staged(
            before,
            after,
            database_id,
            tid,
            point,
            op,
            stored.value,
            merge,
            limit,
            r->Staged_0,
        ),
        None => match op {
            KvOp::Delete { collection, keys } => {
                let (state, n) = kv_deleted(
                    stage_write::state_of(before),
                    (database_id, tid, collection@),
                    key_views(keys@),
                    stored.surrogates@,
                );
                &&& r matches KvRouted::Staged(Ok(KvReply::Affected(k))) && k == n
                &&& stage_write::state_of(after) == state
                &&& after.ttls() == before.ttls()
            },
            _ => if is_atomic(op) {
                r is Atomic && stage_write::same_overlay(before, after)
            } else {
                r is Staged && kv_failed(before, after, stage_write::not_point_write(), r->Staged_0)
            },
        },
    }
}

/// Stage a key-value operation.
pub fn execute_stage_kv<F: Fn(&Vec<u8>, &[u8]) -> Result<Vec<u8>, MergeFailure>>(
    o: &mut TxnOverlay,
    database_id: u64,
    tid: u64,
    op: &KvOp,
    stored: &KvStored,
    merge: F,
    limit: usize,
) -> (r: KvRouted)
    requires
        old(o).put_bytes() <= usize::MAX,
        forall|a: &Vec<u8>, b: &[u8]| #[trigger] merge.requires((a, b)),
        *op matches KvOp::Delete { collection, keys } ==> stored.surrogates@.len() == keys@.len(),
    ensures
        kv_routed(*old(o), *final(o), database_id, tid, *op, *stored, merge, limit, r),
{
    match op {
        KvOp::Put { collection, key, value, surrogate } => {
            let ctx = kv_stage_ctx(
                database_id,
                tid,
                collection.as_str(),
                key.as_slice(),
                *surrogate,
            );
            let r = stage_kv_put(o, &ctx, value.as_slice(), limit);
            proof {
                assert(is_ctx(ctx, database_id, tid, collection@, key@, *surrogate));
                assert(point_outcome(*old(o), *o, ctx, *op, stored.value, merge, limit, r));
            }
            KvRouted::Staged(r)
        },
        KvOp::Insert { collection, key, value, surrogate } => {
            let ctx = kv_stage_ctx(
                database_id,
                tid,
                collection.as_str(),
                key.as_slice(),
                *surrogate,
            );
            let r = stage_kv_insert(o, &ctx, key.as_slice(), value.as_slice(), &stored.value, limit);
            proof {
                assert(is_ctx(ctx, database_id, tid, collection@, key@, *surrogate));
                assert(point_outcome(*old(o), *o, ctx, *op, stored.value, merge, limit, r));
            }
            KvRouted::Staged(r)
        },
        KvOp::InsertIfAbsent { collection, key, value, surrogate } => {
            let ctx = kv_stage_ctx(
                database_id,
                tid,
                collection.as_str(),
                key.as_slice(),
                *surrogate,
            );
            let r = stage_kv_insert_if_absent(o, &ctx, value.as_slice(), &stored.value, limit);
            proof {
                assert(is_ctx(ctx, database_id, tid, collection@, key@, *surrogate));
                assert(point_outcome(*old(o), *o, ctx, *op, stored.value, merge, limit, r));
            }
            KvRouted::Staged(r)
        },
        KvOp::InsertOnConflictUpdate { collection, key, value, surrogate } => {
            let ctx = kv_stage_ctx(
                database_id,
                tid,
                collection.as_str(),
                key.as_slice(),
                *surrogate,
            );
            let r = stage_kv_insert_on_conflict_update(o, &ctx, value.as_slice(), &stored.value, merge, limit);
            proof {
                assert(is_ctx(ctx, database_id, tid, collection@, key@, *surrogate));
                assert(point_outcome(*old(o), *o, ctx, *op, stored.value, merge, limit, r));
            }
            KvRouted::Staged(r)
        },
        KvOp::Delete { collection, keys } => {
            let deleted = stage_kv_delete(
                o,
                database_id,
                tid,
                collection.as_str(),
                keys,
                &stored.surrogates,
            );
            KvRouted::Staged(Ok(KvReply::Affected(deleted)))
        },
        KvOp::BatchPut { .. } => KvRouted::Atomic,
        KvOp::Incr { .. } => KvRouted::Atomic,
        KvOp::IncrFloat { .. } => KvRouted::Atomic,
        KvOp::Cas { .. } => KvRouted::Atomic,
        KvOp::GetSet { .. } => KvRouted::Atomic,
        _ => KvRouted::Staged(Err(StageError::Failed(stage_write::stage_not_point_write()))),
    }
}

/// A key that was deleted within the transaction is gone for it, whatever is
/// stored: deleting it again affects nothing.
pub proof fn law_a_key_is_deleted_once(
    s: stage_write::OverlayState,
    place: (u64, u64, Seq<char>),
    key: Seq<u8>,
    surrogate: u32,
    stored: Option<u32>,
)
    ensures
        doomed(tombstoned(s, place, key, surrogate), place, key, stored) is None,
{
}

/// A key that was put within the transaction is there for it: its value is the
/// one that was put, an insert of it is refused, and a delete falls on its row.
pub proof fn law_a_staged_key_is_there(
    before: TxnOverlay,
    after: TxnOverlay,
    ctx: StageCtx,
    key: Seq<u8>,
    body: Vec<u8>,
    stored: Option<Vec<u8>>,
    bound: Option<u32>,
)
    requires
        stage_write::staged_row(before, after, ctx, Staged::Put(body)),
        ctx.document_id@ == hex::hex_text(key),
    ensures
        kv_current(after, stage_write::row_of(ctx), stored) == Some(body@),
        kv_present(after, stage_write::row_of(ctx), stored),
        doomed(stage_write::state_of(after), stage_write::row_of(ctx).0, key, bound) == Some(ctx.surrogate),
{
}

/// Different keys are known by different texts, and each text gives back its key.
pub proof fn law_a_key_is_known_by_its_text(key: Seq<u8>)
    ensures
        hex::unhex(hex::hex_text(key)) == Some(key),
{
    hex::law_unhex_inverts_hex(key);
}

/// A value is staged exactly where it fits: then the row holds it, the key's text
/// leads to the row and every other row stays. Where it does not fit nothing
/// changes.
pub proof fn law_a_value_is_staged_where_it_fits(
    before: TxnOverlay,
    after: TxnOverlay,
    ctx: StageCtx,
    value: Seq<u8>,
    limit: usize,
    reply: KvReply,
    r: Result<KvReply, StageError>,
)
    requires
        kv_put_outcome(before, after, ctx, value, limit, reply, r),
    ensures
        r is Ok <==> before.put_bytes() + value.len() <= limit,
        r matches Ok(got) ==> {
            let place = (ctx.database_id, ctx.tid, ctx.collection@);
            let row = (place, ctx.surrogate);
            &&& got == reply
            &&& after.rows().contains_key(row)
            &&& after.rows()[row] matches Staged::Put(body) && body@ == value
            &&& after.ids().contains_key((place, ctx.document_id@))
            &&& after.ids()[(place, ctx.document_id@)] == ctx.surrogate
            &&& forall|q: ((u64, u64, Seq<char>), u32)|
                q != row ==> #[trigger] after.rows().contains_key(q) == before.rows().contains_key(
                    q,
                ) && (before.rows().contains_key(q) ==> after.rows()[q] == before.rows()[q])
        },
        r matches Err(e) ==> after.rows() == before.rows() && after.ids() == before.ids()
            && after.ttls() == before.ttls() && (e matches StageError::Refused(x) && x@ == (
        ErrorView::TxnOverlayMemoryExceeded { limit })),
{
}

/// An insert that meets a value stages what is made of that value and the incoming
/// one, and says that it updated; where nothing can be made of them it fails and
/// changes nothing.
pub proof fn law_a_conflict_stages_the_merged_value<
    F: Fn(&Vec<u8>, &[u8]) -> Result<Vec<u8>, MergeFailure>,
>(
    before: TxnOverlay,
    after: TxnOverlay,
    ctx: StageCtx,
    existing: Seq<u8>,
    value: Seq<u8>,
    merge: F,
    limit: usize,
    r: Result<KvReply, StageError>,
)
    requires
        updated_on_conflict(before, after, ctx, existing, value, merge, limit, r),
    ensures
        r matches Ok(reply) ==> reply == (KvReply::Upserted { updated: true }) && exists|
            cur: Vec<u8>,
            incoming: &[u8],
            made: Vec<u8>,
        |
            #![trigger merge.ensures((&cur, incoming), Ok::<Vec<u8>, MergeFailure>(made))]
            {
                let row = ((ctx.database_id, ctx.tid, ctx.collection@), ctx.surrogate);
                &&& cur@ == existing
                &&& incoming@ == value
                &&& merge.ensures((&cur, incoming), Ok::<Vec<u8>, MergeFailure>(made))
                &&& after.rows().contains_key(row)
                &&& after.rows()[row] matches Staged::Put(body) && body@ == made@
            },
        r is Err ==> after.rows() == before.rows() && after.ids() == before.ids(),
{
    let (incoming, merged) = choose|incoming: &[u8], merged: Result<Vec<u8>, MergeFailure>|
        incoming@ == value && #[trigger] may_merge(merge, existing, incoming, merged)
            && conflict_outcome(before, after, ctx, merged, limit, r);
    let cur = choose|cur: Vec<u8>|
        cur@ == existing && #[trigger] merge.ensures((&cur, incoming), merged);
    if r is Ok {
        let made = merged->Ok_0;
        assert(merge.ensures((&cur, incoming), Ok::<Vec<u8>, MergeFailure>(made)));
    }
}

proof fn lemma_stays_deleted(
    s: stage_write::OverlayState,
    place: (u64, u64, Seq<char>),
    key: Seq<u8>,
    stored: Option<u32>,
    other: Seq<u8>,
    surrogate: u32,
)
    requires
        doomed(s, place, key, stored) is None,
    ensures
        doomed(tombstoned(s, place, other, surrogate), place, key, stored) is None,
{
}

/// After a delete none of its keys is there: not as a row of the transaction, and
/// not as a stored row that the transaction still shows.
pub proof fn law_deleted_keys_are_gone(
    s: stage_write::OverlayState,
    place: (u64, u64, Seq<char>),
    keys: Seq<Seq<u8>>,
    stored: Seq<Option<u32>>,
    i: int,
)
    requires
        0 <= i < keys.len(),
    ensures
        ({
            let after = kv_deleted(s, place, keys, stored).0;
            let id = (place, hex::hex_text(keys[i]));
            if after.ids.contains_key(id) && after.rows.contains_key((place, after.ids[id])) {
                after.rows[(place, after.ids[id])] is Tombstone
            } else {
                stored[i] is None
            }
        }),
    decreases keys.len(),
{
    lemma_nothing_left(s, place, keys, stored, i);
}

proof fn lemma_nothing_left(
    s: stage_write::OverlayState,
    place: (u64, u64, Seq<char>),
    keys: Seq<Seq<u8>>,
    stored: Seq<Option<u32>>,
    i: int,
)
    requires
        0 <= i < keys.len(),
    ensures
        doomed(kv_deleted(s, place, keys, stored).0, place, keys[i], stored[i]) is None,
    decreases keys.len(),
{
    let short = keys.drop_last();
    let (before, n) = kv_deleted(s, place, short, stored);
    let last = keys.last();
    let own = stored[keys.len() - 1];
    if i < keys.len() - 1 {
        lemma_nothing_left(s, place, short, stored, i);
        if let Some(surrogate) = doomed(before, place, last, own) {
            lemma_stays_deleted(before, place, keys[i], stored[i], last, surrogate);
        }
    } else {
        if let Some(surrogate) = doomed(before, place, last, own) {
            law_a_key_is_deleted_once(before, place, last, surrogate, own);
        }
    }
}

/// A delete turns rows of its own collection into deleted ones and changes nothing
/// else; it counts at most its keys.
pub proof fn law_a_delete_only_deletes(
    s: stage_write::OverlayState,
    place: (u64, u64, Seq<char>),
    keys: Seq<Seq<u8>>,
    stored: Seq<Option<u32>>,
    row: ((u64, u64, Seq<char>), u32),
)
    ensures
        ({
            let (after, n) = kv_deleted(s, place, keys, stored);
            &&& n <= keys.len()
            &&& s.rows.contains_key(row) ==> after.rows.contains_key(row)
            &&& after.rows.contains_key(row) ==> (after.rows[row] is Tombstone && row.0 == place)
                || (s.rows.contains_key(row) && after.rows[row] == s.rows[row])
            &&& row.0 != place ==> after.rows.contains_key(row) == s.rows.contains_key(row)
        }),
    decreases keys.len(),
{
    if keys.len() > 0 {
        law_a_delete_only_deletes(s, place, keys.drop_last(), stored, row);
    }
}

/// The key that comes last in a delete counts where the transaction put it, or
/// where it is stored and the transaction has not staged it; then its row is
/// deleted.
pub proof fn law_a_key_counts_where_it_is_there(
    s: stage_write::OverlayState,
    place: (u64, u64, Seq<char>),
    keys: Seq<Seq<u8>>,
    stored: Seq<Option<u32>>,
)
    requires
        keys.len() > 0,
    ensures
        ({
            let (before, m) = kv_deleted(s, place, keys.drop_last(), stored);
            let (after, n) = kv_deleted(s, place, keys, stored);
            let id = (place, hex::hex_text(keys.last()));
            let staged = before.ids.contains_key(id) && before.rows.contains_key(
                (place, before.ids[id]),
            );
            let own = stored[keys.len() - 1];
            &&& staged && before.rows[(place, before.ids[id])] is Put ==> n == m + 1
                && after.rows.contains_key((place, before.ids[id])) && after.rows[(
                place,
                before.ids[id],
            )] is Tombstone
            &&& staged && before.rows[(place, before.ids[id])] is Tombstone ==> n == m && after
                == before
            &&& !staged && own is None ==> n == m && after == before
            &&& !staged && own is Some ==> n == m + 1 && after.rows.contains_key((place, own->0))
                && after.rows[(place, own->0)] is Tombstone && after.ids.contains_key(id)
                && after.ids[id] == own->0
        }),
{
}

/// A write of one key that succeeds goes to the row of its own collection and
/// surrogate, under the key's text, and touches no other row.
pub proof fn law_a_key_is_written_to_its_own_row<
    F: Fn(&Vec<u8>, &[u8]) -> Result<Vec<u8>, MergeFailure>,
>(
    before: TxnOverlay,
    after: TxnOverlay,
    database_id: u64,
    tid: u64,
    op: KvOp,
    stored: KvStored,
    merge: F,
    limit: usize,
    r: KvRouted,
    collection: Seq<char>,
    key: Seq<u8>,
    surrogate: u32,
    other: ((u64, u64, Seq<char>), u32),
)
    requires
        kv_routed(before, after, database_id, tid, op, stored, merge, limit, r),
        match op {
            KvOp::Put { collection: c, key: k, value, surrogate: s } => c@ == collection && k@
                == key && s == surrogate,
            KvOp::Insert { collection: c, key: k, value, surrogate: s } => c@ == collection && k@
                == key && s == surrogate,
            KvOp::InsertIfAbsent { collection: c, key: k, value, surrogate: s } => c@ == collection
                && k@ == key && s == surrogate,
            KvOp::InsertOnConflictUpdate { collection: c, key: k, value, surrogate: s } => c@
                == collection && k@ == key && s == surrogate,
            _ => false,
        },
    ensures
        r is Staged,
        other != ((database_id, tid, collection), surrogate) ==> after.rows().contains_key(other)
            == before.rows().contains_key(other) && (before.rows().contains_key(other)
            ==> after.rows()[other] == before.rows()[other]),
        r->Staged_0 is Err ==> after.rows() == before.rows() && after.ids() == before.ids(),
        (op matches KvOp::Put { value, .. } && r->Staged_0 is Ok) ==> (after.rows().contains_key(
            ((database_id, tid, collection), surrogate),
        ) && (op matches KvOp::Put { value, .. } && (after.rows()[(
            (database_id, tid, collection),
            surrogate,
        )] matches Staged::Put(body) && body@ == value@)) && after.ids().contains_key(
            ((database_id, tid, collection), hex::hex_text(key)),
        ) && after.ids()[((database_id, tid, collection), hex::hex_text(key))] == surrogate),
{
    let point = (collection, key, surrogate);
    let ctx = choose|ctx: StageCtx|
        is_ctx(ctx, database_id, tid, point.0, point.1, point.2) && #[trigger] point_outcome(
            before,
            after,
            ctx,
            op,
            stored.value,
            merge,
            limit,
            r->Staged_0,
        );
    let x = r->Staged_0;
    if let KvOp::InsertOnConflictUpdate { collection: c, key: k, value, surrogate: s } = op {
        if let Some(existing) = kv_current(before, stage_write::row_of(ctx), stored.value) {
            law_a_conflict_stages_the_merged_value(
                before,
                after,
                ctx,
                existing,
                value@,
                merge,
                limit,
                x,
            );
        }
    }
}

/// Batches and operations that read what they change are staged as atomic ones;
/// whatever neither writes keys nor is one of those is refused, and the overlay
/// stays as it is.
pub proof fn law_reads_and_atomic_operations_stage_nothing<
    F: Fn(&Vec<u8>, &[u8]) -> Result<Vec<u8>, MergeFailure>,
>(
    before: TxnOverlay,
    after: TxnOverlay,
    database_id: u64,
    tid: u64,
    op: KvOp,
    stored: KvStored,
    merge: F,
    limit: usize,
    r: KvRouted,
)
    requires
        kv_routed(before, after, database_id, tid, op, stored, merge, limit, r),
        !(op is Put) && !(op is Insert) && !(op is InsertIfAbsent) && !(
        op is InsertOnConflictUpdate) && !(op is Delete),
    ensures
        after.rows() == before.rows(),
        after.ids() == before.ids(),
        after.ttls() == before.ttls(),
        r is Atomic <==> op is BatchPut || op is Incr || op is IncrFloat || op is Cas
            || op is GetSet,
        !(r is Atomic) ==> (r matches KvRouted::Staged(Err(StageError::Failed(e))) && e@ == (
        ErrorCodeView::Internal {
            detail: "StageWrite is only valid for point-write document operations"@,
        })),
{
}

} // verus!
