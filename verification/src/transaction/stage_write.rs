//! Point writes within a transaction: each is evaluated against what is stored
//! and what the transaction has staged, and staged in turn. Nothing becomes
//! durable here.
use crate::error::{Error, ErrorCode, ErrorCodeView, ErrorView};
use crate::ids::{DatabaseId, TenantId};
use crate::overlay::staged;
use crate::overlay::staged::{Staged, TxnOverlay};
use crate::text;
use vstd::prelude::*;
use vstd::string::*;

verus! {

pub open spec fn not_point_write() -> ErrorCodeView {
    ErrorCodeView::Internal {
        detail: "StageWrite is only valid for point-write document operations"@,
    }
}

pub fn stage_not_point_write() -> (r: ErrorCode)
    ensures
        r@ == not_point_write(),
{
    ErrorCode::Internal {
        detail: "StageWrite is only valid for point-write document operations".to_owned(),
    }
}

/// The row that a staged write is about.
pub struct StageCtx {
    pub database_id: u64,
    pub tid: u64,
    pub collection: String,
    pub document_id: String,
    pub surrogate: u32,
}

/// The place of the row: its collection and its surrogate.
pub open spec fn row_of(ctx: StageCtx) -> ((u64, u64, Seq<char>), u32) {
    ((ctx.database_id, ctx.tid, ctx.collection@), ctx.surrogate)
}

impl StageCtx {
    pub fn new(
        database_id: u64,
        tid: u64,
        collection: &str,
        document_id: &str,
        surrogate: u32,
    ) -> (r: StageCtx)
        ensures
            r.database_id == database_id,
            r.tid == tid,
            r.collection@ == collection@,
            r.document_id@ == document_id@,
            r.surrogate == surrogate,
    {
        StageCtx {
            database_id,
            tid,
            collection: collection.to_owned(),
            document_id: document_id.to_owned(),
            surrogate,
        }
    }

    pub(crate) fn coll_key(&self) -> (r: (DatabaseId, TenantId, String))
        ensures
            staged::coll_id(r) == (self.database_id, self.tid, self.collection@),
    {
        (DatabaseId(self.database_id), TenantId(self.tid), self.collection.clone())
    }
}

/// What the overlay says of a row's presence.
#[derive(Clone, Copy, Debug, PartialEq, Eq, Structural)]
pub enum OverlayPk {
    Present,
    Absent,
    Unstaged,
}

pub open spec fn overlay_pk(o: TxnOverlay, row: ((u64, u64, Seq<char>), u32)) -> OverlayPk {
    if o.rows().contains_key(row) {
        match o.rows()[row] {
            Staged::Put(_) => OverlayPk::Present,
            Staged::Tombstone => OverlayPk::Absent,
        }
    } else {
        OverlayPk::Unstaged
    }
}

pub fn stage_overlay_pk(o: &TxnOverlay, ctx: &StageCtx) -> (r: OverlayPk)
    ensures
        r == overlay_pk(*o, row_of(*ctx)),
{
    match o.get(&ctx.coll_key(), ctx.surrogate) {
        Some(Staged::Put(_)) => OverlayPk::Present,
        Some(Staged::Tombstone) => OverlayPk::Absent,
        None => OverlayPk::Unstaged,
    }
}

/// The overlay with a row staged.
pub open spec fn staged_row(
    before: TxnOverlay,
    after: TxnOverlay,
    ctx: StageCtx,
    s: Staged,
) -> bool {
    &&& after.rows() == before.rows().insert(row_of(ctx), s)
    &&& after.ids() == before.ids().insert((row_of(ctx).0, ctx.document_id@), ctx.surrogate)
    &&& after.ttls() == before.ttls()
    &&& after.put_bytes() == before.put_bytes() + staged::staged_bytes(s) - (
    if before.rows().contains_key(row_of(ctx)) {
        staged::staged_bytes(before.rows()[row_of(ctx)])
    } else {
        0
    })
}

/// What an overlay holds of rows, as mathematical values.
#[verifier::ext_equal]
pub struct OverlayState {
    pub rows: Map<((u64, u64, Seq<char>), u32), Staged>,
    pub ids: Map<((u64, u64, Seq<char>), Seq<char>), u32>,
    pub bytes: int,
}

pub open spec fn state_of(o: TxnOverlay) -> OverlayState {
    OverlayState { rows: o.rows(), ids: o.ids(), bytes: o.put_bytes() as int }
}

/// The state with a body staged for a row.
pub open spec fn put_state(
    s: OverlayState,
    row: ((u64, u64, Seq<char>), u32),
    doc_id: Seq<char>,
    body: Vec<u8>,
) -> OverlayState {
    OverlayState {
        rows: s.rows.insert(row, Staged::Put(body)),
        ids: s.ids.insert((row.0, doc_id), row.1),
        bytes: s.bytes + body@.len() - if s.rows.contains_key(row) {
            staged::staged_bytes(s.rows[row]) as int
        } else {
            0
        },
    }
}

/// Why a write was not staged.
#[derive(Debug)]
pub enum StageError {
    Refused(Error),
    Failed(ErrorCode),
}

/// Whether two overlays hold the same.
pub open spec fn same_overlay(a: TxnOverlay, b: TxnOverlay) -> bool {
    a.rows() == b.rows() && a.ids() == b.ids() && a.ttls() == b.ttls() && a.put_bytes()
        == b.put_bytes()
}

/// Whether staging a body would exceed the limit.
pub open spec fn exceeds(o: TxnOverlay, body: Seq<u8>, limit: usize) -> bool {
    o.put_bytes() + body.len() > limit
}

/// What staging a body comes to.
pub open spec fn put_outcome(
    before: TxnOverlay,
    after: TxnOverlay,
    ctx: StageCtx,
    body: Vec<u8>,
    limit: usize,
    r: Result<usize, Error>,
) -> bool {
    if exceeds(before, body@, limit) {
        r is Err && r->Err_0@ == (ErrorView::TxnOverlayMemoryExceeded { limit }) && same_overlay(
            before,
            after,
        )
    } else {
        r == Ok::<usize, Error>(1) && staged_row(before, after, ctx, Staged::Put(body))
    }
}

/// Stage a body, unless what is staged would take more than `limit` bytes.
pub fn stage_put_capped(o: &mut TxnOverlay, ctx: &StageCtx, body: Vec<u8>, limit: usize) -> (r:
    Result<usize, Error>)
    requires
        old(o).put_bytes() <= usize::MAX,
    ensures
        put_outcome(*old(o), *final(o), *ctx, body, limit, r),
{
    let current: usize = o.memory_size_estimate();
    if body.len() > limit || current > limit - body.len() {
        return Err(Error::TxnOverlayMemoryExceeded { limit });
    }
    o.insert_put(ctx.coll_key(), ctx.surrogate, ctx.document_id.as_str(), body);
    Ok(1)
}

/// An error that an earlier step came to is handed on, and nothing is staged.
pub open spec fn failed_with(
    before: TxnOverlay,
    after: TxnOverlay,
    e: Error,
    r: Result<usize, Error>,
) -> bool {
    r == Err::<usize, Error>(e) && same_overlay(before, after)
}

/// The steps before a put: the check of unique indexes, and the encoding of the
/// body.
pub struct PutSteps<U> {
    /// Of each index of a configured collection, whether it is unique.
    pub unique: Option<Vec<bool>>,
    /// Whether the incoming body is a document.
    pub decodes: bool,
    /// Holds the body against what is stored and against the bodies that it is
    /// given.
    pub check: U,
    pub encoded: Result<Vec<u8>, Error>,
}

pub open spec fn flags_of(unique: Option<Vec<bool>>) -> Option<Seq<bool>> {
    match unique {
        Some(u) => Some(u@),
        None => None,
    }
}

/// Whether `found` may come of the check of unique indexes: it is made against
/// the other rows that the transaction has staged, where it is due.
pub open spec fn may_check<U: Fn(&Vec<(u32, Vec<u8>)>) -> Result<(), Error>>(
    before: TxnOverlay,
    row: ((u64, u64, Seq<char>), u32),
    steps: PutSteps<U>,
    found: Result<(), Error>,
) -> bool {
    if checks_unique(flags_of(steps.unique), steps.decodes) {
        exists|others: Vec<(u32, Vec<u8>)>|
            lists_others(others@, before, row) && #[trigger] steps.check.ensures((&others,), found)
    } else {
        found is Ok
    }
}

/// What a put comes to once the check has found something or nothing.
pub open spec fn put_after_check(
    before: TxnOverlay,
    after: TxnOverlay,
    ctx: StageCtx,
    found: Result<(), Error>,
    encoded: Result<Vec<u8>, Error>,
    limit: usize,
    r: Result<usize, Error>,
) -> bool {
    match found {
        Err(e) => failed_with(before, after, e, r),
        Ok(_) => match encoded {
            Err(e) => failed_with(before, after, e, r),
            Ok(body) => put_outcome(before, after, ctx, body, limit, r),
        },
    }
}

pub open spec fn checked_put<U: Fn(&Vec<(u32, Vec<u8>)>) -> Result<(), Error>>(
    before: TxnOverlay,
    after: TxnOverlay,
    ctx: StageCtx,
    steps: PutSteps<U>,
    limit: usize,
    r: Result<usize, Error>,
) -> bool {
    exists|found: Result<(), Error>| #[trigger]
        may_check(before, row_of(ctx), steps, found) && put_after_check(
            before,
            after,
            ctx,
            found,
            steps.encoded,
            limit,
            r,
        )
}

/// Stage a put: there is no check for an existing row, but unique indexes hold.
pub fn stage_point_put<U: Fn(&Vec<(u32, Vec<u8>)>) -> Result<(), Error>>(
    o: &mut TxnOverlay,
    ctx: &StageCtx,
    steps: PutSteps<U>,
    limit: usize,
) -> (r: Result<usize, Error>)
    requires
        old(o).put_bytes() <= usize::MAX,
        forall|l: &Vec<(u32, Vec<u8>)>| #[trigger] steps.check.requires((l,)),
    ensures
        checked_put(*old(o), *final(o), *ctx, steps, limit, r),
{
    let ghost given = steps;
    let flags = match &steps.unique {
        Some(flags) => Some(flags),
        None => None,
    };
    let found: Result<(), Error> = match stage_check_unique(o, ctx, flags, steps.decodes) {
        None => Ok(()),
        Some(others) => {
            let check = steps.check;
            let found = check(&others);
            proof {
                assert(given.check.ensures((&others,), found));
            }
            found
        },
    };
    proof {
        assert(may_check(*old(o), row_of(*ctx), given, found));
    }
    match found {
        Err(e) => {
            return Err(e);
        },
        Ok(_) => {},
    }
    match steps.encoded {
        Err(e) => Err(e),
        Ok(body) => stage_put_capped(o, ctx, body, limit),
    }
}

/// Whether a row is there: by the overlay where it is staged, else by what is
/// stored.
pub open spec fn presence(pk: OverlayPk, stored: Result<bool, Error>) -> Result<bool, Error> {
    match pk {
        OverlayPk::Present => Ok(true),
        OverlayPk::Absent => Ok(false),
        OverlayPk::Unstaged => stored,
    }
}

pub open spec fn duplicate_text(key: Seq<char>, collection: Seq<char>) -> Seq<char> {
    "duplicate key value '"@ + (key + ("' violates primary-key uniqueness on '"@ + (collection
        + "'"@)))
}

pub open spec fn duplicate(key: Seq<char>, collection: Seq<char>) -> ErrorView {
    ErrorView::RejectedConstraint {
        collection,
        constraint: "unique"@,
        detail: duplicate_text(key, collection),
    }
}

pub(crate) fn duplicate_error(key: &str, collection: &str) -> (r: Error)
    ensures
        r@ == duplicate(key@, collection@),
{
    let mut detail = "duplicate key value '".to_owned();
    detail.append(key);
    detail.append("' violates primary-key uniqueness on '");
    detail.append(collection);
    detail.append("'");
    proof {
        assert(detail@ =~= duplicate_text(key@, collection@));
    }
    Error::RejectedConstraint {
        collection: collection.to_owned(),
        constraint: "unique".to_owned(),
        detail,
    }
}

/// What an insert comes to. A row that is there already refuses it, or leaves it
/// without effect where that was asked for.
pub open spec fn insert_outcome<U: Fn(&Vec<(u32, Vec<u8>)>) -> Result<(), Error>>(
    before: TxnOverlay,
    after: TxnOverlay,
    ctx: StageCtx,
    if_absent: bool,
    stored: Result<bool, Error>,
    steps: PutSteps<U>,
    limit: usize,
    r: Result<usize, Error>,
) -> bool {
    match presence(overlay_pk(before, row_of(ctx)), stored) {
        Err(e) => failed_with(before, after, e, r),
        Ok(true) => same_overlay(before, after) && if if_absent {
            r == Ok::<usize, Error>(0)
        } else {
            r is Err && r->Err_0@ == duplicate(ctx.document_id@, ctx.collection@)
        },
        Ok(false) => checked_put(before, after, ctx, steps, limit, r),
    }
}

/// Stage an insert.
pub fn stage_point_insert<U: Fn(&Vec<(u32, Vec<u8>)>) -> Result<(), Error>>(
    o: &mut TxnOverlay,
    ctx: &StageCtx,
    if_absent: bool,
    stored: Result<bool, Error>,
    steps: PutSteps<U>,
    limit: usize,
) -> (r: Result<usize, Error>)
    requires
        old(o).put_bytes() <= usize::MAX,
        forall|l: &Vec<(u32, Vec<u8>)>| #[trigger] steps.check.requires((l,)),
    ensures
        insert_outcome(*old(o), *final(o), *ctx, if_absent, stored, steps, limit, r),
{
    let present = match stage_overlay_pk(o, ctx) {
        OverlayPk::Present => true,
        OverlayPk::Absent => false,
        OverlayPk::Unstaged => match stored {
            Ok(present) => present,
            Err(e) => {
                return Err(e);
            },
        },
    };
    if present {
        if if_absent {
            return Ok(0);
        }
        return Err(duplicate_error(ctx.document_id.as_str(), ctx.collection.as_str()));
    }
    stage_point_put(o, ctx, steps, limit)
}

/// Stage a delete.
pub fn stage_point_delete(o: &mut TxnOverlay, ctx: &StageCtx) -> (r: usize)
    ensures
        r == 1,
        staged_row(*old(o), *final(o), *ctx, Staged::Tombstone),
{
    o.insert_tombstone(ctx.coll_key(), ctx.surrogate, ctx.document_id.as_str());
    1
}

/// The body that an update starts from: the staged one, none where the row is
/// staged as deleted, else the stored one.
pub open spec fn current_body(
    o: TxnOverlay,
    row: ((u64, u64, Seq<char>), u32),
    stored: Result<Option<Vec<u8>>, Error>,
) -> Result<Option<Seq<u8>>, Error> {
    if o.rows().contains_key(row) {
        match o.rows()[row] {
            Staged::Put(body) => Ok(Some(body@)),
            Staged::Tombstone => Ok(None),
        }
    } else {
        match stored {
            Ok(Some(body)) => Ok(Some(body@)),
            Ok(None) => Ok(None),
            Err(e) => Err(e),
        }
    }
}

/// The body that an update starts from.
pub fn stage_current_body(
    o: &TxnOverlay,
    ctx: &StageCtx,
    stored: Result<Option<Vec<u8>>, Error>,
) -> (r: Result<Option<Vec<u8>>, Error>)
    ensures
        match current_body(*o, row_of(*ctx), stored) {
            Ok(Some(body)) => r is Ok && r->Ok_0 is Some && r->Ok_0->0@ == body,
            Ok(None) => r is Ok && r->Ok_0 is None,
            Err(e) => r == Err::<Option<Vec<u8>>, Error>(e),
        },
{
    match o.get(&ctx.coll_key(), ctx.surrogate) {
        Some(Staged::Put(body)) => Ok(Some(text::copy_bytes(body.as_slice()))),
        Some(Staged::Tombstone) => Ok(None),
        None => stored,
    }
}

/// What an update comes to where it makes `applied` of the body it starts from.
pub open spec fn update_outcome(
    before: TxnOverlay,
    after: TxnOverlay,
    ctx: StageCtx,
    applied: Result<Vec<u8>, Error>,
    limit: usize,
    r: Result<usize, Error>,
) -> bool {
    match applied {
        Err(e) => failed_with(before, after, e, r),
        Ok(body) => put_outcome(before, after, ctx, body, limit, r),
    }
}

/// Whether `applied` may come of the update on a body.
pub open spec fn may_apply<F: Fn(&Vec<u8>) -> Result<Vec<u8>, Error>>(
    apply: F,
    body: Seq<u8>,
    applied: Result<Vec<u8>, Error>,
) -> bool {
    exists|cur: Vec<u8>| cur@ == body && #[trigger] apply.ensures((&cur,), applied)
}

/// What an update comes to: nothing where a column may not be updated or the row
/// is not there.
pub open spec fn point_updated<F: Fn(&Vec<u8>) -> Result<Vec<u8>, Error>>(
    before: TxnOverlay,
    after: TxnOverlay,
    ctx: StageCtx,
    readonly: Result<(), Error>,
    stored: Result<Option<Vec<u8>>, Error>,
    apply: F,
    limit: usize,
    r: Result<usize, Error>,
) -> bool {
    match readonly {
        Err(e) => failed_with(before, after, e, r),
        Ok(_) => match current_body(before, row_of(ctx), stored) {
            Err(e) => failed_with(before, after, e, r),
            Ok(None) => r == Ok::<usize, Error>(0) && same_overlay(before, after),
            Ok(Some(body)) => exists|applied: Result<Vec<u8>, Error>| #[trigger]
                may_apply(apply, body, applied) && update_outcome(
                    before,
                    after,
                    ctx,
                    applied,
                    limit,
                    r,
                ),
        },
    }
}

/// Stage an update. `readonly` says whether every updated column may be updated,
/// `apply` makes the new body of the one that the update starts from.
pub fn stage_point_update<F: Fn(&Vec<u8>) -> Result<Vec<u8>, Error>>(
    o: &mut TxnOverlay,
    ctx: &StageCtx,
    readonly: Result<(), Error>,
    stored: Result<Option<Vec<u8>>, Error>,
    apply: F,
    limit: usize,
) -> (r: Result<usize, Error>)
    requires
        old(o).put_bytes() <= usize::MAX,
        forall|b: &Vec<u8>| #[trigger] apply.requires((b,)),
    ensures
        point_updated(*old(o), *final(o), *ctx, readonly, stored, apply, limit, r),
{
    match readonly {
        Err(e) => {
            return Err(e);
        },
        Ok(_) => {},
    }
    let current = match stage_current_body(o, ctx, stored) {
        Err(e) => {
            return Err(e);
        },
        Ok(None) => {
            return Ok(0);
        },
        Ok(Some(current)) => current,
    };
    let applied = apply(&current);
    proof {
        assert(may_apply(apply, current@, applied));
    }
    match applied {
        Err(e) => Err(e),
        Ok(body) => stage_put_capped(o, ctx, body, limit),
    }
}

/// Whether `b` is the staged body of another row of the collection.
pub open spec fn is_other(o: TxnOverlay, row: ((u64, u64, Seq<char>), u32), s: u32, b: Seq<u8>) -> bool {
    s != row.1 && o.rows().contains_key((row.0, s)) && (o.rows()[(row.0, s)] matches Staged::Put(
        body,
    ) && body@ == b)
}

/// Whether a list holds the staged bodies of the other rows of the collection,
/// each with its surrogate.
pub open spec fn lists_others(
    l: Seq<(u32, Vec<u8>)>,
    o: TxnOverlay,
    row: ((u64, u64, Seq<char>), u32),
) -> bool {
    &&& forall|i: int| 0 <= i < l.len() ==> is_other(o, row, (#[trigger] l[i]).0, l[i].1@)
    &&& forall|s: u32, b: Seq<u8>| #[trigger]
        is_other(o, row, s, b) ==> exists|i: int|
            0 <= i < l.len() && (#[trigger] l[i]).0 == s && l[i].1@ == b
}

/// The staged bodies of the other rows of the collection.
pub fn staged_others(o: &TxnOverlay, ctx: &StageCtx) -> (r: Vec<(u32, Vec<u8>)>)
    ensures
        lists_others(r@, *o, row_of(*ctx)),
{
    let pairs = o.iter_for_collection(&ctx.coll_key());
    let ghost row = row_of(*ctx);
    let mut out: Vec<(u32, Vec<u8>)> = Vec::new();
    let mut i: usize = 0;
    while i < pairs.len()
        invariant
            i <= pairs@.len(),
            row == row_of(*ctx),
            forall|j: int|
                0 <= j < pairs@.len() ==> o.rows().contains_key((row.0, (#[trigger] pairs@[j]).0))
                    && *pairs@[j].1 == o.rows()[(row.0, pairs@[j].0)],
            forall|j: int|
                0 <= j < out@.len() ==> is_other(*o, row, (#[trigger] out@[j]).0, out@[j].1@),
            forall|j: int|
                #![trigger pairs@[j]]
                0 <= j < i && pairs@[j].0 != row.1 && *pairs@[j].1 is Put ==> exists|q: int|
                    0 <= q < out@.len() && (#[trigger] out@[q]).0 == pairs@[j].0 && out@[q].1@
                        == (*pairs@[j].1)->Put_0@,
        decreases pairs.len() - i,
    {
        let ghost before = out@;
        let s: u32 = pairs[i].0;
        if s != ctx.surrogate {
            match pairs[i].1 {
                Staged::Put(body) => {
                    out.push((s, text::copy_bytes(body.as_slice())));
                    proof {
                        assert(out@[before.len() as int].0 == s);
                    }
                },
                Staged::Tombstone => {},
            }
        }
        proof {
            assert forall|j: int|
                #![trigger pairs@[j]]
                0 <= j < i + 1 && pairs@[j].0 != row.1 && *pairs@[j].1 is Put implies exists|q: int|
                0 <= q < out@.len() && (#[trigger] out@[q]).0 == pairs@[j].0 && out@[q].1@
                    == (*pairs@[j].1)->Put_0@ by {
                if j < i {
                    let q = choose|q: int|
                        0 <= q < before.len() && (#[trigger] before[q]).0 == pairs@[j].0
                            && before[q].1@ == (*pairs@[j].1)->Put_0@;
                    assert(out@[q] == before[q]);
                } else {
                    assert(out@[before.len() as int].0 == s);
                }
            }
        }
        i = i + 1;
    }
    proof {
        assert forall|s: u32, b: Seq<u8>| #[trigger] is_other(*o, row, s, b) implies exists|i: int|
            0 <= i < out@.len() && (#[trigger] out@[i]).0 == s && out@[i].1@ == b by {
            assert(o.rows().contains_key((row.0, s)));
            let j = choose|j: int| 0 <= j < pairs@.len() && (#[trigger] pairs@[j]).0 == s;
            assert(*pairs@[j].1 == o.rows()[(row.0, s)]);
        }
    }
    out
}

/// Whether an incoming body is held against unique indexes: the collection has
/// one, and the body is a document.
pub open spec fn checks_unique(unique: Option<Seq<bool>>, decodes: bool) -> bool {
    unique is Some && unique->0.contains(true) && decodes
}

/// What an incoming body must not clash with on a unique index, besides the
/// stored rows; nothing where no check is due. `unique` says of each index of a
/// configured collection whether it is unique.
pub fn stage_check_unique(
    o: &TxnOverlay,
    ctx: &StageCtx,
    unique: Option<&Vec<bool>>,
    decodes: bool,
) -> (r: Option<Vec<(u32, Vec<u8>)>>)
    ensures
        r is Some == checks_unique(
            match unique {
                Some(u) => Some(u@),
                None => None,
            },
            decodes,
        ),
        r is Some ==> lists_others(r->0@, *o, row_of(*ctx)),
{
    let flags = match unique {
        Some(flags) => flags,
        None => {
            return None;
        },
    };
    let mut any = false;
    let mut i: usize = 0;
    while i < flags.len()
        invariant
            i <= flags@.len(),
            any == exists|j: int| 0 <= j < i && #[trigger] flags@[j],
        decreases flags.len() - i,
    {
        any = any || flags[i];
        i = i + 1;
    }
    proof {
        if any {
            let j = choose|j: int| 0 <= j < flags@.len() && #[trigger] flags@[j];
            assert(flags@[j] == true);
        }
    }
    if any && decodes {
        Some(staged_others(o, ctx))
    } else {
        None
    }
}

/// A transaction reads its own writes: after a put the overlay has the row,
/// after a delete it has it as gone, and other rows are as they were.
pub proof fn law_a_transaction_reads_its_own_writes(
    before: TxnOverlay,
    after: TxnOverlay,
    ctx: StageCtx,
    s: Staged,
    other: ((u64, u64, Seq<char>), u32),
)
    requires
        staged_row(before, after, ctx, s),
    ensures
        overlay_pk(after, row_of(ctx)) == (match s {
            Staged::Put(_) => OverlayPk::Present,
            Staged::Tombstone => OverlayPk::Absent,
        }),
        other != row_of(ctx) ==> overlay_pk(after, other) == overlay_pk(before, other),
{
}

/// What is staged never takes more than the limit.
pub proof fn law_the_overlay_stays_within_its_limit(
    before: TxnOverlay,
    after: TxnOverlay,
    ctx: StageCtx,
    body: Vec<u8>,
    limit: usize,
    r: Result<usize, Error>,
)
    requires
        put_outcome(before, after, ctx, body, limit, r),
        before.put_bytes() <= limit,
    ensures
        after.put_bytes() <= limit,
{
}

/// A body is staged exactly where it fits beside what is staged already: then the
/// row holds it, the document id leads to the row, and nothing else changes. Where
/// it does not fit nothing changes at all.
pub proof fn law_a_body_is_staged_where_it_fits(
    before: TxnOverlay,
    after: TxnOverlay,
    ctx: StageCtx,
    body: Vec<u8>,
    limit: usize,
    r: Result<usize, Error>,
)
    requires
        put_outcome(before, after, ctx, body, limit, r),
    ensures
        r is Ok <==> before.put_bytes() + body@.len() <= limit,
        r matches Ok(n) ==> {
            let place = (ctx.database_id, ctx.tid, ctx.collection@);
            let row = (place, ctx.surrogate);
            &&& n == 1
            &&& after.rows().contains_key(row)
            &&& after.rows()[row] == Staged::Put(body)
            &&& forall|q: ((u64, u64, Seq<char>), u32)|
                q != row ==> #[trigger] after.rows().contains_key(q) == before.rows().contains_key(
                    q,
                ) && (before.rows().contains_key(q) ==> after.rows()[q] == before.rows()[q])
            &&& after.ids().contains_key((place, ctx.document_id@))
            &&& after.ids()[(place, ctx.document_id@)] == ctx.surrogate
            &&& forall|q: ((u64, u64, Seq<char>), Seq<char>)|
                q != (place, ctx.document_id@) ==> #[trigger] after.ids().contains_key(q)
                    == before.ids().contains_key(q) && (before.ids().contains_key(q)
                    ==> after.ids()[q] == before.ids()[q])
            &&& after.ttls() == before.ttls()
        },
        r matches Err(e) ==> e@ == (ErrorView::TxnOverlayMemoryExceeded { limit }) && after.rows()
            == before.rows() && after.ids() == before.ids() && after.ttls() == before.ttls()
            && after.put_bytes() == before.put_bytes(),
{
}

/// Of an insert: a row that the transaction put, or that is stored and that it has
/// not deleted, is there. A row that is there is not written again: the insert is
/// refused as a duplicate, or affects nothing where it may find the row. A row that
/// the transaction deleted can be inserted, whatever is stored.
pub proof fn law_an_insert_writes_no_row_twice<
    U: Fn(&Vec<(u32, Vec<u8>)>) -> Result<(), Error>,
>(
    before: TxnOverlay,
    after: TxnOverlay,
    ctx: StageCtx,
    if_absent: bool,
    stored: Result<bool, Error>,
    steps: PutSteps<U>,
    limit: usize,
    r: Result<usize, Error>,
)
    requires
        insert_outcome(before, after, ctx, if_absent, stored, steps, limit, r),
    ensures
        ({
            let row = ((ctx.database_id, ctx.tid, ctx.collection@), ctx.surrogate);
            let staged = before.rows().contains_key(row);
            let there = (staged && before.rows()[row] is Put) || (!staged && stored
                == Ok::<bool, Error>(true));
            let gone = (staged && before.rows()[row] is Tombstone) || (!staged && stored
                == Ok::<bool, Error>(false));
            &&& there ==> after.rows() == before.rows() && after.ids() == before.ids()
            &&& there && if_absent ==> r == Ok::<usize, Error>(0)
            &&& there && !if_absent ==> (r matches Err(e) && e@ == (ErrorView::RejectedConstraint {
                collection: ctx.collection@,
                constraint: "unique"@,
                detail: "duplicate key value '"@ + (ctx.document_id@ + (
                "' violates primary-key uniqueness on '"@ + (ctx.collection@ + "'"@))),
            }))
            &&& !staged && stored is Err ==> r is Err && Err::<bool, Error>(r->Err_0) == stored
                && after.rows() == before.rows() && after.ids() == before.ids()
            &&& gone && !(steps.unique matches Some(u) && u@.contains(true)) && (
            steps.encoded matches Ok(body) && before.put_bytes() + body@.len() <= limit) ==> r
                == Ok::<usize, Error>(1) && after.rows().contains_key(row) && after.rows()[row]
                == Staged::Put(steps.encoded->Ok_0)
        }),
{
}

/// An update starts from the body that the transaction sees, its own before the
/// stored one, and leaves what it makes of that; a row that is not there is not
/// updated.
pub proof fn law_an_update_starts_from_the_current_body<
    F: Fn(&Vec<u8>) -> Result<Vec<u8>, Error>,
>(
    before: TxnOverlay,
    after: TxnOverlay,
    ctx: StageCtx,
    readonly: Result<(), Error>,
    stored: Result<Option<Vec<u8>>, Error>,
    apply: F,
    limit: usize,
    r: Result<usize, Error>,
)
    requires
        point_updated(before, after, ctx, readonly, stored, apply, limit, r),
    ensures
        ({
            let row = ((ctx.database_id, ctx.tid, ctx.collection@), ctx.surrogate);
            let staged = before.rows().contains_key(row);
            let gone = (staged && before.rows()[row] is Tombstone) || (!staged && stored
                == Ok::<Option<Vec<u8>>, Error>(None));
            &&& readonly is Err ==> r is Err && Err::<(), Error>(r->Err_0) == readonly
            &&& readonly is Ok && gone ==> r == Ok::<usize, Error>(0)
            &&& readonly is Err || gone || r is Err ==> after.rows() == before.rows() && after.ids()
                == before.ids()
            &&& r == Ok::<usize, Error>(1) ==> exists|cur: Vec<u8>, made: Vec<u8>|
                #![trigger apply.ensures((&cur,), Ok::<Vec<u8>, Error>(made))]
                {
                    &&& staged ==> before.rows()[row] is Put && cur@ == before.rows()[row]->Put_0@
                    &&& !staged ==> stored is Ok && stored->Ok_0 is Some && cur@
                        == stored->Ok_0->0@
                    &&& apply.ensures((&cur,), Ok::<Vec<u8>, Error>(made))
                    &&& after.rows().contains_key(row)
                    &&& after.rows()[row] == Staged::Put(made)
                }
        }),
{
    if r == Ok::<usize, Error>(1) {
        let body = current_body(before, row_of(ctx), stored)->Ok_0->0;
        let applied = choose|applied: Result<Vec<u8>, Error>| #[trigger]
            may_apply(apply, body, applied) && update_outcome(
                before,
                after,
                ctx,
                applied,
                limit,
                r,
            );
        let cur = choose|cur: Vec<u8>| cur@ == body && #[trigger] apply.ensures((&cur,), applied);
        let made = applied->Ok_0;
        assert(apply.ensures((&cur,), Ok::<Vec<u8>, Error>(made)));
    }
}

/// Uniqueness is checked exactly where the body is a document and some index of
/// the collection is unique, and then against the body of every other row that the
/// transaction put in the collection and against nothing else.
pub proof fn law_uniqueness_is_checked_against_the_other_rows(
    l: Seq<(u32, Vec<u8>)>,
    o: TxnOverlay,
    place: (u64, u64, Seq<char>),
    surrogate: u32,
    unique: Option<Seq<bool>>,
    decodes: bool,
)
    requires
        lists_others(l, o, (place, surrogate)),
    ensures
        checks_unique(unique, decodes) <==> decodes && (unique matches Some(u) && exists|i: int|
            0 <= i < u.len() && #[trigger] u[i]),
        forall|i: int|
            0 <= i < l.len() ==> (#[trigger] l[i]).0 != surrogate && o.rows().contains_key(
                (place, l[i].0),
            ) && (o.rows()[(place, l[i].0)] matches Staged::Put(b) && b@ == l[i].1@),
        forall|s: u32|
            s != surrogate && #[trigger] o.rows().contains_key((place, s)) && o.rows()[(
                place,
                s,
            )] is Put ==> exists|i: int|
                0 <= i < l.len() && (#[trigger] l[i]).0 == s && l[i].1@ == o.rows()[(
                    place,
                    s,
                )]->Put_0@,
{
    assert forall|i: int| 0 <= i < l.len() implies (#[trigger] l[i]).0 != surrogate
        && o.rows().contains_key((place, l[i].0)) && (o.rows()[(place, l[i].0)] matches Staged::Put(
        b,
    ) && b@ == l[i].1@) by {
        assert(is_other(o, (place, surrogate), l[i].0, l[i].1@));
    }
    assert forall|s: u32|
        s != surrogate && #[trigger] o.rows().contains_key((place, s)) && o.rows()[(
            place,
            s,
        )] is Put implies exists|i: int|
        0 <= i < l.len() && (#[trigger] l[i]).0 == s && l[i].1@ == o.rows()[(place, s)]->Put_0@ by {
        assert(is_other(o, (place, surrogate), s, o.rows()[(place, s)]->Put_0@));
    }
    if let Some(u) = unique {
        if u.contains(true) {
            let i = choose|i: int| 0 <= i < u.len() && u[i] == true;
            assert(u[i]);
        }
    }
}

} // verus!
