//! Timeseries inserts within a transaction: one staged row per inserted row,
//! under the surrogate that was minted for it, with the row's fields as they were
//! written.
use crate::error::{ErrorCode, ErrorCodeView, ErrorView};
use crate::hex;
use crate::ids::Surrogate;
use crate::overlay::staged::TxnOverlay;
use crate::transaction::stage_write;
use crate::transaction::stage_write::{StageCtx, StageError};
use vstd::prelude::*;
use vstd::string::*;

verus! {

/// An element of a payload.
pub enum TsRow {
    /// A map of fields, encoded, or why it cannot be.
    Fields(Result<Vec<u8>, String>),
    /// Anything else.
    Other,
}

/// A decoded payload.
pub enum TsPayload {
    List(Vec<TsRow>),
    /// A single map of fields.
    Single(TsRow),
    /// A value that is neither a list nor a map.
    Neither,
    /// Not decodable, with the reason.
    Invalid(String),
}

/// Why staging stopped.
pub enum TsStop {
    MissingSurrogate,
    Encode(Seq<char>),
    Full,
}

/// A staging in progress.
#[verifier::ext_equal]
pub struct TsStaged {
    pub state: stage_write::OverlayState,
    pub staged: nat,
    pub stop: Option<TsStop>,
}

/// The staging of rows in turn. What is no map of fields is passed over.
pub open spec fn ts_staged(
    s: stage_write::OverlayState,
    place: (u64, u64, Seq<char>),
    rows: Seq<TsRow>,
    surrogates: Seq<u32>,
    limit: usize,
) -> TsStaged
    decreases rows.len(),
{
    if rows.len() == 0 {
        TsStaged { state: s, staged: 0, stop: None }
    } else {
        let before = ts_staged(s, place, rows.drop_last(), surrogates, limit);
        if before.stop is Some {
            before
        } else {
            match rows.last() {
                TsRow::Other => before,
                TsRow::Fields(encoded) => if rows.len() > surrogates.len() {
                    TsStaged { stop: Some(TsStop::MissingSurrogate), ..before }
                } else {
                    match encoded {
                        Err(e) => TsStaged { stop: Some(TsStop::Encode(e@)), ..before },
                        Ok(body) => if before.state.bytes + body@.len() > limit {
                            TsStaged { stop: Some(TsStop::Full), ..before }
                        } else {
                            let surrogate = surrogates[rows.len() - 1];
                            TsStaged {
                                state: stage_write::put_state(
                                    before.state,
                                    (place, surrogate),
                                    hex::row_key(surrogate),
                                    body,
                                ),
                                staged: before.staged + 1,
                                stop: None,
                            }
                        },
                    }
                },
            }
        }
    }
}

/// Once staging has stopped, it stays where it is.
proof fn lemma_stop_stays(
    s: stage_write::OverlayState,
    place: (u64, u64, Seq<char>),
    rows: Seq<TsRow>,
    surrogates: Seq<u32>,
    limit: usize,
    i: int,
)
    requires
        0 <= i <= rows.len(),
        ts_staged(s, place, rows.take(i), surrogates, limit).stop is Some,
    ensures
        ts_staged(s, place, rows, surrogates, limit) == ts_staged(
            s,
            place,
            rows.take(i),
            surrogates,
            limit,
        ),
    decreases rows.len(),
{
    if i == rows.len() {
        assert(rows.take(i) =~= rows);
    } else {
        assert(rows.drop_last().take(i) =~= rows.take(i));
        lemma_stop_stays(s, place, rows.drop_last(), surrogates, limit, i);
    }
}

/// No more rows are staged than there are.
proof fn lemma_staged_count(
    s: stage_write::OverlayState,
    place: (u64, u64, Seq<char>),
    rows: Seq<TsRow>,
    surrogates: Seq<u32>,
    limit: usize,
)
    ensures
        ts_staged(s, place, rows, surrogates, limit).staged <= rows.len(),
    decreases rows.len(),
{
    if rows.len() > 0 {
        lemma_staged_count(s, place, rows.drop_last(), surrogates, limit);
    }
}

pub open spec fn encode_text(e: Seq<char>) -> Seq<char> {
    "timeseries insert: row encode failed: "@ + e
}

pub open spec fn invalid_text(e: Seq<char>) -> Seq<char> {
    "timeseries insert: invalid payload: "@ + e
}

/// What a staging is answered with.
pub open spec fn ts_answer(t: TsStaged, limit: usize, r: Result<usize, StageError>) -> bool {
    match t.stop {
        None => r matches Ok(n) && n == t.staged,
        Some(TsStop::MissingSurrogate) => failed_as(
            r,
            "timeseries insert: missing surrogate for staged row"@,
        ),
        Some(TsStop::Encode(e)) => failed_as(r, encode_text(e)),
        Some(TsStop::Full) => r matches Err(StageError::Refused(e)) && e@ == (
        ErrorView::TxnOverlayMemoryExceeded { limit }),
    }
}

/// Whether an insert failed with a text.
pub open spec fn failed_as(r: Result<usize, StageError>, detail: Seq<char>) -> bool {
    r matches Err(StageError::Failed(c)) && c@ == (ErrorCodeView::Internal { detail })
}

fn failure(prefix: &str, e: &str) -> (r: StageError)
    ensures
        r matches StageError::Failed(c) && c@ == (ErrorCodeView::Internal { detail: prefix@ + e@ }),
{
    let mut detail = prefix.to_owned();
    detail.append(e);
    StageError::Failed(ErrorCode::Internal { detail })
}

fn plain_failure(detail: &str) -> (r: StageError)
    ensures
        r matches StageError::Failed(c) && c@ == (ErrorCodeView::Internal { detail: detail@ }),
{
    StageError::Failed(ErrorCode::Internal { detail: detail.to_owned() })
}

/// Stage the rows of a decoded payload. `surrogates` holds the surrogate of each.
pub fn stage_timeseries_rows(
    o: &mut TxnOverlay,
    database_id: u64,
    tid: u64,
    collection: &str,
    rows: Vec<TsRow>,
    surrogates: &Vec<u32>,
    limit: usize,
) -> (r: Result<usize, StageError>)
    requires
        old(o).put_bytes() <= usize::MAX,
    ensures
        ({
            let t = ts_staged(
                stage_write::state_of(*old(o)),
                (database_id, tid, collection@),
                rows@,
                surrogates@,
                limit,
            );
            &&& stage_write::state_of(*final(o)) == t.state
            &&& final(o).ttls() == old(o).ttls()
            &&& ts_answer(t, limit, r)
        }),
{
    let ghost place = (database_id, tid, collection@);
    let ghost start = stage_write::state_of(*o);
    let ghost all = rows@;
    let n: usize = rows.len();
    let mut staged: usize = 0;
    let mut i: usize = 0;
    proof {
        assert(all.take(0) =~= Seq::empty());
    }
    for row in it: rows.into_iter()
        invariant
            it.seq() == all,
            all.len() == n,
            i == it.index(),
            place == (database_id, tid, collection@),
            start == stage_write::state_of(*old(o)),
            o.ttls() == old(o).ttls(),
            o.put_bytes() <= usize::MAX,
            ts_staged(start, place, all.take(i as int), surrogates@, limit) == (TsStaged {
                state: stage_write::state_of(*o),
                staged: staged as nat,
                stop: None,
            }),
    {
        let ghost next = all.take(i + 1);
        proof {
            assert(next.drop_last() =~= all.take(i as int));
            assert(next.last() == row);
            lemma_staged_count(start, place, all.take(i as int), surrogates@, limit);
            if ts_staged(start, place, next, surrogates@, limit).stop is Some {
                lemma_stop_stays(start, place, all, surrogates@, limit, i + 1);
            }
        }
        let ghost before = *o;
        match row {
            TsRow::Other => {},
            TsRow::Fields(encoded) => {
                if i >= surrogates.len() {
                    return Err(
                        plain_failure("timeseries insert: missing surrogate for staged row"),
                    );
                }
                let surrogate: u32 = surrogates[i];
                let body = match encoded {
                    Err(e) => {
                        return Err(failure("timeseries insert: row encode failed: ", e.as_str()));
                    },
                    Ok(body) => body,
                };
                let doc_id = hex::surrogate_to_doc_id(Surrogate(surrogate));
                let ctx = StageCtx::new(database_id, tid, collection, doc_id.as_str(), surrogate);
                let ghost staged_body = body;
                let done = stage_write::stage_put_capped(o, &ctx, body, limit);
                match done {
                    Err(e) => {
                        proof {
                            assert(stage_write::state_of(*o) =~= stage_write::state_of(before));
                        }
                        return Err(StageError::Refused(e));
                    },
                    Ok(_) => {
                        proof {
                            assert(stage_write::state_of(*o) =~= stage_write::put_state(
                                stage_write::state_of(before),
                                (place, surrogate),
                                hex::row_key(surrogate),
                                staged_body,
                            ));
                        }
                        staged = staged + 1;
                    },
                }
            },
        }
        i = i + 1;
    }
    proof {
        assert(all.take(all.len() as int) =~= all);
    }
    Ok(staged)
}

/// The rows of a payload that has rows.
pub open spec fn rows_of(payload: TsPayload) -> Option<Seq<TsRow>> {
    match payload {
        TsPayload::List(rows) => Some(rows@),
        TsPayload::Single(row) => Some(seq![row]),
        _ => None,
    }
}

/// Stage a timeseries insert.
pub fn stage_timeseries_insert(
    o: &mut TxnOverlay,
    database_id: u64,
    tid: u64,
    collection: &str,
    payload: TsPayload,
    surrogates: &Vec<u32>,
    limit: usize,
) -> (r: Result<usize, StageError>)
    requires
        old(o).put_bytes() <= usize::MAX,
    ensures
        match rows_of(payload) {
            None => stage_write::same_overlay(*old(o), *final(o)) && match payload {
                TsPayload::Invalid(e) => failed_as(r, invalid_text(e@)),
                _ => failed_as(r, "timeseries insert: payload must be array or object"@),
            },
            Some(rows) => if rows.len() == 0 {
                stage_write::same_overlay(*old(o), *final(o)) && failed_as(r, "empty payload"@)
            } else {
                let t = ts_staged(
                    stage_write::state_of(*old(o)),
                    (database_id, tid, collection@),
                    rows,
                    surrogates@,
                    limit,
                );
                &&& stage_write::state_of(*final(o)) == t.state
                &&& final(o).ttls() == old(o).ttls()
                &&& ts_answer(t, limit, r)
            },
        },
{
    let ghost listed = rows_of(payload);
    let rows = match payload {
        TsPayload::List(rows) => rows,
        TsPayload::Single(row) => {
            let mut rows: Vec<TsRow> = Vec::new();
            rows.push(row);
            rows
        },
        TsPayload::Neither => {
            return Err(plain_failure("timeseries insert: payload must be array or object"));
        },
        TsPayload::Invalid(e) => {
            return Err(failure("timeseries insert: invalid payload: ", e.as_str()));
        },
    };
    proof {
        assert(rows@ =~= listed->0);
    }
    if rows.len() == 0 {
        return Err(plain_failure("empty payload"));
    }
    stage_timeseries_rows(o, database_id, tid, collection, rows, surrogates, limit)
}

/// Every row of a fully staged insert counts once: a payload of maps alone stages
/// as many rows as it holds.
pub proof fn law_every_row_is_staged(
    s: stage_write::OverlayState,
    place: (u64, u64, Seq<char>),
    rows: Seq<TsRow>,
    surrogates: Seq<u32>,
    limit: usize,
)
    requires
        forall|i: int| 0 <= i < rows.len() ==> #[trigger] rows[i] is Fields,
        ts_staged(s, place, rows, surrogates, limit).stop is None,
    ensures
        ts_staged(s, place, rows, surrogates, limit).staged == rows.len(),
    decreases rows.len(),
{
    if rows.len() > 0 {
        law_every_row_is_staged(s, place, rows.drop_last(), surrogates, limit);
        assert(rows[rows.len() - 1] is Fields);
    }
}

/// Staging rows touches no row of another collection, and stays within the limit
/// where it was within it before.
pub proof fn law_rows_are_staged_in_their_collection(
    s: stage_write::OverlayState,
    place: (u64, u64, Seq<char>),
    rows: Seq<TsRow>,
    surrogates: Seq<u32>,
    limit: usize,
    row: ((u64, u64, Seq<char>), u32),
)
    ensures
        ({
            let after = ts_staged(s, place, rows, surrogates, limit).state;
            &&& row.0 != place ==> after.rows.contains_key(row) == s.rows.contains_key(row) && (
            s.rows.contains_key(row) ==> after.rows[row] == s.rows[row])
            &&& s.rows.contains_key(row) ==> after.rows.contains_key(row)
            &&& s.bytes <= limit ==> after.bytes <= limit
        }),
    decreases rows.len(),
{
    if rows.len() > 0 {
        law_rows_are_staged_in_their_collection(
            s,
            place,
            rows.drop_last(),
            surrogates,
            limit,
            row,
        );
    }
}

/// Where staging was not stopped, every map of fields is staged under the surrogate
/// at its own position, the last one of that surrogate.
pub proof fn law_a_row_has_the_surrogate_at_its_position(
    s: stage_write::OverlayState,
    place: (u64, u64, Seq<char>),
    rows: Seq<TsRow>,
    surrogates: Seq<u32>,
    limit: usize,
    i: int,
    body: Vec<u8>,
)
    requires
        ts_staged(s, place, rows, surrogates, limit).stop is None,
        0 <= i < rows.len(),
        rows[i] == TsRow::Fields(Ok(body)),
        forall|j: int|
            i < j < rows.len() && (#[trigger] rows[j]) is Fields ==> surrogates[j] != surrogates[i],
    ensures
        i < surrogates.len(),
        ({
            let after = ts_staged(s, place, rows, surrogates, limit).state;
            let key = (place, hex::row_key(surrogates[i]));
            &&& after.rows.contains_key((place, surrogates[i]))
            &&& after.rows[(place, surrogates[i])] == crate::overlay::staged::Staged::Put(body)
            &&& after.ids.contains_key(key)
            &&& after.ids[key] == surrogates[i]
        }),
    decreases rows.len(),
{
    let short = rows.drop_last();
    if i < rows.len() - 1 {
        assert(rows[rows.len() - 1] == rows.last());
        assert forall|j: int| i < j < short.len() && (#[trigger] short[j]) is Fields implies
            surrogates[j] != surrogates[i] by {
            assert(short[j] == rows[j]);
        }
        law_a_row_has_the_surrogate_at_its_position(s, place, short, surrogates, limit, i, body);
        hex::law_row_key_parses_back(surrogates[i]);
        hex::law_row_key_parses_back(surrogates[rows.len() - 1]);
    }
}

/// The number of staged rows is that of the maps of fields; other values are passed
/// over.
pub proof fn law_only_maps_of_fields_are_staged(
    s: stage_write::OverlayState,
    place: (u64, u64, Seq<char>),
    rows: Seq<TsRow>,
    surrogates: Seq<u32>,
    limit: usize,
)
    requires
        ts_staged(s, place, rows, surrogates, limit).stop is None,
    ensures
        ts_staged(s, place, rows, surrogates, limit).staged == rows.filter(
            |r: TsRow| r is Fields,
        ).len(),
    decreases rows.len(),
{
    reveal(Seq::filter);
    if rows.len() > 0 {
        law_only_maps_of_fields_are_staged(s, place, rows.drop_last(), surrogates, limit);
    }
}

/// Staging stops at the first map of fields that has no surrogate, that cannot be
/// encoded or that does not fit, in this order of causes, and keeps what it staged
/// before.
pub proof fn law_why_staging_stops(
    s: stage_write::OverlayState,
    place: (u64, u64, Seq<char>),
    rows: Seq<TsRow>,
    surrogates: Seq<u32>,
    limit: usize,
) -> (k: int)
    requires
        ts_staged(s, place, rows, surrogates, limit).stop is Some,
    ensures
        0 <= k < rows.len(),
        rows[k] is Fields,
        ({
            let t = ts_staged(s, place, rows, surrogates, limit);
            let before = ts_staged(s, place, rows.take(k), surrogates, limit);
            let encoded = rows[k]->Fields_0;
            &&& before.stop is None
            &&& t.state == before.state
            &&& t.staged == before.staged
            &&& t.stop == Some(TsStop::MissingSurrogate) <==> k >= surrogates.len()
            &&& k < surrogates.len() && encoded is Err ==> t.stop == Some(
                TsStop::Encode(encoded->Err_0@),
            )
            &&& k < surrogates.len() && encoded is Ok ==> t.stop == Some(TsStop::Full)
                && before.state.bytes + encoded->Ok_0@.len() > limit
        }),
    decreases rows.len(),
{
    let short = rows.drop_last();
    if ts_staged(s, place, short, surrogates, limit).stop is Some {
        let k = law_why_staging_stops(s, place, short, surrogates, limit);
        assert(short.take(k) =~= rows.take(k));
        k
    } else {
        assert(rows.take(rows.len() - 1) =~= short);
        rows.len() - 1
    }
}

/// A payload that is a list is staged row by row, a single row as itself, and
/// anything else not at all.
pub proof fn law_which_rows_a_payload_holds(payload: TsPayload)
    ensures
        payload matches TsPayload::List(rows) ==> rows_of(payload) == Some(rows@),
        payload matches TsPayload::Single(row) ==> rows_of(payload) matches Some(rows)
            && rows.len() == 1 && rows[0] == row,
        rows_of(payload) is Some <==> (payload is List || payload is Single),
{
}

/// A staging succeeds where nothing stopped it, and tells how many rows it
/// staged; one that ran out of room says what the limit is.
pub proof fn law_when_a_staging_succeeds(t: TsStaged, limit: usize, r: Result<usize, StageError>)
    requires
        ts_answer(t, limit, r),
    ensures
        r is Ok <==> t.stop is None,
        r matches Ok(n) ==> n == t.staged,
        (r matches Err(StageError::Refused(e)) && e@ == (ErrorView::TxnOverlayMemoryExceeded {
            limit,
        })) <==> t.stop == Some(TsStop::Full),
{
}


} // verus!
