//! `INSERT ... SELECT` within a transaction: the rows that the source collection
//! shows to the transaction are staged in the target collection, each under the
//! surrogate that it has in the source.
use crate::error::{ErrorCode, ErrorCodeView, ErrorView};
use crate::hex;
use crate::ids::{DatabaseId, TenantId};
use crate::overlay::merge;
use crate::overlay::staged::TxnOverlay;
use crate::text;
use crate::transaction::stage_write;
use crate::transaction::stage_write::{StageCtx, StageError};
use vstd::prelude::*;
use vstd::string::*;

verus! {

/// A copy in progress.
#[verifier::ext_equal]
pub struct Copied {
    pub state: stage_write::OverlayState,
    pub inserted: nat,
    /// Whether the limit was met: no more is copied.
    pub full: bool,
}

/// The copy of rows in turn. A row whose key names no surrogate is left out.
pub open spec fn copied(
    s: stage_write::OverlayState,
    place: (u64, u64, Seq<char>),
    rows: Seq<(String, Vec<u8>)>,
    limit: usize,
) -> Copied
    decreases rows.len(),
{
    if rows.len() == 0 {
        Copied { state: s, inserted: 0, full: false }
    } else {
        let before = copied(s, place, rows.drop_last(), limit);
        let (row_key, body) = rows.last();
        if before.full {
            before
        } else {
            match hex::parsed_hex_u32(row_key@) {
                None => before,
                Some(surrogate) => if before.state.bytes + body@.len() > limit {
                    Copied { full: true, ..before }
                } else {
                    Copied {
                        state: stage_write::put_state(
                            before.state,
                            (place, surrogate),
                            row_key@,
                            body,
                        ),
                        inserted: before.inserted + 1,
                        full: false,
                    }
                },
            }
        }
    }
}

/// Once the limit is met, nothing more is copied.
proof fn lemma_full_stays(
    s: stage_write::OverlayState,
    place: (u64, u64, Seq<char>),
    rows: Seq<(String, Vec<u8>)>,
    limit: usize,
    i: int,
)
    requires
        0 <= i <= rows.len(),
        copied(s, place, rows.take(i), limit).full,
    ensures
        copied(s, place, rows, limit) == copied(s, place, rows.take(i), limit),
    decreases rows.len(),
{
    if i == rows.len() {
        assert(rows.take(i) =~= rows);
    } else {
        assert(rows.drop_last().take(i) =~= rows.take(i));
        lemma_full_stays(s, place, rows.drop_last(), limit, i);
    }
}

/// No more rows are copied than there are.
proof fn lemma_copied_count(
    s: stage_write::OverlayState,
    place: (u64, u64, Seq<char>),
    rows: Seq<(String, Vec<u8>)>,
    limit: usize,
)
    ensures
        copied(s, place, rows, limit).inserted <= rows.len(),
    decreases rows.len(),
{
    if rows.len() > 0 {
        lemma_copied_count(s, place, rows.drop_last(), limit);
    }
}

/// Whether a copy of `rows` was staged, and what it is answered with.
pub open spec fn copy_outcome(
    before: TxnOverlay,
    after: TxnOverlay,
    place: (u64, u64, Seq<char>),
    rows: Seq<(String, Vec<u8>)>,
    limit: usize,
    r: Result<u64, StageError>,
) -> bool {
    let c = copied(stage_write::state_of(before), place, rows, limit);
    &&& stage_write::state_of(after) == c.state
    &&& after.ttls() == before.ttls()
    &&& if c.full {
        r matches Err(StageError::Refused(e)) && e@ == (ErrorView::TxnOverlayMemoryExceeded {
            limit,
        })
    } else {
        r matches Ok(n) && n == c.inserted
    }
}

/// Stage rows in a collection, each under the surrogate that its key names.
pub fn stage_rows(
    o: &mut TxnOverlay,
    database_id: u64,
    tid: u64,
    target: &str,
    rows: Vec<(String, Vec<u8>)>,
    limit: usize,
) -> (r: Result<u64, StageError>)
    requires
        old(o).put_bytes() <= usize::MAX,
    ensures
        copy_outcome(*old(o), *final(o), (database_id, tid, target@), rows@, limit, r),
{
    let ghost place = (database_id, tid, target@);
    let ghost start = stage_write::state_of(*o);
    let ghost all = rows@;
    let n: usize = rows.len();
    let mut inserted: u64 = 0;
    proof {
        assert(all.take(0) =~= Seq::empty());
    }
    for row in it: rows.into_iter()
        invariant
            it.seq() == all,
            all.len() == n,
            place == (database_id, tid, target@),
            start == stage_write::state_of(*old(o)),
            o.ttls() == old(o).ttls(),
            o.put_bytes() <= usize::MAX,
            copied(start, place, all.take(it.index() as int), limit) == (Copied {
                state: stage_write::state_of(*o),
                inserted: inserted as nat,
                full: false,
            }),
    {
        let ghost i = it.index() as int;
        let ghost next = all.take(i + 1);
        proof {
            assert(next.drop_last() =~= all.take(i));
            assert(next.last() == row);
            lemma_copied_count(start, place, next, limit);
            lemma_copied_count(start, place, all.take(i), limit);
        }
        let ghost before = *o;
        let (row_key, body) = row;
        let chars = text::to_chars(row_key.as_str());
        match hex::parse_hex_u32(&chars) {
            None => {},
            Some(surrogate) => {
                let ctx = StageCtx::new(database_id, tid, target, row_key.as_str(), surrogate);
                let ghost staged_body = body;
                let done = stage_write::stage_put_capped(o, &ctx, body, limit);
                match done {
                    Err(e) => {
                        proof {
                            assert(copied(start, place, next, limit).full);
                            assert(stage_write::state_of(*o) =~= stage_write::state_of(before));
                            lemma_full_stays(start, place, all, limit, i + 1);
                        }
                        return Err(StageError::Refused(e));
                    },
                    Ok(_) => {
                        proof {
                            assert(stage_write::state_of(*o) =~= stage_write::put_state(
                                stage_write::state_of(before),
                                (place, surrogate),
                                row_key@,
                                staged_body,
                            ));
                        }
                        inserted = inserted + 1;
                    },
                }
            },
        }
    }
    proof {
        assert(all.take(all.len() as int) =~= all);
    }
    Ok(inserted)
}

pub open spec fn filter_text(e: Seq<char>) -> Seq<char> {
    "deserialize source filters: "@ + e
}

/// What the source scan found, before the transaction's own writes.
pub enum SourceScan {
    /// The filters are not readable.
    BadFilters(String),
    /// The scan failed.
    Failed(ErrorCode),
    Rows(Vec<(String, Vec<u8>)>),
}

/// Whether `rows` are the first rows that the source shows to the transaction.
pub open spec fn is_source(
    o: TxnOverlay,
    place: (u64, u64, Seq<char>),
    base: Seq<(String, Vec<u8>)>,
    matches: spec_fn(Vec<u8>) -> bool,
    source_limit: usize,
    rows: Seq<(String, Vec<u8>)>,
) -> bool {
    exists|all: Seq<(String, Vec<u8>)>| #[trigger]
        merge::is_merged(
            merge::row_views(base),
            merge::staged_in(o.rows(), place),
            matches,
            merge::row_views(all),
        ) && rows == all.take(
            if all.len() <= source_limit {
                all.len() as int
            } else {
                source_limit as int
            },
        )
}

/// What an `INSERT ... SELECT` comes to: at most `source_limit` of the rows that
/// the source shows are copied into the target.
pub open spec fn select_outcome<F: Fn(&Vec<u8>) -> bool>(
    before: TxnOverlay,
    after: TxnOverlay,
    source: (u64, u64, Seq<char>),
    target: (u64, u64, Seq<char>),
    scan: SourceScan,
    matches: F,
    source_limit: usize,
    limit: usize,
    r: Result<u64, StageError>,
) -> bool {
    match scan {
        SourceScan::BadFilters(e) => stage_write::same_overlay(before, after) && (r matches Err(
            StageError::Failed(c),
        ) && c@ == (ErrorCodeView::Internal { detail: filter_text(e@) })),
        SourceScan::Failed(c) => stage_write::same_overlay(before, after) && r == Err::<
            u64,
            StageError,
        >(StageError::Failed(c)),
        SourceScan::Rows(base) => exists|rows: Seq<(String, Vec<u8>)>| #[trigger]
            is_source(before, source, base@, merge::test_of(matches), source_limit, rows)
                && copy_outcome(before, after, target, rows, limit, r),
    }
}

/// Stage an `INSERT ... SELECT`.
pub fn stage_insert_select<F: Fn(&Vec<u8>) -> bool>(
    o: &mut TxnOverlay,
    database_id: u64,
    tid: u64,
    target: &str,
    source: &str,
    scan: SourceScan,
    matches: F,
    source_limit: usize,
    limit: usize,
) -> (r: Result<u64, StageError>)
    requires
        old(o).put_bytes() <= usize::MAX,
        merge::decides(matches),
    ensures
        select_outcome(
            *old(o),
            *final(o),
            (database_id, tid, source@),
            (database_id, tid, target@),
            scan,
            matches,
            source_limit,
            limit,
            r,
        ),
{
    match scan {
        SourceScan::BadFilters(e) => {
            let mut detail = "deserialize source filters: ".to_owned();
            detail.append(e.as_str());
            Err(StageError::Failed(ErrorCode::Internal { detail }))
        },
        SourceScan::Failed(c) => Err(StageError::Failed(c)),
        SourceScan::Rows(base) => {
            let ghost place = (database_id, tid, source@);
            let ghost base0 = base@;
            let mut rows = base;
            let source_key = (DatabaseId(database_id), TenantId(tid), source.to_owned());
            merge::merge_overlay_into_scan(Some(&*o), &source_key, &mut rows, matches);
            let ghost all = rows@;
            if rows.len() > source_limit {
                rows.truncate(source_limit);
            }
            proof {
                assert(rows@ =~= all.take(
                    if all.len() <= source_limit {
                        all.len() as int
                    } else {
                        source_limit as int
                    },
                ));
                assert(is_source(
                    *o,
                    place,
                    base0,
                    merge::test_of(matches),
                    source_limit,
                    rows@,
                ));
            }
            stage_rows(o, database_id, tid, target, rows, limit)
        },
    }
}

/// A copied row has in the target the surrogate and the body that it has in the
/// source: where one row is copied, the target shows it under its source key.
pub proof fn law_a_copied_row_keeps_its_identity(
    s: stage_write::OverlayState,
    place: (u64, u64, Seq<char>),
    rows: Seq<(String, Vec<u8>)>,
    limit: usize,
)
    requires
        rows.len() > 0,
        hex::parsed_hex_u32(rows.last().0@) is Some,
        !copied(s, place, rows, limit).full,
    ensures
        ({
            let after = copied(s, place, rows, limit).state;
            let surrogate = hex::parsed_hex_u32(rows.last().0@)->0;
            &&& after.rows.contains_pair(
                (place, surrogate),
                crate::overlay::staged::Staged::Put(rows.last().1),
            )
            &&& after.ids.contains_pair((place, rows.last().0@), surrogate)
        }),
{
}

/// A copy touches no row outside its target, and where it was within the limit
/// before it stays within it.
pub proof fn law_a_copy_stays_in_its_target(
    s: stage_write::OverlayState,
    place: (u64, u64, Seq<char>),
    rows: Seq<(String, Vec<u8>)>,
    limit: usize,
    row: ((u64, u64, Seq<char>), u32),
)
    ensures
        ({
            let after = copied(s, place, rows, limit).state;
            &&& row.0 != place ==> after.rows.contains_key(row) == s.rows.contains_key(row) && (
            s.rows.contains_key(row) ==> after.rows[row] == s.rows[row])
            &&& s.rows.contains_key(row) ==> after.rows.contains_key(row)
            &&& s.bytes <= limit ==> after.bytes <= limit
        }),
    decreases rows.len(),
{
    if rows.len() > 0 {
        law_a_copy_stays_in_its_target(s, place, rows.drop_last(), limit, row);
    }
}

/// Where a copy was not stopped by the limit, every row of the source whose key is
/// that of a row is in the target with its body, the last of its surrogate, and the
/// copy counts all of them.
pub proof fn law_a_copy_takes_every_row(
    s: stage_write::OverlayState,
    place: (u64, u64, Seq<char>),
    rows: Seq<(String, Vec<u8>)>,
    limit: usize,
    i: int,
    surrogate: u32,
)
    requires
        !copied(s, place, rows, limit).full,
        0 <= i < rows.len(),
        hex::parsed_hex_u32(rows[i].0@) == Some(surrogate),
        forall|j: int|
            i < j < rows.len() ==> hex::parsed_hex_u32((#[trigger] rows[j]).0@) != Some(surrogate),
    ensures
        ({
            let after = copied(s, place, rows, limit).state;
            &&& after.rows.contains_key((place, surrogate))
            &&& after.rows[(place, surrogate)] == crate::overlay::staged::Staged::Put(rows[i].1)
            &&& after.ids.contains_key((place, rows[i].0@))
            &&& after.ids[(place, rows[i].0@)] == surrogate
        }),
    decreases rows.len(),
{
    let short = rows.drop_last();
    if i < rows.len() - 1 {
        assert(rows[rows.len() - 1] == rows.last());
        assert forall|j: int| i < j < short.len() implies hex::parsed_hex_u32(
            (#[trigger] short[j]).0@,
        ) != Some(surrogate) by {
            assert(short[j] == rows[j]);
        }
        law_a_copy_takes_every_row(s, place, short, limit, i, surrogate);
    }
}

/// The number of rows that a copy tells is that of the rows with a row's key.
pub proof fn law_a_copy_counts_its_rows(
    s: stage_write::OverlayState,
    place: (u64, u64, Seq<char>),
    rows: Seq<(String, Vec<u8>)>,
    limit: usize,
)
    requires
        !copied(s, place, rows, limit).full,
    ensures
        copied(s, place, rows, limit).inserted == rows.filter(
            |r: (String, Vec<u8>)| hex::parsed_hex_u32(r.0@) is Some,
        ).len(),
    decreases rows.len(),
{
    reveal(Seq::filter);
    if rows.len() > 0 {
        law_a_copy_counts_its_rows(s, place, rows.drop_last(), limit);
    }
}

/// A copy stops at the first row that does not fit beside what is staged by then,
/// and keeps what it copied before it.
pub proof fn law_a_copy_stops_at_the_first_row_that_does_not_fit(
    s: stage_write::OverlayState,
    place: (u64, u64, Seq<char>),
    rows: Seq<(String, Vec<u8>)>,
    limit: usize,
) -> (k: int)
    requires
        copied(s, place, rows, limit).full,
    ensures
        0 <= k < rows.len(),
        ({
            let before = copied(s, place, rows.take(k), limit);
            &&& !before.full
            &&& hex::parsed_hex_u32(rows[k].0@) is Some
            &&& before.state.bytes + rows[k].1@.len() > limit
            &&& copied(s, place, rows, limit).state == before.state
            &&& copied(s, place, rows, limit).inserted == before.inserted
        }),
    decreases rows.len(),
{
    let short = rows.drop_last();
    if copied(s, place, short, limit).full {
        let k = law_a_copy_stops_at_the_first_row_that_does_not_fit(s, place, short, limit);
        assert(short.take(k) =~= rows.take(k));
        k
    } else {
        assert(rows.take(rows.len() - 1) =~= short);
        rows.len() - 1
    }
}

/// What is copied is the start of what a scan of the source shows within the
/// transaction, as many rows as the limit allows.
pub proof fn law_a_copy_reads_what_a_scan_shows(
    o: TxnOverlay,
    place: (u64, u64, Seq<char>),
    base: Seq<(String, Vec<u8>)>,
    matches: spec_fn(Vec<u8>) -> bool,
    source_limit: usize,
    rows: Seq<(String, Vec<u8>)>,
)
    requires
        is_source(o, place, base, matches, source_limit, rows),
    ensures
        rows.len() <= source_limit,
        exists|all: Seq<(String, Vec<u8>)>|
            #![trigger merge::row_views(all)]
            {
                &&& merge::is_merged(
                    merge::row_views(base),
                    merge::staged_in(o.rows(), place),
                    matches,
                    merge::row_views(all),
                )
                &&& rows.len() <= all.len()
                &&& rows.len() < all.len() ==> rows.len() == source_limit
                &&& forall|i: int| 0 <= i < rows.len() ==> #[trigger] rows[i] == all[i]
            },
{
}

} // verus!
