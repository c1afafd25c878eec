//! Laying a transaction's overlay over the rows of a base scan, so that a scan
//! inside the transaction sees the transaction's own row writes.
use crate::hex;
use crate::ids::{DatabaseId, Surrogate, TenantId};
use crate::overlay::staged;
use crate::overlay::staged::{Staged, TxnOverlay};
use crate::text;
use vstd::prelude::*;

verus! {

/// A scanned row: its storage key and its body.
pub type RowView = (Seq<char>, Seq<u8>);

pub open spec fn row_view(r: (String, Vec<u8>)) -> RowView {
    (r.0@, r.1@)
}

pub open spec fn row_views(rows: Seq<(String, Vec<u8>)>) -> Seq<RowView> {
    rows.map_values(|r: (String, Vec<u8>)| row_view(r))
}

/// What is left of one base row: nothing when it is staged as deleted or its
/// staged body fails the scan's predicate; the staged body when it passes; the
/// row as it is when nothing is staged or the key names no row.
pub open spec fn merged_row(
    row: RowView,
    staged: Map<u32, Staged>,
    matches: spec_fn(Vec<u8>) -> bool,
) -> Option<RowView> {
    match hex::parsed_hex_u32(row.0) {
        None => Some(row),
        Some(s) => if staged.contains_key(s) {
            match staged[s] {
                Staged::Tombstone => None,
                Staged::Put(body) => if matches(body) {
                    Some((row.0, body@))
                } else {
                    None
                },
            }
        } else {
            Some(row)
        },
    }
}

/// What is left of the base rows, in their order.
pub open spec fn merged_base(
    rows: Seq<RowView>,
    staged: Map<u32, Staged>,
    matches: spec_fn(Vec<u8>) -> bool,
) -> Seq<RowView>
    decreases rows.len(),
{
    if rows.len() == 0 {
        Seq::empty()
    } else {
        let init = merged_base(rows.drop_last(), staged, matches);
        match merged_row(rows.last(), staged, matches) {
            Some(r) => init.push(r),
            None => init,
        }
    }
}

/// Whether the base scan returned the row with surrogate `s`.
pub open spec fn in_base(rows: Seq<RowView>, s: u32) -> bool {
    exists|i: int| 0 <= i < rows.len() && hex::parsed_hex_u32((#[trigger] rows[i]).0) == Some(s)
}

/// Whether the staged row `s` joins the result: a matching put that the base
/// scan did not return.
pub open spec fn joins(
    rows: Seq<RowView>,
    staged: Map<u32, Staged>,
    matches: spec_fn(Vec<u8>) -> bool,
    s: u32,
) -> bool {
    staged.contains_key(s) && staged[s] is Put && matches(staged[s]->Put_0) && !in_base(rows, s)
}

/// Whether `row` is a staged row that joins, under its storage key.
pub open spec fn is_addition(
    row: RowView,
    rows: Seq<RowView>,
    staged: Map<u32, Staged>,
    matches: spec_fn(Vec<u8>) -> bool,
) -> bool {
    exists|s: u32|
        #[trigger] joins(rows, staged, matches, s) && row == (hex::row_key(s), staged[s]->Put_0@)
}

/// The rows that join are appended, each once, under their storage keys.
pub open spec fn are_additions(
    adds: Seq<RowView>,
    rows: Seq<RowView>,
    staged: Map<u32, Staged>,
    matches: spec_fn(Vec<u8>) -> bool,
) -> bool {
    &&& forall|i: int| 0 <= i < adds.len() ==> is_addition(#[trigger] adds[i], rows, staged, matches)
    &&& forall|s: u32|
        #[trigger] joins(rows, staged, matches, s) ==> adds.contains(
            (hex::row_key(s), staged[s]->Put_0@),
        )
    &&& forall|i: int, j: int| 0 <= i < j < adds.len() ==> (#[trigger] adds[i]).0 != (#[trigger] adds[j]).0
}

/// What a transaction has staged in one collection.
pub open spec fn staged_in(
    rows: Map<((u64, u64, Seq<char>), u32), Staged>,
    place: (u64, u64, Seq<char>),
) -> Map<u32, Staged> {
    Map::new(|s: u32| rows.contains_key((place, s)), |s: u32| rows[(place, s)])
}

/// The predicate that a scan's row test computes.
pub open spec fn test_of<F: Fn(&Vec<u8>) -> bool>(matches: F) -> spec_fn(Vec<u8>) -> bool {
    |b: Vec<u8>| matches.ensures((&b,), true)
}

/// The test gives one answer for a body.
pub open spec fn decides<F: Fn(&Vec<u8>) -> bool>(matches: F) -> bool {
    &&& forall|b: &Vec<u8>| #[trigger] matches.requires((b,))
    &&& forall|b: &Vec<u8>| !(matches.ensures((b,), true) && #[trigger] matches.ensures((b,), false))
}

/// The surrogates that the base rows name.
fn base_surrogates(rows: &Vec<(String, Vec<u8>)>) -> (r: Vec<u32>)
    ensures
        forall|s: u32| r@.contains(s) <==> in_base(row_views(rows@), s),
{
    let ghost base = row_views(rows@);
    let mut r: Vec<u32> = Vec::new();
    let mut i: usize = 0;
    while i < rows.len()
        invariant
            i <= rows@.len(),
            base == row_views(rows@),
            forall|k: int|
                0 <= k < r@.len() ==> exists|q: int|
                    0 <= q < i && hex::parsed_hex_u32((#[trigger] base[q]).0) == Some(
                        #[trigger] r@[k],
                    ),
            forall|q: int|
                0 <= q < i && hex::parsed_hex_u32((#[trigger] base[q]).0) is Some ==> r@.contains(
                    hex::parsed_hex_u32(base[q].0)->0,
                ),
        decreases rows.len() - i,
    {
        let ghost r0 = r@;
        proof {
            assert(base[i as int] == row_view(rows@[i as int]));
        }
        match hex::doc_id_to_surrogate(rows[i].0.as_str()) {
            Some(s) => {
                r.push(s.0);
                proof {
                    assert(r@[r0.len() as int] == s.0);
                }
            },
            None => {},
        }
        proof {
            assert forall|q: int|
                0 <= q < i + 1 && hex::parsed_hex_u32(
                    (#[trigger] base[q]).0,
                ) is Some implies r@.contains(hex::parsed_hex_u32(base[q].0)->0) by {
                if q < i {
                    let x = hex::parsed_hex_u32(base[q].0)->0;
                    let k = choose|k: int| 0 <= k < r0.len() && r0[k] == x;
                    assert(r@[k] == x);
                }
            }
            assert forall|k: int| 0 <= k < r@.len() implies exists|q: int|
                0 <= q < i + 1 && hex::parsed_hex_u32((#[trigger] base[q]).0) == Some(
                    #[trigger] r@[k],
                ) by {
                if k < r0.len() {
                    assert(r@[k] == r0[k]);
                    let q = choose|q: int|
                        0 <= q < i && hex::parsed_hex_u32((#[trigger] base[q]).0) == Some(r0[k]);
                    assert(hex::parsed_hex_u32(base[q].0) == Some(r@[k]));
                } else {
                    assert(hex::parsed_hex_u32(base[i as int].0) == Some(r@[k]));
                }
            }
        }
        i = i + 1;
    }
    proof {
        assert forall|s: u32| r@.contains(s) <==> in_base(base, s) by {
            if r@.contains(s) {
                let k = choose|k: int| 0 <= k < r@.len() && r@[k] == s;
                let q = choose|q: int|
                    0 <= q < base.len() && hex::parsed_hex_u32((#[trigger] base[q]).0) == Some(
                        r@[k],
                    );
                assert(hex::parsed_hex_u32(base[q].0) == Some(s));
            }
        }
    }
    r
}

/// The rows that join, in the order of the staged pairs.
pub open spec fn joined(
    pairs: Seq<(u32, &Staged)>,
    rows: Seq<RowView>,
    matches: spec_fn(Vec<u8>) -> bool,
) -> Seq<RowView>
    decreases pairs.len(),
{
    if pairs.len() == 0 {
        Seq::empty()
    } else {
        let init = joined(pairs.drop_last(), rows, matches);
        let (s, staged) = pairs.last();
        if staged is Put && matches(staged->Put_0) && !in_base(rows, s) {
            init.push((hex::row_key(s), staged->Put_0@))
        } else {
            init
        }
    }
}

/// The staged pairs are those of the collection, each once.
spec fn are_pairs(pairs: Seq<(u32, &Staged)>, staged: Map<u32, Staged>) -> bool {
    &&& forall|i: int|
        0 <= i < pairs.len() ==> staged.contains_key((#[trigger] pairs[i]).0) && *pairs[i].1
            == staged[pairs[i].0]
    &&& forall|i: int, j: int|
        0 <= i < j < pairs.len() ==> (#[trigger] pairs[i]).0 != (#[trigger] pairs[j]).0
}

proof fn lemma_joined_from(
    pairs: Seq<(u32, &Staged)>,
    rows: Seq<RowView>,
    staged: Map<u32, Staged>,
    matches: spec_fn(Vec<u8>) -> bool,
    i: int,
) -> (q: int)
    requires
        are_pairs(pairs, staged),
        0 <= i < joined(pairs, rows, matches).len(),
    ensures
        0 <= q < pairs.len(),
        joins(rows, staged, matches, pairs[q].0),
        joined(pairs, rows, matches)[i] == (hex::row_key(pairs[q].0), staged[pairs[q].0]->Put_0@),
    decreases pairs.len(),
{
    let init = joined(pairs.drop_last(), rows, matches);
    if i < init.len() {
        lemma_joined_from(pairs.drop_last(), rows, staged, matches, i)
    } else {
        pairs.len() - 1
    }
}

proof fn lemma_joined_has(
    pairs: Seq<(u32, &Staged)>,
    rows: Seq<RowView>,
    staged: Map<u32, Staged>,
    matches: spec_fn(Vec<u8>) -> bool,
    q: int,
) -> (i: int)
    requires
        are_pairs(pairs, staged),
        0 <= q < pairs.len(),
        joins(rows, staged, matches, pairs[q].0),
    ensures
        0 <= i < joined(pairs, rows, matches).len(),
        joined(pairs, rows, matches)[i] == (hex::row_key(pairs[q].0), staged[pairs[q].0]->Put_0@),
    decreases pairs.len(),
{
    let init = joined(pairs.drop_last(), rows, matches);
    if q < pairs.len() - 1 {
        let i = lemma_joined_has(pairs.drop_last(), rows, staged, matches, q);
        assert(joined(pairs, rows, matches)[i] == init[i]);
        i
    } else {
        init.len() as int
    }
}

proof fn lemma_joined_distinct(
    pairs: Seq<(u32, &Staged)>,
    rows: Seq<RowView>,
    staged: Map<u32, Staged>,
    matches: spec_fn(Vec<u8>) -> bool,
)
    requires
        are_pairs(pairs, staged),
    ensures
        forall|i: int, j: int|
            0 <= i < j < joined(pairs, rows, matches).len() ==> (#[trigger] joined(
                pairs,
                rows,
                matches,
            )[i]).0 != (#[trigger] joined(pairs, rows, matches)[j]).0,
    decreases pairs.len(),
{
    if pairs.len() > 0 {
        let short = pairs.drop_last();
        let init = joined(short, rows, matches);
        let out = joined(pairs, rows, matches);
        lemma_joined_distinct(short, rows, staged, matches);
        assert forall|i: int, j: int| 0 <= i < j < out.len() implies (#[trigger] out[i]).0 != (
        #[trigger] out[j]).0 by {
            assert(out[i] == init[i]);
            if j < init.len() {
                assert(out[j] == init[j]);
            } else {
                let q = lemma_joined_from(short, rows, staged, matches, i);
                let s = pairs.last().0;
                assert(short[q] == pairs[q]);
                assert(pairs[q].0 != pairs[pairs.len() - 1].0);
                hex::law_row_key_parses_back(pairs[q].0);
                hex::law_row_key_parses_back(s);
            }
        }
    }
}

proof fn lemma_joined_are_additions(
    pairs: Seq<(u32, &Staged)>,
    rows: Seq<RowView>,
    staged: Map<u32, Staged>,
    matches: spec_fn(Vec<u8>) -> bool,
)
    requires
        are_pairs(pairs, staged),
        forall|s: u32| #[trigger]
            staged.contains_key(s) ==> exists|i: int|
                0 <= i < pairs.len() && (#[trigger] pairs[i]).0 == s,
    ensures
        are_additions(joined(pairs, rows, matches), rows, staged, matches),
{
    let adds = joined(pairs, rows, matches);
    lemma_joined_distinct(pairs, rows, staged, matches);
    assert forall|i: int| 0 <= i < adds.len() implies is_addition(
        #[trigger] adds[i],
        rows,
        staged,
        matches,
    ) by {
        let q = lemma_joined_from(pairs, rows, staged, matches, i);
        assert(joins(rows, staged, matches, pairs[q].0));
    }
    assert forall|s: u32| #[trigger] joins(rows, staged, matches, s) implies adds.contains(
        (hex::row_key(s), staged[s]->Put_0@),
    ) by {
        let q = choose|q: int| 0 <= q < pairs.len() && (#[trigger] pairs[q]).0 == s;
        let i = lemma_joined_has(pairs, rows, staged, matches, q);
        assert(adds[i] == (hex::row_key(s), staged[s]->Put_0@));
    }
}

/// The base rows with the overlay laid over them.
fn merged_base_rows<F: Fn(&Vec<u8>) -> bool>(
    overlay: &TxnOverlay,
    coll_key: &(DatabaseId, TenantId, String),
    rows: &Vec<(String, Vec<u8>)>,
    matches: &F,
) -> (out: Vec<(String, Vec<u8>)>)
    requires
        decides(*matches),
    ensures
        row_views(out@) == merged_base(
            row_views(rows@),
            staged_in(overlay.rows(), staged::coll_id(*coll_key)),
            test_of(*matches),
        ),
{
    let ghost st = staged_in(overlay.rows(), staged::coll_id(*coll_key));
    let ghost base = row_views(rows@);
    let ghost t = test_of(*matches);
    let mut out: Vec<(String, Vec<u8>)> = Vec::new();
    let mut i: usize = 0;
    while i < rows.len()
        invariant
            i <= rows@.len(),
            base == row_views(rows@),
            st == staged_in(overlay.rows(), staged::coll_id(*coll_key)),
            t == test_of(*matches),
            decides(*matches),
            row_views(out@) == merged_base(base.take(i as int), st, t),
        decreases rows.len() - i,
    {
        let ghost before = out@;
        let ghost row = base[i as int];
        proof {
            assert(row == row_view(rows@[i as int]));
            assert(base.take(i + 1).drop_last() =~= base.take(i as int));
            assert(base.take(i + 1).last() == row);
        }
        let key = rows[i].0.clone();
        let mut body: Option<Vec<u8>> = None;
        match hex::doc_id_to_surrogate(key.as_str()) {
            None => {
                body = Some(text::copy_bytes(rows[i].1.as_slice()));
            },
            Some(s) => match overlay.get(coll_key, s.0) {
                None => {
                    body = Some(text::copy_bytes(rows[i].1.as_slice()));
                },
                Some(Staged::Tombstone) => {},
                Some(Staged::Put(staged_body)) => {
                    if matches(staged_body) {
                        body = Some(text::copy_bytes(staged_body.as_slice()));
                    }
                },
            },
        }
        proof {
            assert(match body {
                Some(b) => merged_row(row, st, t) == Some((row.0, b@)),
                None => merged_row(row, st, t) is None,
            });
        }
        match body {
            Some(b) => {
                out.push((key, b));
                proof {
                    assert(row_views(out@) =~= row_views(before).push((row.0, b@)));
                }
            },
            None => {},
        }
        i = i + 1;
    }
    proof {
        assert(base.take(base.len() as int) =~= base);
    }
    out
}

/// Whether `all` is what a scan shows: what is left of the base rows in their
/// order, and behind them the staged rows that join.
pub open spec fn is_merged(
    base: Seq<RowView>,
    staged: Map<u32, Staged>,
    matches: spec_fn(Vec<u8>) -> bool,
    all: Seq<RowView>,
) -> bool {
    let kept = merged_base(base, staged, matches);
    kept.len() <= all.len() && all.take(kept.len() as int) == kept && are_additions(
        all.subrange(kept.len() as int, all.len() as int),
        base,
        staged,
        matches,
    )
}

/// Whether rows show what is staged under a surrogate: a written body that
/// passes the test stands in a row of that surrogate, and every row of that
/// surrogate holds it; of a deletion, or a body that fails the test, no row is
/// there.
pub open spec fn shows_staged(
    rows: Seq<(String, Vec<u8>)>,
    s: u32,
    staged: Staged,
    matches: spec_fn(Vec<u8>) -> bool,
) -> bool {
    &&& (staged matches Staged::Put(body) && matches(body)) <==> exists|i: int|
        0 <= i < rows.len() && hex::parsed_hex_u32((#[trigger] rows[i]).0@) == Some(s)
    &&& forall|i: int|
        0 <= i < rows.len() && hex::parsed_hex_u32((#[trigger] rows[i]).0@) == Some(s) ==> (
        staged matches Staged::Put(body) && rows[i].1@ == body@)
}

proof fn lemma_shows_staged(
    all: Map<((u64, u64, Seq<char>), u32), Staged>,
    place: (u64, u64, Seq<char>),
    base: Seq<RowView>,
    matches: spec_fn(Vec<u8>) -> bool,
    rows: Seq<(String, Vec<u8>)>,
)
    requires
        is_merged(base, staged_in(all, place), matches, row_views(rows)),
    ensures
        forall|s: u32|
            #![trigger all[(place, s)]]
            all.contains_key((place, s)) ==> shows_staged(rows, s, all[(place, s)], matches),
{
    let st = staged_in(all, place);
    let v = row_views(rows);
    assert forall|s: u32| #![trigger all[(place, s)]] all.contains_key((place, s)) implies shows_staged(
        rows,
        s,
        all[(place, s)],
        matches,
    ) by {
        assert(st.contains_key(s) && st[s] == all[(place, s)]);
        assert forall|i: int|
            0 <= i < rows.len() && hex::parsed_hex_u32((#[trigger] rows[i]).0@) == Some(s) implies (
        st[s] matches Staged::Put(body) && matches(body) && rows[i].1@ == body@) by {
            assert(v[i] == row_view(rows[i]));
            law_a_shown_row_has_its_staged_body(base, st, matches, v, i, s);
        }
        match st[s] {
            Staged::Put(body) => {
                if matches(body) {
                    law_a_matching_put_is_shown(base, st, matches, v, s, body);
                    let i = choose|i: int|
                        0 <= i < v.len() && hex::parsed_hex_u32((#[trigger] v[i]).0) == Some(s)
                            && v[i].1 == body@;
                    assert(v[i] == row_view(rows[i]));
                    assert(hex::parsed_hex_u32(rows[i].0@) == Some(s));
                }
            },
            Staged::Tombstone => {},
        }
    }
}

proof fn lemma_untouched_rows(
    all: Map<((u64, u64, Seq<char>), u32), Staged>,
    place: (u64, u64, Seq<char>),
    base: Seq<RowView>,
    matches: spec_fn(Vec<u8>) -> bool,
    rows: Seq<(String, Vec<u8>)>,
)
    requires
        is_merged(base, staged_in(all, place), matches, row_views(rows)),
    ensures
        forall|r: RowView|
            #![trigger base.contains(r)]
            #![trigger row_views(rows).contains(r)]
            (hex::parsed_hex_u32(r.0) matches Some(s) ==> !all.contains_key((place, s)))
                ==> base.contains(r) == row_views(rows).contains(r),
{
    let st = staged_in(all, place);
    let v = row_views(rows);
    let pred = untouched(st);
    law_untouched_rows_are_shown_as_they_are(base, st, matches, v);
    assert forall|r: RowView|
        (hex::parsed_hex_u32(r.0) matches Some(s) ==> !all.contains_key(
            (place, s),
        )) implies #[trigger] base.contains(r) == v.contains(r) by {
        assert(pred(r));
        lemma_filter_contains(base, pred, r);
        lemma_filter_contains(v, pred, r);
    }
}

proof fn lemma_filter_contains(rows: Seq<RowView>, pred: spec_fn(RowView) -> bool, r: RowView)
    requires
        pred(r),
    ensures
        rows.filter(pred).contains(r) == rows.contains(r),
{
    rows.filter_lemma(pred);
    let f = rows.filter(pred);
    if rows.contains(r) {
        let i = choose|i: int| 0 <= i < rows.len() && rows[i] == r;
        assert(f.contains(rows[i]));
    }
    if f.contains(r) {
        rows.lemma_filter_contains_rev(pred, r);
    }
}

/// Lay the overlay of a transaction over the rows of a base scan. `matches` is
/// the predicate of the scan. Without an overlay the rows stay as they are.
pub fn merge_overlay_into_scan<F: Fn(&Vec<u8>) -> bool>(
    overlay: Option<&TxnOverlay>,
    coll_key: &(DatabaseId, TenantId, String),
    rows: &mut Vec<(String, Vec<u8>)>,
    matches: F,
)
    requires
        decides(matches),
    ensures
        match overlay {
            None => final(rows)@ == old(rows)@,
            Some(o) => is_merged(
                row_views(old(rows)@),
                staged_in(o.rows(), staged::coll_id(*coll_key)),
                test_of(matches),
                row_views(final(rows)@),
            ),
        },
        overlay matches Some(o) ==> forall|s: u32|
            #![trigger o.rows()[(staged::coll_id(*coll_key), s)]]
            o.rows().contains_key((staged::coll_id(*coll_key), s)) ==> shows_staged(
                final(rows)@,
                s,
                o.rows()[(staged::coll_id(*coll_key), s)],
                test_of(matches),
            ),
        overlay matches Some(o) ==> forall|r: RowView|
            #![trigger row_views(old(rows)@).contains(r)]
            #![trigger row_views(final(rows)@).contains(r)]
            (hex::parsed_hex_u32(r.0) matches Some(s) ==> !o.rows().contains_key(
                (staged::coll_id(*coll_key), s),
            )) ==> row_views(old(rows)@).contains(r) == row_views(final(rows)@).contains(r),
{
    match overlay {
        None => {},
        Some(o) => {
            let ghost st = staged_in(o.rows(), staged::coll_id(*coll_key));
            let ghost base = row_views(rows@);
            let ghost t = test_of(matches);
            let seen = base_surrogates(rows);
            let mut out = merged_base_rows(o, coll_key, rows, &matches);
            let ghost kept = row_views(out@);
            let pairs = o.iter_for_collection(coll_key);
            let mut j: usize = 0;
            proof {
                assert(kept + joined(pairs@.take(0), base, t) =~= kept);
            }
            while j < pairs.len()
                invariant
                    j <= pairs@.len(),
                    t == test_of(matches),
                    decides(matches),
                    forall|s: u32| seen@.contains(s) <==> in_base(base, s),
                    row_views(out@) == kept + joined(pairs@.take(j as int), base, t),
                decreases pairs.len() - j,
            {
                let s: u32 = pairs[j].0;
                let ghost before = out@;
                proof {
                    assert(pairs@.take(j + 1).drop_last() =~= pairs@.take(j as int));
                    assert(pairs@.take(j + 1).last() == pairs@[j as int]);
                }
                let known = holds(&seen, s);
                match pairs[j].1 {
                    Staged::Put(body) => {
                        if !known && matches(body) {
                            let copy = text::copy_bytes(body.as_slice());
                            out.push((hex::surrogate_to_doc_id(Surrogate(s)), copy));
                            proof {
                                let x = (hex::row_key(s), body@);
                                assert(row_views(out@) =~= row_views(before).push(x));
                                assert(kept + joined(pairs@.take(j as int), base, t).push(x)
                                    =~= (kept + joined(pairs@.take(j as int), base, t)).push(x));
                            }
                        }
                    },
                    Staged::Tombstone => {},
                }
                j = j + 1;
            }
            proof {
                assert(pairs@.take(pairs@.len() as int) =~= pairs@);
                let adds = joined(pairs@, base, t);
                assert forall|s: u32| #[trigger] st.contains_key(s) implies exists|i: int|
                    0 <= i < pairs@.len() && (#[trigger] pairs@[i]).0 == s by {
                    assert(o.rows().contains_key((staged::coll_id(*coll_key), s)));
                }
                lemma_joined_are_additions(pairs@, base, st, t);
                let all = row_views(out@);
                assert(all.take(kept.len() as int) =~= kept);
                assert(all.subrange(kept.len() as int, all.len() as int) =~= adds);
                lemma_shows_staged(o.rows(), staged::coll_id(*coll_key), base, t, out@);
                lemma_untouched_rows(o.rows(), staged::coll_id(*coll_key), base, t, out@);
            }
            *rows = out;
        },
    }
}

fn holds(list: &Vec<u32>, s: u32) -> (r: bool)
    ensures
        r == list@.contains(s),
{
    let mut i: usize = 0;
    while i < list.len()
        invariant
            i <= list@.len(),
            forall|j: int| 0 <= j < i ==> list@[j] != s,
        decreases list.len() - i,
    {
        if list[i] == s {
            assert(list@[i as int] == s);
            return true;
        }
        i = i + 1;
    }
    false
}

/// The storage keys of rows.
pub open spec fn keys_of(rows: Seq<RowView>) -> Seq<Seq<char>> {
    rows.map_values(|r: RowView| r.0)
}

/// Whether a transaction has staged nothing for a row.
pub open spec fn untouched(staged: Map<u32, Staged>) -> spec_fn(RowView) -> bool {
    |r: RowView|
        match hex::parsed_hex_u32(r.0) {
            Some(s) => !staged.contains_key(s),
            None => true,
        }
}

/// Whether the row under a key is still shown: it is not staged, or staged with a
/// body that passes.
pub open spec fn still_shown(
    staged: Map<u32, Staged>,
    matches: spec_fn(Vec<u8>) -> bool,
) -> spec_fn(Seq<char>) -> bool {
    |k: Seq<char>|
        match hex::parsed_hex_u32(k) {
            Some(s) => staged.contains_key(s) ==> (staged[s] matches Staged::Put(body) && matches(
                body,
            )),
            None => true,
        }
}

proof fn lemma_filter_push<A>(s: Seq<A>, x: A, pred: spec_fn(A) -> bool)
    ensures
        s.push(x).filter(pred) == if pred(x) {
            s.filter(pred).push(x)
        } else {
            s.filter(pred)
        },
{
    reveal(Seq::filter);
    assert(s.push(x).drop_last() =~= s);
}

proof fn lemma_filter_none<A>(s: Seq<A>, pred: spec_fn(A) -> bool)
    requires
        forall|i: int| 0 <= i < s.len() ==> !pred(#[trigger] s[i]),
    ensures
        s.filter(pred).len() == 0,
    decreases s.len(),
{
    reveal(Seq::filter);
    if s.len() > 0 {
        lemma_filter_none(s.drop_last(), pred);
        assert(!pred(s[s.len() - 1]));
    }
}

proof fn lemma_base_untouched(
    rows: Seq<RowView>,
    staged: Map<u32, Staged>,
    matches: spec_fn(Vec<u8>) -> bool,
)
    ensures
        merged_base(rows, staged, matches).filter(untouched(staged)) == rows.filter(
            untouched(staged),
        ),
        keys_of(merged_base(rows, staged, matches)) == keys_of(rows).filter(
            still_shown(staged, matches),
        ),
    decreases rows.len(),
{
    reveal(Seq::filter);
    let pred = untouched(staged);
    let shown = still_shown(staged, matches);
    if rows.len() > 0 {
        let init = rows.drop_last();
        let x = rows.last();
        let kept = merged_base(init, staged, matches);
        lemma_base_untouched(init, staged, matches);
        assert(init.push(x) =~= rows);
        lemma_filter_push(init, x, pred);
        assert(keys_of(init).push(x.0) =~= keys_of(rows));
        lemma_filter_push(keys_of(init), x.0, shown);
        match merged_row(x, staged, matches) {
            Some(y) => {
                lemma_filter_push(kept, y, pred);
                assert(keys_of(kept.push(y)) =~= keys_of(kept).push(x.0));
            },
            None => {},
        }
    } else {
        assert(keys_of(merged_base(rows, staged, matches)) =~= keys_of(rows).filter(shown));
    }
}

/// Where a row that is left comes from.
proof fn lemma_base_from(
    rows: Seq<RowView>,
    staged: Map<u32, Staged>,
    matches: spec_fn(Vec<u8>) -> bool,
    i: int,
) -> (q: int)
    requires
        0 <= i < merged_base(rows, staged, matches).len(),
    ensures
        0 <= q < rows.len(),
        merged_row(rows[q], staged, matches) == Some(merged_base(rows, staged, matches)[i]),
        merged_base(rows, staged, matches)[i].0 == rows[q].0,
    decreases rows.len(),
{
    let init = merged_base(rows.drop_last(), staged, matches);
    if i < init.len() {
        lemma_base_from(rows.drop_last(), staged, matches, i)
    } else {
        rows.len() - 1
    }
}

/// Where a row that is left goes to.
proof fn lemma_base_has(
    rows: Seq<RowView>,
    staged: Map<u32, Staged>,
    matches: spec_fn(Vec<u8>) -> bool,
    q: int,
) -> (i: int)
    requires
        0 <= q < rows.len(),
        merged_row(rows[q], staged, matches) is Some,
    ensures
        0 <= i < merged_base(rows, staged, matches).len(),
        merged_row(rows[q], staged, matches) == Some(merged_base(rows, staged, matches)[i]),
    decreases rows.len(),
{
    let init = merged_base(rows.drop_last(), staged, matches);
    if q < rows.len() - 1 {
        lemma_base_has(rows.drop_last(), staged, matches, q)
    } else {
        init.len() as int
    }
}

proof fn lemma_base_once(
    rows: Seq<RowView>,
    staged: Map<u32, Staged>,
    matches: spec_fn(Vec<u8>) -> bool,
    s: u32,
)
    requires
        forall|i: int, j: int|
            0 <= i < j < rows.len() ==> !(hex::parsed_hex_u32((#[trigger] rows[i]).0) == Some(s)
                && hex::parsed_hex_u32((#[trigger] rows[j]).0) == Some(s)),
    ensures
        forall|i: int, j: int|
            0 <= i < j < merged_base(rows, staged, matches).len() ==> !(hex::parsed_hex_u32(
                (#[trigger] merged_base(rows, staged, matches)[i]).0,
            ) == Some(s) && hex::parsed_hex_u32(
                (#[trigger] merged_base(rows, staged, matches)[j]).0,
            ) == Some(s)),
    decreases rows.len(),
{
    if rows.len() > 0 {
        let short = rows.drop_last();
        let init = merged_base(short, staged, matches);
        let out = merged_base(rows, staged, matches);
        lemma_base_once(short, staged, matches, s);
        assert forall|i: int, j: int| 0 <= i < j < out.len() implies !(hex::parsed_hex_u32(
            (#[trigger] out[i]).0,
        ) == Some(s) && hex::parsed_hex_u32((#[trigger] out[j]).0) == Some(s)) by {
            assert(out[i] == init[i]);
            if j < init.len() {
                assert(out[j] == init[j]);
            } else {
                let q = lemma_base_from(short, staged, matches, i);
                assert(short[q] == rows[q]);
                assert(out[j].0 == rows[rows.len() - 1].0);
            }
        }
    }
}

/// Rows that the transaction has not touched are shown as the base scan returned
/// them: all of them, unchanged and in their order.
pub proof fn law_untouched_rows_are_shown_as_they_are(
    base: Seq<RowView>,
    staged: Map<u32, Staged>,
    matches: spec_fn(Vec<u8>) -> bool,
    all: Seq<RowView>,
)
    requires
        is_merged(base, staged, matches, all),
    ensures
        all.filter(untouched(staged)) == base.filter(untouched(staged)),
{
    let pred = untouched(staged);
    let kept = merged_base(base, staged, matches);
    let adds = all.subrange(kept.len() as int, all.len() as int);
    lemma_base_untouched(base, staged, matches);
    assert(all =~= kept + adds);
    Seq::filter_distributes_over_add(kept, adds, pred);
    assert forall|i: int| 0 <= i < adds.len() implies !pred(#[trigger] adds[i]) by {
        assert(is_addition(adds[i], base, staged, matches));
        let s = choose|s: u32|
            #[trigger] joins(base, staged, matches, s) && adds[i] == (
                hex::row_key(s),
                staged[s]->Put_0@,
            );
        hex::law_row_key_parses_back(s);
    }
    lemma_filter_none(adds, pred);
    assert(kept.filter(pred) + adds.filter(pred) =~= kept.filter(pred));
}

/// The rows that the base scan returned come first and in its order: those that
/// the transaction has not touched, and those that it wrote with a body that
/// passes. What follows them the base scan did not return.
pub proof fn law_a_scan_keeps_the_order_of_the_base(
    base: Seq<RowView>,
    staged: Map<u32, Staged>,
    matches: spec_fn(Vec<u8>) -> bool,
    all: Seq<RowView>,
)
    requires
        is_merged(base, staged, matches, all),
    ensures
        ({
            let first = keys_of(base).filter(still_shown(staged, matches));
            &&& first.len() <= all.len()
            &&& keys_of(all).take(first.len() as int) == first
            &&& forall|i: int, q: int|
                #![trigger all[i], base[q]]
                first.len() <= i < all.len() && 0 <= q < base.len() ==> {
                    &&& hex::parsed_hex_u32(all[i].0) is Some
                    &&& hex::parsed_hex_u32(all[i].0) != hex::parsed_hex_u32(base[q].0)
                }
        }),
{
    let kept = merged_base(base, staged, matches);
    let adds = all.subrange(kept.len() as int, all.len() as int);
    let first = keys_of(base).filter(still_shown(staged, matches));
    lemma_base_untouched(base, staged, matches);
    assert(keys_of(all).take(first.len() as int) =~= keys_of(all.take(kept.len() as int)));
    assert forall|i: int, q: int|
        #![trigger all[i], base[q]]
        first.len() <= i < all.len() && 0 <= q < base.len() implies {
        &&& hex::parsed_hex_u32(all[i].0) is Some
        &&& hex::parsed_hex_u32(all[i].0) != hex::parsed_hex_u32(base[q].0)
    } by {
        assert(adds[i - kept.len()] == all[i]);
        assert(is_addition(adds[i - kept.len()], base, staged, matches));
        let s = choose|s: u32|
            #[trigger] joins(base, staged, matches, s) && all[i] == (
                hex::row_key(s),
                staged[s]->Put_0@,
            );
        hex::law_row_key_parses_back(s);
        assert(!in_base(base, s));
    }
}

/// A row that the transaction staged is shown with the staged body, where that
/// passes; a row that it deleted is not shown.
pub proof fn law_a_shown_row_has_its_staged_body(
    base: Seq<RowView>,
    staged: Map<u32, Staged>,
    matches: spec_fn(Vec<u8>) -> bool,
    all: Seq<RowView>,
    i: int,
    s: u32,
)
    requires
        is_merged(base, staged, matches, all),
        0 <= i < all.len(),
        hex::parsed_hex_u32(all[i].0) == Some(s),
        staged.contains_key(s),
    ensures
        staged[s] matches Staged::Put(body) && matches(body) && all[i].1 == body@,
{
    let kept = merged_base(base, staged, matches);
    if i < kept.len() {
        assert(all.take(kept.len() as int)[i] == all[i]);
        let q = lemma_base_from(base, staged, matches, i);
    } else {
        let adds = all.subrange(kept.len() as int, all.len() as int);
        assert(adds[i - kept.len()] == all[i]);
        assert(is_addition(adds[i - kept.len()], base, staged, matches));
        let t = choose|t: u32|
            #[trigger] joins(base, staged, matches, t) && all[i] == (
                hex::row_key(t),
                staged[t]->Put_0@,
            );
        hex::law_row_key_parses_back(t);
    }
}

/// Every row that the transaction put with a body that passes is shown, with that
/// body, whatever the base scan returned: nothing, the row itself, or others. It
/// is shown once, where the base scan returned it at most once.
pub proof fn law_a_matching_put_is_shown(
    base: Seq<RowView>,
    staged: Map<u32, Staged>,
    matches: spec_fn(Vec<u8>) -> bool,
    all: Seq<RowView>,
    s: u32,
    body: Vec<u8>,
)
    requires
        is_merged(base, staged, matches, all),
        staged.contains_key(s),
        staged[s] == Staged::Put(body),
        matches(body),
    ensures
        exists|i: int|
            0 <= i < all.len() && hex::parsed_hex_u32((#[trigger] all[i]).0) == Some(s) && all[i].1
                == body@,
        (forall|i: int, j: int|
            0 <= i < j < base.len() ==> !(hex::parsed_hex_u32((#[trigger] base[i]).0) == Some(s)
                && hex::parsed_hex_u32((#[trigger] base[j]).0) == Some(s))) ==> forall|
            i: int,
            j: int,
        |
            0 <= i < j < all.len() ==> !(hex::parsed_hex_u32((#[trigger] all[i]).0) == Some(s)
                && hex::parsed_hex_u32((#[trigger] all[j]).0) == Some(s)),
{
    let kept = merged_base(base, staged, matches);
    let adds = all.subrange(kept.len() as int, all.len() as int);
    assert(all =~= kept + adds) by {
        assert(all.take(kept.len() as int) == kept);
    }
    hex::law_row_key_parses_back(s);
    if in_base(base, s) {
        let q = choose|q: int|
            0 <= q < base.len() && hex::parsed_hex_u32((#[trigger] base[q]).0) == Some(s);
        let i = lemma_base_has(base, staged, matches, q);
        assert(all[i] == kept[i]);
    } else {
        assert(joins(base, staged, matches, s));
        let i = choose|i: int| 0 <= i < adds.len() && adds[i] == (hex::row_key(s), body@);
        assert(all[kept.len() + i] == adds[i]);
    }
    if forall|i: int, j: int|
        0 <= i < j < base.len() ==> !(hex::parsed_hex_u32((#[trigger] base[i]).0) == Some(s)
            && hex::parsed_hex_u32((#[trigger] base[j]).0) == Some(s)) {
        lemma_base_once(base, staged, matches, s);
        assert forall|i: int, j: int| 0 <= i < j < all.len() implies !(hex::parsed_hex_u32(
            (#[trigger] all[i]).0,
        ) == Some(s) && hex::parsed_hex_u32((#[trigger] all[j]).0) == Some(s)) by {
            if j < kept.len() {
                assert(all[i] == kept[i] && all[j] == kept[j]);
            } else {
                let b = adds[j - kept.len()];
                assert(b == all[j]);
                assert(is_addition(b, base, staged, matches));
                let t = choose|t: u32|
                    #[trigger] joins(base, staged, matches, t) && b == (
                        hex::row_key(t),
                        staged[t]->Put_0@,
                    );
                hex::law_row_key_parses_back(t);
                if i < kept.len() {
                    assert(all[i] == kept[i]);
                    let q = lemma_base_from(base, staged, matches, i);
                    if t == s && hex::parsed_hex_u32(all[i].0) == Some(s) {
                        assert(in_base(base, s));
                    }
                } else {
                    let a = adds[i - kept.len()];
                    assert(a == all[i]);
                    assert(is_addition(a, base, staged, matches));
                    let u = choose|u: u32|
                        #[trigger] joins(base, staged, matches, u) && a == (
                            hex::row_key(u),
                            staged[u]->Put_0@,
                        );
                    hex::law_row_key_parses_back(u);
                    assert(a.0 != b.0);
                }
            }
        }
    }
}

/// A row that the transaction deleted is not among the rows that are left.
pub proof fn law_deleted_rows_are_hidden(
    rows: Seq<RowView>,
    staged: Map<u32, Staged>,
    matches: spec_fn(Vec<u8>) -> bool,
    s: u32,
)
    requires
        staged.contains_key(s),
        staged[s] is Tombstone,
    ensures
        !in_base(merged_base(rows, staged, matches), s),
        !joins(rows, staged, matches, s),
    decreases rows.len(),
{
    if rows.len() > 0 {
        law_deleted_rows_are_hidden(rows.drop_last(), staged, matches, s);
        let init = merged_base(rows.drop_last(), staged, matches);
        let out = merged_base(rows, staged, matches);
        if in_base(out, s) {
            let i = choose|i: int|
                0 <= i < out.len() && hex::parsed_hex_u32((#[trigger] out[i]).0) == Some(s);
            if i < init.len() {
                assert(init[i] == out[i]);
                assert(in_base(init, s));
            }
        }
    }
}

/// A row that the transaction wrote shows the written body wherever the base
/// scan returned it, and only where that body passes the scan's predicate.
pub proof fn law_written_rows_show_the_written_body(
    rows: Seq<RowView>,
    staged: Map<u32, Staged>,
    matches: spec_fn(Vec<u8>) -> bool,
    i: int,
)
    requires
        0 <= i < merged_base(rows, staged, matches).len(),
    ensures
        match hex::parsed_hex_u32(merged_base(rows, staged, matches)[i].0) {
            Some(s) => staged.contains_key(s) ==> staged[s] is Put && matches(staged[s]->Put_0)
                && merged_base(rows, staged, matches)[i].1 == staged[s]->Put_0@,
            None => true,
        },
    decreases rows.len(),
{
    if rows.len() > 0 {
        let init = merged_base(rows.drop_last(), staged, matches);
        if i < init.len() {
            law_written_rows_show_the_written_body(rows.drop_last(), staged, matches, i);
            assert(merged_base(rows, staged, matches)[i] == init[i]);
        }
    }
}

} // verus!
