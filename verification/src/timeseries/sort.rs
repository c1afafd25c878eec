//! `ORDER BY` for timeseries results.
//!
//! Rows are ordered on the named fields in order of significance. A field that
//! a row lacks counts as null, and null comes last in ascending order.
use crate::sorting;
use crate::text;
use vstd::prelude::*;

verus! {

/// A value of a result row.
#[derive(Debug)]
pub enum Cell {
    Nil,
    /// A number by its rank among the doubles: a greater number has a greater
    /// rank, equal numbers the same. None for a number that compares with none.
    Number(Option<i64>),
    Text(String),
    Bool(bool),
    /// A value that has no order.
    Other,
}

/// A result row: its fields in order, those without a name among them. None
/// for a row that has no fields at all.
pub struct Row {
    pub fields: Option<Vec<(Option<String>, Cell)>>,
}

pub enum CellView {
    Number(Option<i64>),
    Text(Seq<char>),
    Bool(bool),
    Other,
}

/// What a cell counts as; nothing for null.
pub open spec fn cell_view(c: Cell) -> Option<CellView> {
    match c {
        Cell::Nil => None,
        Cell::Number(n) => Some(CellView::Number(n)),
        Cell::Text(t) => Some(CellView::Text(t@)),
        Cell::Bool(b) => Some(CellView::Bool(b)),
        Cell::Other => Some(CellView::Other),
    }
}

pub open spec fn is_named(f: (Option<String>, Cell), field: Seq<char>) -> bool {
    f.0 is Some && f.0->0@ == field
}

/// The first cell of that name from `i` on.
pub open spec fn cell_from(fields: Seq<(Option<String>, Cell)>, field: Seq<char>, i: int) -> Option<
    CellView,
>
    decreases fields.len() - i,
{
    if i < 0 || i >= fields.len() {
        None
    } else if is_named(fields[i], field) {
        cell_view(fields[i].1)
    } else {
        cell_from(fields, field, i + 1)
    }
}

/// What a row has at a field.
pub open spec fn value_of(row: Row, field: Seq<char>) -> Option<CellView> {
    match row.fields {
        None => None,
        Some(fields) => cell_from(fields@, field, 0),
    }
}

/// A row's cell at a field; none for null and where the row lacks the field.
pub fn field_of<'a>(row: &'a Row, field: &str) -> (r: Option<&'a Cell>)
    ensures
        match r {
            Some(c) => !(*c is Nil) && cell_view(*c) == value_of(*row, field@),
            None => value_of(*row, field@) is None,
        },
{
    match &row.fields {
        None => None,
        Some(fields) => {
            let mut i: usize = 0;
            while i < fields.len()
                invariant
                    i <= fields@.len(),
                    row.fields == Some(*fields),
                    cell_from(fields@, field@, 0) == cell_from(fields@, field@, i as int),
                decreases fields.len() - i,
            {
                let named = match &fields[i].0 {
                    Some(name) => text::same_text(name.as_str(), field),
                    None => false,
                };
                if named {
                    return match &fields[i].1 {
                        Cell::Nil => None,
                        c => Some(c),
                    };
                }
                i = i + 1;
            }
            None
        },
    }
}

/// Negative, zero or positive, as the first comes before, with or after the
/// second.
pub open spec fn sign(less: bool, more: bool) -> int {
    if less {
        -1
    } else if more {
        1
    } else {
        0
    }
}

/// How two values compare in ascending order. Null comes last; values of
/// different kinds compare as equal.
pub open spec fn value_order(a: Option<CellView>, b: Option<CellView>) -> int {
    match (a, b) {
        (None, None) => 0,
        (None, Some(_)) => 1,
        (Some(_), None) => -1,
        (Some(x), Some(y)) => match (x, y) {
            (CellView::Number(Some(m)), CellView::Number(Some(n))) => sign(m < n, m > n),
            (CellView::Text(s), CellView::Text(t)) => sign(
                !sorting::text_le(t, s),
                !sorting::text_le(s, t),
            ),
            (CellView::Bool(p), CellView::Bool(q)) => sign(!p && q, p && !q),
            _ => 0,
        },
    }
}

fn compare_values(a: Option<&Cell>, b: Option<&Cell>) -> (r: i8)
    requires
        a matches Some(c) ==> !(*c is Nil),
        b matches Some(c) ==> !(*c is Nil),
    ensures
        r == value_order(
            match a {
                Some(c) => cell_view(*c),
                None => None,
            },
            match b {
                Some(c) => cell_view(*c),
                None => None,
            },
        ),
{
    let (x, y) = match (a, b) {
        (Some(x), Some(y)) => (x, y),
        (None, None) => {
            return 0;
        },
        (None, Some(_)) => {
            return 1;
        },
        (Some(_), None) => {
            return -1;
        },
    };
    match (x, y) {
        (Cell::Number(Some(m)), Cell::Number(Some(n))) => {
            if *m < *n {
                -1
            } else if *m > *n {
                1
            } else {
                0
            }
        },
        (Cell::Text(s), Cell::Text(t)) => {
            if !sorting::text_leq(t.as_str(), s.as_str()) {
                -1
            } else if !sorting::text_leq(s.as_str(), t.as_str()) {
                1
            } else {
                0
            }
        },
        (Cell::Bool(p), Cell::Bool(q)) => {
            if !*p && *q {
                -1
            } else if *p && !*q {
                1
            } else {
                0
            }
        },
        _ => 0,
    }
}

/// How two rows compare from the `i`th key on.
pub open spec fn order_from(a: Row, b: Row, keys: Seq<(String, bool)>, i: int) -> int
    decreases keys.len() - i,
{
    if i < 0 || i >= keys.len() {
        0
    } else {
        let (field, ascending) = keys[i];
        let o = value_order(value_of(a, field@), value_of(b, field@));
        if o == 0 {
            order_from(a, b, keys, i + 1)
        } else if ascending {
            o
        } else {
            -o
        }
    }
}

/// How two rows compare.
pub open spec fn row_order(a: Row, b: Row, keys: Seq<(String, bool)>) -> int {
    order_from(a, b, keys, 0)
}

fn compare_rows(a: &Row, b: &Row, keys: &Vec<(String, bool)>) -> (r: i8)
    ensures
        r == row_order(*a, *b, keys@),
{
    let mut i: usize = 0;
    while i < keys.len()
        invariant
            i <= keys@.len(),
            row_order(*a, *b, keys@) == order_from(*a, *b, keys@, i as int),
        decreases keys.len() - i,
    {
        let field = keys[i].0.as_str();
        let o: i8 = compare_values(field_of(a, field), field_of(b, field));
        if o != 0 {
            return if keys[i].1 {
                o
            } else {
                -o
            };
        }
        i = i + 1;
    }
    0
}

/// Whether two values are of one kind that has an order, null being of every
/// kind.
pub open spec fn same_kind(a: Option<CellView>, b: Option<CellView>) -> bool {
    match (a, b) {
        (Some(x), Some(y)) => match (x, y) {
            (CellView::Number(Some(_)), CellView::Number(Some(_))) => true,
            (CellView::Text(_), CellView::Text(_)) => true,
            (CellView::Bool(_), CellView::Bool(_)) => true,
            _ => false,
        },
        _ => true,
    }
}

/// Whether the values of every key are of one kind that has an order.
pub open spec fn is_uniform(rows: Seq<Row>, keys: Seq<(String, bool)>) -> bool {
    forall|a: int, b: int, k: int|
        #![trigger value_of(rows[a], keys[k].0@), value_of(rows[b], keys[k].0@)]
        0 <= a < rows.len() && 0 <= b < rows.len() && 0 <= k < keys.len() ==> same_kind(
            value_of(rows[a], keys[k].0@),
            value_of(rows[b], keys[k].0@),
        )
}

/// Whether the rows, arranged by `p`, ascend, and equal rows keep their order.
pub open spec fn is_ordered(rows: Seq<Row>, keys: Seq<(String, bool)>, p: Seq<usize>) -> bool {
    forall|i: int, j: int|
        #![trigger p[i], p[j]]
        0 <= i < j < p.len() ==> row_order(rows[p[i] as int], rows[p[j] as int], keys) <= 0 && (
        row_order(rows[p[i] as int], rows[p[j] as int], keys) == 0 ==> p[i] < p[j])
}

proof fn lemma_value_reverses(a: Option<CellView>, b: Option<CellView>)
    ensures
        value_order(b, a) == -value_order(a, b),
{
    match (a, b) {
        (Some(CellView::Text(s)), Some(CellView::Text(t))) => {
            sorting::lemma_text_total(s, t);
        },
        _ => {},
    }
}

proof fn lemma_order_reverses(a: Row, b: Row, keys: Seq<(String, bool)>, i: int)
    requires
        0 <= i,
    ensures
        order_from(b, a, keys, i) == -order_from(a, b, keys, i),
    decreases keys.len() - i,
{
    if i < keys.len() {
        lemma_value_reverses(value_of(a, keys[i].0@), value_of(b, keys[i].0@));
        lemma_order_reverses(a, b, keys, i + 1);
    }
}

proof fn lemma_value_transitive(a: Option<CellView>, b: Option<CellView>, c: Option<CellView>)
    requires
        same_kind(a, b),
        same_kind(b, c),
        same_kind(a, c),
        value_order(a, b) <= 0,
        value_order(b, c) <= 0,
    ensures
        value_order(a, c) <= 0,
        value_order(a, c) == 0 ==> value_order(a, b) == 0 && value_order(b, c) == 0,
{
    match (a, b, c) {
        (Some(CellView::Text(s)), Some(CellView::Text(t)), Some(CellView::Text(u))) => {
            sorting::lemma_text_total(s, t);
            sorting::lemma_text_total(t, u);
            sorting::lemma_text_total(s, u);
            sorting::lemma_text_transitive(s, t, u);
            if sorting::text_le(u, s) {
                sorting::lemma_text_transitive(t, u, s);
                sorting::lemma_text_transitive(u, s, t);
            }
        },
        _ => {},
    }
}

/// Comparing from a key on is transitive where the values are of one kind.
proof fn lemma_order_transitive(rows: Seq<Row>, keys: Seq<(String, bool)>, a: int, b: int, c: int, i: int)
    requires
        is_uniform(rows, keys),
        0 <= a < rows.len(),
        0 <= b < rows.len(),
        0 <= c < rows.len(),
        0 <= i,
        order_from(rows[a], rows[b], keys, i) <= 0,
        order_from(rows[b], rows[c], keys, i) <= 0,
    ensures
        order_from(rows[a], rows[c], keys, i) <= 0,
        order_from(rows[a], rows[c], keys, i) == 0 ==> order_from(rows[a], rows[b], keys, i) == 0
            && order_from(rows[b], rows[c], keys, i) == 0,
    decreases keys.len() - i,
{
    if i < keys.len() {
        let x = value_of(rows[a], keys[i].0@);
        let y = value_of(rows[b], keys[i].0@);
        let z = value_of(rows[c], keys[i].0@);
        lemma_value_reverses(x, y);
        lemma_value_reverses(y, z);
        lemma_value_reverses(x, z);
        assert(same_kind(x, y) && same_kind(y, z) && same_kind(x, z));
        assert(same_kind(y, x) && same_kind(z, y) && same_kind(z, x));
        if keys[i].1 {
            lemma_value_transitive(x, y, z);
        } else {
            lemma_value_transitive(z, y, x);
        }
        if value_order(x, z) == 0 {
            lemma_order_transitive(rows, keys, a, b, c, i + 1);
        }
    }
}

/// A further position keeps its place in an ordered arrangement.
#[verifier::spinoff_prover]
#[verifier::rlimit(60)]
proof fn lemma_placed(
    rows: Seq<Row>,
    keys: Seq<(String, bool)>,
    p: Seq<usize>,
    at: int,
    k: usize,
)
    requires
        k < rows.len(),
        sorting::is_arrangement(p, k as int),
        0 <= at <= p.len(),
        is_uniform(rows, keys) ==> is_ordered(rows, keys, p),
        forall|j: int|
            at <= j < k ==> row_order(rows[#[trigger] p[j] as int], rows[k as int], keys) > 0,
        at > 0 ==> row_order(rows[p[at - 1] as int], rows[k as int], keys) <= 0,
    ensures
        sorting::is_arrangement(p.insert(at, k), k + 1),
        is_uniform(rows, keys) ==> is_ordered(rows, keys, p.insert(at, k)),
{
    let q = p.insert(at, k);
    assert forall|i: int| 0 <= i < q.len() implies 0 <= #[trigger] q[i] < k + 1 by {
        if i < at {
            assert(q[i] == p[i]);
        } else if i > at {
            assert(q[i] == p[i - 1]);
        }
    }
    assert forall|i: int, j: int| 0 <= i < j < q.len() implies #[trigger] q[i] != #[trigger] q[j] by {
        let a = if i < at { i } else { i - 1 };
        let b = if j < at { j } else { j - 1 };
        if i == at {
            assert(q[j] == p[b]);
        } else if j == at {
            assert(q[i] == p[a]);
        } else {
            assert(q[i] == p[a] && q[j] == p[b]);
            assert(p[a] != p[b]);
        }
    }
    if is_uniform(rows, keys) {
        assert forall|i: int, j: int|
            #![trigger q[i], q[j]]
            0 <= i < j < q.len() implies row_order(rows[q[i] as int], rows[q[j] as int], keys) <= 0
            && (row_order(rows[q[i] as int], rows[q[j] as int], keys) == 0 ==> q[i] < q[j]) by {
            let a = if i < at { i } else { i - 1 };
            let b = if j < at { j } else { j - 1 };
            if i == at {
                assert(q[j] == p[b]);
                lemma_order_reverses(rows[p[b] as int], rows[k as int], keys, 0);
            } else if j == at {
                assert(q[i] == p[a]);
                if a < at - 1 {
                    assert(row_order(rows[p[a] as int], rows[p[at - 1] as int], keys) <= 0);
                    lemma_order_transitive(
                        rows,
                        keys,
                        p[a] as int,
                        p[at - 1] as int,
                        k as int,
                        0,
                    );
                }
            } else {
                assert(q[i] == p[a] && q[j] == p[b]);
                assert(row_order(rows[p[a] as int], rows[p[b] as int], keys) <= 0);
            }
        }
    }
}

fn arrangement_of(rows: &Vec<Row>, keys: &Vec<(String, bool)>) -> (p: Vec<usize>)
    ensures
        sorting::is_arrangement(p@, rows@.len() as int),
        is_uniform(rows@, keys@) ==> is_ordered(rows@, keys@, p@),
{
    let mut p: Vec<usize> = Vec::new();
    let mut k: usize = 0;
    while k < rows.len()
        invariant
            k <= rows@.len(),
            sorting::is_arrangement(p@, k as int),
            is_uniform(rows@, keys@) ==> is_ordered(rows@, keys@, p@),
        decreases rows.len() - k,
    {
        let mut at: usize = k;
        while at > 0 && compare_rows(&rows[p[at - 1]], &rows[k], keys) > 0
            invariant
                at <= k,
                k < rows@.len(),
                sorting::is_arrangement(p@, k as int),
                forall|j: int|
                    at <= j < k ==> row_order(
                        rows@[#[trigger] p@[j] as int],
                        rows@[k as int],
                        keys@,
                    ) > 0,
            decreases at,
        {
            at = at - 1;
        }
        let ghost before = p@;
        p.insert(at, k);
        proof {
            lemma_placed(rows@, keys@, before, at as int, k);
            assert(p@ =~= before.insert(at as int, k));
        }
        k = k + 1;
    }
    p
}

/// Whether `after` is `before` ordered by `keys`: the same rows, arranged; in
/// order where the values of each key are of one kind; as they were where there
/// is no key.
pub open spec fn is_sorted(before: Seq<Row>, after: Seq<Row>, keys: Seq<(String, bool)>) -> bool {
    &&& keys.len() == 0 ==> after == before
    &&& exists|p: Seq<usize>| #[trigger]
        sorting::is_arrangement(p, before.len() as int) && after == sorting::arranged(before, p)
            && (is_uniform(before, keys) ==> is_ordered(before, keys, p))
}

/// Order rows by `(column, ascending)` keys. Rows whose values at a key are of
/// different kinds are arranged in some order.
pub fn sort_rows(rows: &mut Vec<Row>, sort_keys: &Vec<(String, bool)>)
    ensures
        is_sorted(old(rows)@, final(rows)@, sort_keys@),
{
    let p = arrangement_of(rows, sort_keys);
    let n: usize = rows.len();
    if sort_keys.len() == 0 {
        proof {
            assert(rows@.len() == n);
            let same = Seq::new(rows@.len(), |i: int| i as usize);
            assert forall|i: int, j: int| 0 <= i < j < same.len() implies #[trigger] same[i]
                != #[trigger] same[j] by {}
            assert(sorting::is_arrangement(same, rows@.len() as int));
            assert(rows@ =~= sorting::arranged(rows@, same));
            assert(is_ordered(rows@, sort_keys@, same));
        }
        return;
    }
    let mut taken: Vec<Row> = Vec::new();
    std::mem::swap(&mut taken, rows);
    let sorted = sorting::arrange(taken, &p);
    *rows = sorted;
}

/// A row's value at a field is that of its first cell of that name; it is null
/// where the row has no such cell.
pub proof fn law_a_field_is_its_first_cell(row: Row, field: Seq<char>)
    ensures
        row.fields is None ==> value_of(row, field) is None,
        row.fields matches Some(fields) ==> {
            &&& forall|i: int|
                0 <= i < fields@.len() && (#[trigger] fields@[i]).0 is Some && fields@[i].0->0@
                    == field && (forall|j: int|
                    0 <= j < i ==> !((#[trigger] fields@[j]).0 is Some && fields@[j].0->0@
                        == field)) ==> value_of(row, field) == cell_view(fields@[i].1)
            &&& (forall|i: int|
                0 <= i < fields@.len() ==> !((#[trigger] fields@[i]).0 is Some && fields@[i].0->0@
                    == field)) ==> value_of(row, field) is None
        },
{
    if row.fields is Some {
        let fields = row.fields->0@;
        assert forall|i: int|
            0 <= i < fields.len() && (#[trigger] fields[i]).0 is Some && fields[i].0->0@ == field
                && (forall|j: int|
                0 <= j < i ==> !((#[trigger] fields[j]).0 is Some && fields[j].0->0@
                    == field)) implies value_of(row, field) == cell_view(fields[i].1) by {
            lemma_cell_skips(fields, field, 0, i);
        }
        if forall|i: int|
            0 <= i < fields.len() ==> !((#[trigger] fields[i]).0 is Some && fields[i].0->0@
                == field) {
            lemma_cell_skips(fields, field, 0, fields.len() as int);
        }
    }
}

proof fn lemma_cell_skips(fields: Seq<(Option<String>, Cell)>, field: Seq<char>, i: int, n: int)
    requires
        0 <= i <= n <= fields.len(),
        forall|j: int|
            i <= j < n ==> !((#[trigger] fields[j]).0 is Some && fields[j].0->0@ == field),
    ensures
        cell_from(fields, field, i) == cell_from(fields, field, n),
    decreases n - i,
{
    if i < n {
        assert(!(fields[i].0 is Some && fields[i].0->0@ == field));
        lemma_cell_skips(fields, field, i + 1, n);
    }
}

/// Whether a value comes strictly before another in ascending order: a lesser
/// number, a text that is the lesser where they first differ, false before true,
/// and any value before null.
pub open spec fn comes_before(a: Option<CellView>, b: Option<CellView>) -> bool {
    match (a, b) {
        (Some(_), None) => true,
        (Some(CellView::Number(Some(m))), Some(CellView::Number(Some(n)))) => m < n,
        (Some(CellView::Text(s)), Some(CellView::Text(t))) => exists|d: int|
            sorting::differ_at(s, t, d),
        (Some(CellView::Bool(p)), Some(CellView::Bool(q))) => !p && q,
        _ => false,
    }
}

/// Whether a value is null or of the kind of `like`: a number that compares, a
/// text or a truth value.
pub open spec fn null_or_like(v: Option<CellView>, like: CellView) -> bool {
    match (v, like) {
        (None, _) => true,
        (Some(CellView::Number(Some(_))), CellView::Number(_)) => true,
        (Some(CellView::Text(_)), CellView::Text(_)) => true,
        (Some(CellView::Bool(_)), CellView::Bool(_)) => true,
        _ => false,
    }
}

/// Values compare as they come before one another, either way round.
pub proof fn law_values_compare_as_they_come(a: Option<CellView>, b: Option<CellView>)
    ensures
        value_order(a, b) < 0 <==> comes_before(a, b),
        value_order(a, b) > 0 <==> comes_before(b, a),
{
    match (a, b) {
        (Some(CellView::Text(s)), Some(CellView::Text(t))) => {
            sorting::lemma_text_total(s, t);
            sorting::law_texts_are_ordered_at_their_first_difference(s, t);
            sorting::law_texts_are_ordered_at_their_first_difference(t, s);
        },
        _ => {},
    }
}

/// Values of one kind that differ come one before the other.
proof fn lemma_one_comes_first(a: Option<CellView>, b: Option<CellView>, like: CellView)
    requires
        null_or_like(a, like),
        null_or_like(b, like),
    ensures
        value_order(a, b) == 0 <==> a == b,
        same_kind(a, b),
{
    match (a, b) {
        (Some(CellView::Text(s)), Some(CellView::Text(t))) => {
            sorting::lemma_text_total(s, t);
            if sorting::text_le(s, t) && sorting::text_le(t, s) {
                sorting::lemma_text_antisymmetric(s, t);
            }
        },
        _ => {},
    }
}

/// Rows that agree on the keys before `k` and differ at `k` compare by the values
/// there, and the other way round where the key descends.
proof fn lemma_first_differing_key(
    a: Row,
    b: Row,
    keys: Seq<(String, bool)>,
    kinds: Seq<CellView>,
    i: int,
    k: int,
)
    requires
        0 <= i <= k <= keys.len() == kinds.len(),
        forall|q: int|
            0 <= q < keys.len() ==> null_or_like(value_of(a, (#[trigger] keys[q]).0@), kinds[q])
                && null_or_like(value_of(b, keys[q].0@), kinds[q]),
        forall|q: int|
            i <= q < k ==> value_of(a, (#[trigger] keys[q]).0@) == value_of(b, keys[q].0@),
        k < keys.len() ==> value_of(a, keys[k].0@) != value_of(b, keys[k].0@),
    ensures
        k == keys.len() ==> order_from(a, b, keys, i) == 0,
        k < keys.len() ==> {
            let o = value_order(value_of(a, keys[k].0@), value_of(b, keys[k].0@));
            &&& o != 0
            &&& order_from(a, b, keys, i) == if keys[k].1 {
                o
            } else {
                -o
            }
        },
    decreases k - i,
{
    if i < keys.len() {
        let x = value_of(a, keys[i].0@);
        let y = value_of(b, keys[i].0@);
        lemma_one_comes_first(x, y, kinds[i]);
        if i < k {
            lemma_first_differing_key(a, b, keys, kinds, i + 1, k);
        }
    }
}

/// Sorting keeps the rows and puts them in the order of the keys: of two rows
/// that agree on the keys before `k` and differ at `k`, the one whose value there
/// comes before stands first where `k` ascends and last where it descends. Rows
/// that agree on every key keep their order.
pub proof fn law_each_key_orders_in_its_own_direction(
    before: Seq<Row>,
    after: Seq<Row>,
    keys: Seq<(String, bool)>,
    kinds: Seq<CellView>,
) -> (p: Seq<usize>)
    requires
        is_sorted(before, after, keys),
        kinds.len() == keys.len(),
        forall|r: int, k: int|
            #![trigger before[r], keys[k]]
            0 <= r < before.len() && 0 <= k < keys.len() ==> null_or_like(
                value_of(before[r], keys[k].0@),
                kinds[k],
            ),
    ensures
        after.len() == before.len() == p.len(),
        forall|i: int|
            0 <= i < p.len() ==> 0 <= #[trigger] p[i] < before.len() && after[i]
                == before[p[i] as int],
        forall|i: int, j: int| 0 <= i < j < p.len() ==> #[trigger] p[i] != #[trigger] p[j],
        forall|i: int, j: int, k: int|
            #![trigger after[i], after[j], keys[k]]
            0 <= i < j < after.len() && 0 <= k < keys.len() && (forall|q: int|
                0 <= q < k ==> value_of(after[i], (#[trigger] keys[q]).0@) == value_of(
                    after[j],
                    keys[q].0@,
                )) && value_of(after[i], keys[k].0@) != value_of(after[j], keys[k].0@) ==> if keys[k].1 {
                comes_before(value_of(after[i], keys[k].0@), value_of(after[j], keys[k].0@))
            } else {
                comes_before(value_of(after[j], keys[k].0@), value_of(after[i], keys[k].0@))
            },
        forall|i: int, j: int|
            #![trigger p[i], p[j]]
            0 <= i < j < after.len() && (forall|q: int|
                0 <= q < keys.len() ==> value_of(after[i], (#[trigger] keys[q]).0@) == value_of(
                    after[j],
                    keys[q].0@,
                )) ==> p[i] < p[j],
{
    assert(is_uniform(before, keys)) by {
        assert forall|a: int, b: int, k: int|
            #![trigger value_of(before[a], keys[k].0@), value_of(before[b], keys[k].0@)]
            0 <= a < before.len() && 0 <= b < before.len() && 0 <= k
                < keys.len() implies same_kind(
            value_of(before[a], keys[k].0@),
            value_of(before[b], keys[k].0@),
        ) by {
            lemma_one_comes_first(
                value_of(before[a], keys[k].0@),
                value_of(before[b], keys[k].0@),
                kinds[k],
            );
        }
    }
    let p = choose|p: Seq<usize>| #[trigger]
        sorting::is_arrangement(p, before.len() as int) && after == sorting::arranged(before, p)
            && (is_uniform(before, keys) ==> is_ordered(before, keys, p));
    assert forall|i: int, j: int, k: int|
        #![trigger after[i], after[j], keys[k]]
        0 <= i < j < after.len() && 0 <= k < keys.len() && (forall|q: int|
            0 <= q < k ==> value_of(after[i], (#[trigger] keys[q]).0@) == value_of(
                after[j],
                keys[q].0@,
            )) && value_of(after[i], keys[k].0@) != value_of(
            after[j],
            keys[k].0@,
        ) implies if keys[k].1 {
        comes_before(value_of(after[i], keys[k].0@), value_of(after[j], keys[k].0@))
    } else {
        comes_before(value_of(after[j], keys[k].0@), value_of(after[i], keys[k].0@))
    } by {
        let a = before[p[i] as int];
        let b = before[p[j] as int];
        assert(after[i] == a && after[j] == b);
        lemma_first_differing_key(a, b, keys, kinds, 0, k);
        law_values_compare_as_they_come(value_of(a, keys[k].0@), value_of(b, keys[k].0@));
    }
    assert forall|i: int, j: int|
        #![trigger p[i], p[j]]
        0 <= i < j < after.len() && (forall|q: int|
            0 <= q < keys.len() ==> value_of(after[i], (#[trigger] keys[q]).0@) == value_of(
                after[j],
                keys[q].0@,
            )) implies p[i] < p[j] by {
        let a = before[p[i] as int];
        let b = before[p[j] as int];
        assert(after[i] == a && after[j] == b);
        lemma_first_differing_key(a, b, keys, kinds, 0, keys.len() as int);
    }
    p
}

/// Ordering by a column that no row has leaves the rows as they are.
pub proof fn law_an_unknown_column_keeps_the_order(
    before: Seq<Row>,
    after: Seq<Row>,
    keys: Seq<(String, bool)>,
)
    requires
        is_sorted(before, after, keys),
        forall|i: int, k: int|
            #![trigger value_of(before[i], keys[k].0@)]
            0 <= i < before.len() && 0 <= k < keys.len() ==> value_of(
                before[i],
                keys[k].0@,
            ) is None,
    ensures
        after == before,
{
    assert(is_uniform(before, keys));
    let p = choose|p: Seq<usize>| #[trigger]
        sorting::is_arrangement(p, before.len() as int) && after == sorting::arranged(before, p)
            && (is_uniform(before, keys) ==> is_ordered(before, keys, p));
    assert forall|i: int, j: int| 0 <= i < j < p.len() implies #[trigger] p[i] < #[trigger] p[j] by {
        lemma_nothing_to_compare(before, keys, p[i] as int, p[j] as int, 0);
    }
    lemma_ascending_is_identity(p, before.len() as int);
    assert(after =~= before);
}

proof fn lemma_nothing_to_compare(rows: Seq<Row>, keys: Seq<(String, bool)>, a: int, b: int, i: int)
    requires
        0 <= a < rows.len(),
        0 <= b < rows.len(),
        0 <= i,
        forall|j: int, k: int|
            #![trigger value_of(rows[j], keys[k].0@)]
            0 <= j < rows.len() && 0 <= k < keys.len() ==> value_of(rows[j], keys[k].0@) is None,
    ensures
        order_from(rows[a], rows[b], keys, i) == 0,
    decreases keys.len() - i,
{
    if i < keys.len() {
        assert(value_of(rows[a], keys[i].0@) is None);
        assert(value_of(rows[b], keys[i].0@) is None);
        lemma_nothing_to_compare(rows, keys, a, b, i + 1);
    }
}

/// An arrangement that ascends is the one that changes nothing.
proof fn lemma_ascending_is_identity(p: Seq<usize>, n: int)
    requires
        sorting::is_arrangement(p, n),
        forall|i: int, j: int| 0 <= i < j < p.len() ==> #[trigger] p[i] < #[trigger] p[j],
    ensures
        forall|i: int| 0 <= i < n ==> #[trigger] p[i] == i,
{
    assert forall|i: int| 0 <= i < n implies #[trigger] p[i] >= i by {
        lemma_at_least(p, i);
    }
    assert forall|i: int| 0 <= i < n implies #[trigger] p[i] <= i by {
        lemma_at_most(p, n, i);
    }
}

proof fn lemma_at_least(p: Seq<usize>, i: int)
    requires
        0 <= i < p.len(),
        forall|i: int, j: int| 0 <= i < j < p.len() ==> #[trigger] p[i] < #[trigger] p[j],
    ensures
        p[i] >= i,
    decreases i,
{
    if i > 0 {
        lemma_at_least(p, i - 1);
        assert(p[i - 1] < p[i]);
    }
}

proof fn lemma_at_most(p: Seq<usize>, n: int, i: int)
    requires
        0 <= i < n,
        p.len() == n,
        forall|i: int| 0 <= i < p.len() ==> 0 <= #[trigger] p[i] < n,
        forall|i: int, j: int| 0 <= i < j < p.len() ==> #[trigger] p[i] < #[trigger] p[j],
    ensures
        p[i] <= i,
    decreases n - i,
{
    if i + 1 < n {
        lemma_at_most(p, n, i + 1);
        assert(p[i] < p[i + 1]);
    }
}

} // verus!
