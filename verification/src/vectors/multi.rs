//! Documents with several vectors: what an insert, a delete and a scored search
//! check and decide. The scores themselves are outside: a score is known here by
//! its rank among the scores.
use crate::error::ErrorCode;
use crate::sorting;
use crate::sorting::Ranked;
use crate::text;
use crate::vectors::handlers;
use crate::vectors::registry;
use crate::vectors::registry::{HnswParams, IndexKey, VectorRegistry};
use crate::maps::MapKey;
use vstd::prelude::*;
use vstd::string::*;

verus! {

/// An insert of `count` vectors of `dim` elements, laid end to end.
pub struct MultiVectorInsert<'a> {
    pub database_id: u64,
    pub tid: u64,
    pub collection: &'a str,
    pub field_name: &'a str,
    pub document_surrogate: u32,
    /// How many elements there are in all.
    pub data_len: usize,
    pub count: usize,
    pub dim: usize,
}

/// What the engine has to do for an insert: create the index where it is new,
/// drop the document's vectors, then insert the slices.
pub struct MultiVectorPlan {
    pub key: IndexKey,
    pub create: bool,
    pub params: Option<HnswParams>,
    /// The document that the vectors are of.
    pub surrogate: u32,
    /// Where each vector begins and ends within the elements.
    pub slices: Vec<(usize, usize)>,
}

pub open spec fn length_text(count: usize, dim: usize, got: usize) -> Seq<char> {
    "data length mismatch: expected "@ + (text::decimal((count * dim) as nat) + (" ("@ + (
    text::decimal(count as nat) + ("×"@ + (text::decimal(dim as nat) + ("), got "@ + text::decimal(
        got as nat,
    )))))))
}

/// Where vectors begin and end.
pub open spec fn slices_of(count: nat, dim: usize) -> Seq<(usize, usize)> {
    Seq::new(count, |i: int| ((i * dim) as usize, ((i + 1) * dim) as usize))
}

fn length_error(count: usize, dim: usize, product: usize, got: usize) -> (r: ErrorCode)
    requires
        product == count * dim,
    ensures
        handlers::rejects_with(r, length_text(count, dim, got)),
{
    let mut c = "data length mismatch: expected ".to_owned();
    text::push_decimal(&mut c, product as u64);
    c.append(" (");
    text::push_decimal(&mut c, count as u64);
    c.append("×");
    text::push_decimal(&mut c, dim as u64);
    c.append("), got ");
    text::push_decimal(&mut c, got as u64);
    proof {
        assert(c@ =~= length_text(count, dim, got));
    }
    ErrorCode::RejectedConstraint { constraint: c, detail: String::new() }
}

/// Insert the vectors of one document in place of those it had.
pub fn execute_multi_vector_insert(reg: &mut VectorRegistry, p: &MultiVectorInsert) -> (r: Result<
    MultiVectorPlan,
    ErrorCode,
>)
    requires
        p.count * p.dim <= usize::MAX,
    ensures
        ({
            let key = (p.database_id, p.tid, registry::index_name(p.collection@, p.field_name@));
            if p.count == 0 || p.dim == 0 {
                r is Err && handlers::rejects_with(
                    r->Err_0,
                    "multi-vector count and dim must be > 0"@,
                ) && final(reg)@ == old(reg)@
            } else if p.data_len != p.count * p.dim {
                r is Err && handlers::rejects_with(
                    r->Err_0,
                    length_text(p.count, p.dim, p.data_len),
                ) && final(reg)@ == old(reg)@
            } else if handlers::dimension_clash(old(reg)@, key, p.dim) {
                r is Err && handlers::rejects_with(
                    r->Err_0,
                    handlers::index_dimension_text(old(reg)@.dims[key], p.dim),
                ) && final(reg)@ == old(reg)@
            } else {
                &&& r matches Ok(plan)
                &&& plan.key.key() == key
                &&& plan.create == !old(reg)@.dims.contains_key(key)
                &&& plan.params == handlers::declared(old(reg)@, key)
                &&& plan.surrogate == p.document_surrogate
                &&& plan.slices@ == slices_of(p.count as nat, p.dim)
                &&& final(reg)@ == handlers::with_index(old(reg)@, key, p.dim)
            }
        }),
        r matches Ok(plan) ==> plan.slices@.len() == p.count && forall|i: int|
            0 <= i < p.count ==> (#[trigger] plan.slices@[i]).0 == i * p.dim
                && plan.slices@[i].1 == (i + 1) * p.dim,
        forall|k: (u64, u64, Seq<char>)| #[trigger]
            old(reg)@.dims.contains_key(k) ==> final(reg)@.dims.contains_key(k)
                && final(reg)@.dims[k] == old(reg)@.dims[k],
{
    if p.count == 0 || p.dim == 0 {
        return Err(
            ErrorCode::RejectedConstraint {
                constraint: "multi-vector count and dim must be > 0".to_owned(),
                detail: String::new(),
            },
        );
    }
    let product: usize = p.count * p.dim;
    if p.data_len != product {
        return Err(length_error(p.count, p.dim, product, p.data_len));
    }
    let (key, create, params) = match handlers::get_or_create_vector_index(
        reg,
        p.database_id,
        p.tid,
        p.collection,
        p.dim,
        p.field_name,
    ) {
        Ok(x) => x,
        Err(e) => {
            return Err(e);
        },
    };
    let mut slices: Vec<(usize, usize)> = Vec::new();
    let mut i: usize = 0;
    let mut at: usize = 0;
    while i < p.count
        invariant
            i <= p.count,
            at == i * p.dim,
            p.count * p.dim <= usize::MAX,
            slices@ == slices_of(i as nat, p.dim),
            slices@.len() == i,
            forall|j: int|
                0 <= j < i ==> (#[trigger] slices@[j]).0 == j * p.dim && slices@[j].1 == (j + 1)
                    * p.dim,
        decreases p.count - i,
    {
        proof {
            assert((i + 1) * p.dim == i * p.dim + p.dim) by (nonlinear_arith);
            assert((i + 1) * p.dim <= p.count * p.dim) by (nonlinear_arith)
                requires
                    i + 1 <= p.count,
            ;
        }
        let end: usize = at + p.dim;
        slices.push((at, end));
        proof {
            assert(slices@ =~= slices_of((i + 1) as nat, p.dim));
        }
        at = end;
        i = i + 1;
    }
    Ok(MultiVectorPlan { key, create, params, surrogate: p.document_surrogate, slices })
}

/// The slices of an insert cover its elements without gap or overlap.
pub proof fn law_the_slices_cover_the_elements(count: nat, dim: usize, i: int)
    requires
        0 <= i < count,
        count * dim <= usize::MAX,
    ensures
        slices_of(count, dim)[i].1 - slices_of(count, dim)[i].0 == dim,
        i == 0 ==> slices_of(count, dim)[i].0 == 0,
        i + 1 < count ==> slices_of(count, dim)[i].1 == slices_of(count, dim)[i + 1].0,
        i + 1 == count ==> slices_of(count, dim)[i].1 == count * dim,
{
    assert((i + 1) * dim == i * dim + dim) by (nonlinear_arith);
    assert(0 <= i * dim) by (nonlinear_arith)
        requires
            0 <= i,
    ;
    assert((i + 1) * dim <= count * dim) by (nonlinear_arith)
        requires
            i + 1 <= count,
    ;
}

/// The index that a delete of a document's vectors looks in; none where there is
/// none, which is answered as not found.
pub fn execute_multi_vector_delete(
    reg: &VectorRegistry,
    database_id: u64,
    tid: u64,
    collection: &str,
    field_name: &str,
) -> (r: Result<IndexKey, ErrorCode>)
    ensures
        ({
            let key = (database_id, tid, registry::index_name(collection@, field_name@));
            if reg@.dims.contains_key(key) {
                r matches Ok(k) && k.key() == key
            } else {
                r == Err::<IndexKey, ErrorCode>(ErrorCode::NotFound)
            }
        }),
{
    let key = registry::vector_index_key(database_id, tid, collection, field_name);
    match reg.dim_of(&key) {
        Some(_) => Ok(key),
        None => Err(ErrorCode::NotFound),
    }
}

/// The answer to a delete that took `deleted` vectors away.
pub fn multi_vector_delete_reply(deleted: usize) -> (r: Result<(), ErrorCode>)
    ensures
        r == if deleted > 0 {
            Ok::<(), ErrorCode>(())
        } else {
            Err::<(), ErrorCode>(ErrorCode::NotFound)
        },
{
    if deleted > 0 {
        Ok(())
    } else {
        Err(ErrorCode::NotFound)
    }
}

/// How the scores of a document's vectors become one.
#[derive(Clone, Copy, Debug, PartialEq, Eq, Structural)]
pub enum MultiVectorScoreMode {
    MaxSim,
    AvgSim,
    SumSim,
}

pub open spec fn mode_of(name: Seq<char>) -> Option<MultiVectorScoreMode> {
    if name == "max_sim"@ {
        Some(MultiVectorScoreMode::MaxSim)
    } else if name == "avg_sim"@ {
        Some(MultiVectorScoreMode::AvgSim)
    } else if name == "sum_sim"@ {
        Some(MultiVectorScoreMode::SumSim)
    } else {
        None
    }
}

pub fn parse_mode(name: &str) -> (r: Option<MultiVectorScoreMode>)
    ensures
        r == mode_of(name@),
{
    if text::same_text(name, "max_sim") {
        Some(MultiVectorScoreMode::MaxSim)
    } else if text::same_text(name, "avg_sim") {
        Some(MultiVectorScoreMode::AvgSim)
    } else if text::same_text(name, "sum_sim") {
        Some(MultiVectorScoreMode::SumSim)
    } else {
        None
    }
}

pub open spec fn mode_text(name: Seq<char>) -> Seq<char> {
    "unknown score mode '"@ + (name + "'; supported: max_sim, avg_sim, sum_sim"@)
}

/// How many candidates to fetch: ten for each document that is wanted, within
/// bounds, so that enough documents are left when they are grouped.
pub open spec fn over_fetched(top_k: usize) -> int {
    if top_k * 10 < 100 {
        100
    } else if top_k * 10 > 10_000 {
        10_000
    } else {
        top_k * 10
    }
}

/// How wide to search: as wide as asked for but no less than is fetched, and
/// twice what is fetched where nothing was asked for.
pub open spec fn search_width(ef_search: usize, over_fetch: int) -> int {
    if ef_search > 0 {
        if ef_search >= over_fetch {
            ef_search as int
        } else {
            over_fetch
        }
    } else {
        2 * over_fetch
    }
}

/// A search that is to be made.
pub struct ScoreSearch {
    pub key: IndexKey,
    pub mode: MultiVectorScoreMode,
    pub over_fetch: usize,
    pub ef: usize,
}

/// Decide on a scored search.
pub fn execute_multi_vector_score_search(
    reg: &VectorRegistry,
    database_id: u64,
    tid: u64,
    collection: &str,
    field_name: &str,
    top_k: usize,
    ef_search: usize,
    mode: &str,
) -> (r: Result<ScoreSearch, ErrorCode>)
    ensures
        ({
            let key = (database_id, tid, registry::index_name(collection@, field_name@));
            match mode_of(mode@) {
                None => r is Err && handlers::rejects_with(r->Err_0, mode_text(mode@)),
                Some(m) => if reg@.dims.contains_key(key) {
                    &&& r matches Ok(s)
                    &&& s.key.key() == key
                    &&& s.mode == m
                    &&& s.over_fetch == over_fetched(top_k)
                    &&& s.ef == search_width(ef_search, over_fetched(top_k))
                } else {
                    r == Err::<ScoreSearch, ErrorCode>(ErrorCode::NotFound)
                },
            }
        }),
{
    let m = match parse_mode(mode) {
        Some(m) => m,
        None => {
            let mut c = "unknown score mode '".to_owned();
            c.append(mode);
            c.append("'; supported: max_sim, avg_sim, sum_sim");
            proof {
                assert(c@ =~= mode_text(mode@));
            }
            return Err(
                ErrorCode::RejectedConstraint { constraint: c, detail: String::new() },
            );
        },
    };
    let key = registry::vector_index_key(database_id, tid, collection, field_name);
    match reg.dim_of(&key) {
        None => {
            return Err(ErrorCode::NotFound);
        },
        Some(_) => {},
    }
    let over_fetch: usize = if top_k > 1000 {
        10_000
    } else if top_k * 10 < 100 {
        100
    } else {
        top_k * 10
    };
    let ef: usize = if ef_search == 0 {
        over_fetch * 2
    } else if ef_search >= over_fetch {
        ef_search
    } else {
        over_fetch
    };
    Ok(ScoreSearch { key, mode: m, over_fetch, ef })
}

/// A vector that a search found: its number in the index, and the document it is
/// bound to.
#[derive(Clone, Copy, Debug, PartialEq, Eq, Structural)]
pub struct Candidate {
    pub id: u32,
    pub surrogate: Option<u32>,
}

/// The document that a candidate counts for: the one it is bound to, else its own
/// number.
pub open spec fn group_key(c: Candidate) -> u32 {
    match c.surrogate {
        Some(s) => s,
        None => c.id,
    }
}

/// The positions of a document's candidates, in order.
pub open spec fn positions_of(candidates: Seq<Candidate>, key: u32) -> Seq<usize>
    decreases candidates.len(),
{
    if candidates.len() == 0 {
        Seq::empty()
    } else {
        let before = positions_of(candidates.drop_last(), key);
        if group_key(candidates.last()) == key {
            before.push((candidates.len() - 1) as usize)
        } else {
            before
        }
    }
}

fn group_key_of(c: &Candidate) -> (r: u32)
    ensures
        r == group_key(*c),
{
    match c.surrogate {
        Some(s) => s,
        None => c.id,
    }
}

fn gather(candidates: &Vec<Candidate>, key: u32) -> (r: Vec<usize>)
    ensures
        r@ == positions_of(candidates@, key),
{
    let mut r: Vec<usize> = Vec::new();
    let mut i: usize = 0;
    proof {
        assert(candidates@.take(0) =~= Seq::empty());
    }
    while i < candidates.len()
        invariant
            i <= candidates@.len(),
            r@ == positions_of(candidates@.take(i as int), key),
        decreases candidates.len() - i,
    {
        proof {
            assert(candidates@.take(i + 1).drop_last() =~= candidates@.take(i as int));
        }
        if group_key_of(&candidates[i]) == key {
            r.push(i);
        }
        i = i + 1;
    }
    proof {
        assert(candidates@.take(candidates@.len() as int) =~= candidates@);
    }
    r
}

/// Whether a document is among groups.
pub open spec fn has_group(groups: Seq<(u32, Vec<usize>)>, key: u32) -> bool {
    exists|i: int| 0 <= i < groups.len() && (#[trigger] groups[i]).0 == key
}

/// Group candidates by document. Every candidate is in the one group of its
/// document.
pub fn group_candidates(candidates: &Vec<Candidate>) -> (r: Vec<(u32, Vec<usize>)>)
    ensures
        forall|i: int|
            0 <= i < r@.len() ==> (#[trigger] r@[i]).1@ == positions_of(candidates@, r@[i].0),
        forall|i: int, j: int|
            0 <= i < j < r@.len() ==> (#[trigger] r@[i]).0 != (#[trigger] r@[j]).0,
        forall|i: int|
            0 <= i < candidates@.len() ==> has_group(r@, group_key(#[trigger] candidates@[i])),
{
    let mut r: Vec<(u32, Vec<usize>)> = Vec::new();
    let mut i: usize = 0;
    while i < candidates.len()
        invariant
            i <= candidates@.len(),
            forall|j: int|
                0 <= j < r@.len() ==> (#[trigger] r@[j]).1@ == positions_of(candidates@, r@[j].0),
            forall|a: int, b: int|
                0 <= a < b < r@.len() ==> (#[trigger] r@[a]).0 != (#[trigger] r@[b]).0,
            forall|j: int|
                0 <= j < i ==> has_group(r@, group_key(#[trigger] candidates@[j])),
        decreases candidates.len() - i,
    {
        let key: u32 = group_key_of(&candidates[i]);
        let mut known = false;
        let mut k: usize = 0;
        while k < r.len()
            invariant
                k <= r@.len(),
                known == exists|j: int| 0 <= j < k && (#[trigger] r@[j]).0 == key,
            decreases r.len() - k,
        {
            if r[k].0 == key {
                known = true;
            }
            k = k + 1;
        }
        let ghost before = r@;
        if !known {
            let positions = gather(candidates, key);
            r.push((key, positions));
        }
        proof {
            assert forall|j: int| 0 <= j < i + 1 implies has_group(
                r@,
                group_key(#[trigger] candidates@[j]),
            ) by {
                let want = group_key(candidates@[j]);
                if has_group(before, want) {
                    let q = choose|q: int| 0 <= q < before.len() && (#[trigger] before[q]).0 == want;
                    assert(r@[q] == before[q]);
                } else {
                    assert(j == i);
                    assert(!known);
                    assert(r@[before.len() as int].0 == want);
                }
            }
        }
        i = i + 1;
    }
    r
}

/// A document with the rank of its score.
#[derive(Clone, Copy, Debug, PartialEq, Eq, Structural)]
pub struct ScoredDoc {
    pub surrogate: u32,
    pub score: i64,
}

impl Ranked for ScoredDoc {
    open spec fn le(&self, other: &Self) -> bool {
        self.score >= other.score
    }

    proof fn total(a: &Self, b: &Self) {
    }

    proof fn transitive(a: &Self, b: &Self, c: &Self) {
    }

    fn leq(&self, other: &Self) -> (r: bool) {
        self.score >= other.score
    }
}

/// Whether `r` are the best of `docs`: the first `top_k` of an arrangement by
/// descending score, in which equal scores keep their order.
pub open spec fn is_best(docs: Seq<ScoredDoc>, top_k: usize, r: Seq<ScoredDoc>) -> bool {
    exists|p: Seq<usize>| #[trigger]
        sorting::is_arrangement(p, docs.len() as int) && sorting::is_stable_order(docs, p) && r
            == sorting::arranged(docs, p).take(
            if docs.len() <= top_k {
                docs.len() as int
            } else {
                top_k as int
            },
        )
}

/// The best documents, best first.
pub fn best_documents(docs: Vec<ScoredDoc>, top_k: usize) -> (r: Vec<ScoredDoc>)
    ensures
        is_best(docs@, top_k, r@),
{
    let ghost all = docs@;
    let p = sorting::stable_order(&docs);
    let mut r = sorting::arrange(docs, &p);
    let ghost sorted = r@;
    if r.len() > top_k {
        r.truncate(top_k);
    }
    proof {
        assert(r@ =~= sorted.take(
            if all.len() <= top_k {
                all.len() as int
            } else {
                top_k as int
            },
        ));
        assert(sorting::is_arrangement(p@, all.len() as int));
    }
    r
}

/// No document that is left out has a better score than one that is kept.
pub proof fn law_the_best_documents_are_kept(
    docs: Seq<ScoredDoc>,
    top_k: usize,
    r: Seq<ScoredDoc>,
    i: int,
    d: ScoredDoc,
)
    requires
        is_best(docs, top_k, r),
        0 <= i < r.len(),
        docs.contains(d),
        !r.contains(d),
    ensures
        d.score <= r[i].score,
{
    let p = choose|p: Seq<usize>| #[trigger]
        sorting::is_arrangement(p, docs.len() as int) && sorting::is_stable_order(docs, p) && r
            == sorting::arranged(docs, p).take(
            if docs.len() <= top_k {
                docs.len() as int
            } else {
                top_k as int
            },
        );
    let k = choose|k: int| 0 <= k < docs.len() && docs[k] == d;
    sorting::lemma_arrangement_covers(p, docs.len() as int, k);
    let q = choose|q: int| 0 <= q < docs.len() && #[trigger] p[q] == k;
    if q < r.len() {
        assert(r[q] == d);
        assert(r.contains(d));
    } else {
        assert(docs[p[i] as int].le(&docs[p[q] as int]));
        assert(r[i] == docs[p[i] as int]);
    }
}

/// A search fetches ten times what is asked for, at least a hundred and at most ten
/// thousand; it looks at least that wide, and twice as wide where no width is asked
/// for.
pub proof fn law_a_search_fetches_more_than_it_gives(top_k: usize, ef_search: usize)
    ensures
        100 <= over_fetched(top_k) <= 10_000,
        10 <= top_k <= 1_000 ==> over_fetched(top_k) == 10 * top_k,
        top_k < 10 ==> over_fetched(top_k) == 100,
        top_k > 1_000 ==> over_fetched(top_k) == 10_000,
        search_width(ef_search, over_fetched(top_k)) >= over_fetched(top_k),
        ef_search == 0 ==> search_width(ef_search, over_fetched(top_k)) == 2 * over_fetched(top_k),
        ef_search > 0 ==> search_width(ef_search, over_fetched(top_k)) >= ef_search && (
        search_width(ef_search, over_fetched(top_k)) == ef_search || search_width(
            ef_search,
            over_fetched(top_k),
        ) == over_fetched(top_k)),
{
}

/// Each way of scoring has one name.
pub proof fn law_a_mode_has_one_name(name: Seq<char>)
    ensures
        mode_of(name) == Some(MultiVectorScoreMode::MaxSim) <==> name == "max_sim"@,
        mode_of(name) == Some(MultiVectorScoreMode::AvgSim) <==> name == "avg_sim"@,
        mode_of(name) == Some(MultiVectorScoreMode::SumSim) <==> name == "sum_sim"@,
{
    reveal_strlit("max_sim");
    reveal_strlit("avg_sim");
    reveal_strlit("sum_sim");
    assert("max_sim"@[0] == 'm' && "avg_sim"@[0] == 'a' && "sum_sim"@[0] == 's');
}

/// A group holds the positions of exactly the candidates of its document, or of its
/// own id where a candidate has none, in ascending order.
pub proof fn law_a_group_holds_its_candidates(candidates: Seq<Candidate>, key: u32, i: int)
    requires
        candidates.len() <= usize::MAX,
    ensures
        ({
            let p = positions_of(candidates, key);
            &&& 0 <= i < candidates.len() ==> (p.contains(i as usize) <==> key == (
            match candidates[i].surrogate {
                Some(s) => s,
                None => candidates[i].id,
            }))
            &&& forall|a: int| 0 <= a < p.len() ==> (#[trigger] p[a]) < candidates.len()
            &&& forall|a: int, b: int| 0 <= a < b < p.len() ==> (#[trigger] p[a]) < (#[trigger] p[b])
        }),
    decreases candidates.len(),
{
    if candidates.len() > 0 {
        let short = candidates.drop_last();
        let n = candidates.len() - 1;
        let before = positions_of(short, key);
        let p = positions_of(candidates, key);
        law_a_group_holds_its_candidates(short, key, i);
        if group_key(candidates.last()) == key {
            assert(p[before.len() as int] == n);
            assert forall|a: int, b: int| 0 <= a < b < p.len() implies (#[trigger] p[a]) < (
            #[trigger] p[b]) by {
                assert(p[a] == before[a]);
                if b < before.len() {
                    assert(p[b] == before[b]);
                }
            }
            assert forall|a: int| 0 <= a < p.len() implies (#[trigger] p[a]) < candidates.len() by {
                if a < before.len() {
                    assert(p[a] == before[a]);
                }
            }
        }
        if 0 <= i < n {
            assert(short[i] == candidates[i]);
            if before.contains(i as usize) {
                let a = choose|a: int| 0 <= a < before.len() && before[a] == i as usize;
                assert(p[a] == i as usize);
            }
            if p.contains(i as usize) {
                let a = choose|a: int| 0 <= a < p.len() && p[a] == i as usize;
                assert(a < before.len());
                assert(before[a] == i as usize);
            }
        } else if i == n {
            if before.contains(n as usize) {
                let a = choose|a: int| 0 <= a < before.len() && before[a] == n as usize;
                assert(before[a] < short.len());
            }
        }
    }
}

/// The documents that are given are as many as are asked for and there are, the
/// highest scores first; documents of one score keep their order.
pub proof fn law_the_highest_scores_come_first(
    docs: Seq<ScoredDoc>,
    top_k: usize,
    r: Seq<ScoredDoc>,
) -> (p: Seq<usize>)
    requires
        is_best(docs, top_k, r),
    ensures
        r.len() <= top_k,
        r.len() <= docs.len(),
        r.len() == top_k || r.len() == docs.len(),
        p.len() == docs.len(),
        forall|i: int| 0 <= i < p.len() ==> (#[trigger] p[i]) < docs.len(),
        forall|i: int, j: int| 0 <= i < j < p.len() ==> (#[trigger] p[i]) != (#[trigger] p[j]),
        forall|i: int| 0 <= i < r.len() ==> #[trigger] r[i] == docs[p[i] as int],
        forall|i: int, j: int|
            0 <= i < j < r.len() ==> (#[trigger] r[i]).score >= (#[trigger] r[j]).score,
        forall|i: int, j: int|
            #![trigger p[i], p[j]]
            0 <= i < j < r.len() && r[i].score == r[j].score ==> p[i] < p[j],
{
    let p = choose|p: Seq<usize>| #[trigger]
        sorting::is_arrangement(p, docs.len() as int) && sorting::is_stable_order(docs, p) && r
            == sorting::arranged(docs, p).take(
            if docs.len() <= top_k {
                docs.len() as int
            } else {
                top_k as int
            },
        );
    assert forall|i: int, j: int| 0 <= i < j < r.len() implies (#[trigger] r[i]).score >= (
    #[trigger] r[j]).score by {
        assert(r[i] == docs[p[i] as int] && r[j] == docs[p[j] as int]);
        assert(docs[p[i] as int].le(&docs[p[j] as int]));
    }
    assert forall|i: int, j: int|
        #![trigger p[i], p[j]]
        0 <= i < j < r.len() && r[i].score == r[j].score implies p[i] < p[j] by {
        assert(r[i] == docs[p[i] as int] && r[j] == docs[p[j] as int]);
        assert(docs[p[j] as int].le(&docs[p[i] as int]));
    }
    p
}

} // verus!
