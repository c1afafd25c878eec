//! Stable ordering.
use crate::text;
use vstd::prelude::*;

verus! {

/// Values with a total preorder.
pub trait Ranked: Sized {
    /// Whether `self` may stand before `other`.
    spec fn le(&self, other: &Self) -> bool;

    proof fn total(a: &Self, b: &Self)
        ensures
            a.le(b) || b.le(a),
    ;

    proof fn transitive(a: &Self, b: &Self, c: &Self)
        requires
            a.le(b),
            b.le(c),
        ensures
            a.le(c),
    ;

    fn leq(&self, other: &Self) -> (r: bool)
        ensures
            r == self.le(other),
    ;
}

/// Each of the first `n` positions once.
pub open spec fn is_arrangement(p: Seq<usize>, n: int) -> bool {
    &&& p.len() == n
    &&& forall|i: int| 0 <= i < p.len() ==> 0 <= #[trigger] p[i] < n
    &&& forall|i: int, j: int| 0 <= i < j < p.len() ==> #[trigger] p[i] != #[trigger] p[j]
}

/// The arranged values ascend, and equal values keep their order.
pub open spec fn is_stable_order<T: Ranked>(v: Seq<T>, p: Seq<usize>) -> bool {
    forall|i: int, j: int|
        #![trigger p[i], p[j]]
        0 <= i < j < p.len() ==> v[p[i] as int].le(&v[p[j] as int]) && (v[p[j] as int].le(
            &v[p[i] as int],
        ) ==> p[i] < p[j])
}

/// The positions of `v` in stable ascending order.
pub fn stable_order<T: Ranked>(v: &Vec<T>) -> (p: Vec<usize>)
    ensures
        is_arrangement(p@, v@.len() as int),
        is_stable_order(v@, p@),
{
    let mut p: Vec<usize> = Vec::new();
    let mut k: usize = 0;
    while k < v.len()
        invariant
            k <= v@.len(),
            is_arrangement(p@, k as int),
            is_stable_order(v@, p@),
        decreases v.len() - k,
    {
        let mut at: usize = k;
        while at > 0 && !v[p[at - 1]].leq(&v[k])
            invariant
                at <= k,
                k < v@.len(),
                is_arrangement(p@, k as int),
                is_stable_order(v@, p@),
                forall|j: int|
                    at <= j < k ==> !(v@[#[trigger] p@[j] as int].le(&v@[k as int])),
            decreases at,
        {
            at = at - 1;
        }
        let ghost before = p@;
        p.insert(at, k);
        proof {
            lemma_inserted(v@, before, at as int, k);
            assert(p@ =~= before.insert(at as int, k));
        }
        k = k + 1;
    }
    p
}

proof fn lemma_inserted<T: Ranked>(v: Seq<T>, p: Seq<usize>, at: int, k: usize)
    requires
        k < v.len(),
        is_arrangement(p, k as int),
        is_stable_order(v, p),
        0 <= at <= p.len(),
        forall|j: int| at <= j < k ==> !(v[#[trigger] p[j] as int].le(&v[k as int])),
        at > 0 ==> v[p[at - 1] as int].le(&v[k as int]),
    ensures
        is_arrangement(p.insert(at, k), k + 1),
        is_stable_order(v, p.insert(at, k)),
{
    let q = p.insert(at, k);
    assert forall|i: int| 0 <= i < q.len() implies 0 <= #[trigger] q[i] < k + 1 by {
        if i < at {
            assert(q[i] == p[i]);
        } else if i > at {
            assert(q[i] == p[i - 1]);
        }
    }
    assert forall|i: int, j: int| 0 <= i < j < q.len() implies #[trigger] q[i] != #[trigger] q[j] by {
        let a = if i < at { i } else { i - 1 };
        let b = if j < at { j } else { j - 1 };
        if i == at {
            assert(q[j] == p[b]);
        } else if j == at {
            assert(q[i] == p[a]);
        } else {
            assert(q[i] == p[a] && q[j] == p[b]);
            assert(p[a] != p[b]);
        }
    }
    assert forall|i: int, j: int|
        #![trigger q[i], q[j]]
        0 <= i < j < q.len() implies v[q[i] as int].le(&v[q[j] as int]) && (v[q[j] as int].le(
        &v[q[i] as int],
    ) ==> q[i] < q[j]) by {
        let a = if i < at { i } else { i - 1 };
        let b = if j < at { j } else { j - 1 };
        if i == at {
            assert(q[j] == p[b]);
            T::total(&v[k as int], &v[p[b] as int]);
        } else if j == at {
            assert(q[i] == p[a]);
            let m = p[at - 1] as int;
            if a < at - 1 {
                assert(v[p[a] as int].le(&v[p[at - 1] as int]));
                T::transitive(&v[p[a] as int], &v[m], &v[k as int]);
            }
        } else {
            assert(q[i] == p[a] && q[j] == p[b]);
            assert(v[p[a] as int].le(&v[p[b] as int]));
        }
    }
}

/// The order of texts: character by character, a prefix first.
pub open spec fn text_le(a: Seq<char>, b: Seq<char>) -> bool
    decreases a.len(),
{
    if a.len() == 0 {
        true
    } else if b.len() == 0 {
        false
    } else if a[0] != b[0] {
        (a[0] as int) < (b[0] as int)
    } else {
        text_le(a.subrange(1, a.len() as int), b.subrange(1, b.len() as int))
    }
}

pub proof fn lemma_text_total(a: Seq<char>, b: Seq<char>)
    ensures
        text_le(a, b) || text_le(b, a),
    decreases a.len(),
{
    if a.len() > 0 && b.len() > 0 && a[0] == b[0] {
        lemma_text_total(a.subrange(1, a.len() as int), b.subrange(1, b.len() as int));
    }
}

pub proof fn lemma_text_transitive(a: Seq<char>, b: Seq<char>, c: Seq<char>)
    requires
        text_le(a, b),
        text_le(b, c),
    ensures
        text_le(a, c),
    decreases a.len(),
{
    if a.len() > 0 && a[0] == b[0] && b[0] == c[0] {
        lemma_text_transitive(
            a.subrange(1, a.len() as int),
            b.subrange(1, b.len() as int),
            c.subrange(1, c.len() as int),
        );
    }
}

/// Texts that may stand either way are the same.
pub proof fn lemma_text_antisymmetric(a: Seq<char>, b: Seq<char>)
    requires
        text_le(a, b),
        text_le(b, a),
    ensures
        a == b,
    decreases a.len(),
{
    if a.len() > 0 && b.len() > 0 {
        lemma_text_antisymmetric(a.subrange(1, a.len() as int), b.subrange(1, b.len() as int));
        assert(a =~= seq![a[0]] + a.subrange(1, a.len() as int));
        assert(b =~= seq![b[0]] + b.subrange(1, b.len() as int));
    } else {
        assert(a =~= b);
    }
}

/// Where two texts differ first: they are alike before `d`, and at `d` the first
/// one has ended or has the lesser character.
pub open spec fn differ_at(a: Seq<char>, b: Seq<char>, d: int) -> bool {
    &&& 0 <= d <= a.len()
    &&& d < b.len()
    &&& forall|i: int| 0 <= i < d ==> #[trigger] a[i] == b[i]
    &&& d < a.len() ==> (a[d] as int) < (b[d] as int)
}

/// A text stands strictly before another exactly where it is the lesser at the
/// first place at which they differ.
pub proof fn law_texts_are_ordered_at_their_first_difference(a: Seq<char>, b: Seq<char>)
    ensures
        !text_le(b, a) <==> exists|d: int| differ_at(a, b, d),
    decreases a.len(),
{
    if b.len() == 0 {
    } else if a.len() == 0 {
        assert(differ_at(a, b, 0));
    } else if a[0] != b[0] {
        if (a[0] as int) < (b[0] as int) {
            assert(differ_at(a, b, 0));
        }
        if exists|d: int| differ_at(a, b, d) {
            let d = choose|d: int| differ_at(a, b, d);
            assert(d == 0) by {
                if d > 0 {
                    assert(a[0] == b[0]);
                }
            }
        }
    } else {
        let x = a.subrange(1, a.len() as int);
        let y = b.subrange(1, b.len() as int);
        law_texts_are_ordered_at_their_first_difference(x, y);
        if exists|d: int| differ_at(x, y, d) {
            let d = choose|d: int| differ_at(x, y, d);
            assert forall|i: int| 0 <= i < d + 1 implies #[trigger] a[i] == b[i] by {
                if i > 0 {
                    assert(x[i - 1] == y[i - 1]);
                }
            }
            if d < x.len() {
                assert(a[d + 1] == x[d] && b[d + 1] == y[d]);
            }
            assert(differ_at(a, b, d + 1));
        }
        if exists|d: int| differ_at(a, b, d) {
            let d = choose|d: int| differ_at(a, b, d);
            assert forall|i: int| 0 <= i < d - 1 implies #[trigger] x[i] == y[i] by {
                assert(a[i + 1] == b[i + 1]);
            }
            assert(differ_at(x, y, d - 1));
        }
    }
}

pub fn text_leq(a: &str, b: &str) -> (r: bool)
    ensures
        r == text_le(a@, b@),
{
    let x = text::to_chars(a);
    let y = text::to_chars(b);
    let mut i: usize = 0;
    proof {
        assert(x@.subrange(0, x@.len() as int) =~= x@);
        assert(y@.subrange(0, y@.len() as int) =~= y@);
    }
    while i < x.len() && i < y.len()
        invariant
            x@ == a@,
            y@ == b@,
            i <= x@.len(),
            i <= y@.len(),
            text_le(x@, y@) == text_le(
                x@.subrange(i as int, x@.len() as int),
                y@.subrange(i as int, y@.len() as int),
            ),
        decreases x.len() - i,
    {
        let ghost xs = x@.subrange(i as int, x@.len() as int);
        let ghost ys = y@.subrange(i as int, y@.len() as int);
        proof {
            assert(xs[0] == x@[i as int]);
            assert(ys[0] == y@[i as int]);
        }
        let cx: char = x[i];
        let cy: char = y[i];
        if cx != cy {
            let less = text::code_of(cx) < text::code_of(cy);
            return less;
        }
        proof {
            assert(xs.subrange(1, xs.len() as int) =~= x@.subrange(i + 1, x@.len() as int));
            assert(ys.subrange(1, ys.len() as int) =~= y@.subrange(i + 1, y@.len() as int));
        }
        i = i + 1;
    }
    x.len() == i
}

/// A value that is ordered by its name.
pub struct Named<T> {
    pub name: String,
    pub item: T,
}

impl<T> Ranked for Named<T> {
    open spec fn le(&self, other: &Self) -> bool {
        text_le(self.name@, other.name@)
    }

    proof fn total(a: &Self, b: &Self) {
        lemma_text_total(a.name@, b.name@);
    }

    proof fn transitive(a: &Self, b: &Self, c: &Self) {
        lemma_text_transitive(a.name@, b.name@, c.name@);
    }

    fn leq(&self, other: &Self) -> (r: bool) {
        text_leq(self.name.as_str(), other.name.as_str())
    }
}

/// The values of `v` arranged by `p`.
pub open spec fn arranged<T>(v: Seq<T>, p: Seq<usize>) -> Seq<T> {
    Seq::new(p.len(), |i: int| v[p[i] as int])
}

/// The values of `v` as they stand, in the order of `p`.
pub fn arrange<T>(v: Vec<T>, p: &Vec<usize>) -> (r: Vec<T>)
    requires
        is_arrangement(p@, v@.len() as int),
    ensures
        r@ == arranged(v@, p@),
{
    let ghost values = v@;
    let mut slots: Vec<Option<T>> = Vec::new();
    for x in it: v.into_iter()
        invariant
            it.seq() == values,
            slots@.len() == it.index(),
            forall|j: int| 0 <= j < slots@.len() ==> #[trigger] slots@[j] == Some(values[j]),
    {
        slots.push(Some(x));
    }
    let mut r: Vec<T> = Vec::new();
    let mut i: usize = 0;
    while i < p.len()
        invariant
            i <= p@.len(),
            is_arrangement(p@, values.len() as int),
            slots@.len() == values.len(),
            r@.len() == i,
            forall|j: int| 0 <= j < i ==> #[trigger] r@[j] == values[p@[j] as int],
            forall|j: int| i <= j < p@.len() ==> slots@[#[trigger] p@[j] as int] == Some(
                values[p@[j] as int],
            ),
        decreases p.len() - i,
    {
        let at: usize = p[i];
        let ghost before = slots@;
        let taken = slots[at].take();
        proof {
            assert forall|j: int| i + 1 <= j < p@.len() implies slots@[#[trigger] p@[j] as int]
                == Some(values[p@[j] as int]) by {
                assert(p@[i as int] != p@[j]);
                assert(slots@[p@[j] as int] == before[p@[j] as int]);
            }
        }
        match taken {
            Some(x) => {
                r.push(x);
            },
            None => {},
        }
        i = i + 1;
    }
    proof {
        assert(r@ =~= arranged(values, p@));
    }
    r
}

/// Every position stands somewhere in an arrangement.
pub proof fn lemma_arrangement_covers(p: Seq<usize>, n: int, k: int)
    requires
        is_arrangement(p, n),
        0 <= k < n,
    ensures
        exists|i: int| 0 <= i < n && #[trigger] p[i] == k,
{
    let q = p.map_values(|x: usize| x as int);
    assert(q.no_duplicates()) by {
        assert forall|i: int, j: int| 0 <= i < q.len() && 0 <= j < q.len() && i != j implies q[i]
            != q[j] by {
            if i < j {
                assert(p[i] != p[j]);
            } else {
                assert(p[j] != p[i]);
            }
        }
    }
    q.unique_seq_to_set();
    let all = vstd::set_lib::set_int_range(0, n);
    vstd::set_lib::lemma_int_range(0, n);
    assert(q.to_set().subset_of(all)) by {
        assert forall|x: int| q.to_set().contains(x) implies all.contains(x) by {
            let i = choose|i: int| 0 <= i < q.len() && q[i] == x;
            assert(p[i] == x);
        }
    }
    vstd::seq_lib::seq_to_set_is_finite(q);
    vstd::set_lib::lemma_subset_equality(q.to_set(), all);
    assert(q.to_set().contains(k));
    let i = choose|i: int| 0 <= i < q.len() && q[i] == k;
    assert(p[i] == k);
}

/// What is arranged holds the same values.
pub proof fn lemma_arranged_holds_the_same<T>(v: Seq<T>, p: Seq<usize>)
    requires
        is_arrangement(p, v.len() as int),
    ensures
        forall|x: T| #[trigger] arranged(v, p).contains(x) <==> v.contains(x),
{
    let a = arranged(v, p);
    assert forall|x: T| #[trigger] a.contains(x) <==> v.contains(x) by {
        if a.contains(x) {
            let i = choose|i: int| 0 <= i < a.len() && a[i] == x;
            assert(v[p[i] as int] == x);
        }
        if v.contains(x) {
            let k = choose|k: int| 0 <= k < v.len() && v[k] == x;
            lemma_arrangement_covers(p, v.len() as int, k);
            let i = choose|i: int| 0 <= i < v.len() && #[trigger] p[i] == k;
            assert(a[i] == x);
        }
    }
}

/// Whether a list ascends in its names, none of which stands twice.
pub open spec fn ascends<K, X>(l: Seq<(K, X)>, le: spec_fn(K, K) -> bool) -> bool {
    &&& forall|i: int, j: int| 0 <= i < j < l.len() ==> le((#[trigger] l[i]).0, (#[trigger] l[j]).0)
    &&& forall|i: int, j: int| 0 <= i < j < l.len() ==> (#[trigger] l[i]).0 != (#[trigger] l[j]).0
}

/// Two ascending lists that hold the same are the same.
pub proof fn lemma_ascending_is_unique<K, X>(
    a: Seq<(K, X)>,
    b: Seq<(K, X)>,
    le: spec_fn(K, K) -> bool,
)
    requires
        ascends(a, le),
        ascends(b, le),
        forall|x: K, y: K| #[trigger] le(x, y) && #[trigger] le(y, x) ==> x == y,
        forall|x: (K, X)| #[trigger] a.contains(x) <==> b.contains(x),
    ensures
        a == b,
    decreases a.len(),
{
    if a.len() == 0 {
        if b.len() > 0 {
            assert(b.contains(b[0]));
            assert(a.contains(b[0]));
        }
        assert(a =~= b);
    } else {
        let x = a.last();
        assert(a[a.len() - 1] == x);
        assert(a.contains(x));
        assert(b.contains(x));
        let j = choose|j: int| 0 <= j < b.len() && b[j] == x;
        let y = b.last();
        assert(b[b.len() - 1] == y);
        assert(b.contains(y));
        assert(a.contains(y));
        let i = choose|i: int| 0 <= i < a.len() && a[i] == y;
        if j < b.len() - 1 {
            assert(le(b[j].0, b[b.len() - 1].0));
            assert(b[j].0 != b[b.len() - 1].0);
            if i < a.len() - 1 {
                assert(le(a[i].0, a[a.len() - 1].0));
            }
        }
        assert(x == y);
        let a0 = a.drop_last();
        let b0 = b.drop_last();
        assert forall|z: (K, X)| #[trigger] a0.contains(z) <==> b0.contains(z) by {
            if a0.contains(z) {
                let q = choose|q: int| 0 <= q < a0.len() && a0[q] == z;
                assert(a[q] == z);
                assert(a[q].0 != a[a.len() - 1].0);
                assert(a.contains(z));
                assert(b.contains(z));
                let w = choose|w: int| 0 <= w < b.len() && b[w] == z;
                assert(w < b.len() - 1);
                assert(b0[w] == z);
            }
            if b0.contains(z) {
                let q = choose|q: int| 0 <= q < b0.len() && b0[q] == z;
                assert(b[q] == z);
                assert(b[q].0 != b[b.len() - 1].0);
                assert(b.contains(z));
                assert(a.contains(z));
                let w = choose|w: int| 0 <= w < a.len() && a[w] == z;
                assert(w < a.len() - 1);
                assert(a0[w] == z);
            }
        }
        assert(ascends(a0, le)) by {
            assert forall|p: int, q: int| 0 <= p < q < a0.len() implies le(
                (#[trigger] a0[p]).0,
                (#[trigger] a0[q]).0,
            ) && a0[p].0 != a0[q].0 by {
                assert(a0[p] == a[p] && a0[q] == a[q]);
            }
        }
        assert(ascends(b0, le)) by {
            assert forall|p: int, q: int| 0 <= p < q < b0.len() implies le(
                (#[trigger] b0[p]).0,
                (#[trigger] b0[q]).0,
            ) && b0[p].0 != b0[q].0 by {
                assert(b0[p] == b[p] && b0[q] == b[q]);
            }
        }
        lemma_ascending_is_unique(a0, b0, le);
        assert(a =~= a0.push(x));
        assert(b =~= b0.push(y));
    }
}

/// The order of texts.
pub open spec fn text_order() -> spec_fn(Seq<char>, Seq<char>) -> bool {
    |a: Seq<char>, b: Seq<char>| text_le(a, b)
}

pub proof fn lemma_text_order()
    ensures
        forall|x: Seq<char>, y: Seq<char>| #[trigger]
            text_order()(x, y) && #[trigger] text_order()(y, x) ==> x == y,
{
    assert forall|x: Seq<char>, y: Seq<char>| #[trigger]
        text_order()(x, y) && #[trigger] text_order()(y, x) implies x == y by {
        lemma_text_antisymmetric(x, y);
    }
}

/// Each value with its name.
pub open spec fn named_views<T>(v: Seq<Named<T>>) -> Seq<(Seq<char>, T)> {
    v.map_values(|x: Named<T>| (x.name@, x.item))
}

/// The values in the order of their names.
pub fn sort_by_name<T>(v: Vec<Named<T>>) -> (r: Vec<Named<T>>)
    requires
        forall|i: int, j: int|
            0 <= i < j < v@.len() ==> (#[trigger] v@[i]).name@ != (#[trigger] v@[j]).name@,
    ensures
        ascends(named_views(r@), text_order()),
        forall|x: (Seq<char>, T)| #[trigger]
            named_views(r@).contains(x) <==> named_views(v@).contains(x),
{
    let ghost values = v@;
    let p = stable_order(&v);
    let r = arrange(v, &p);
    proof {
        let l = named_views(r@);
        let before = named_views(values);
        assert forall|i: int, j: int| 0 <= i < j < l.len() implies text_order()(
            (#[trigger] l[i]).0,
            (#[trigger] l[j]).0,
        ) && l[i].0 != l[j].0 by {
            let a = p@[i] as int;
            let b = p@[j] as int;
            assert(p@[i] != p@[j]);
            assert(values[a].le(&values[b]));
            if a < b {
                assert(values[a].name@ != values[b].name@);
            } else {
                assert(values[b].name@ != values[a].name@);
            }
        }
        lemma_arranged_holds_the_same(before, p@);
        assert(l =~= arranged(before, p@));
    }
    r
}

} // verus!
