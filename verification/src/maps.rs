//! A map held as a list of entries in the order in which their keys came.
use vstd::prelude::*;

verus! {

/// A key that is told apart by its mathematical value.
pub trait MapKey: Sized {
    type Key;

    spec fn key(&self) -> Self::Key;

    fn same(&self, other: &Self) -> (r: bool)
        ensures
            r == (self.key() == other.key()),
    ;
}

pub struct VecMap<K: MapKey, V> {
    entries: Vec<(K, V)>,
}

pub open spec fn keys_unique<K: MapKey, V>(e: Seq<(K, V)>) -> bool {
    forall|i: int, j: int| 0 <= i < j < e.len() ==> #[trigger] e[i].0.key() != #[trigger] e[j].0.key()
}

pub open spec fn holds_key<K: MapKey, V>(e: Seq<(K, V)>, k: K::Key) -> bool {
    exists|i: int| 0 <= i < e.len() && #[trigger] e[i].0.key() == k
}

pub open spec fn position<K: MapKey, V>(e: Seq<(K, V)>, k: K::Key) -> int {
    choose|i: int| 0 <= i < e.len() && #[trigger] e[i].0.key() == k
}

/// The map that a list of entries with distinct keys stands for.
pub open spec fn as_map<K: MapKey, V>(e: Seq<(K, V)>) -> Map<K::Key, V> {
    Map::new(|k: K::Key| holds_key(e, k), |k: K::Key| e[position(e, k)].1)
}

/// Each entry is what the map holds at its key.
pub proof fn lemma_entry_in_map<K: MapKey, V>(e: Seq<(K, V)>, i: int)
    requires
        keys_unique(e),
        0 <= i < e.len(),
    ensures
        as_map(e).contains_key(e[i].0.key()),
        as_map(e)[e[i].0.key()] == e[i].1,
        position(e, e[i].0.key()) == i,
{
    let k = e[i].0.key();
    assert(holds_key(e, k));
    let p = position(e, k);
    assert(0 <= p < e.len() && e[p].0.key() == k);
    if p < i {
        assert(e[p].0.key() != e[i].0.key());
    }
    if i < p {
        assert(e[i].0.key() != e[p].0.key());
    }
}

/// What the map holds at a key is the value of an entry with that key.
pub proof fn lemma_map_has_entry<K: MapKey, V>(e: Seq<(K, V)>, k: K::Key)
    requires
        as_map(e).contains_key(k),
    ensures
        0 <= position(e, k) < e.len(),
        e[position(e, k)].0.key() == k,
        as_map(e)[k] == e[position(e, k)].1,
{
    assert(holds_key(e, k));
}

impl<K: MapKey, V> View for VecMap<K, V> {
    type V = Map<K::Key, V>;

    closed spec fn view(&self) -> Map<K::Key, V> {
        as_map(self.entries@)
    }
}

impl<K: MapKey, V> VecMap<K, V> {
    #[verifier::type_invariant]
    pub closed spec fn wf(self) -> bool {
        keys_unique(self.entries@)
    }

    /// The entries in the order in which their keys came.
    pub closed spec fn listed(&self) -> Seq<(K, V)> {
        self.entries@
    }

    /// The map is the one that its entries stand for, and their keys are distinct.
    pub proof fn lemma_listed(&self)
        ensures
            self@ == as_map(self.listed()),
            self.wf() ==> keys_unique(self.listed()),
    {
    }

    pub fn new() -> (r: Self)
        ensures
            r@ == Map::<K::Key, V>::empty(),
            r.listed() == Seq::<(K, V)>::empty(),
    {
        let r = VecMap { entries: Vec::new() };
        proof {
            assert(r@ =~= Map::<K::Key, V>::empty());
        }
        r
    }

    pub fn len(&self) -> (r: usize)
        ensures
            r == self.listed().len(),
    {
        self.entries.len()
    }

    /// The position of a key.
    pub fn find(&self, k: &K) -> (r: Option<usize>)
        ensures
            match r {
                Some(i) => i < self.listed().len() && self.listed()[i as int].0.key() == k.key()
                    && self@.contains_key(k.key()) && self@[k.key()] == self.listed()[i as int].1,
                None => !self@.contains_key(k.key()),
            },
    {
        proof {
            use_type_invariant(self);
        }
        let mut i: usize = 0;
        while i < self.entries.len()
            invariant
                i <= self.entries@.len(),
                keys_unique(self.entries@),
                forall|j: int| 0 <= j < i ==> #[trigger] self.entries@[j].0.key() != k.key(),
            decreases self.entries.len() - i,
        {
            if self.entries[i].0.same(k) {
                proof {
                    lemma_entry_in_map(self.entries@, i as int);
                }
                return Some(i);
            }
            i = i + 1;
        }
        None
    }

    /// The entry at a position.
    pub fn entry(&self, i: usize) -> (r: &(K, V))
        requires
            i < self.listed().len(),
        ensures
            *r == self.listed()[i as int],
            self@.contains_key(r.0.key()),
            self@[r.0.key()] == r.1,
    {
        proof {
            use_type_invariant(self);
            lemma_entry_in_map(self.entries@, i as int);
        }
        &self.entries[i]
    }

    pub fn get(&self, k: &K) -> (r: Option<&V>)
        ensures
            match r {
                Some(v) => self@.contains_key(k.key()) && *v == self@[k.key()],
                None => !self@.contains_key(k.key()),
            },
    {
        match self.find(k) {
            Some(i) => Some(&self.entries[i].1),
            None => None,
        }
    }

    pub fn contains(&self, k: &K) -> (r: bool)
        ensures
            r == self@.contains_key(k.key()),
    {
        self.find(k).is_some()
    }

    /// Set the value at a key; the value that was there is handed back.
    pub fn insert(&mut self, k: K, v: V) -> (r: Option<V>)
        ensures
            final(self)@ == old(self)@.insert(k.key(), v),
            match r {
                Some(o) => old(self)@.contains_key(k.key()) && o == old(self)@[k.key()],
                None => !old(self)@.contains_key(k.key()),
            },
            old(self)@.contains_key(k.key()) ==> final(self).listed() == old(self).listed().update(
                position(old(self).listed(), k.key()),
                (k, v),
            ),
            !old(self)@.contains_key(k.key()) ==> final(self).listed() == old(self).listed().push(
                (k, v),
            ),
    {
        let at = self.find(&k);
        proof {
            use_type_invariant(&*self);
        }
        let ghost before = self.entries@;
        let ghost kk = k.key();
        let mut e: Vec<(K, V)> = Vec::new();
        std::mem::swap(&mut e, &mut self.entries);
        match at {
            Some(i) => {
                proof {
                    lemma_entry_in_map(before, i as int);
                }
                let (k0, old_v) = e.remove(i);
                e.insert(i, (k, v));
                proof {
                    assert(e@ =~= before.update(i as int, (k, v)));
                    assert(keys_unique(e@));
                    lemma_entry_in_map(before, i as int);
                    assert forall|q: K::Key| #[trigger] as_map(e@).contains_key(q) <==> as_map(
                        before,
                    ).insert(kk, v).contains_key(q) by {
                        lemma_same_key_update(before, e@, i as int, q);
                    }
                    assert forall|q: K::Key| as_map(e@).contains_key(q) implies #[trigger] as_map(
                        e@,
                    )[q] == as_map(before).insert(kk, v)[q] by {
                        let p = position(e@, q);
                        lemma_map_has_entry(e@, q);
                        if p != i {
                            lemma_entry_in_map(before, p);
                            assert(before[p].0.key() == q);
                            if q == kk {
                                lemma_entry_in_map(e@, i as int);
                            }
                        }
                    }
                    assert(as_map(e@) =~= as_map(before).insert(kk, v));
                }
                self.entries = e;
                Some(old_v)
            },
            None => {
                e.push((k, v));
                proof {
                    lemma_push_entry(before, k, v);
                }
                self.entries = e;
                None
            },
        }
    }

    /// Keep the entries whose keys pass.
    pub fn retain<F: Fn(&K) -> bool>(&mut self, keep: F, pred: Ghost<spec_fn(K::Key) -> bool>)
        requires
            tests_key(keep, pred@),
        ensures
            final(self)@ == kept_part(old(self)@, pred@),
    {
        proof {
            use_type_invariant(&*self);
        }
        let ghost all = self.entries@;
        let mut e: Vec<(K, V)> = Vec::new();
        std::mem::swap(&mut e, &mut self.entries);
        let mut out: Vec<(K, V)> = Vec::new();
        for x in it: e.into_iter()
            invariant
                it.seq() == all,
                tests_key(keep, pred@),
                out@ == kept_entries(all.take(it.index() as int), pred@),
        {
            proof {
                assert(all.take(it.index() + 1).drop_last() =~= all.take(it.index() as int));
                assert(all.take(it.index() + 1).last() == x);
            }
            if keep(&x.0) {
                out.push(x);
            }
        }
        proof {
            assert(all.take(all.len() as int) =~= all);
            lemma_kept(all, pred@);
        }
        self.entries = out;
    }

    /// The entries themselves.
    pub fn into_entries(self) -> (r: Vec<(K, V)>)
        ensures
            r@ == self.listed(),
            keys_unique(r@),
            as_map(r@) == self@,
    {
        proof {
            use_type_invariant(&self);
        }
        self.entries
    }

    /// Take a key out of the map.
    pub fn remove(&mut self, k: &K) -> (r: Option<V>)
        ensures
            final(self)@ == old(self)@.remove(k.key()),
            match r {
                Some(o) => old(self)@.contains_key(k.key()) && o == old(self)@[k.key()],
                None => !old(self)@.contains_key(k.key()) && final(self).listed() == old(
                    self,
                ).listed(),
            },
            old(self)@.contains_key(k.key()) ==> final(self).listed() == old(self).listed().remove(
                position(old(self).listed(), k.key()),
            ),
    {
        let at = self.find(k);
        proof {
            use_type_invariant(&*self);
        }
        let ghost before = self.entries@;
        let ghost kk = k.key();
        match at {
            Some(i) => {
                let mut e: Vec<(K, V)> = Vec::new();
                std::mem::swap(&mut e, &mut self.entries);
                let (k0, old_v) = e.remove(i);
                proof {
                    lemma_entry_in_map(before, i as int);
                    lemma_remove_entry(before, i as int);
                    assert(e@ =~= before.remove(i as int));
                }
                self.entries = e;
                Some(old_v)
            },
            None => {
                proof {
                    assert(as_map(before).remove(kk) =~= as_map(before));
                }
                None
            },
        }
    }
}

proof fn lemma_same_key_update<K: MapKey, V>(before: Seq<(K, V)>, after: Seq<(K, V)>, i: int, q: K::Key)
    requires
        0 <= i < before.len(),
        after.len() == before.len(),
        forall|j: int| 0 <= j < before.len() ==> (#[trigger] before[j]).0.key() == after[j].0.key(),
    ensures
        holds_key(after, q) <==> holds_key(before, q),
        holds_key(before, before[i].0.key()),
{
    if holds_key(before, q) {
        let j = choose|j: int| 0 <= j < before.len() && #[trigger] before[j].0.key() == q;
        assert(after[j].0.key() == q);
    }
    if holds_key(after, q) {
        let j = choose|j: int| 0 <= j < after.len() && #[trigger] after[j].0.key() == q;
        assert(before[j].0.key() == q);
    }
    assert(before[i].0.key() == before[i].0.key());
}

/// A test that answers for every key, by the key's value alone.
pub open spec fn tests_key<K: MapKey, F: Fn(&K) -> bool>(
    keep: F,
    pred: spec_fn(K::Key) -> bool,
) -> bool {
    &&& forall|k: &K| #[trigger] keep.requires((k,))
    &&& forall|k: &K, b: bool| #[trigger] keep.ensures((k,), b) ==> b == pred(k.key())
}

/// The part of a map whose keys pass.
pub open spec fn kept_part<A, V>(m: Map<A, V>, pred: spec_fn(A) -> bool) -> Map<A, V> {
    Map::new(|q: A| m.contains_key(q) && pred(q), |q: A| m[q])
}

/// The entries whose keys pass.
pub open spec fn kept_entries<K: MapKey, V>(
    e: Seq<(K, V)>,
    pred: spec_fn(K::Key) -> bool,
) -> Seq<(K, V)>
    decreases e.len(),
{
    if e.len() == 0 {
        Seq::empty()
    } else {
        let init = kept_entries(e.drop_last(), pred);
        if pred(e.last().0.key()) {
            init.push(e.last())
        } else {
            init
        }
    }
}

/// The entries that pass stand for the part of the map that passes.
pub proof fn lemma_kept<K: MapKey, V>(e: Seq<(K, V)>, pred: spec_fn(K::Key) -> bool)
    requires
        keys_unique(e),
    ensures
        keys_unique(kept_entries(e, pred)),
        as_map(kept_entries(e, pred)) == kept_part(as_map(e), pred),
    decreases e.len(),
{
    if e.len() == 0 {
        assert(as_map(kept_entries(e, pred)) =~= kept_part(as_map(e), pred));
    } else {
        let init = e.drop_last();
        let (k, v) = e.last();
        assert(keys_unique(init)) by {
            assert forall|i: int, j: int| 0 <= i < j < init.len() implies #[trigger] init[i].0.key()
                != #[trigger] init[j].0.key() by {
                assert(e[i].0.key() != e[j].0.key());
            }
        }
        lemma_kept(init, pred);
        if as_map(init).contains_key(k.key()) {
            lemma_map_has_entry(init, k.key());
            let p = position(init, k.key());
            assert(e[p].0.key() != e[e.len() - 1].0.key());
        }
        lemma_push_entry(init, k, v);
        assert(e =~= init.push((k, v)));
        if pred(k.key()) {
            lemma_push_entry(kept_entries(init, pred), k, v);
        }
        assert(as_map(kept_entries(e, pred)) =~= kept_part(as_map(e), pred));
    }
}

/// Appending an entry with a fresh key sets that key.
pub proof fn lemma_push_entry<K: MapKey, V>(before: Seq<(K, V)>, k: K, v: V)
    requires
        keys_unique(before),
        !as_map(before).contains_key(k.key()),
    ensures
        keys_unique(before.push((k, v))),
        as_map(before.push((k, v))) == as_map(before).insert(k.key(), v),
{
    let after = before.push((k, v));
    let kk = k.key();
    assert forall|i: int, j: int| 0 <= i < j < after.len() implies #[trigger] after[i].0.key()
        != #[trigger] after[j].0.key() by {
        if j < before.len() {
            assert(before[i].0.key() != before[j].0.key());
        } else {
            assert(before[i].0.key() != kk) by {
                assert(!holds_key(before, kk));
            }
        }
    }
    assert forall|q: K::Key| #[trigger] as_map(after).contains_key(q) <==> as_map(before).insert(
        kk,
        v,
    ).contains_key(q) by {
        if as_map(before).contains_key(q) {
            lemma_map_has_entry(before, q);
            let p = position(before, q);
            assert(after[p].0.key() == q);
            assert(holds_key(after, q));
        }
        if q == kk {
            assert(after[before.len() as int].0.key() == kk);
            assert(holds_key(after, q));
        }
        if as_map(after).contains_key(q) && q != kk {
            lemma_map_has_entry(after, q);
            let p = position(after, q);
            assert(before[p].0.key() == q);
            assert(holds_key(before, q));
        }
    }
    assert forall|q: K::Key| as_map(after).contains_key(q) implies #[trigger] as_map(after)[q]
        == as_map(before).insert(kk, v)[q] by {
        lemma_map_has_entry(after, q);
        let p = position(after, q);
        if p < before.len() {
            lemma_entry_in_map(before, p);
        }
    }
    assert(as_map(after) =~= as_map(before).insert(kk, v));
}

/// Taking an entry out takes its key out.
pub proof fn lemma_remove_entry<K: MapKey, V>(before: Seq<(K, V)>, i: int)
    requires
        keys_unique(before),
        0 <= i < before.len(),
    ensures
        keys_unique(before.remove(i)),
        as_map(before.remove(i)) == as_map(before).remove(before[i].0.key()),
{
    let after = before.remove(i);
    let kk = before[i].0.key();
    assert forall|a: int, b: int| 0 <= a < b < after.len() implies #[trigger] after[a].0.key()
        != #[trigger] after[b].0.key() by {
        let a2 = if a < i { a } else { a + 1 };
        let b2 = if b < i { b } else { b + 1 };
        assert(before[a2].0.key() != before[b2].0.key());
    }
    assert forall|q: K::Key| #[trigger] as_map(after).contains_key(q) <==> as_map(before).remove(
        kk,
    ).contains_key(q) by {
        if as_map(before).contains_key(q) && q != kk {
            lemma_map_has_entry(before, q);
            let p = position(before, q);
            let p2 = if p < i { p } else { p - 1 };
            assert(after[p2].0.key() == q);
            assert(holds_key(after, q));
        }
        if as_map(after).contains_key(q) {
            lemma_map_has_entry(after, q);
            let p = position(after, q);
            let p2 = if p < i { p } else { p + 1 };
            assert(before[p2].0.key() == q);
            assert(holds_key(before, q));
            if q == kk {
                if p2 < i {
                    assert(before[p2].0.key() != before[i].0.key());
                } else {
                    assert(before[i].0.key() != before[p2].0.key());
                }
            }
        }
    }
    assert forall|q: K::Key| as_map(after).contains_key(q) implies #[trigger] as_map(after)[q]
        == as_map(before).remove(kk)[q] by {
        lemma_map_has_entry(after, q);
        let p = position(after, q);
        let p2 = if p < i { p } else { p + 1 };
        lemma_entry_in_map(before, p2);
    }
    assert(as_map(after) =~= as_map(before).remove(kk));
}

/// As many keys as entries.
pub proof fn lemma_map_len<K: MapKey, V>(e: Seq<(K, V)>)
    requires
        keys_unique(e),
    ensures
        as_map(e).dom().finite(),
        as_map(e).dom().len() == e.len(),
    decreases e.len(),
{
    if e.len() == 0 {
        assert(as_map(e).dom() =~= Set::empty());
    } else {
        let init = e.drop_last();
        let (k, v) = e.last();
        assert(keys_unique(init)) by {
            assert forall|i: int, j: int| 0 <= i < j < init.len() implies #[trigger] init[i].0.key()
                != #[trigger] init[j].0.key() by {
                assert(e[i].0.key() != e[j].0.key());
            }
        }
        lemma_map_len(init);
        if as_map(init).contains_key(k.key()) {
            lemma_map_has_entry(init, k.key());
            let p = position(init, k.key());
            assert(e[p].0.key() != e[e.len() - 1].0.key());
        }
        lemma_push_entry(init, k, v);
        assert(e =~= init.push((k, v)));
        assert(as_map(e).dom() =~= as_map(init).dom().insert(k.key()));
    }
}

/// The sum of a measure over a list.
pub open spec fn total<T>(s: Seq<T>, f: spec_fn(T) -> nat) -> nat
    decreases s.len(),
{
    if s.len() == 0 {
        0
    } else {
        total(s.drop_last(), f) + f(s.last())
    }
}

pub proof fn lemma_total_push<T>(s: Seq<T>, x: T, f: spec_fn(T) -> nat)
    ensures
        total(s.push(x), f) == total(s, f) + f(x),
{
    assert(s.push(x).drop_last() =~= s);
}

pub proof fn lemma_total_update<T>(s: Seq<T>, i: int, x: T, f: spec_fn(T) -> nat)
    requires
        0 <= i < s.len(),
    ensures
        total(s.update(i, x), f) + f(s[i]) == total(s, f) + f(x),
    decreases s.len(),
{
    let t = s.update(i, x);
    if i == s.len() - 1 {
        assert(t.drop_last() =~= s.drop_last());
    } else {
        lemma_total_update(s.drop_last(), i, x, f);
        assert(t.drop_last() =~= s.drop_last().update(i, x));
    }
}

pub proof fn lemma_total_remove<T>(s: Seq<T>, i: int, f: spec_fn(T) -> nat)
    requires
        0 <= i < s.len(),
    ensures
        total(s.remove(i), f) + f(s[i]) == total(s, f),
    decreases s.len(),
{
    let t = s.remove(i);
    if i == s.len() - 1 {
        assert(t =~= s.drop_last());
    } else {
        lemma_total_remove(s.drop_last(), i, f);
        assert(t.drop_last() =~= s.drop_last().remove(i));
        assert(t.last() == s.last());
    }
}

/// What setting a key, or taking it out, makes of a sum over the entries.
pub proof fn lemma_total_entry<K: MapKey, V>(e: Seq<(K, V)>, k: K, v: V, f: spec_fn((K, V)) -> nat)
    ensures
        total(e.push((k, v)), f) == total(e, f) + f((k, v)),
        as_map(e).contains_key(k.key()) ==> {
            let p = position(e, k.key());
            &&& 0 <= p < e.len()
            &&& e[p].0.key() == k.key()
            &&& e[p].1 == as_map(e)[k.key()]
            &&& total(e.update(p, (k, v)), f) + f(e[p]) == total(e, f) + f((k, v))
            &&& total(e.remove(p), f) + f(e[p]) == total(e, f)
        },
{
    lemma_total_push(e, (k, v), f);
    if as_map(e).contains_key(k.key()) {
        lemma_map_has_entry(e, k.key());
        let p = position(e, k.key());
        lemma_total_update(e, p, (k, v), f);
        lemma_total_remove(e, p, f);
    }
}

/// The sum over a prefix is at most the sum over the list.
pub proof fn lemma_total_prefix<T>(s: Seq<T>, n: int, f: spec_fn(T) -> nat)
    requires
        0 <= n <= s.len(),
    ensures
        total(s.take(n), f) <= total(s, f),
    decreases s.len() - n,
{
    if n < s.len() {
        lemma_total_prefix(s, n + 1, f);
        assert(s.take(n + 1).drop_last() =~= s.take(n));
    } else {
        assert(s.take(n) =~= s);
    }
}

pub proof fn lemma_total_step<T>(s: Seq<T>, n: int, f: spec_fn(T) -> nat)
    requires
        0 <= n < s.len(),
    ensures
        total(s.take(n + 1), f) == total(s.take(n), f) + f(s[n]),
{
    assert(s.take(n + 1).drop_last() =~= s.take(n));
}

/// Mapping a prefix that is longer by one.
pub proof fn lemma_map_take_step<A, B>(s: Seq<A>, i: int, f: spec_fn(A) -> B)
    requires
        0 <= i < s.len(),
    ensures
        s.take(i + 1).map_values(f) == s.take(i).map_values(f).push(f(s[i])),
{
    assert(s.take(i + 1).map_values(f) =~= s.take(i).map_values(f).push(f(s[i])));
}

/// Text as a key.
pub struct TextKey(pub String);

impl MapKey for TextKey {
    type Key = Seq<char>;

    open spec fn key(&self) -> Seq<char> {
        self.0@
    }

    fn same(&self, other: &Self) -> (r: bool) {
        self.0 == other.0
    }
}

/// The place of a collection: database, tenant and name.
pub type CollId = (u64, u64, Seq<char>);

} // verus!
