//! The staging overlay of one transaction: row writes that are not durable yet.
//!
//! A row is stored under its surrogate, so that is the overlay's key. A
//! document id leads to the surrogate it was staged under, for inserts that
//! have no durable binding yet.
use crate::ids::{DatabaseId, TenantId};
use crate::maps;
use crate::maps::{MapKey, VecMap};
use vstd::prelude::*;

verus! {

/// One staged mutation of a row.
#[derive(Clone, Debug, PartialEq, Eq)]
pub enum Staged {
    /// The new encoded body of an inserted or updated row.
    Put(Vec<u8>),
    /// A deleted row.
    Tombstone,
}

/// The place that a collection key names.
pub open spec fn coll_id(k: (DatabaseId, TenantId, String)) -> (u64, u64, Seq<char>) {
    (k.0.0, k.1.0, k.2@)
}

/// A row within a collection.
pub struct RowKey {
    pub db: u64,
    pub tid: u64,
    pub coll: String,
    pub surrogate: u32,
}

impl MapKey for RowKey {
    type Key = ((u64, u64, Seq<char>), u32);

    open spec fn key(&self) -> ((u64, u64, Seq<char>), u32) {
        ((self.db, self.tid, self.coll@), self.surrogate)
    }

    fn same(&self, other: &Self) -> (r: bool) {
        self.surrogate == other.surrogate && self.db == other.db && self.tid == other.tid
            && self.coll == other.coll
    }
}

/// A document id within a collection.
pub struct DocKey {
    pub db: u64,
    pub tid: u64,
    pub coll: String,
    pub doc_id: String,
}

impl MapKey for DocKey {
    type Key = ((u64, u64, Seq<char>), Seq<char>);

    open spec fn key(&self) -> ((u64, u64, Seq<char>), Seq<char>) {
        ((self.db, self.tid, self.coll@), self.doc_id@)
    }

    fn same(&self, other: &Self) -> (r: bool) {
        self.db == other.db && self.tid == other.tid && self.coll == other.coll && self.doc_id
            == other.doc_id
    }
}

/// The bytes a staged mutation counts for.
pub open spec fn staged_bytes(s: Staged) -> nat {
    match s {
        Staged::Put(body) => body@.len(),
        Staged::Tombstone => 0,
    }
}

/// The measure that [`TxnOverlay::memory_size_estimate`] sums.
pub open spec fn row_bytes() -> spec_fn((RowKey, Staged)) -> nat {
    |e: (RowKey, Staged)| staged_bytes(e.1)
}

/// A staged change of a row's expiry.
#[derive(Clone, Copy, Debug, PartialEq, Eq, Structural)]
pub enum StagedTtl {
    /// The row expires at this instant.
    ExpireAt(u64),
    /// The row no longer expires.
    Persist,
}

pub struct TxnOverlay {
    rows: VecMap<RowKey, Staged>,
    ids: VecMap<DocKey, u32>,
    ttls: VecMap<RowKey, StagedTtl>,
}

/// The document ids of one collection among listed ones, each with the surrogate
/// it leads to.
pub open spec fn ids_among(e: Seq<(DocKey, u32)>, place: (u64, u64, Seq<char>)) -> Seq<
    (Seq<char>, u32),
>
    decreases e.len(),
{
    if e.len() == 0 {
        Seq::empty()
    } else {
        let init = ids_among(e.drop_last(), place);
        if e.last().0.key().0 == place {
            init.push((e.last().0.doc_id@, e.last().1))
        } else {
            init
        }
    }
}

pub open spec fn id_views(l: Seq<(String, u32)>) -> Seq<(Seq<char>, u32)> {
    l.map_values(|x: (String, u32)| (x.0@, x.1))
}

/// Whether a list holds the staged rows of a collection, each once.
pub open spec fn lists_rows(
    l: Seq<(u32, &Staged)>,
    rows: Map<((u64, u64, Seq<char>), u32), Staged>,
    place: (u64, u64, Seq<char>),
) -> bool {
    &&& forall|i: int|
        0 <= i < l.len() ==> rows.contains_key((place, (#[trigger] l[i]).0)) && *l[i].1 == rows[(
            place,
            l[i].0,
        )]
    &&& forall|s: u32| #[trigger]
        rows.contains_key((place, s)) ==> exists|i: int|
            0 <= i < l.len() && (#[trigger] l[i]).0 == s
    &&& forall|i: int, j: int|
        0 <= i < j < l.len() ==> (#[trigger] l[i]).0 != (#[trigger] l[j]).0
}

/// What is staged in one collection: each row by its surrogate, and the surrogate
/// that each document id leads to.
pub struct CollectionOverlay<'a> {
    pub by_surrogate: Vec<(u32, &'a Staged)>,
    pub doc_id_to_surrogate: Vec<(String, u32)>,
}

/// Whether a list holds each staged document id of a collection once, with the
/// surrogate it leads to.
pub open spec fn lists_ids(
    l: Seq<(Seq<char>, u32)>,
    ids: Map<((u64, u64, Seq<char>), Seq<char>), u32>,
    place: (u64, u64, Seq<char>),
) -> bool {
    &&& forall|i: int|
        0 <= i < l.len() ==> ids.contains_key((place, (#[trigger] l[i]).0)) && ids[(
            place,
            l[i].0,
        )] == l[i].1
    &&& forall|d: Seq<char>| #[trigger]
        ids.contains_key((place, d)) ==> l.contains((d, ids[(place, d)]))
    &&& forall|i: int, j: int|
        0 <= i < j < l.len() ==> (#[trigger] l[i]).0 != (#[trigger] l[j]).0
}

/// Each of a collection's ids comes from one listed entry, in order.
proof fn lemma_ids_among(e: Seq<(DocKey, u32)>, place: (u64, u64, Seq<char>))
    requires
        maps::keys_unique(e),
    ensures
        lists_ids(ids_among(e, place), maps::as_map(e), place),
    decreases e.len(),
{
    let m = maps::as_map(e);
    let l = ids_among(e, place);
    if e.len() > 0 {
        let init = e.drop_last();
        assert(maps::keys_unique(init)) by {
            assert forall|i: int, j: int| 0 <= i < j < init.len() implies #[trigger] init[i].0.key()
                != #[trigger] init[j].0.key() by {
                assert(e[i].0.key() != e[j].0.key());
            }
        }
        lemma_ids_among(init, place);
        let (k, v) = e.last();
        if maps::as_map(init).contains_key(k.key()) {
            maps::lemma_map_has_entry(init, k.key());
            let p = maps::position(init, k.key());
            assert(e[p].0.key() != e[e.len() - 1].0.key());
        }
        maps::lemma_push_entry(init, k, v);
        assert(e =~= init.push((k, v)));
        let m0 = maps::as_map(init);
        let l0 = ids_among(init, place);
        assert(m == m0.insert(k.key(), v));
        assert forall|i: int| 0 <= i < l.len() implies m.contains_key((place, (#[trigger] l[i]).0))
            && m[(place, l[i].0)] == l[i].1 by {
            if i < l0.len() {
                assert(l[i] == l0[i]);
                assert(m0.contains_key((place, l0[i].0)));
            }
        }
        assert forall|d: Seq<char>| #[trigger] m.contains_key((place, d)) implies l.contains(
            (d, m[(place, d)]),
        ) by {
            if m0.contains_key((place, d)) {
                let x = (d, m0[(place, d)]);
                assert(l0.contains(x));
                let i = choose|i: int| 0 <= i < l0.len() && l0[i] == x;
                assert(l[i] == x);
            } else {
                assert(l[l.len() - 1] == (d, v));
            }
        }
        assert forall|i: int, j: int| 0 <= i < j < l.len() implies (#[trigger] l[i]).0
            != (#[trigger] l[j]).0 by {
            assert(l[i] == l0[i]);
            assert(m0.contains_key((place, l0[i].0)));
            if j < l0.len() {
                assert(l[j] == l0[j]);
            }
        }
    } else {
        assert forall|d: Seq<char>| #[trigger] m.contains_key((place, d)) implies l.contains(
            (d, m[(place, d)]),
        ) by {
            maps::lemma_map_has_entry(e, (place, d));
        }
    }
}

impl TxnOverlay {
    /// The staged mutation of each staged row.
    pub closed spec fn rows(&self) -> Map<((u64, u64, Seq<char>), u32), Staged> {
        self.rows@
    }

    /// The surrogate each staged document id leads to.
    pub closed spec fn ids(&self) -> Map<((u64, u64, Seq<char>), Seq<char>), u32> {
        self.ids@
    }

    /// The staged change of each row's expiry.
    pub closed spec fn ttls(&self) -> Map<((u64, u64, Seq<char>), u32), StagedTtl> {
        self.ttls@
    }

    /// The bytes of all staged bodies.
    pub closed spec fn put_bytes(&self) -> nat {
        maps::total(self.rows.listed(), row_bytes())
    }

    /// An overlay that holds nothing.
    pub fn new() -> (r: Self)
        ensures
            r.rows() == Map::<((u64, u64, Seq<char>), u32), Staged>::empty(),
            r.ids() == Map::<((u64, u64, Seq<char>), Seq<char>), u32>::empty(),
            r.ttls() == Map::<((u64, u64, Seq<char>), u32), StagedTtl>::empty(),
            r.put_bytes() == 0,
    {
        TxnOverlay { rows: VecMap::new(), ids: VecMap::new(), ttls: VecMap::new() }
    }

    fn stage(
        &mut self,
        coll_key: (DatabaseId, TenantId, String),
        surrogate: u32,
        doc_id: &str,
        staged: Staged,
    )
        ensures
            final(self).rows() == old(self).rows().insert((coll_id(coll_key), surrogate), staged),
            final(self).ids() == old(self).ids().insert((coll_id(coll_key), doc_id@), surrogate),
            final(self).ttls() == old(self).ttls(),
            final(self).put_bytes() == old(self).put_bytes() + staged_bytes(staged) - (if old(
                self,
            ).rows().contains_key((coll_id(coll_key), surrogate)) {
                staged_bytes(old(self).rows()[(coll_id(coll_key), surrogate)])
            } else {
                0
            }),
    {
        proof {
            use_type_invariant(&self.rows);
            self.rows.lemma_listed();
        }
        let ghost before = self.rows.listed();
        let rk = RowKey {
            db: coll_key.0.0,
            tid: coll_key.1.0,
            coll: coll_key.2.clone(),
            surrogate,
        };
        let dk = DocKey {
            db: coll_key.0.0,
            tid: coll_key.1.0,
            coll: coll_key.2,
            doc_id: doc_id.to_owned(),
        };
        proof {
            let key = rk.key();
            if self.rows@.contains_key(key) {
                maps::lemma_map_has_entry(before, key);
                maps::lemma_total_update(
                    before,
                    maps::position(before, key),
                    (rk, staged),
                    row_bytes(),
                );
            } else {
                maps::lemma_total_push(before, (rk, staged), row_bytes());
            }
        }
        self.rows.insert(rk, staged);
        self.ids.insert(dk, surrogate);
    }

    /// Stage an insert or update of a row.
    pub fn insert_put(
        &mut self,
        coll_key: (DatabaseId, TenantId, String),
        surrogate: u32,
        doc_id: &str,
        body: Vec<u8>,
    )
        ensures
            final(self).rows() == old(self).rows().insert(
                (coll_id(coll_key), surrogate),
                Staged::Put(body),
            ),
            final(self).ids() == old(self).ids().insert((coll_id(coll_key), doc_id@), surrogate),
            final(self).ttls() == old(self).ttls(),
            final(self).put_bytes() == old(self).put_bytes() + body@.len() - (if old(
                self,
            ).rows().contains_key((coll_id(coll_key), surrogate)) {
                staged_bytes(old(self).rows()[(coll_id(coll_key), surrogate)])
            } else {
                0
            }),
    {
        self.stage(coll_key, surrogate, doc_id, Staged::Put(body));
    }

    /// Stage the deletion of a row.
    pub fn insert_tombstone(
        &mut self,
        coll_key: (DatabaseId, TenantId, String),
        surrogate: u32,
        doc_id: &str,
    )
        ensures
            final(self).rows() == old(self).rows().insert(
                (coll_id(coll_key), surrogate),
                Staged::Tombstone,
            ),
            final(self).ids() == old(self).ids().insert((coll_id(coll_key), doc_id@), surrogate),
            final(self).ttls() == old(self).ttls(),
            final(self).put_bytes() == old(self).put_bytes() - (if old(self).rows().contains_key(
                (coll_id(coll_key), surrogate),
            ) {
                staged_bytes(old(self).rows()[(coll_id(coll_key), surrogate)])
            } else {
                0
            }),
    {
        self.stage(coll_key, surrogate, doc_id, Staged::Tombstone);
    }

    /// Stage a change of a row's expiry.
    pub fn set_ttl(
        &mut self,
        coll_key: (DatabaseId, TenantId, String),
        surrogate: u32,
        doc_id: &str,
        ttl: StagedTtl,
    )
        ensures
            final(self).rows() == old(self).rows(),
            final(self).ids() == old(self).ids().insert((coll_id(coll_key), doc_id@), surrogate),
            final(self).ttls() == old(self).ttls().insert((coll_id(coll_key), surrogate), ttl),
            final(self).put_bytes() == old(self).put_bytes(),
    {
        let rk = RowKey {
            db: coll_key.0.0,
            tid: coll_key.1.0,
            coll: coll_key.2.clone(),
            surrogate,
        };
        let dk = DocKey {
            db: coll_key.0.0,
            tid: coll_key.1.0,
            coll: coll_key.2,
            doc_id: doc_id.to_owned(),
        };
        self.ttls.insert(rk, ttl);
        self.ids.insert(dk, surrogate);
    }

    /// The staged change of a row's expiry, if it has one.
    pub fn ttl_of(&self, coll_key: &(DatabaseId, TenantId, String), surrogate: u32) -> (r: Option<
        StagedTtl,
    >)
        ensures
            match r {
                Some(t) => self.ttls().contains_key((coll_id(*coll_key), surrogate)) && t
                    == self.ttls()[(coll_id(*coll_key), surrogate)],
                None => !self.ttls().contains_key((coll_id(*coll_key), surrogate)),
            },
    {
        let rk = RowKey {
            db: coll_key.0.0,
            tid: coll_key.1.0,
            coll: coll_key.2.clone(),
            surrogate,
        };
        match self.ttls.get(&rk) {
            Some(t) => Some(*t),
            None => None,
        }
    }

    /// The surrogate that a document id leads to.
    pub fn surrogate_for_doc_id(
        &self,
        coll_key: &(DatabaseId, TenantId, String),
        doc_id: &str,
    ) -> (r: Option<u32>)
        ensures
            match r {
                Some(s) => self.ids().contains_key((coll_id(*coll_key), doc_id@)) && s
                    == self.ids()[(coll_id(*coll_key), doc_id@)],
                None => !self.ids().contains_key((coll_id(*coll_key), doc_id@)),
            },
    {
        let dk = DocKey {
            db: coll_key.0.0,
            tid: coll_key.1.0,
            coll: coll_key.2.clone(),
            doc_id: doc_id.to_owned(),
        };
        match self.ids.get(&dk) {
            Some(s) => Some(*s),
            None => None,
        }
    }

    /// The staged document ids of a collection, each once.
    pub fn doc_ids_for_collection(&self, coll_key: &(DatabaseId, TenantId, String)) -> (r: Vec<
        (String, u32),
    >)
        ensures
            lists_ids(id_views(r@), self.ids(), coll_id(*coll_key)),
    {
        proof {
            use_type_invariant(&self.ids);
            self.ids.lemma_listed();
        }
        let ghost e = self.ids.listed();
        let ghost place = coll_id(*coll_key);
        let mut out: Vec<(String, u32)> = Vec::new();
        let mut i: usize = 0;
        proof {
            assert(id_views(out@) =~= ids_among(e.take(0), place));
        }
        while i < self.ids.len()
            invariant
                i <= e.len(),
                e == self.ids.listed(),
                place == coll_id(*coll_key),
                id_views(out@) == ids_among(e.take(i as int), place),
            decreases e.len() - i,
        {
            let ghost before = out@;
            proof {
                assert(e.take(i + 1).drop_last() =~= e.take(i as int));
                assert(e.take(i + 1).last() == e[i as int]);
            }
            let (k, s) = self.ids.entry(i);
            if k.db == coll_key.0.0 && k.tid == coll_key.1.0 && k.coll == coll_key.2 {
                out.push((k.doc_id.clone(), *s));
                proof {
                    assert(id_views(out@) =~= id_views(before).push((k.doc_id@, *s)));
                }
            }
            i = i + 1;
        }
        proof {
            assert(e.take(e.len() as int) =~= e);
            lemma_ids_among(e, place);
        }
        out
    }

    /// The staged mutation of a row, if it has one.
    pub fn get(&self, coll_key: &(DatabaseId, TenantId, String), surrogate: u32) -> (r: Option<
        &Staged,
    >)
        ensures
            match r {
                Some(s) => self.rows().contains_key((coll_id(*coll_key), surrogate)) && *s
                    == self.rows()[(coll_id(*coll_key), surrogate)],
                None => !self.rows().contains_key((coll_id(*coll_key), surrogate)),
            },
    {
        let rk = RowKey {
            db: coll_key.0.0,
            tid: coll_key.1.0,
            coll: coll_key.2.clone(),
            surrogate,
        };
        self.rows.get(&rk)
    }

    /// The staged mutation of the row that a document id leads to.
    pub fn get_by_doc_id(&self, coll_key: &(DatabaseId, TenantId, String), doc_id: &str) -> (r:
        Option<&Staged>)
        ensures
            match r {
                Some(s) => self.ids().contains_key((coll_id(*coll_key), doc_id@))
                    && self.rows().contains_key(
                    (coll_id(*coll_key), self.ids()[(coll_id(*coll_key), doc_id@)]),
                ) && *s == self.rows()[(
                    coll_id(*coll_key),
                    self.ids()[(coll_id(*coll_key), doc_id@)],
                )],
                None => !self.ids().contains_key((coll_id(*coll_key), doc_id@))
                    || !self.rows().contains_key(
                    (coll_id(*coll_key), self.ids()[(coll_id(*coll_key), doc_id@)]),
                ),
            },
    {
        let dk = DocKey {
            db: coll_key.0.0,
            tid: coll_key.1.0,
            coll: coll_key.2.clone(),
            doc_id: doc_id.to_owned(),
        };
        match self.ids.get(&dk) {
            Some(surrogate) => self.get(coll_key, *surrogate),
            None => None,
        }
    }

    /// What is staged in a collection.
    pub fn collection(&self, coll_key: &(DatabaseId, TenantId, String)) -> (r: CollectionOverlay<
        '_,
    >)
        ensures
            lists_rows(r.by_surrogate@, self.rows(), coll_id(*coll_key)),
            lists_ids(id_views(r.doc_id_to_surrogate@), self.ids(), coll_id(*coll_key)),
    {
        CollectionOverlay {
            by_surrogate: self.iter_for_collection(coll_key),
            doc_id_to_surrogate: self.doc_ids_for_collection(coll_key),
        }
    }

    /// The staged rows of a collection, each once.
    pub fn iter_for_collection(&self, coll_key: &(DatabaseId, TenantId, String)) -> (r: Vec<
        (u32, &Staged),
    >)
        ensures
            lists_rows(r@, self.rows(), coll_id(*coll_key)),
    {
        proof {
            use_type_invariant(&self.rows);
            self.rows.lemma_listed();
        }
        let ghost list = self.rows.listed();
        let ghost place = coll_id(*coll_key);
        let mut out: Vec<(u32, &Staged)> = Vec::new();
        let ghost mut from: Seq<int> = Seq::empty();
        let mut i: usize = 0;
        while i < self.rows.len()
            invariant
                i <= list.len(),
                list == self.rows.listed(),
                maps::keys_unique(list),
                self.rows@ == maps::as_map(list),
                place == coll_id(*coll_key),
                from.len() == out@.len(),
                forall|a: int|
                    #![trigger out@[a]]
                    #![trigger from[a]]
                    0 <= a < out@.len() ==> 0 <= from[a] < i && list[from[a]].0.key() == (
                        place,
                        out@[a].0,
                    ) && *out@[a].1 == list[from[a]].1,
                forall|a: int, b: int| 0 <= a < b < from.len() ==> from[a] < from[b],
                forall|q: int|
                    0 <= q < i && (#[trigger] list[q]).0.key().0 == place ==> exists|a: int|
                        0 <= a < out@.len() && from[a] == q,
            decreases list.len() - i,
        {
            let e = self.rows.entry(i);
            let ghost before = out@;
            let ghost from0 = from;
            if e.0.db == coll_key.0.0 && e.0.tid == coll_key.1.0 && e.0.coll == coll_key.2 {
                out.push((e.0.surrogate, &e.1));
                proof {
                    from = from.push(i as int);
                    assert(from[before.len() as int] == i);
                    assert forall|q: int|
                        0 <= q < i + 1 && (#[trigger] list[q]).0.key().0 == place implies exists|
                        a: int,
                    | 0 <= a < out@.len() && from[a] == q by {
                        if q < i {
                            let a = choose|a: int| 0 <= a < before.len() && from0[a] == q;
                            assert(from[a] == q);
                        }
                    }
                }
            }
            i = i + 1;
        }
        proof {
            assert forall|a: int| 0 <= a < out@.len() implies self.rows().contains_key(
                (place, (#[trigger] out@[a]).0),
            ) && *out@[a].1 == self.rows()[(place, out@[a].0)] by {
                maps::lemma_entry_in_map(list, from[a]);
            }
            assert forall|s: u32| #[trigger] self.rows().contains_key((place, s)) implies exists|
                a: int,
            | 0 <= a < out@.len() && (#[trigger] out@[a]).0 == s by {
                maps::lemma_map_has_entry(list, (place, s));
                let q = maps::position(list, (place, s));
                assert(list[q].0.key().0 == place);
                let a = choose|a: int| 0 <= a < out@.len() && from[a] == q;
                assert(out@[a].0 == s);
            }
            assert forall|a: int, b: int| 0 <= a < b < out@.len() implies (#[trigger] out@[a]).0
                != (#[trigger] out@[b]).0 by {
                assert(from[a] < from[b]);
                assert(list[from[a]].0.key() != list[from[b]].0.key());
            }
        }
        out
    }

    /// Whether nothing is staged.
    pub fn is_empty(&self) -> (r: bool)
        ensures
            r == (self.rows() == Map::<((u64, u64, Seq<char>), u32), Staged>::empty()),
    {
        proof {
            use_type_invariant(&self.rows);
            self.rows.lemma_listed();
            maps::lemma_map_len(self.rows.listed());
            if self.rows.listed().len() == 0 {
                assert(self.rows@ =~= Map::empty());
            }
        }
        self.rows.len() == 0
    }

    /// How many rows are staged.
    pub fn len(&self) -> (r: usize)
        ensures
            self.rows().dom().finite(),
            r == self.rows().dom().len(),
    {
        proof {
            use_type_invariant(&self.rows);
            self.rows.lemma_listed();
            maps::lemma_map_len(self.rows.listed());
        }
        self.rows.len()
    }

    /// The bytes of all staged bodies.
    pub fn memory_size_estimate(&self) -> (r: usize)
        requires
            self.put_bytes() <= usize::MAX,
        ensures
            r == self.put_bytes(),
    {
        let ghost list = self.rows.listed();
        let mut sum: usize = 0;
        let mut i: usize = 0;
        while i < self.rows.len()
            invariant
                i <= list.len(),
                list == self.rows.listed(),
                sum == maps::total(list.take(i as int), row_bytes()),
                maps::total(list, row_bytes()) <= usize::MAX,
            decreases list.len() - i,
        {
            let e = self.rows.entry(i);
            proof {
                maps::lemma_total_step(list, i as int, row_bytes());
                maps::lemma_total_prefix(list, i + 1, row_bytes());
            }
            match &e.1 {
                Staged::Put(body) => {
                    sum = sum + body.len();
                },
                Staged::Tombstone => {},
            }
            i = i + 1;
        }
        proof {
            assert(list.take(list.len() as int) =~= list);
        }
        sum
    }
}

} // verus!
