//! The geometry that a core holds: the entries of its spatial indexes, and the
//! document that each stands for.
use crate::maps;
use crate::maps::{MapKey, VecMap};
use crate::text;
use vstd::prelude::*;

verus! {

/// An index over the geometry of one field.
pub struct SpatialKey {
    pub db: u64,
    pub tid: u64,
    pub coll: String,
    pub field: String,
}

/// An extent, each bound by the bits of its number.
#[derive(Clone, Copy, Debug, PartialEq, Eq, Structural)]
pub struct BoundingBox {
    pub min_lng: u64,
    pub min_lat: u64,
    pub max_lng: u64,
    pub max_lat: u64,
}

/// A geometry entry of an index.
pub struct SpatialEntryKey {
    pub db: u64,
    pub tid: u64,
    pub coll: String,
    pub field: String,
    pub entry_id: u64,
}

/// The place of a geometry entry.
pub type EntryPlace = ((u64, u64, Seq<char>, Seq<char>), u64);

impl MapKey for SpatialEntryKey {
    type Key = ((u64, u64, Seq<char>, Seq<char>), u64);

    open spec fn key(&self) -> EntryPlace {
        ((self.db, self.tid, self.coll@, self.field@), self.entry_id)
    }

    fn same(&self, other: &Self) -> (r: bool) {
        self.entry_id == other.entry_id && self.db == other.db && self.tid == other.tid && self.coll
            == other.coll && self.field == other.field
    }
}

pub open spec fn entry_place(key: SpatialKey, entry_id: u64) -> EntryPlace {
    ((key.db, key.tid, key.coll@, key.field@), entry_id)
}

/// The geometry a core holds: each entry's extent, and the document it stands
/// for.
#[verifier::ext_equal]
pub struct Geometry {
    pub extents: Map<EntryPlace, BoundingBox>,
    pub documents: Map<EntryPlace, Seq<char>>,
}

pub open spec fn with_entry(g: Geometry, at: EntryPlace, bbox: BoundingBox, doc: Seq<char>) -> Geometry {
    Geometry { extents: g.extents.insert(at, bbox), documents: g.documents.insert(at, doc) }
}

pub open spec fn without_entry(g: Geometry, at: EntryPlace) -> Geometry {
    Geometry { extents: g.extents.remove(at), documents: g.documents.remove(at) }
}

/// Whether an entry is not one of a collection.
pub open spec fn elsewhere(coll: maps::CollId) -> spec_fn(EntryPlace) -> bool {
    |k: EntryPlace| !(k.0.0 == coll.0 && k.0.1 == coll.1 && k.0.2 == coll.2)
}

/// The geometry without a collection.
pub open spec fn without_collection(g: Geometry, coll: maps::CollId) -> Geometry {
    Geometry {
        extents: maps::kept_part(g.extents, elsewhere(coll)),
        documents: maps::kept_part(g.documents, elsewhere(coll)),
    }
}

pub struct SpatialState {
    extents: VecMap<SpatialEntryKey, BoundingBox>,
    documents: VecMap<SpatialEntryKey, String>,
}

impl View for SpatialState {
    type V = Geometry;

    closed spec fn view(&self) -> Geometry {
        Geometry {
            extents: self.extents@,
            documents: self.documents@.map_values(|s: String| s@),
        }
    }
}

impl SpatialState {
    pub fn new() -> (r: Self)
        ensures
            r@ == (Geometry { extents: Map::empty(), documents: Map::empty() }),
    {
        let r = SpatialState { extents: VecMap::new(), documents: VecMap::new() };
        proof {
            assert(r@.documents =~= Map::empty());
        }
        r
    }

    /// Forget a collection.
    pub fn clear_collection(&mut self, db: u64, tid: u64, coll: &str)
        ensures
            final(self)@ == without_collection(old(self)@, (db, tid, coll@)),
    {
        let ghost pred = elsewhere((db, tid, coll@));
        let keep = |k: &SpatialEntryKey| -> (b: bool)
            ensures
                b == pred(k.key()),
            { !(k.db == db && k.tid == tid && text::same_text(k.coll.as_str(), coll)) };
        self.extents.retain(keep, Ghost(pred));
        self.documents.retain(keep, Ghost(pred));
        proof {
            assert(self@ =~= without_collection(old(self)@, (db, tid, coll@)));
        }
    }

    /// Put an entry and its document in place.
    pub fn insert_entry(
        &mut self,
        key: SpatialKey,
        entry_id: u64,
        bbox: BoundingBox,
        document_id: String,
    )
        ensures
            final(self)@ == with_entry(
                old(self)@,
                entry_place(key, entry_id),
                bbox,
                document_id@,
            ),
    {
        let a = SpatialEntryKey {
            db: key.db,
            tid: key.tid,
            coll: key.coll.clone(),
            field: key.field.clone(),
            entry_id,
        };
        let b = SpatialEntryKey {
            db: key.db,
            tid: key.tid,
            coll: key.coll,
            field: key.field,
            entry_id,
        };
        self.extents.insert(a, bbox);
        self.documents.insert(b, document_id);
        proof {
            assert(self@.documents =~= old(self)@.documents.insert(
                entry_place(key, entry_id),
                document_id@,
            ));
        }
    }

    /// Take an entry and its document away.
    pub fn remove_entry(&mut self, key: SpatialKey, entry_id: u64)
        ensures
            final(self)@ == without_entry(old(self)@, entry_place(key, entry_id)),
    {
        let a = SpatialEntryKey {
            db: key.db,
            tid: key.tid,
            coll: key.coll,
            field: key.field,
            entry_id,
        };
        self.extents.remove(&a);
        self.documents.remove(&a);
        proof {
            assert(self@.documents =~= old(self)@.documents.remove(entry_place(key, entry_id)));
        }
    }

    /// The extent of an entry.
    pub fn extent_of(&self, key: &SpatialKey, entry_id: u64) -> (r: Option<BoundingBox>)
        ensures
            match r {
                Some(b) => self@.extents.contains_key(entry_place(*key, entry_id)) && b
                    == self@.extents[entry_place(*key, entry_id)],
                None => !self@.extents.contains_key(entry_place(*key, entry_id)),
            },
    {
        let a = SpatialEntryKey {
            db: key.db,
            tid: key.tid,
            coll: key.coll.clone(),
            field: key.field.clone(),
            entry_id,
        };
        match self.extents.get(&a) {
            Some(b) => Some(*b),
            None => None,
        }
    }

    /// The document of an entry.
    pub fn document_of(&self, key: &SpatialKey, entry_id: u64) -> (r: Option<String>)
        ensures
            match r {
                Some(d) => self@.documents.contains_key(entry_place(*key, entry_id)) && d@
                    == self@.documents[entry_place(*key, entry_id)],
                None => !self@.documents.contains_key(entry_place(*key, entry_id)),
            },
    {
        let a = SpatialEntryKey {
            db: key.db,
            tid: key.tid,
            coll: key.coll.clone(),
            field: key.field.clone(),
            entry_id,
        };
        match self.documents.get(&a) {
            Some(d) => Some(d.clone()),
            None => None,
        }
    }
}

/// The place of an index: database, tenant, collection and field.
pub type IndexPlace = (u64, u64, Seq<char>, Seq<char>);

pub open spec fn index_place(key: SpatialKey) -> IndexPlace {
    (key.db, key.tid, key.coll@, key.field@)
}

/// The entries of one index among listed documents.
pub open spec fn documents_among(
    e: Seq<(SpatialEntryKey, String)>,
    place: IndexPlace,
) -> Seq<(u64, Seq<char>)>
    decreases e.len(),
{
    if e.len() == 0 {
        Seq::empty()
    } else {
        let init = documents_among(e.drop_last(), place);
        if e.last().0.key().0 == place {
            init.push((e.last().0.entry_id, e.last().1@))
        } else {
            init
        }
    }
}

pub open spec fn document_views(d: Seq<(u64, String)>) -> Seq<(u64, Seq<char>)> {
    d.map_values(|x: (u64, String)| (x.0, x.1@))
}

/// Whether a list holds each entry of an index once, with its document.
pub open spec fn lists_index(d: Seq<(u64, Seq<char>)>, g: Geometry, place: IndexPlace) -> bool {
    &&& forall|i: int|
        0 <= i < d.len() ==> g.documents.contains_key((place, (#[trigger] d[i]).0))
            && g.documents[(place, d[i].0)] == d[i].1
    &&& forall|id: u64| #[trigger]
        g.documents.contains_key((place, id)) ==> d.contains((id, g.documents[(place, id)]))
}

proof fn lemma_documents_among(e: Seq<(SpatialEntryKey, String)>, place: IndexPlace)
    ensures
        forall|i: int|
            0 <= i < documents_among(e, place).len() ==> exists|j: int|
                0 <= j < e.len() && (#[trigger] e[j]).0.key() == (
                    place,
                    (#[trigger] documents_among(e, place)[i]).0,
                ) && e[j].1@ == documents_among(e, place)[i].1,
        forall|j: int|
            0 <= j < e.len() && (#[trigger] e[j]).0.key().0 == place ==> documents_among(
                e,
                place,
            ).contains((e[j].0.entry_id, e[j].1@)),
    decreases e.len(),
{
    if e.len() > 0 {
        let init = e.drop_last();
        lemma_documents_among(init, place);
        let d = documents_among(e, place);
        let d0 = documents_among(init, place);
        assert forall|i: int| 0 <= i < d.len() implies exists|j: int|
            0 <= j < e.len() && (#[trigger] e[j]).0.key() == (place, (#[trigger] d[i]).0) && e[j].1@
                == d[i].1 by {
            if i < d0.len() {
                assert(d[i] == d0[i]);
                let j = choose|j: int|
                    0 <= j < init.len() && (#[trigger] init[j]).0.key() == (place, d0[i].0)
                        && init[j].1@ == d0[i].1;
                assert(e[j] == init[j]);
            } else {
                assert(e[e.len() - 1].0.key() == (place, d[i].0));
            }
        }
        assert forall|j: int| 0 <= j < e.len() && (#[trigger] e[j]).0.key().0 == place implies d.contains(
            (e[j].0.entry_id, e[j].1@),
        ) by {
            if j < init.len() {
                assert(init[j] == e[j]);
                let x = (e[j].0.entry_id, e[j].1@);
                let i = choose|i: int| 0 <= i < d0.len() && d0[i] == x;
                assert(d[i] == x);
            } else {
                assert(d[d.len() - 1] == (e[j].0.entry_id, e[j].1@));
            }
        }
    }
}

/// The extents once an index holds exactly these entries, a later one in place
/// of an earlier one with its number.
pub open spec fn with_tree(
    extents: Map<EntryPlace, BoundingBox>,
    place: IndexPlace,
    entries: Seq<(u64, BoundingBox)>,
) -> Map<EntryPlace, BoundingBox>
    decreases entries.len(),
{
    if entries.len() == 0 {
        maps::kept_part(extents, |p: EntryPlace| p.0 != place)
    } else {
        with_tree(extents, place, entries.drop_last()).insert(
            (place, entries.last().0),
            entries.last().1,
        )
    }
}

/// The documents once those of an index's entries are put in place.
pub open spec fn with_documents(
    documents: Map<EntryPlace, Seq<char>>,
    place: IndexPlace,
    d: Seq<(u64, Seq<char>)>,
) -> Map<EntryPlace, Seq<char>>
    decreases d.len(),
{
    if d.len() == 0 {
        documents
    } else {
        with_documents(documents, place, d.drop_last()).insert((place, d.last().0), d.last().1)
    }
}

fn entry_key(key: &SpatialKey, entry_id: u64) -> (r: SpatialEntryKey)
    ensures
        r.key() == entry_place(*key, entry_id),
{
    SpatialEntryKey {
        db: key.db,
        tid: key.tid,
        coll: key.coll.clone(),
        field: key.field.clone(),
        entry_id,
    }
}

impl SpatialState {
    /// The documents of an index's entries, in the order in which they came.
    pub closed spec fn listed_documents(&self, place: IndexPlace) -> Seq<(u64, Seq<char>)> {
        documents_among(self.documents.listed(), place)
    }

    /// The documents of an index's entries.
    pub fn documents_of(&self, key: &SpatialKey) -> (r: Vec<(u64, String)>)
        ensures
            document_views(r@) == self.listed_documents(index_place(*key)),
            lists_index(document_views(r@), self@, index_place(*key)),
    {
        proof {
            use_type_invariant(&self.documents);
            self.documents.lemma_listed();
        }
        let ghost place = index_place(*key);
        let ghost e = self.documents.listed();
        let mut out: Vec<(u64, String)> = Vec::new();
        let mut i: usize = 0;
        proof {
            assert(document_views(out@) =~= documents_among(e.take(0), place));
        }
        while i < self.documents.len()
            invariant
                i <= e.len(),
                e == self.documents.listed(),
                place == index_place(*key),
                document_views(out@) == documents_among(e.take(i as int), place),
            decreases e.len() - i,
        {
            let ghost before = out@;
            proof {
                assert(e.take(i + 1).drop_last() =~= e.take(i as int));
                assert(e.take(i + 1).last() == e[i as int]);
            }
            let (k, d) = self.documents.entry(i);
            if k.db == key.db && k.tid == key.tid && k.coll == key.coll && k.field == key.field {
                out.push((k.entry_id, d.clone()));
                proof {
                    assert(document_views(out@) =~= document_views(before).push(
                        (k.entry_id, d@),
                    ));
                }
            }
            i = i + 1;
        }
        proof {
            assert(e.take(e.len() as int) =~= e);
            lemma_documents_among(e, place);
            let d = document_views(out@);
            assert forall|q: int| 0 <= q < d.len() implies self@.documents.contains_key(
                (place, (#[trigger] d[q]).0),
            ) && self@.documents[(place, d[q].0)] == d[q].1 by {
                assert(d[q] == documents_among(e, place)[q]);
                let j = choose|j: int|
                    0 <= j < e.len() && (#[trigger] e[j]).0.key() == (place, d[q].0) && e[j].1@
                        == d[q].1;
                maps::lemma_entry_in_map(e, j);
            }
            assert forall|id: u64| #[trigger]
                self@.documents.contains_key((place, id)) implies d.contains(
                (id, self@.documents[(place, id)]),
            ) by {
                maps::lemma_map_has_entry(e, (place, id));
                let p = maps::position(e, (place, id));
                assert(e[p].0.key() == (place, id));
            }
        }
        out
    }

    /// Put an index in place: its entries instead of those that were there, and
    /// the documents of its entries.
    pub fn load_index(
        &mut self,
        key: &SpatialKey,
        tree: &Vec<(u64, BoundingBox)>,
        docs: &Vec<(u64, String)>,
    )
        ensures
            final(self)@ == (Geometry {
                extents: with_tree(old(self)@.extents, index_place(*key), tree@),
                documents: with_documents(
                    old(self)@.documents,
                    index_place(*key),
                    document_views(docs@),
                ),
            }),
    {
        let ghost place = index_place(*key);
        let ghost pred = |p: EntryPlace| p.0 != place;
        let keep = |k: &SpatialEntryKey| -> (b: bool)
            ensures
                b == (k.key().0 != index_place(*key)),
            {
                !(k.db == key.db && k.tid == key.tid && k.coll == key.coll && k.field == key.field)
            };
        self.extents.retain(keep, Ghost(pred));
        let mut i: usize = 0;
        while i < tree.len()
            invariant
                i <= tree@.len(),
                place == index_place(*key),
                self@.extents == with_tree(old(self)@.extents, place, tree@.take(i as int)),
                self@.documents == old(self)@.documents,
            decreases tree.len() - i,
        {
            proof {
                assert(tree@.take(i + 1).drop_last() =~= tree@.take(i as int));
                assert(tree@.take(i + 1).last() == tree@[i as int]);
            }
            self.extents.insert(entry_key(key, tree[i].0), tree[i].1);
            i = i + 1;
        }
        proof {
            assert(tree@.take(tree@.len() as int) =~= tree@);
        }
        let ghost views = document_views(docs@);
        let mut j: usize = 0;
        while j < docs.len()
            invariant
                j <= docs@.len(),
                place == index_place(*key),
                views == document_views(docs@),
                self@.extents == with_tree(old(self)@.extents, place, tree@),
                self@.documents == with_documents(
                    old(self)@.documents,
                    place,
                    views.take(j as int),
                ),
            decreases docs.len() - j,
        {
            let ghost before = self@.documents;
            proof {
                assert(views.take(j + 1).drop_last() =~= views.take(j as int));
                assert(views.take(j + 1).last() == (docs@[j as int].0, docs@[j as int].1@));
            }
            self.documents.insert(entry_key(key, docs[j].0), docs[j].1.clone());
            proof {
                assert(self@.documents =~= before.insert(
                    (place, docs@[j as int].0),
                    docs@[j as int].1@,
                ));
            }
            j = j + 1;
        }
        proof {
            assert(views.take(views.len() as int) =~= views);
        }
    }
}

/// Reversing the insert of a new geometry entry brings back what was there.
pub proof fn law_undoing_a_spatial_insert(
    g: Geometry,
    at: EntryPlace,
    bbox: BoundingBox,
    doc: Seq<char>,
)
    requires
        !g.extents.contains_key(at),
        !g.documents.contains_key(at),
    ensures
        without_entry(with_entry(g, at, bbox, doc), at) == g,
{
    assert(without_entry(with_entry(g, at, bbox, doc), at) =~= g);
}

/// Reversing the removal of a geometry entry brings back what was there.
pub proof fn law_undoing_a_spatial_delete(g: Geometry, at: EntryPlace)
    requires
        g.extents.contains_key(at),
        g.documents.contains_key(at),
    ensures
        with_entry(without_entry(g, at), at, g.extents[at], g.documents[at]) == g,
{
    assert(with_entry(without_entry(g, at), at, g.extents[at], g.documents[at]) =~= g);
}

/// Clearing a collection takes the entries of all its fields and no other.
pub proof fn law_clearing_takes_the_entries_of_a_collection(
    g: Geometry,
    db: u64,
    tid: u64,
    coll: Seq<char>,
    at: EntryPlace,
)
    ensures
        ({
            let after = without_collection(g, (db, tid, coll));
            let own = at.0.0 == db && at.0.1 == tid && at.0.2 == coll;
            &&& after.extents.contains_key(at) <==> g.extents.contains_key(at) && !own
            &&& after.documents.contains_key(at) <==> g.documents.contains_key(at) && !own
            &&& after.extents.contains_key(at) ==> after.extents[at] == g.extents[at]
            &&& after.documents.contains_key(at) ==> after.documents[at] == g.documents[at]
        }),
{
}

/// A loaded tree takes the place of what the index held: an entry of the index is
/// there exactly where the tree lists it; the entries of other indexes stay.
pub proof fn law_a_loaded_tree_replaces_the_index(
    extents: Map<EntryPlace, BoundingBox>,
    place: IndexPlace,
    entries: Seq<(u64, BoundingBox)>,
    at: EntryPlace,
)
    ensures
        ({
            let after = with_tree(extents, place, entries);
            &&& at.0 != place ==> after.contains_key(at) == extents.contains_key(at) && (
            extents.contains_key(at) ==> after[at] == extents[at])
            &&& at.0 == place ==> (after.contains_key(at) <==> exists|i: int|
                0 <= i < entries.len() && (#[trigger] entries[i]).0 == at.1)
        }),
    decreases entries.len(),
{
    if entries.len() > 0 {
        let short = entries.drop_last();
        let n = entries.len() - 1;
        law_a_loaded_tree_replaces_the_index(extents, place, short, at);
        if at.0 == place {
            if entries[n].0 == at.1 {
            } else if with_tree(extents, place, short).contains_key(at) {
                let i = choose|i: int| 0 <= i < short.len() && (#[trigger] short[i]).0 == at.1;
                assert(entries[i].0 == at.1);
            } else if exists|i: int| 0 <= i < entries.len() && (#[trigger] entries[i]).0 == at.1 {
                let i = choose|i: int| 0 <= i < entries.len() && (#[trigger] entries[i]).0 == at.1;
                assert(short[i].0 == at.1);
            }
        }
    }
}

/// An entry of a loaded index has the extent that the tree lists last for it.
pub proof fn law_a_loaded_entry_has_its_last_extent(
    extents: Map<EntryPlace, BoundingBox>,
    place: IndexPlace,
    entries: Seq<(u64, BoundingBox)>,
    i: int,
)
    requires
        0 <= i < entries.len(),
        forall|j: int| i < j < entries.len() ==> (#[trigger] entries[j]).0 != entries[i].0,
    ensures
        with_tree(extents, place, entries)[(place, entries[i].0)] == entries[i].1,
    decreases entries.len(),
{
    let n = entries.len() - 1;
    if i < n {
        let short = entries.drop_last();
        assert(entries[n].0 != entries[i].0);
        assert forall|j: int| i < j < short.len() implies (#[trigger] short[j]).0 != short[i].0 by {
            assert(entries[j].0 != entries[i].0);
        }
        law_a_loaded_entry_has_its_last_extent(extents, place, short, i);
    }
}

/// Loaded documents are added to those that are there: entries that are not listed
/// stay as they were.
pub proof fn law_unlisted_documents_stay(
    documents: Map<EntryPlace, Seq<char>>,
    place: IndexPlace,
    d: Seq<(u64, Seq<char>)>,
    at: EntryPlace,
)
    requires
        at.0 != place || forall|i: int| 0 <= i < d.len() ==> (#[trigger] d[i]).0 != at.1,
    ensures
        with_documents(documents, place, d).contains_key(at) == documents.contains_key(at),
        documents.contains_key(at) ==> with_documents(documents, place, d)[at] == documents[at],
    decreases d.len(),
{
    if d.len() > 0 {
        let short = d.drop_last();
        assert(at.0 == place ==> d[d.len() - 1].0 != at.1);
        assert forall|i: int| at.0 == place && 0 <= i < short.len() implies (#[trigger] short[i]).0
            != at.1 by {
            assert(d[i].0 != at.1);
        }
        law_unlisted_documents_stay(documents, place, short, at);
    }
}

/// A listed entry leads to the document that is listed last for it.
pub proof fn law_a_listed_entry_has_its_last_document(
    documents: Map<EntryPlace, Seq<char>>,
    place: IndexPlace,
    d: Seq<(u64, Seq<char>)>,
    i: int,
)
    requires
        0 <= i < d.len(),
        forall|j: int| i < j < d.len() ==> (#[trigger] d[j]).0 != d[i].0,
    ensures
        with_documents(documents, place, d).contains_key((place, d[i].0)),
        with_documents(documents, place, d)[(place, d[i].0)] == d[i].1,
    decreases d.len(),
{
    let n = d.len() - 1;
    if i < n {
        let short = d.drop_last();
        assert(d[n].0 != d[i].0);
        assert forall|j: int| i < j < short.len() implies (#[trigger] short[j]).0 != short[i].0 by {
            assert(d[j].0 != d[i].0);
        }
        law_a_listed_entry_has_its_last_document(documents, place, short, i);
    }
}

} // verus!
