//! The staging overlay of one transaction for graph writes.
//!
//! An edge is told apart by its source, label and destination; a node-label
//! change by its node. Neither has a surrogate, so graph writes are staged
//! beside the row overlay.
use crate::ids::{DatabaseId, TenantId};
use crate::maps;
use crate::maps::{MapKey, TextKey, VecMap};
use crate::overlay::staged;
use crate::text;
use vstd::prelude::*;
use vstd::utf8::*;

verus! {

/// Database, tenant and collection.
pub type GraphCollKey = (DatabaseId, TenantId, String);

/// An edge within a collection.
pub struct EdgeRef {
    pub db: u64,
    pub tid: u64,
    pub coll: String,
    pub src: String,
    pub label: String,
    pub dst: String,
}

impl MapKey for EdgeRef {
    type Key = ((u64, u64, Seq<char>), (Seq<char>, Seq<char>, Seq<char>));

    open spec fn key(&self) -> ((u64, u64, Seq<char>), (Seq<char>, Seq<char>, Seq<char>)) {
        ((self.db, self.tid, self.coll@), (self.src@, self.label@, self.dst@))
    }

    fn same(&self, other: &Self) -> (r: bool) {
        self.db == other.db && self.tid == other.tid && self.coll == other.coll && self.src
            == other.src && self.label == other.label && self.dst == other.dst
    }
}

/// A node within a collection.
pub struct NodeRef {
    pub db: u64,
    pub tid: u64,
    pub coll: String,
    pub node: String,
}

impl MapKey for NodeRef {
    type Key = ((u64, u64, Seq<char>), Seq<char>);

    open spec fn key(&self) -> ((u64, u64, Seq<char>), Seq<char>) {
        ((self.db, self.tid, self.coll@), self.node@)
    }

    fn same(&self, other: &Self) -> (r: bool) {
        self.db == other.db && self.tid == other.tid && self.coll == other.coll && self.node
            == other.node
    }
}

/// A set of labels.
pub struct LabelSet {
    labels: VecMap<TextKey, ()>,
}

/// How many bytes a text takes.
pub open spec fn text_bytes(s: Seq<char>) -> nat {
    encode_utf8(s).len()
}

pub open spec fn label_bytes() -> spec_fn((TextKey, ())) -> nat {
    |e: (TextKey, ())| text_bytes(e.0.0@)
}

/// The bytes of the texts of a set.
pub open spec fn set_bytes(s: Set<Seq<char>>) -> nat
    decreases s.len(),
{
    if s.finite() && s.len() > 0 {
        let x = s.choose();
        text_bytes(x) + set_bytes(s.remove(x))
    } else {
        0
    }
}

/// One more text adds its bytes.
pub proof fn lemma_set_bytes_insert(s: Set<Seq<char>>, x: Seq<char>)
    requires
        s.finite(),
        !s.contains(x),
    ensures
        set_bytes(s.insert(x)) == set_bytes(s) + text_bytes(x),
    decreases s.len(),
{
    let t = s.insert(x);
    let y = t.choose();
    assert(t.contains(x));
    assert(t.len() > 0);
    assert(t.contains(y));
    if y == x {
        assert(t.remove(x) =~= s);
    } else {
        assert(t.remove(y) =~= s.remove(y).insert(x));
        lemma_set_bytes_insert(s.remove(y), x);
        lemma_set_bytes_insert(s.remove(y), y);
        assert(s.remove(y).insert(y) =~= s);
    }
}

/// The bytes of a list of distinct labels are those of their set.
proof fn lemma_listed_label_bytes(e: Seq<(TextKey, ())>)
    requires
        maps::keys_unique(e),
    ensures
        maps::as_map(e).dom().finite(),
        maps::total(e, label_bytes()) == set_bytes(maps::as_map(e).dom()),
    decreases e.len(),
{
    maps::lemma_map_len(e);
    if e.len() == 0 {
        assert(maps::as_map(e).dom() =~= Set::empty());
    } else {
        let e0 = e.drop_last();
        let (k, v) = e.last();
        assert(maps::keys_unique(e0)) by {
            assert forall|i: int, j: int| 0 <= i < j < e0.len() implies #[trigger] e0[i].0.key()
                != #[trigger] e0[j].0.key() by {
                assert(e[i].0.key() != e[j].0.key());
            }
        }
        lemma_listed_label_bytes(e0);
        if maps::as_map(e0).contains_key(k.key()) {
            maps::lemma_map_has_entry(e0, k.key());
            let p = maps::position(e0, k.key());
            assert(e[p].0.key() != e[e.len() - 1].0.key());
        }
        maps::lemma_push_entry(e0, k, v);
        assert(e =~= e0.push((k, v)));
        lemma_set_bytes_insert(maps::as_map(e0).dom(), k.key());
        assert(maps::as_map(e).dom() =~= maps::as_map(e0).dom().insert(k.key()));
    }
}

impl View for LabelSet {
    type V = Set<Seq<char>>;

    closed spec fn view(&self) -> Set<Seq<char>> {
        self.labels@.dom()
    }
}

impl LabelSet {
    /// The bytes of all labels.
    pub open spec fn bytes(&self) -> nat {
        set_bytes(self@)
    }

    pub fn new() -> (r: Self)
        ensures
            r@ == Set::<Seq<char>>::empty(),
            r.bytes() == 0,
    {
        let r = LabelSet { labels: VecMap::new() };
        proof {
            assert(r@ =~= Set::<Seq<char>>::empty());
        }
        r
    }

    pub fn contains(&self, label: &str) -> (r: bool)
        ensures
            r == self@.contains(label@),
    {
        self.labels.contains(&TextKey(label.to_owned()))
    }

    pub fn is_empty(&self) -> (r: bool)
        ensures
            r == (self@ == Set::<Seq<char>>::empty()),
    {
        proof {
            use_type_invariant(&self.labels);
            self.labels.lemma_listed();
            maps::lemma_map_len(self.labels.listed());
            if self.labels.listed().len() == 0 {
                assert(self.labels@.dom() =~= Set::empty());
            }
        }
        self.labels.len() == 0
    }

    fn add(&mut self, label: &str)
        ensures
            final(self)@ == old(self)@.insert(label@),
    {
        self.labels.insert(TextKey(label.to_owned()), ());
        proof {
            assert(self@ =~= old(self)@.insert(label@));
        }
    }

    fn drop_label(&mut self, label: &str)
        ensures
            final(self)@ == old(self)@.remove(label@),
    {
        self.labels.remove(&TextKey(label.to_owned()));
        proof {
            assert(self@ =~= old(self)@.remove(label@));
        }
    }

    fn byte_count(&self) -> (r: usize)
        requires
            self.bytes() <= usize::MAX,
        ensures
            r == self.bytes(),
    {
        let ghost list = self.labels.listed();
        proof {
            use_type_invariant(&self.labels);
            self.labels.lemma_listed();
            lemma_listed_label_bytes(list);
        }
        let mut sum: usize = 0;
        let mut i: usize = 0;
        while i < self.labels.len()
            invariant
                i <= list.len(),
                list == self.labels.listed(),
                sum == maps::total(list.take(i as int), label_bytes()),
                maps::total(list, label_bytes()) <= usize::MAX,
            decreases list.len() - i,
        {
            let e = self.labels.entry(i);
            proof {
                maps::lemma_total_step(list, i as int, label_bytes());
                maps::lemma_total_prefix(list, i + 1, label_bytes());
            }
            sum = sum + e.0.0.as_str().as_bytes().len();
            i = i + 1;
        }
        proof {
            assert(list.take(list.len() as int) =~= list);
        }
        sum
    }

    fn copy(&self) -> (r: LabelSet)
        ensures
            r@ == self@,
    {
        let ghost list = self.labels.listed();
        proof {
            self.labels.lemma_listed();
        }
        let mut r = LabelSet::new();
        let mut i: usize = 0;
        while i < self.labels.len()
            invariant
                i <= list.len(),
                list == self.labels.listed(),
                self.labels@ == maps::as_map(list),
                forall|x: Seq<char>|
                    r@.contains(x) <==> exists|q: int| 0 <= q < i && #[trigger] list[q].0.key() == x,
            decreases list.len() - i,
        {
            let e = self.labels.entry(i);
            let ghost r0 = r@;
            r.add(e.0.0.as_str());
            proof {
                assert forall|x: Seq<char>|
                    r@.contains(x) <==> exists|q: int|
                        0 <= q < i + 1 && #[trigger] list[q].0.key() == x by {
                    if r0.contains(x) {
                        let q = choose|q: int| 0 <= q < i && #[trigger] list[q].0.key() == x;
                        assert(list[q].0.key() == x);
                    }
                    if x == e.0.0@ {
                        assert(list[i as int].0.key() == x);
                    }
                }
            }
            i = i + 1;
        }
        proof {
            assert forall|x: Seq<char>| r@.contains(x) <==> self@.contains(x) by {
                if self@.contains(x) {
                    maps::lemma_map_has_entry(list, x);
                    assert(list[maps::position(list, x)].0.key() == x);
                }
                if r@.contains(x) {
                    assert(maps::holds_key(list, x));
                }
            }
            assert(r@ =~= self@);
        }
        r
    }
}

/// The labels a transaction adds to and removes from a node. A label is in at
/// most one of the two: the last write wins.
pub struct NodeLabelDelta {
    pub added: LabelSet,
    pub removed: LabelSet,
}

impl NodeLabelDelta {
    pub open spec fn disjoint(&self) -> bool {
        forall|x: Seq<char>| !(self.added@.contains(x) && #[trigger] self.removed@.contains(x))
    }

    pub open spec fn bytes(&self) -> nat {
        self.added.bytes() + self.removed.bytes()
    }
}

/// The labels of a list.
pub open spec fn label_set(labels: Seq<String>) -> Set<Seq<char>> {
    Set::new(|x: Seq<char>| exists|i: int| 0 <= i < labels.len() && (#[trigger] labels[i])@ == x)
}

/// An edge that the overlay lists: its place and its properties.
pub type EdgeEntry = (EdgeRef, Vec<u8>);

/// Which staged edges a read asks for.
pub struct EdgeScope<'a> {
    pub db: u64,
    pub tid: u64,
    pub coll: Option<&'a str>,
    pub src: Option<&'a str>,
    pub dst: Option<&'a str>,
}

/// The same, as mathematical values.
pub struct Scope {
    pub db: u64,
    pub tid: u64,
    pub coll: Option<Seq<char>>,
    pub src: Option<Seq<char>>,
    pub dst: Option<Seq<char>>,
}

pub open spec fn text_view(t: Option<&str>) -> Option<Seq<char>> {
    match t {
        Some(t) => Some(t@),
        None => None,
    }
}

impl<'a> View for EdgeScope<'a> {
    type V = Scope;

    open spec fn view(&self) -> Scope {
        Scope {
            db: self.db,
            tid: self.tid,
            coll: text_view(self.coll),
            src: text_view(self.src),
            dst: text_view(self.dst),
        }
    }
}

pub open spec fn allows(wanted: Option<Seq<char>>, have: Seq<char>) -> bool {
    match wanted {
        Some(w) => w == have,
        None => true,
    }
}

pub open spec fn in_scope(e: EdgeRef, scope: Scope) -> bool {
    e.db == scope.db && e.tid == scope.tid && allows(scope.coll, e.coll@) && allows(
        scope.src,
        e.src@,
    ) && allows(scope.dst, e.dst@)
}

fn allowed(wanted: Option<&str>, have: &String) -> (r: bool)
    ensures
        r == allows(text_view(wanted), have@),
{
    match wanted {
        Some(w) => text::same_text(w, have.as_str()),
        None => true,
    }
}

/// The entries of a list that a read asks for, in order.
pub open spec fn selected<T>(list: Seq<(EdgeRef, T)>, scope: Scope) -> Seq<(EdgeRef, T)> {
    list.filter(|e: (EdgeRef, T)| in_scope(e.0, scope))
}

/// All edges of a collection.
pub open spec fn collection_scope(place: (u64, u64, Seq<char>)) -> Scope {
    Scope { db: place.0, tid: place.1, coll: Some(place.2), src: None, dst: None }
}

/// Whether an edge is one that a read asks for.
pub open spec fn key_in_scope(k: EdgeId, scope: Scope) -> bool {
    k.0.0 == scope.db && k.0.1 == scope.tid && allows(scope.coll, k.0.2) && allows(
        scope.src,
        k.1.0,
    ) && allows(scope.dst, k.1.2)
}

/// Whether a list holds each edge that a read asks for once, with what the map
/// has for it, and no other.
pub open spec fn lists_scope<T>(l: Seq<(EdgeRef, T)>, m: Map<EdgeId, T>, scope: Scope) -> bool {
    &&& maps::keys_unique(l)
    &&& forall|i: int|
        0 <= i < l.len() ==> key_in_scope((#[trigger] l[i]).0.key(), scope) && m.contains_key(
            l[i].0.key(),
        ) && m[l[i].0.key()] == l[i].1
    &&& forall|k: EdgeId| #[trigger]
        m.contains_key(k) && key_in_scope(k, scope) ==> maps::holds_key(l, k)
}

/// Whether a list holds each edge of a collection once, with what the map has
/// for it.
pub open spec fn lists_collection<T>(
    l: Seq<(EdgeRef, T)>,
    m: Map<EdgeId, T>,
    place: (u64, u64, Seq<char>),
) -> bool {
    &&& maps::keys_unique(l)
    &&& forall|i: int|
        0 <= i < l.len() ==> (#[trigger] l[i]).0.key().0 == place && m.contains_key(l[i].0.key())
            && m[l[i].0.key()] == l[i].1
    &&& forall|k: EdgeId| #[trigger]
        m.contains_key(k) && k.0 == place ==> maps::holds_key(l, k)
}

/// What is selected of distinct entries lists what was asked for.
pub proof fn lemma_selected_lists<T>(e: Seq<(EdgeRef, T)>, scope: Scope)
    requires
        maps::keys_unique(e),
    ensures
        lists_scope(selected(e, scope), maps::as_map(e), scope),
    decreases e.len(),
{
    reveal(Seq::filter);
    let m = maps::as_map(e);
    let l = selected(e, scope);
    if e.len() == 0 {
        assert forall|k: EdgeId| #[trigger] m.contains_key(k) && key_in_scope(
            k,
            scope,
        ) implies maps::holds_key(l, k) by {
            maps::lemma_map_has_entry(e, k);
        }
    } else {
        let e0 = e.drop_last();
        let (k, v) = e.last();
        assert(maps::keys_unique(e0)) by {
            assert forall|i: int, j: int| 0 <= i < j < e0.len() implies #[trigger] e0[i].0.key()
                != #[trigger] e0[j].0.key() by {
                assert(e[i].0.key() != e[j].0.key());
            }
        }
        lemma_selected_lists(e0, scope);
        let m0 = maps::as_map(e0);
        let l0 = selected(e0, scope);
        if m0.contains_key(k.key()) {
            maps::lemma_map_has_entry(e0, k.key());
            let p = maps::position(e0, k.key());
            assert(e[p].0.key() != e[e.len() - 1].0.key());
        }
        maps::lemma_push_entry(e0, k, v);
        assert(e =~= e0.push((k, v)));
        assert(m == m0.insert(k.key(), v));
        assert(l == if in_scope(k, scope) {
            l0.push((k, v))
        } else {
            l0
        });
        assert forall|i: int, j: int| 0 <= i < j < l.len() implies #[trigger] l[i].0.key()
            != #[trigger] l[j].0.key() by {
            assert(l[i] == l0[i]);
            assert(m0.contains_key(l0[i].0.key()));
            if j < l0.len() {
                assert(l[j] == l0[j]);
                assert(l0[i].0.key() != l0[j].0.key());
            }
        }
        assert forall|i: int| 0 <= i < l.len() implies key_in_scope(
            (#[trigger] l[i]).0.key(),
            scope,
        ) && m.contains_key(l[i].0.key()) && m[l[i].0.key()] == l[i].1 by {
            if i < l0.len() {
                assert(l[i] == l0[i]);
                assert(m0.contains_key(l0[i].0.key()));
            }
        }
        assert forall|x: EdgeId| #[trigger] m.contains_key(x) && key_in_scope(
            x,
            scope,
        ) implies maps::holds_key(l, x) by {
            if x == k.key() {
                assert(l[l.len() - 1].0.key() == x);
            } else {
                assert(m0.contains_key(x));
                let i = maps::position(l0, x);
                assert(maps::holds_key(l0, x));
                assert(l[i] == l0[i]);
                assert(l[i].0.key() == x);
            }
        }
    }
}

proof fn lemma_collection_listed<T>(e: Seq<(EdgeRef, T)>, place: (u64, u64, Seq<char>))
    requires
        maps::keys_unique(e),
    ensures
        lists_collection(selected(e, collection_scope(place)), maps::as_map(e), place),
{
    lemma_selected_lists(e, collection_scope(place));
    let m = maps::as_map(e);
    let l = selected(e, collection_scope(place));
    assert forall|k: EdgeId| #[trigger] m.contains_key(k) && k.0 == place implies maps::holds_key(
        l,
        k,
    ) by {
        assert(key_in_scope(k, collection_scope(place)));
    }
}

fn select<'a, T>(list: &'a VecMap<EdgeRef, T>, scope: EdgeScope) -> (r: Vec<&'a (EdgeRef, T)>)
    ensures
        r@.map_values(|e: &(EdgeRef, T)| *e) == selected(list.listed(), scope@),
{
    let ghost all = list.listed();
    let ghost p = |e: (EdgeRef, T)| in_scope(e.0, scope@);
    let mut r: Vec<&'a (EdgeRef, T)> = Vec::new();
    let mut i: usize = 0;
    proof {
        reveal(Seq::filter);
    }
    while i < list.len()
        invariant
            i <= all.len(),
            all == list.listed(),
            p == (|e: (EdgeRef, T)| in_scope(e.0, scope@)),
            r@.map_values(|e: &(EdgeRef, T)| *e) == all.take(i as int).filter(p),
        decreases all.len() - i,
    {
        let e = list.entry(i);
        let ghost before = r@;
        proof {
            reveal(Seq::filter);
            assert(all.take(i + 1).drop_last() =~= all.take(i as int));
        }
        if e.0.db == scope.db && e.0.tid == scope.tid && allowed(scope.coll, &e.0.coll) && allowed(
            scope.src,
            &e.0.src,
        ) && allowed(scope.dst, &e.0.dst) {
            r.push(e);
            proof {
                assert(r@.map_values(|e: &(EdgeRef, T)| *e) =~= before.map_values(
                    |e: &(EdgeRef, T)| *e,
                ).push(*e));
            }
        }
        i = i + 1;
    }
    proof {
        assert(all.take(all.len() as int) =~= all);
    }
    r
}

/// Label, destination and properties of an edge.
pub open spec fn out_edge(e: EdgeEntry) -> (Seq<char>, Seq<char>, Seq<u8>) {
    (e.0.label@, e.0.dst@, e.1@)
}

/// Label, source and properties of an edge.
pub open spec fn in_edge(e: EdgeEntry) -> (Seq<char>, Seq<char>, Seq<u8>) {
    (e.0.label@, e.0.src@, e.1@)
}

/// Source, label and destination of an edge.
pub open spec fn edge_name<T>(e: (EdgeRef, T)) -> (Seq<char>, Seq<char>, Seq<char>) {
    (e.0.src@, e.0.label@, e.0.dst@)
}

pub open spec fn borrowed_views(r: Seq<(&str, &str, &[u8])>) -> Seq<(Seq<char>, Seq<char>, Seq<u8>)> {
    r.map_values(|t: (&str, &str, &[u8])| (t.0@, t.1@, t.2@))
}

pub open spec fn owned_views(r: Seq<(String, String, Vec<u8>)>) -> Seq<
    (Seq<char>, Seq<char>, Seq<u8>),
> {
    r.map_values(|t: (String, String, Vec<u8>)| (t.0@, t.1@, t.2@))
}

pub open spec fn name_views(r: Seq<(String, String, String)>) -> Seq<
    (Seq<char>, Seq<char>, Seq<char>),
> {
    r.map_values(|t: (String, String, String)| (t.0@, t.1@, t.2@))
}

pub open spec fn edge_bytes() -> spec_fn(EdgeEntry) -> nat {
    |e: EdgeEntry|
        text_bytes(e.0.src@) + text_bytes(e.0.label@) + text_bytes(e.0.dst@) + e.1@.len()
}

pub open spec fn tombstone_bytes() -> spec_fn((EdgeRef, ())) -> nat {
    |e: (EdgeRef, ())| text_bytes(e.0.src@) + text_bytes(e.0.label@) + text_bytes(e.0.dst@)
}

pub open spec fn delta_bytes() -> spec_fn((NodeRef, NodeLabelDelta)) -> nat {
    |e: (NodeRef, NodeLabelDelta)| text_bytes(e.0.node@) + e.1.bytes()
}

pub struct GraphTxnOverlay {
    edges: VecMap<EdgeRef, Vec<u8>>,
    tombstones: VecMap<EdgeRef, ()>,
    labels: VecMap<NodeRef, NodeLabelDelta>,
}

/// The identity of a node in a collection.
pub type NodeId = ((u64, u64, Seq<char>), Seq<char>);

/// The bytes of an edge's names.
pub open spec fn name_bytes(k: EdgeId) -> nat {
    text_bytes(k.1.0) + text_bytes(k.1.1) + text_bytes(k.1.2)
}

/// The bytes that an edge takes up among staged ones.
pub open spec fn edge_weight(m: Map<EdgeId, Vec<u8>>, k: EdgeId) -> nat {
    if m.contains_key(k) {
        name_bytes(k) + m[k]@.len()
    } else {
        0
    }
}

/// The bytes that an edge takes up among staged deletions.
pub open spec fn deletion_weight(s: Set<EdgeId>, k: EdgeId) -> nat {
    if s.contains(k) {
        name_bytes(k)
    } else {
        0
    }
}

/// The bytes that a node takes up among staged label changes.
pub open spec fn label_weight(m: Map<NodeId, NodeLabelDelta>, k: NodeId) -> nat {
    if m.contains_key(k) {
        text_bytes(k.1) + m[k].bytes()
    } else {
        0
    }
}

/// The identity of an edge in a collection.
pub type EdgeId = ((u64, u64, Seq<char>), (Seq<char>, Seq<char>, Seq<char>));

impl GraphTxnOverlay {
    /// An edge is staged as put or as deleted, not both; a label as added or
    /// as removed, not both.
    #[verifier::type_invariant]
    spec fn wf(self) -> bool {
        &&& forall|k: EdgeId|
            !(self.edges@.contains_key(k) && #[trigger] self.tombstones@.contains_key(k))
        &&& forall|k: ((u64, u64, Seq<char>), Seq<char>)| #[trigger]
            self.labels@.contains_key(k) ==> self.labels@[k].disjoint()
    }

    /// The staged edges in the order in which they were staged.
    pub closed spec fn edge_list(&self) -> Seq<EdgeEntry> {
        self.edges.listed()
    }

    /// The staged deletions in the order in which they were staged.
    pub closed spec fn tombstone_list(&self) -> Seq<(EdgeRef, ())> {
        self.tombstones.listed()
    }

    /// The properties of each staged edge.
    pub open spec fn edges(&self) -> Map<EdgeId, Vec<u8>> {
        maps::as_map(self.edge_list())
    }

    /// The edges staged as deleted, as a map.
    pub open spec fn deletions(&self) -> Map<EdgeId, ()> {
        maps::as_map(self.tombstone_list())
    }

    /// The edges staged as deleted.
    pub open spec fn deleted(&self) -> Set<EdgeId> {
        self.deletions().dom()
    }

    /// The staged label change of each node.
    pub open spec fn labels(&self) -> Map<NodeId, NodeLabelDelta> {
        maps::as_map(self.label_list())
    }

    /// The nodes with label changes in the order in which they were staged.
    pub closed spec fn label_list(&self) -> Seq<(NodeRef, NodeLabelDelta)> {
        self.labels.listed()
    }

    /// Whether nothing is listed twice. The transaction's readers and stagers see
    /// to it.
    pub open spec fn listed_once(&self) -> bool {
        maps::keys_unique(self.edge_list()) && maps::keys_unique(self.tombstone_list())
            && maps::keys_unique(self.label_list())
    }

    /// The lists hold distinct keys and stand for the fields' maps.
    proof fn lemma_views(&self)
        requires
            self.edges.wf(),
            self.tombstones.wf(),
            self.labels.wf(),
        ensures
            self.listed_once(),
            self.edges() == self.edges@,
            self.deletions() == self.tombstones@,
            self.labels() == self.labels@,
    {
        self.edges.lemma_listed();
        self.tombstones.lemma_listed();
        self.labels.lemma_listed();
    }

    /// The bytes of everything staged.
    pub open spec fn bytes(&self) -> nat {
        maps::total(self.edge_list(), edge_bytes()) + maps::total(
            self.tombstone_list(),
            tombstone_bytes(),
        ) + maps::total(self.label_list(), delta_bytes())
    }

    pub fn new() -> (r: Self)
        ensures
            r.edges() == Map::<EdgeId, Vec<u8>>::empty(),
            r.deleted() == Set::<EdgeId>::empty(),
            r.labels() == Map::<((u64, u64, Seq<char>), Seq<char>), NodeLabelDelta>::empty(),
            r.edge_list().len() == 0,
            r.tombstone_list().len() == 0,
            r.label_list().len() == 0,
            r.listed_once(),
            r.bytes() == 0,
    {
        let r = GraphTxnOverlay {
            edges: VecMap::new(),
            tombstones: VecMap::new(),
            labels: VecMap::new(),
        };
        proof {
            use_type_invariant(&r.edges);
            use_type_invariant(&r.tombstones);
            use_type_invariant(&r.labels);
            r.lemma_views();
            assert(r.deleted() =~= Set::<EdgeId>::empty());
        }
        r
    }

    fn edge_ref(coll_key: &GraphCollKey, src: &str, label: &str, dst: &str) -> (r: EdgeRef)
        ensures
            r.key() == (staged::coll_id(*coll_key), (src@, label@, dst@)),
    {
        EdgeRef {
            db: coll_key.0.0,
            tid: coll_key.1.0,
            coll: coll_key.2.clone(),
            src: src.to_owned(),
            label: label.to_owned(),
            dst: dst.to_owned(),
        }
    }

    /// Stage an edge; a staged deletion of it is dropped.
    pub fn stage_edge_put(
        &mut self,
        coll_key: GraphCollKey,
        src: &str,
        label: &str,
        dst: &str,
        properties: Vec<u8>,
    )
        ensures
            final(self).edges() == old(self).edges().insert(
                (staged::coll_id(coll_key), (src@, label@, dst@)),
                properties,
            ),
            final(self).deleted() == old(self).deleted().remove(
                (staged::coll_id(coll_key), (src@, label@, dst@)),
            ),
            final(self).labels() == old(self).labels(),
            final(self).listed_once(),
            ({
                let k = (staged::coll_id(coll_key), (src@, label@, dst@));
                final(self).bytes() + edge_weight(old(self).edges(), k) + deletion_weight(
                    old(self).deleted(),
                    k,
                ) == old(self).bytes() + name_bytes(k) + properties@.len()
            }),
    {
        let mut me = GraphTxnOverlay::new();
        std::mem::swap(&mut me, self);
        proof {
            use_type_invariant(&me);
            use_type_invariant(&me.edges);
            use_type_invariant(&me.tombstones);
            use_type_invariant(&me.labels);
            me.lemma_views();
        }
        let GraphTxnOverlay { edges, tombstones, labels } = me;
        let mut edges = edges;
        let mut tombstones = tombstones;
        let key = Self::edge_ref(&coll_key, src, label, dst);
        let ghost k = key.key();
        proof {
            maps::lemma_total_entry(edges.listed(), key, properties, edge_bytes());
            maps::lemma_total_entry(tombstones.listed(), key, (), tombstone_bytes());
        }
        tombstones.remove(&key);
        edges.insert(key, properties);
        *self = GraphTxnOverlay { edges, tombstones, labels };
        proof {
            use_type_invariant(&self.edges);
            use_type_invariant(&self.tombstones);
            use_type_invariant(&self.labels);
            self.lemma_views();
            assert(self.deleted() =~= old(self).deleted().remove(
                (staged::coll_id(coll_key), (src@, label@, dst@)),
            ));
        }
    }

    /// Stage the deletion of an edge; a staged put of it is dropped.
    pub fn stage_edge_delete(&mut self, coll_key: GraphCollKey, src: &str, label: &str, dst: &str)
        ensures
            final(self).edges() == old(self).edges().remove(
                (staged::coll_id(coll_key), (src@, label@, dst@)),
            ),
            final(self).deleted() == old(self).deleted().insert(
                (staged::coll_id(coll_key), (src@, label@, dst@)),
            ),
            final(self).labels() == old(self).labels(),
            final(self).listed_once(),
            ({
                let k = (staged::coll_id(coll_key), (src@, label@, dst@));
                final(self).bytes() + edge_weight(old(self).edges(), k) + deletion_weight(
                    old(self).deleted(),
                    k,
                ) == old(self).bytes() + name_bytes(k)
            }),
    {
        let mut me = GraphTxnOverlay::new();
        std::mem::swap(&mut me, self);
        proof {
            use_type_invariant(&me);
            use_type_invariant(&me.edges);
            use_type_invariant(&me.tombstones);
            use_type_invariant(&me.labels);
            me.lemma_views();
        }
        let GraphTxnOverlay { edges, tombstones, labels } = me;
        let mut edges = edges;
        let mut tombstones = tombstones;
        let key = Self::edge_ref(&coll_key, src, label, dst);
        let ghost k = key.key();
        proof {
            maps::lemma_total_entry(edges.listed(), key, arbitrary(), edge_bytes());
            maps::lemma_total_entry(tombstones.listed(), key, (), tombstone_bytes());
        }
        edges.remove(&key);
        tombstones.insert(key, ());
        *self = GraphTxnOverlay { edges, tombstones, labels };
        proof {
            use_type_invariant(&self.edges);
            use_type_invariant(&self.tombstones);
            use_type_invariant(&self.labels);
            self.lemma_views();
            assert(self.deleted() =~= old(self).deleted().insert(
                (staged::coll_id(coll_key), (src@, label@, dst@)),
            ));
        }
    }

    /// Stage labels as set on a node: they leave the staged removals.
    pub fn stage_node_labels_set(
        &mut self,
        coll_key: GraphCollKey,
        node_id: &str,
        labels: &[String],
    )
        ensures
            final(self).edges() == old(self).edges(),
            final(self).deleted() == old(self).deleted(),
            final(self).listed_once(),
            ({
                let k = (staged::coll_id(coll_key), node_id@);
                final(self).bytes() + label_weight(old(self).labels(), k) == old(self).bytes()
                    + label_weight(final(self).labels(), k)
            }),
            ({
                let k = (staged::coll_id(coll_key), node_id@);
                let before = old(self).labels();
                let after = final(self).labels();
                let added = if before.contains_key(k) {
                    before[k].added@
                } else {
                    Set::empty()
                };
                let removed = if before.contains_key(k) {
                    before[k].removed@
                } else {
                    Set::empty()
                };
                after == before.insert(k, after[k]) && after[k].disjoint() && after[k].added@ == added.union(
                    label_set(labels@),
                ) && after[k].removed@ == removed.difference(label_set(labels@))
            }),
    {
        self.stage_labels(coll_key, node_id, labels, true);
    }

    /// Stage labels as removed from a node: they leave the staged additions.
    pub fn stage_node_labels_remove(
        &mut self,
        coll_key: GraphCollKey,
        node_id: &str,
        labels: &[String],
    )
        ensures
            final(self).edges() == old(self).edges(),
            final(self).deleted() == old(self).deleted(),
            final(self).listed_once(),
            ({
                let k = (staged::coll_id(coll_key), node_id@);
                final(self).bytes() + label_weight(old(self).labels(), k) == old(self).bytes()
                    + label_weight(final(self).labels(), k)
            }),
            ({
                let k = (staged::coll_id(coll_key), node_id@);
                let before = old(self).labels();
                let after = final(self).labels();
                let added = if before.contains_key(k) {
                    before[k].added@
                } else {
                    Set::empty()
                };
                let removed = if before.contains_key(k) {
                    before[k].removed@
                } else {
                    Set::empty()
                };
                after == before.insert(k, after[k]) && after[k].disjoint() && after[k].removed@ == removed.union(
                    label_set(labels@),
                ) && after[k].added@ == added.difference(label_set(labels@))
            }),
    {
        self.stage_labels(coll_key, node_id, labels, false);
    }

    fn stage_labels(
        &mut self,
        coll_key: GraphCollKey,
        node_id: &str,
        labels: &[String],
        set: bool,
    )
        ensures
            final(self).edges() == old(self).edges(),
            final(self).deleted() == old(self).deleted(),
            final(self).listed_once(),
            ({
                let k = (staged::coll_id(coll_key), node_id@);
                final(self).bytes() + label_weight(old(self).labels(), k) == old(self).bytes()
                    + label_weight(final(self).labels(), k)
            }),
            ({
                let k = (staged::coll_id(coll_key), node_id@);
                let before = old(self).labels();
                let after = final(self).labels();
                let added = if before.contains_key(k) {
                    before[k].added@
                } else {
                    Set::empty()
                };
                let removed = if before.contains_key(k) {
                    before[k].removed@
                } else {
                    Set::empty()
                };
                after == before.insert(k, after[k]) && after[k].disjoint() && if set {
                    after[k].added@ == added.union(label_set(labels@)) && after[k].removed@
                        == removed.difference(label_set(labels@))
                } else {
                    after[k].removed@ == removed.union(label_set(labels@)) && after[k].added@
                        == added.difference(label_set(labels@))
                }
            }),
    {
        let mut me = GraphTxnOverlay::new();
        std::mem::swap(&mut me, self);
        proof {
            use_type_invariant(&me);
            use_type_invariant(&me.edges);
            use_type_invariant(&me.tombstones);
            use_type_invariant(&me.labels);
            me.lemma_views();
        }
        let GraphTxnOverlay { edges, tombstones, labels: deltas } = me;
        let mut deltas = deltas;
        let key = NodeRef {
            db: coll_key.0.0,
            tid: coll_key.1.0,
            coll: coll_key.2,
            node: node_id.to_owned(),
        };
        let ghost before = deltas@;
        let ghost listed = deltas.listed();
        let ghost k = key.key();
        proof {
            maps::lemma_total_entry(listed, key, arbitrary(), delta_bytes());
        }
        let mut delta = match deltas.remove(&key) {
            Some(d) => d,
            None => NodeLabelDelta { added: LabelSet::new(), removed: LabelSet::new() },
        };
        let ghost added0 = delta.added@;
        let ghost removed0 = delta.removed@;
        proof {
            assert(delta.disjoint());
        }
        let mut i: usize = 0;
        proof {
            assert(added0.union(label_set(labels@.take(0))) =~= added0);
            assert(removed0.difference(label_set(labels@.take(0))) =~= removed0);
            assert(removed0.union(label_set(labels@.take(0))) =~= removed0);
            assert(added0.difference(label_set(labels@.take(0))) =~= added0);
        }
        while i < labels.len()
            invariant
                i <= labels@.len(),
                delta.disjoint(),
                set ==> delta.added@ == added0.union(label_set(labels@.take(i as int)))
                    && delta.removed@ == removed0.difference(label_set(labels@.take(i as int))),
                !set ==> delta.removed@ == removed0.union(label_set(labels@.take(i as int)))
                    && delta.added@ == added0.difference(label_set(labels@.take(i as int))),
            decreases labels.len() - i,
        {
            let label = labels[i].as_str();
            proof {
                assert(label_set(labels@.take(i + 1)) =~= label_set(labels@.take(i as int)).insert(
                    label@,
                )) by {
                    lemma_label_set_step(labels@, i as int);
                }
            }
            if set {
                delta.removed.drop_label(label);
                delta.added.add(label);
            } else {
                delta.added.drop_label(label);
                delta.removed.add(label);
            }
            proof {
                let t = label_set(labels@.take(i + 1));
                if set {
                    assert(delta.added@ =~= added0.union(t));
                    assert(delta.removed@ =~= removed0.difference(t));
                } else {
                    assert(delta.removed@ =~= removed0.union(t));
                    assert(delta.added@ =~= added0.difference(t));
                }
            }
            i = i + 1;
        }
        proof {
            assert(labels@.take(labels@.len() as int) =~= labels@);
            assert(before.remove(k).insert(k, delta) =~= before.insert(k, delta));
        }
        proof {
            maps::lemma_total_entry(deltas.listed(), key, delta, delta_bytes());
        }
        deltas.insert(key, delta);
        *self = GraphTxnOverlay { edges, tombstones, labels: deltas };
        proof {
            use_type_invariant(&self.edges);
            use_type_invariant(&self.tombstones);
            use_type_invariant(&self.labels);
            self.lemma_views();
        }
    }

    /// Whether an edge is staged as deleted.
    pub fn is_edge_tombstoned(&self, coll_key: &GraphCollKey, src: &str, label: &str, dst: &str) -> (r:
        bool)
        ensures
            self.listed_once(),
            r == self.deleted().contains((staged::coll_id(*coll_key), (src@, label@, dst@))),
            r ==> !self.edges().contains_key((staged::coll_id(*coll_key), (src@, label@, dst@))),
    {
        proof {
            use_type_invariant(&self.edges);
            use_type_invariant(&self.tombstones);
            use_type_invariant(&self.labels);
            self.lemma_views();
        }
        proof {
            use_type_invariant(self);
        }
        self.tombstones.contains(&Self::edge_ref(coll_key, src, label, dst))
    }

    /// The staged edges out of a node: label, destination, properties.
    pub fn edges_for_src(&self, coll_key: &GraphCollKey, src_id: &str) -> (r: Vec<
        (&str, &str, &[u8]),
    >)
        ensures
            self.listed_once(),
            borrowed_views(r@) == selected(
                self.edge_list(),
                (Scope {
                    db: coll_key.0.0,
                    tid: coll_key.1.0,
                    coll: Some(coll_key.2@),
                    src: Some(src_id@),
                    dst: None,
                }),
            ).map_values(|e: EdgeEntry| out_edge(e)),
    {
        proof {
            use_type_invariant(&self.edges);
            use_type_invariant(&self.tombstones);
            use_type_invariant(&self.labels);
            self.lemma_views();
        }
        let hits = select(
            &self.edges,
            EdgeScope {
                db: coll_key.0.0,
                tid: coll_key.1.0,
                coll: Some(coll_key.2.as_str()),
                src: Some(src_id),
                dst: None,
            },
        );
        let mut r: Vec<(&str, &str, &[u8])> = Vec::new();
        let ghost list = hits@.map_values(|e: &EdgeEntry| *e);
        let mut i: usize = 0;
        while i < hits.len()
            invariant
                i <= hits@.len(),
                list == hits@.map_values(|e: &EdgeEntry| *e),
                borrowed_views(r@) == list.take(i as int).map_values(|e: EdgeEntry| out_edge(e)),
            decreases hits.len() - i,
        {
            let e = hits[i];
            let ghost before = r@;
            r.push((e.0.label.as_str(), e.0.dst.as_str(), e.1.as_slice()));
            proof {
                maps::lemma_map_take_step(
                    list,
                    i as int,
                    |e: EdgeEntry| out_edge(e),
                );
                assert(borrowed_views(r@) =~= borrowed_views(before).push(out_edge(*e)));
            }
            i = i + 1;
        }
        proof {
            assert(list.take(list.len() as int) =~= list);
        }
        r
    }

    /// The staged edges into a node: label, source, properties.
    pub fn edges_for_dst(&self, coll_key: &GraphCollKey, dst_id: &str) -> (r: Vec<
        (&str, &str, &[u8]),
    >)
        ensures
            self.listed_once(),
            borrowed_views(r@) == selected(
                self.edge_list(),
                (Scope {
                    db: coll_key.0.0,
                    tid: coll_key.1.0,
                    coll: Some(coll_key.2@),
                    src: None,
                    dst: Some(dst_id@),
                }),
            ).map_values(|e: EdgeEntry| in_edge(e)),
    {
        proof {
            use_type_invariant(&self.edges);
            use_type_invariant(&self.tombstones);
            use_type_invariant(&self.labels);
            self.lemma_views();
        }
        let hits = select(
            &self.edges,
            EdgeScope {
                db: coll_key.0.0,
                tid: coll_key.1.0,
                coll: Some(coll_key.2.as_str()),
                src: None,
                dst: Some(dst_id),
            },
        );
        let mut r: Vec<(&str, &str, &[u8])> = Vec::new();
        let ghost list = hits@.map_values(|e: &EdgeEntry| *e);
        let mut i: usize = 0;
        while i < hits.len()
            invariant
                i <= hits@.len(),
                list == hits@.map_values(|e: &EdgeEntry| *e),
                borrowed_views(r@) == list.take(i as int).map_values(|e: EdgeEntry| in_edge(e)),
            decreases hits.len() - i,
        {
            let e = hits[i];
            let ghost before = r@;
            r.push((e.0.label.as_str(), e.0.src.as_str(), e.1.as_slice()));
            proof {
                maps::lemma_map_take_step(
                    list,
                    i as int,
                    |e: EdgeEntry| in_edge(e),
                );
                assert(borrowed_views(r@) =~= borrowed_views(before).push(in_edge(*e)));
            }
            i = i + 1;
        }
        proof {
            assert(list.take(list.len() as int) =~= list);
        }
        r
    }

    /// The staged label change of a node, if it has one.
    pub fn labels_delta(&self, coll_key: &GraphCollKey, node_id: &str) -> (r: Option<
        &NodeLabelDelta,
    >)
        ensures
            self.listed_once(),
            match r {
                Some(d) => self.labels().contains_key((staged::coll_id(*coll_key), node_id@)) && *d
                    == self.labels()[(staged::coll_id(*coll_key), node_id@)] && d.disjoint(),
                None => !self.labels().contains_key((staged::coll_id(*coll_key), node_id@)),
            },
    {
        proof {
            use_type_invariant(&self.edges);
            use_type_invariant(&self.tombstones);
            use_type_invariant(&self.labels);
            self.lemma_views();
        }
        proof {
            use_type_invariant(self);
        }
        let key = NodeRef {
            db: coll_key.0.0,
            tid: coll_key.1.0,
            coll: coll_key.2.clone(),
            node: node_id.to_owned(),
        };
        self.labels.get(&key)
    }

    /// The staged edges out of a node in any collection of a tenant.
    pub fn edges_for_src_any_collection(
        &self,
        database_id: DatabaseId,
        tenant: TenantId,
        src_id: &str,
    ) -> (r: Vec<(String, String, Vec<u8>)>)
        ensures
            self.listed_once(),
            owned_views(r@) == selected(
                self.edge_list(),
                (Scope {
                    db: database_id.0,
                    tid: tenant.0,
                    coll: None,
                    src: Some(src_id@),
                    dst: None,
                }),
            ).map_values(|e: EdgeEntry| out_edge(e)),
    {
        proof {
            use_type_invariant(&self.edges);
            use_type_invariant(&self.tombstones);
            use_type_invariant(&self.labels);
            self.lemma_views();
        }
        let hits = select(
            &self.edges,
            EdgeScope {
                db: database_id.0,
                tid: tenant.0,
                coll: None,
                src: Some(src_id),
                dst: None,
            },
        );
        let mut r: Vec<(String, String, Vec<u8>)> = Vec::new();
        let ghost list = hits@.map_values(|e: &EdgeEntry| *e);
        let mut i: usize = 0;
        while i < hits.len()
            invariant
                i <= hits@.len(),
                list == hits@.map_values(|e: &EdgeEntry| *e),
                owned_views(r@) == list.take(i as int).map_values(|e: EdgeEntry| out_edge(e)),
            decreases hits.len() - i,
        {
            let e = hits[i];
            let ghost before = r@;
            let props = text::copy_bytes(e.1.as_slice());
            r.push((e.0.label.clone(), e.0.dst.clone(), props));
            proof {
                maps::lemma_map_take_step(
                    list,
                    i as int,
                    |e: EdgeEntry| out_edge(e),
                );
                assert(owned_views(r@) =~= owned_views(before).push(out_edge(*e)));
            }
            i = i + 1;
        }
        proof {
            assert(list.take(list.len() as int) =~= list);
        }
        r
    }

    /// The staged edges into a node in any collection of a tenant.
    pub fn edges_for_dst_any_collection(
        &self,
        database_id: DatabaseId,
        tenant: TenantId,
        dst_id: &str,
    ) -> (r: Vec<(String, String, Vec<u8>)>)
        ensures
            self.listed_once(),
            owned_views(r@) == selected(
                self.edge_list(),
                (Scope {
                    db: database_id.0,
                    tid: tenant.0,
                    coll: None,
                    src: None,
                    dst: Some(dst_id@),
                }),
            ).map_values(|e: EdgeEntry| in_edge(e)),
    {
        proof {
            use_type_invariant(&self.edges);
            use_type_invariant(&self.tombstones);
            use_type_invariant(&self.labels);
            self.lemma_views();
        }
        let hits = select(
            &self.edges,
            EdgeScope {
                db: database_id.0,
                tid: tenant.0,
                coll: None,
                src: None,
                dst: Some(dst_id),
            },
        );
        let mut r: Vec<(String, String, Vec<u8>)> = Vec::new();
        let ghost list = hits@.map_values(|e: &EdgeEntry| *e);
        let mut i: usize = 0;
        while i < hits.len()
            invariant
                i <= hits@.len(),
                list == hits@.map_values(|e: &EdgeEntry| *e),
                owned_views(r@) == list.take(i as int).map_values(|e: EdgeEntry| in_edge(e)),
            decreases hits.len() - i,
        {
            let e = hits[i];
            let ghost before = r@;
            let props = text::copy_bytes(e.1.as_slice());
            r.push((e.0.label.clone(), e.0.src.clone(), props));
            proof {
                maps::lemma_map_take_step(
                    list,
                    i as int,
                    |e: EdgeEntry| in_edge(e),
                );
                assert(owned_views(r@) =~= owned_views(before).push(in_edge(*e)));
            }
            i = i + 1;
        }
        proof {
            assert(list.take(list.len() as int) =~= list);
        }
        r
    }

    /// Whether an edge is staged as deleted in any collection of a tenant.
    pub fn is_edge_tombstoned_any_collection(
        &self,
        database_id: DatabaseId,
        tenant: TenantId,
        src: &str,
        label: &str,
        dst: &str,
    ) -> (r: bool)
        ensures
            self.listed_once(),
            r == exists|coll: Seq<char>| #[trigger]
                self.deleted().contains(((database_id.0, tenant.0, coll), (src@, label@, dst@))),
    {
        proof {
            use_type_invariant(&self.edges);
            use_type_invariant(&self.tombstones);
            use_type_invariant(&self.labels);
            self.lemma_views();
        }
        proof {
            self.tombstones.lemma_listed();
        }
        let ghost list = self.tombstones.listed();
        let mut i: usize = 0;
        while i < self.tombstones.len()
            invariant
                i <= list.len(),
                list == self.tombstones.listed(),
                self.tombstones@ == maps::as_map(list),
                self.listed_once(),
                forall|q: int|
                    0 <= q < i ==> !((#[trigger] list[q]).0.key().0.0 == database_id.0
                        && list[q].0.key().0.1 == tenant.0 && list[q].0.key().1 == (
                        src@,
                        label@,
                        dst@,
                    )),
            decreases list.len() - i,
        {
            let e = self.tombstones.entry(i);
            if e.0.db == database_id.0 && e.0.tid == tenant.0 && text::same_text(
                e.0.src.as_str(),
                src,
            ) && text::same_text(e.0.label.as_str(), label) && text::same_text(
                e.0.dst.as_str(),
                dst,
            ) {
                proof {
                    assert(self.deleted().contains(
                        ((database_id.0, tenant.0, e.0.coll@), (src@, label@, dst@)),
                    ));
                }
                return true;
            }
            i = i + 1;
        }
        proof {
            assert forall|coll: Seq<char>| !#[trigger] self.deleted().contains(
                ((database_id.0, tenant.0, coll), (src@, label@, dst@)),
            ) by {
                let k = ((database_id.0, tenant.0, coll), (src@, label@, dst@));
                if self.deleted().contains(k) {
                    maps::lemma_map_has_entry(list, k);
                    assert(list[maps::position(list, k)].0.key() == k);
                }
            }
        }
        false
    }

    /// The staged label change of a node in the first collection of a tenant
    /// that has one.
    pub fn labels_delta_any_collection(
        &self,
        database_id: DatabaseId,
        tenant: TenantId,
        node_id: &str,
    ) -> (r: Option<NodeLabelDelta>)
        ensures
            self.listed_once(),
            match r {
                Some(d) => exists|coll: Seq<char>| #[trigger]
                    self.labels().contains_key(((database_id.0, tenant.0, coll), node_id@))
                        && d.added@ == self.labels()[(
                        (database_id.0, tenant.0, coll),
                        node_id@,
                    )].added@ && d.removed@ == self.labels()[(
                        (database_id.0, tenant.0, coll),
                        node_id@,
                    )].removed@,
                None => forall|coll: Seq<char>| !#[trigger]
                    self.labels().contains_key(((database_id.0, tenant.0, coll), node_id@)),
            },
    {
        proof {
            use_type_invariant(&self.edges);
            use_type_invariant(&self.tombstones);
            use_type_invariant(&self.labels);
            self.lemma_views();
        }
        proof {
            self.labels.lemma_listed();
        }
        let ghost list = self.labels.listed();
        let mut i: usize = 0;
        while i < self.labels.len()
            invariant
                i <= list.len(),
                list == self.labels.listed(),
                self.labels@ == maps::as_map(list),
                self.listed_once(),
                forall|q: int|
                    0 <= q < i ==> !((#[trigger] list[q]).0.key().0.0 == database_id.0
                        && list[q].0.key().0.1 == tenant.0 && list[q].0.key().1 == node_id@),
            decreases list.len() - i,
        {
            let e = self.labels.entry(i);
            if e.0.db == database_id.0 && e.0.tid == tenant.0 && text::same_text(
                e.0.node.as_str(),
                node_id,
            ) {
                let d = NodeLabelDelta { added: e.1.added.copy(), removed: e.1.removed.copy() };
                proof {
                    let k = ((database_id.0, tenant.0, e.0.coll@), node_id@);
                    assert(self.labels().contains_key(k));
                }
                return Some(d);
            }
            i = i + 1;
        }
        proof {
            assert forall|coll: Seq<char>| !#[trigger] self.labels().contains_key(
                ((database_id.0, tenant.0, coll), node_id@),
            ) by {
                let k = ((database_id.0, tenant.0, coll), node_id@);
                if self.labels().contains_key(k) {
                    maps::lemma_map_has_entry(list, k);
                    assert(list[maps::position(list, k)].0.key() == k);
                }
            }
        }
        None
    }

    /// Every staged edge of a tenant.
    pub fn all_staged_edges(&self, database_id: DatabaseId, tenant: TenantId) -> (r: Vec<
        (String, String, String),
    >)
        ensures
            self.listed_once(),
            name_views(r@) == selected(
                self.edge_list(),
                (Scope { db: database_id.0, tid: tenant.0, coll: None, src: None, dst: None }),
            ).map_values(|e: EdgeEntry| edge_name(e)),
    {
        proof {
            use_type_invariant(&self.edges);
            use_type_invariant(&self.tombstones);
            use_type_invariant(&self.labels);
            self.lemma_views();
        }
        names(
            &self.edges,
            EdgeScope { db: database_id.0, tid: tenant.0, coll: None, src: None, dst: None },
        )
    }

    /// Every staged edge deletion of a tenant.
    pub fn all_tombstones(&self, database_id: DatabaseId, tenant: TenantId) -> (r: Vec<
        (String, String, String),
    >)
        ensures
            self.listed_once(),
            name_views(r@) == selected(
                self.tombstone_list(),
                (Scope { db: database_id.0, tid: tenant.0, coll: None, src: None, dst: None }),
            ).map_values(|e: (EdgeRef, ())| edge_name(e)),
    {
        proof {
            use_type_invariant(&self.edges);
            use_type_invariant(&self.tombstones);
            use_type_invariant(&self.labels);
            self.lemma_views();
        }
        names(
            &self.tombstones,
            EdgeScope { db: database_id.0, tid: tenant.0, coll: None, src: None, dst: None },
        )
    }

    /// The staged edges of one collection.
    pub fn staged_edges_for_collection(&self, coll_key: &GraphCollKey) -> (r: Vec<&EdgeEntry>)
        ensures
            self.listed_once(),
            r@.map_values(|e: &EdgeEntry| *e) == selected(
                self.edge_list(),
                collection_scope(staged::coll_id(*coll_key)),
            ),
            lists_collection(
                r@.map_values(|e: &EdgeEntry| *e),
                self.edges(),
                staged::coll_id(*coll_key),
            ),
    {
        proof {
            use_type_invariant(&self.edges);
            use_type_invariant(&self.tombstones);
            use_type_invariant(&self.labels);
            self.lemma_views();
        }
        proof {
            use_type_invariant(&self.edges);
            self.edges.lemma_listed();
            lemma_collection_listed(self.edges.listed(), staged::coll_id(*coll_key));
        }
        select(
            &self.edges,
            EdgeScope {
                db: coll_key.0.0,
                tid: coll_key.1.0,
                coll: Some(coll_key.2.as_str()),
                src: None,
                dst: None,
            },
        )
    }

    /// The staged edge deletions of one collection.
    pub fn staged_tombstones_for_collection(&self, coll_key: &GraphCollKey) -> (r: Vec<
        &(EdgeRef, ()),
    >)
        ensures
            self.listed_once(),
            r@.map_values(|e: &(EdgeRef, ())| *e) == selected(
                self.tombstone_list(),
                collection_scope(staged::coll_id(*coll_key)),
            ),
            lists_collection(
                r@.map_values(|e: &(EdgeRef, ())| *e),
                self.deletions(),
                staged::coll_id(*coll_key),
            ),
    {
        proof {
            use_type_invariant(&self.edges);
            use_type_invariant(&self.tombstones);
            use_type_invariant(&self.labels);
            self.lemma_views();
        }
        proof {
            use_type_invariant(&self.tombstones);
            self.tombstones.lemma_listed();
            lemma_collection_listed(self.tombstones.listed(), staged::coll_id(*coll_key));
        }
        select(
            &self.tombstones,
            EdgeScope {
                db: coll_key.0.0,
                tid: coll_key.1.0,
                coll: Some(coll_key.2.as_str()),
                src: None,
                dst: None,
            },
        )
    }

    /// The bytes of everything staged: names, properties and labels.
    pub fn memory_size_estimate(&self) -> (r: usize)
        requires
            self.bytes() <= usize::MAX,
        ensures
            r == self.bytes(),
    {
        let mut sum: usize = 0;
        let ghost edges = self.edges.listed();
        let ghost tombstones = self.tombstones.listed();
        let ghost labels = self.labels.listed();
        let mut i: usize = 0;
        while i < self.edges.len()
            invariant
                i <= edges.len(),
                edges == self.edges.listed(),
                sum == maps::total(edges.take(i as int), edge_bytes()),
                maps::total(edges, edge_bytes()) <= usize::MAX,
            decreases edges.len() - i,
        {
            let e = self.edges.entry(i);
            proof {
                maps::lemma_total_step(edges, i as int, edge_bytes());
                maps::lemma_total_prefix(edges, i + 1, edge_bytes());
            }
            sum = sum + e.0.src.as_str().as_bytes().len();
            sum = sum + e.0.label.as_str().as_bytes().len();
            sum = sum + e.0.dst.as_str().as_bytes().len();
            sum = sum + e.1.len();
            i = i + 1;
        }
        proof {
            assert(edges.take(edges.len() as int) =~= edges);
        }
        let ghost first = sum;
        i = 0;
        while i < self.tombstones.len()
            invariant
                i <= tombstones.len(),
                tombstones == self.tombstones.listed(),
                sum == first + maps::total(tombstones.take(i as int), tombstone_bytes()),
                first + maps::total(tombstones, tombstone_bytes()) <= usize::MAX,
            decreases tombstones.len() - i,
        {
            let e = self.tombstones.entry(i);
            proof {
                maps::lemma_total_step(tombstones, i as int, tombstone_bytes());
                maps::lemma_total_prefix(tombstones, i + 1, tombstone_bytes());
            }
            sum = sum + e.0.src.as_str().as_bytes().len();
            sum = sum + e.0.label.as_str().as_bytes().len();
            sum = sum + e.0.dst.as_str().as_bytes().len();
            i = i + 1;
        }
        proof {
            assert(tombstones.take(tombstones.len() as int) =~= tombstones);
        }
        let ghost second = sum;
        i = 0;
        while i < self.labels.len()
            invariant
                i <= labels.len(),
                labels == self.labels.listed(),
                sum == second + maps::total(labels.take(i as int), delta_bytes()),
                second + maps::total(labels, delta_bytes()) <= usize::MAX,
            decreases labels.len() - i,
        {
            let e = self.labels.entry(i);
            proof {
                maps::lemma_total_step(labels, i as int, delta_bytes());
                maps::lemma_total_prefix(labels, i + 1, delta_bytes());
            }
            sum = sum + e.0.node.as_str().as_bytes().len();
            sum = sum + e.1.added.byte_count();
            sum = sum + e.1.removed.byte_count();
            i = i + 1;
        }
        proof {
            assert(labels.take(labels.len() as int) =~= labels);
        }
        sum
    }
}

/// The names of the entries that a read asks for.
fn names<T>(list: &VecMap<EdgeRef, T>, scope: EdgeScope) -> (r: Vec<(String, String, String)>)
    ensures
        name_views(r@) == selected(list.listed(), scope@).map_values(
            |e: (EdgeRef, T)| edge_name(e),
        ),
{
    let hits = select(list, scope);
    let mut r: Vec<(String, String, String)> = Vec::new();
    let ghost picked = hits@.map_values(|e: &(EdgeRef, T)| *e);
    let mut i: usize = 0;
    while i < hits.len()
        invariant
            i <= hits@.len(),
            picked == hits@.map_values(|e: &(EdgeRef, T)| *e),
            name_views(r@) == picked.take(i as int).map_values(|e: (EdgeRef, T)| edge_name(e)),
        decreases hits.len() - i,
    {
        let e = hits[i];
            let ghost before = r@;
        r.push((e.0.src.clone(), e.0.label.clone(), e.0.dst.clone()));
        proof {
            maps::lemma_map_take_step(
                    picked,
                    i as int,
                    |e: (EdgeRef, T)| edge_name(e),
                );
                assert(name_views(r@) =~= name_views(before).push(edge_name(*e)));
        }
        i = i + 1;
    }
    proof {
        assert(picked.take(picked.len() as int) =~= picked);
    }
    r
}


proof fn lemma_label_set_step(labels: Seq<String>, i: int)
    requires
        0 <= i < labels.len(),
    ensures
        label_set(labels.take(i + 1)) == label_set(labels.take(i)).insert(labels[i]@),
{
    let a = labels.take(i + 1);
    let b = labels.take(i);
    assert forall|x: Seq<char>| label_set(a).contains(x) <==> label_set(b).insert(
        labels[i]@,
    ).contains(x) by {
        if label_set(b).contains(x) {
            let j = choose|j: int| 0 <= j < b.len() && (#[trigger] b[j])@ == x;
            assert(a[j]@ == x);
        }
        if x == labels[i]@ {
            assert(a[i]@ == x);
        }
        if label_set(a).contains(x) {
            let j = choose|j: int| 0 <= j < a.len() && (#[trigger] a[j])@ == x;
            if j < i {
                assert(b[j]@ == x);
            }
        }
    }
    assert(label_set(a) =~= label_set(b).insert(labels[i]@));
}

/// Every read of staged edges, and of staged deletions, is what is staged: each
/// edge that is asked for is listed once, with its properties, and no other is.
/// A read over all collections of a tenant lists an edge once for each of them
/// that has it.
pub proof fn law_a_read_lists_what_is_staged(o: GraphTxnOverlay, scope: Scope)
    requires
        o.listed_once(),
    ensures
        lists_scope(selected(o.edge_list(), scope), o.edges(), scope),
        lists_scope(selected(o.tombstone_list(), scope), o.deletions(), scope),
{
    lemma_selected_lists(o.edge_list(), scope);
    lemma_selected_lists(o.tombstone_list(), scope);
}

/// As many edges are listed as are staged and asked for.
pub proof fn law_a_read_lists_as_many_as_are_staged(o: GraphTxnOverlay, scope: Scope)
    requires
        o.listed_once(),
    ensures
        selected(o.edge_list(), scope).len() == o.edges().dom().filter(
            |k: EdgeId| key_in_scope(k, scope),
        ).len(),
        selected(o.tombstone_list(), scope).len() == o.deleted().filter(
            |k: EdgeId| key_in_scope(k, scope),
        ).len(),
{
    lemma_selected_count(o.edge_list(), scope);
    lemma_selected_count(o.tombstone_list(), scope);
}

proof fn lemma_selected_count<T>(e: Seq<(EdgeRef, T)>, scope: Scope)
    requires
        maps::keys_unique(e),
    ensures
        selected(e, scope).len() == maps::as_map(e).dom().filter(
            |k: EdgeId| key_in_scope(k, scope),
        ).len(),
{
    lemma_selected_lists(e, scope);
    let l = selected(e, scope);
    maps::lemma_map_len(l);
    assert(maps::as_map(l).dom() =~= maps::as_map(e).dom().filter(
        |k: EdgeId| key_in_scope(k, scope),
    )) by {
        assert forall|k: EdgeId| maps::as_map(l).dom().contains(k) implies maps::as_map(
            e,
        ).dom().contains(k) && key_in_scope(k, scope) by {
            maps::lemma_map_has_entry(l, k);
            assert(l[maps::position(l, k)].0.key() == k);
        }
        assert forall|k: EdgeId|
            maps::as_map(e).dom().contains(k) && key_in_scope(k, scope) implies maps::as_map(
            l,
        ).dom().contains(k) by {
            assert(maps::as_map(e).contains_key(k));
        }
    }
}

/// Whether a list has an edge with these properties.
pub open spec fn reads_edge(l: Seq<EdgeEntry>, k: EdgeId, properties: Vec<u8>) -> bool {
    exists|i: int| 0 <= i < l.len() && (#[trigger] l[i]).0.key() == k && l[i].1 == properties
}

/// A transaction reads the edges that it put: after a put of an edge every read
/// that asks for it lists it, with the properties that were put, and it is not
/// among the deletions.
pub proof fn law_a_put_edge_is_read(
    before: GraphTxnOverlay,
    after: GraphTxnOverlay,
    k: EdgeId,
    properties: Vec<u8>,
    scope: Scope,
)
    requires
        after.listed_once(),
        after.edges() == before.edges().insert(k, properties),
        after.deleted() == before.deleted().remove(k),
        key_in_scope(k, scope),
    ensures
        reads_edge(selected(after.edge_list(), scope), k, properties),
        !maps::holds_key(selected(after.tombstone_list(), scope), k),
{
    law_a_read_lists_what_is_staged(after, scope);
    let l = selected(after.edge_list(), scope);
    assert(after.edges().contains_key(k));
    assert(maps::holds_key(l, k));
    let i = choose|i: int| 0 <= i < l.len() && #[trigger] l[i].0.key() == k;
    assert(l[i].1 == properties);
    let t = selected(after.tombstone_list(), scope);
    if maps::holds_key(t, k) {
        let j = choose|j: int| 0 <= j < t.len() && #[trigger] t[j].0.key() == k;
        assert(after.deletions().contains_key(t[j].0.key()));
        assert(after.deleted().contains(k));
    }
}

/// A transaction does not read the edges that it deleted: after a delete of an
/// edge no read lists it, and every read of deletions that asks for it does.
pub proof fn law_a_deleted_edge_is_not_read(
    before: GraphTxnOverlay,
    after: GraphTxnOverlay,
    k: EdgeId,
    scope: Scope,
)
    requires
        after.listed_once(),
        after.edges() == before.edges().remove(k),
        after.deleted() == before.deleted().insert(k),
    ensures
        !maps::holds_key(selected(after.edge_list(), scope), k),
        key_in_scope(k, scope) ==> maps::holds_key(selected(after.tombstone_list(), scope), k),
{
    law_a_read_lists_what_is_staged(after, scope);
    let l = selected(after.edge_list(), scope);
    if maps::holds_key(l, k) {
        let i = choose|i: int| 0 <= i < l.len() && #[trigger] l[i].0.key() == k;
        assert(after.edges().contains_key(l[i].0.key()));
    }
    assert(after.deleted().contains(k));
    assert(after.deletions().contains_key(k));
}

/// The deletions of a tenant list an edge exactly where one of its collections
/// has it deleted.
pub proof fn law_deletions_are_listed(
    o: GraphTxnOverlay,
    db: u64,
    tid: u64,
    edge: (Seq<char>, Seq<char>, Seq<char>),
)
    requires
        o.listed_once(),
    ensures
        ({
            let l = selected(
                o.tombstone_list(),
                Scope { db, tid, coll: None, src: None, dst: None },
            );
            (exists|i: int| 0 <= i < l.len() && edge_name(#[trigger] l[i]) == edge) <==> (exists|coll: Seq<char>|
                #[trigger]
                o.deleted().contains(((db, tid, coll), edge)))
        }),
{
    let scope = Scope { db, tid, coll: None, src: None, dst: None };
    law_a_read_lists_what_is_staged(o, scope);
    let l = selected(o.tombstone_list(), scope);
    if exists|i: int| 0 <= i < l.len() && edge_name(#[trigger] l[i]) == edge {
        let i = choose|i: int| 0 <= i < l.len() && edge_name(#[trigger] l[i]) == edge;
        assert(key_in_scope(l[i].0.key(), scope));
        assert(o.deletions().contains_key(l[i].0.key()));
        assert(o.deleted().contains(((db, tid, l[i].0.coll@), edge)));
    }
    if exists|coll: Seq<char>| #[trigger] o.deleted().contains(((db, tid, coll), edge)) {
        let coll = choose|coll: Seq<char>| #[trigger]
            o.deleted().contains(((db, tid, coll), edge));
        let k = ((db, tid, coll), edge);
        assert(o.deletions().contains_key(k));
        assert(key_in_scope(k, scope));
        assert(maps::holds_key(l, k));
        let i = choose|i: int| 0 <= i < l.len() && #[trigger] l[i].0.key() == k;
        assert(edge_name(l[i]) == edge);
    }
}

/// A scope takes the edges of its database and tenant, and of those the ones with
/// the collection, the source and the target that it names; what it leaves open may
/// be anything.
pub proof fn law_what_a_scope_takes(e: EdgeRef, scope: Scope)
    ensures
        in_scope(e, scope) <==> {
            &&& e.db == scope.db
            &&& e.tid == scope.tid
            &&& scope.coll is None || scope.coll->0 == e.coll@
            &&& scope.src is None || scope.src->0 == e.src@
            &&& scope.dst is None || scope.dst->0 == e.dst@
        },
        key_in_scope(e.key(), scope) <==> in_scope(e, scope),
{
}

/// An edge out of a node is told by its label, its target and its properties; one
/// into a node by its label, its source and its properties.
pub proof fn law_an_edge_is_told_by_its_other_end(e: EdgeEntry)
    ensures
        ({
            let (label, end, properties) = out_edge(e);
            label == e.0.label@ && end == e.0.dst@ && properties == e.1@
        }),
        ({
            let (label, end, properties) = in_edge(e);
            label == e.0.label@ && end == e.0.src@ && properties == e.1@
        }),
        ({
            let (src, label, dst) = edge_name(e);
            src == e.0.src@ && label == e.0.label@ && dst == e.0.dst@
        }),
{
}

} // verus!
