//! The graph edges of a transaction's record.
//!
//! The overlay knows an edge by its names; the surrogates of its ends come from
//! the plans. Edges come in the order of their names, puts before deletions, so
//! that the same staged edges always give the same record.
use crate::codec;
use crate::codec::EdgePut;
use crate::error::{Error, ErrorView};
use crate::maps;
use crate::maps::{MapKey, VecMap};
use crate::overlay::graph_staged;
use crate::overlay::graph_staged::{EdgeRef, GraphCollKey, GraphTxnOverlay};
use crate::overlay::staged;
use crate::sorting;
use crate::sorting::Ranked;
use crate::text;
use crate::transaction::resolve::record;
use crate::transaction::resolve::record::RedoSubRecord;
use crate::wal::RecordType;
use vstd::prelude::*;
use vstd::string::*;

verus! {

/// Source, label and destination of an edge.
pub type EdgeName = (Seq<char>, Seq<char>, Seq<char>);

/// Edges are ordered by source, then label, then destination.
pub open spec fn edge_le(a: EdgeName, b: EdgeName) -> bool {
    if a.0 != b.0 {
        sorting::text_le(a.0, b.0)
    } else if a.1 != b.1 {
        sorting::text_le(a.1, b.1)
    } else {
        sorting::text_le(a.2, b.2)
    }
}

pub open spec fn edge_order() -> spec_fn(EdgeName, EdgeName) -> bool {
    |a: EdgeName, b: EdgeName| edge_le(a, b)
}

proof fn lemma_edge_order()
    ensures
        forall|x: EdgeName, y: EdgeName| #[trigger]
            edge_order()(x, y) && #[trigger] edge_order()(y, x) ==> x == y,
{
    assert forall|x: EdgeName, y: EdgeName| #[trigger]
        edge_order()(x, y) && #[trigger] edge_order()(y, x) implies x == y by {
        if x.0 != y.0 {
            sorting::lemma_text_antisymmetric(x.0, y.0);
        } else if x.1 != y.1 {
            sorting::lemma_text_antisymmetric(x.1, y.1);
        } else {
            sorting::lemma_text_antisymmetric(x.2, y.2);
        }
    }
}

/// An edge that is ordered by its names.
pub struct NamedEdge<T> {
    pub src: String,
    pub label: String,
    pub dst: String,
    pub item: T,
}

impl<T> NamedEdge<T> {
    pub open spec fn name(&self) -> EdgeName {
        (self.src@, self.label@, self.dst@)
    }
}

impl<T> Ranked for NamedEdge<T> {
    open spec fn le(&self, other: &Self) -> bool {
        edge_le(self.name(), other.name())
    }

    proof fn total(a: &Self, b: &Self) {
        sorting::lemma_text_total(a.src@, b.src@);
        sorting::lemma_text_total(a.label@, b.label@);
        sorting::lemma_text_total(a.dst@, b.dst@);
    }

    proof fn transitive(a: &Self, b: &Self, c: &Self) {
        let (x, y, z) = (a.name(), b.name(), c.name());
        if x.0 != y.0 && y.0 != z.0 {
            sorting::lemma_text_transitive(x.0, y.0, z.0);
            if x.0 == z.0 {
                sorting::lemma_text_antisymmetric(x.0, y.0);
            }
        } else if x.0 == y.0 && y.0 == z.0 {
            if x.1 != y.1 && y.1 != z.1 {
                sorting::lemma_text_transitive(x.1, y.1, z.1);
                if x.1 == z.1 {
                    sorting::lemma_text_antisymmetric(x.1, y.1);
                }
            } else if x.1 == y.1 && y.1 == z.1 {
                sorting::lemma_text_transitive(x.2, y.2, z.2);
            }
        }
    }

    fn leq(&self, other: &Self) -> (r: bool) {
        if !text::same_text(self.src.as_str(), other.src.as_str()) {
            sorting::text_leq(self.src.as_str(), other.src.as_str())
        } else if !text::same_text(self.label.as_str(), other.label.as_str()) {
            sorting::text_leq(self.label.as_str(), other.label.as_str())
        } else {
            sorting::text_leq(self.dst.as_str(), other.dst.as_str())
        }
    }
}

/// Each edge with its name.
pub open spec fn named_edges<T>(v: Seq<NamedEdge<T>>) -> Seq<(EdgeName, T)> {
    v.map_values(|x: NamedEdge<T>| (x.name(), x.item))
}

/// The edges in the order of their names.
fn sort_edges<T>(v: Vec<NamedEdge<T>>) -> (r: Vec<NamedEdge<T>>)
    requires
        forall|i: int, j: int|
            0 <= i < j < v@.len() ==> (#[trigger] v@[i]).name() != (#[trigger] v@[j]).name(),
    ensures
        sorting::ascends(named_edges(r@), edge_order()),
        forall|x: (EdgeName, T)| #[trigger]
            named_edges(r@).contains(x) <==> named_edges(v@).contains(x),
{
    let ghost values = v@;
    let p = sorting::stable_order(&v);
    let r = sorting::arrange(v, &p);
    proof {
        let l = named_edges(r@);
        let before = named_edges(values);
        assert forall|i: int, j: int| 0 <= i < j < l.len() implies edge_order()(
            (#[trigger] l[i]).0,
            (#[trigger] l[j]).0,
        ) && l[i].0 != l[j].0 by {
            let a = p@[i] as int;
            let b = p@[j] as int;
            assert(p@[i] != p@[j]);
            assert(values[a].le(&values[b]));
            if a < b {
                assert(values[a].name() != values[b].name());
            } else {
                assert(values[b].name() != values[a].name());
            }
        }
        sorting::lemma_arranged_holds_the_same(before, p@);
        assert(l =~= sorting::arranged(before, p@));
    }
    r
}

/// Whether a list holds the edges of a collection in the order of their names.
pub open spec fn is_edge_order<T>(
    l: Seq<(EdgeName, T)>,
    m: Map<graph_staged::EdgeId, T>,
    place: (u64, u64, Seq<char>),
) -> bool {
    &&& sorting::ascends(l, edge_order())
    &&& forall|x: (EdgeName, T)| #[trigger]
        l.contains(x) <==> m.contains_key((place, x.0)) && m[(place, x.0)] == x.1
}

/// The edges of a collection in the order of their names.
pub open spec fn sorted_edges<T>(
    m: Map<graph_staged::EdgeId, T>,
    place: (u64, u64, Seq<char>),
) -> Seq<(EdgeName, T)> {
    choose|l: Seq<(EdgeName, T)>| is_edge_order(l, m, place)
}

/// There is one such order.
pub proof fn lemma_edges_sorted<T>(
    l: Seq<(EdgeName, T)>,
    m: Map<graph_staged::EdgeId, T>,
    place: (u64, u64, Seq<char>),
)
    requires
        is_edge_order(l, m, place),
    ensures
        l == sorted_edges(m, place),
{
    let s = sorted_edges(m, place);
    assert(is_edge_order(s, m, place));
    assert forall|x: (EdgeName, T)| #[trigger] l.contains(x) <==> s.contains(x) by {}
    lemma_edge_order();
    sorting::lemma_ascending_is_unique(l, s, edge_order());
}

/// What is sorted of a collection's list is the order of the collection.
proof fn lemma_listing_sorted<T>(
    r: Seq<(EdgeName, T)>,
    e: Seq<(EdgeRef, T)>,
    m: Map<graph_staged::EdgeId, T>,
    place: (u64, u64, Seq<char>),
)
    requires
        graph_staged::lists_collection(e, m, place),
        sorting::ascends(r, edge_order()),
        forall|x: (EdgeName, T)| #[trigger]
            r.contains(x) <==> names_of(e).contains(x),
    ensures
        r == sorted_edges(m, place),
        is_edge_order(r, m, place),
{
    let names = names_of(e);
    assert forall|x: (EdgeName, T)| #[trigger] r.contains(x) <==> m.contains_key((place, x.0))
        && m[(place, x.0)] == x.1 by {
        if r.contains(x) {
            assert(names.contains(x));
            let i = choose|i: int| 0 <= i < names.len() && names[i] == x;
            assert(e[i].0.key() == (place, x.0));
        }
        if m.contains_key((place, x.0)) && m[(place, x.0)] == x.1 {
            let k: graph_staged::EdgeId = (place, x.0);
            assert(m.contains_key(k));
            assert(maps::holds_key(e, k));
            let i = maps::position(e, k);
            assert(e[i].0.key() == k);
            assert(names[i] == x);
        }
    }
    lemma_edges_sorted(r, m, place);
}

/// Each listed edge with its name.
pub open spec fn names_of<T>(e: Seq<(EdgeRef, T)>) -> Seq<(EdgeName, T)> {
    e.map_values(|x: (EdgeRef, T)| (x.0.key().1, x.1))
}

/// The staged edges of a collection in the order of their names.
fn sorted_puts<'a>(o: &'a GraphTxnOverlay, coll_key: &GraphCollKey) -> (r: Vec<
    NamedEdge<&'a Vec<u8>>,
>)
    ensures
        put_names(r@) == sorted_edges(o.edges(), staged::coll_id(*coll_key)),
        is_edge_order(put_names(r@), o.edges(), staged::coll_id(*coll_key)),
{
    let ghost place = staged::coll_id(*coll_key);
    let listed = o.staged_edges_for_collection(coll_key);
    let ghost e = listed@.map_values(|e: &graph_staged::EdgeEntry| *e);
    let mut v: Vec<NamedEdge<&Vec<u8>>> = Vec::new();
    let mut i: usize = 0;
    while i < listed.len()
        invariant
            i <= listed@.len(),
            v@.len() == i,
            forall|j: int|
                0 <= j < i ==> (#[trigger] v@[j]).name() == listed@[j].0.key().1 && *v@[j].item
                    == listed@[j].1,
        decreases listed.len() - i,
    {
        let entry = listed[i];
        v.push(
            NamedEdge {
                src: entry.0.src.clone(),
                label: entry.0.label.clone(),
                dst: entry.0.dst.clone(),
                item: &entry.1,
            },
        );
        i = i + 1;
    }
    proof {
        assert forall|a: int, b: int| 0 <= a < b < v@.len() implies (#[trigger] v@[a]).name() != (
        #[trigger] v@[b]).name() by {
            assert(e[a].0.key() != e[b].0.key());
            assert(e[a].0.key().0 == place && e[b].0.key().0 == place);
        }
    }
    let ghost values = v@;
    let r = sort_edges(v);
    proof {
        let sorted = put_names(r@);
        assert(put_names(values) =~= names_of(e));
        assert(named_edges(r@).len() == sorted.len());
        assert forall|a: int, b: int| 0 <= a < b < sorted.len() implies edge_order()(
            (#[trigger] sorted[a]).0,
            (#[trigger] sorted[b]).0,
        ) && sorted[a].0 != sorted[b].0 by {
            assert(named_edges(r@)[a].0 == sorted[a].0 && named_edges(r@)[b].0 == sorted[b].0);
        }
        assert forall|x: (EdgeName, Vec<u8>)| #[trigger] sorted.contains(x) <==> names_of(
            e,
        ).contains(x) by {
            let y: (EdgeName, &Vec<u8>) = (x.0, &x.1);
            if sorted.contains(x) {
                let q = choose|q: int| 0 <= q < sorted.len() && sorted[q] == x;
                assert(named_edges(r@)[q] == y);
                assert(named_edges(r@).contains(y));
                assert(named_edges(values).contains(y));
                let w = choose|w: int| 0 <= w < values.len() && named_edges(values)[w] == y;
                assert(put_names(values)[w] == x);
            }
            if names_of(e).contains(x) {
                let w = choose|w: int| 0 <= w < e.len() && names_of(e)[w] == x;
                assert(put_names(values)[w] == x);
                assert(named_edges(values)[w] == y);
                assert(named_edges(values).contains(y));
                assert(named_edges(r@).contains(y));
                let q = choose|q: int| 0 <= q < r@.len() && named_edges(r@)[q] == y;
                assert(sorted[q] == x);
            }
        }
        lemma_listing_sorted(sorted, e, o.edges(), place);
    }
    r
}

/// Each edge with its name and its properties.
pub open spec fn put_names(v: Seq<NamedEdge<&Vec<u8>>>) -> Seq<(EdgeName, Vec<u8>)> {
    v.map_values(|x: NamedEdge<&Vec<u8>>| (x.name(), *x.item))
}

/// The staged edge deletions of a collection in the order of their names.
fn sorted_deletes(o: &GraphTxnOverlay, coll_key: &GraphCollKey) -> (r: Vec<NamedEdge<()>>)
    ensures
        named_edges(r@) == sorted_edges(o.deletions(), staged::coll_id(*coll_key)),
        is_edge_order(named_edges(r@), o.deletions(), staged::coll_id(*coll_key)),
{
    let ghost place = staged::coll_id(*coll_key);
    let listed = o.staged_tombstones_for_collection(coll_key);
    let ghost e = listed@.map_values(|e: &(EdgeRef, ())| *e);
    let mut v: Vec<NamedEdge<()>> = Vec::new();
    let mut i: usize = 0;
    while i < listed.len()
        invariant
            i <= listed@.len(),
            v@.len() == i,
            forall|j: int| 0 <= j < i ==> (#[trigger] v@[j]).name() == listed@[j].0.key().1,
        decreases listed.len() - i,
    {
        let entry = listed[i];
        v.push(
            NamedEdge {
                src: entry.0.src.clone(),
                label: entry.0.label.clone(),
                dst: entry.0.dst.clone(),
                item: (),
            },
        );
        i = i + 1;
    }
    proof {
        assert forall|a: int, b: int| 0 <= a < b < v@.len() implies (#[trigger] v@[a]).name() != (
        #[trigger] v@[b]).name() by {
            assert(e[a].0.key() != e[b].0.key());
            assert(e[a].0.key().0 == place && e[b].0.key().0 == place);
        }
        assert(named_edges(v@) =~= names_of(e));
    }
    let r = sort_edges(v);
    proof {
        lemma_listing_sorted(named_edges(r@), e, o.deletions(), place);
    }
    r
}

/// The surrogates of an edge's ends.
#[derive(Clone, Copy, Debug, PartialEq, Eq, Structural)]
pub struct EndSurrogates {
    pub src: u32,
    pub dst: u32,
}

/// An edge of a named collection.
pub struct EdgeIdentity {
    pub collection: String,
    pub src: String,
    pub label: String,
    pub dst: String,
}

impl MapKey for EdgeIdentity {
    type Key = (Seq<char>, (Seq<char>, Seq<char>, Seq<char>));

    open spec fn key(&self) -> (Seq<char>, (Seq<char>, Seq<char>, Seq<char>)) {
        (self.collection@, (self.src@, self.label@, self.dst@))
    }

    fn same(&self, other: &Self) -> (r: bool) {
        self.collection == other.collection && self.src == other.src && self.label == other.label
            && self.dst == other.dst
    }
}

/// The surrogates that the plans of a transaction carry.
pub type SurrogateMap = Map<(Seq<char>, EdgeName), EndSurrogates>;

pub open spec fn unbound_text(collection: Seq<char>, name: EdgeName) -> Seq<char> {
    "graph resolve: staged edge put '"@ + (collection + ("'/'"@ + (name.0 + ("'-'"@ + (name.1 + (
    "'->'"@ + (name.2 + "' has no bound endpoint surrogates"@)))))))
}

/// What an edge contributes.
pub enum EdgeRedo {
    Op(record::OpView),
    Fail(ErrorView),
}

pub open spec fn put_redo(
    collection: Seq<char>,
    surrogates: SurrogateMap,
    name: EdgeName,
    properties: Seq<u8>,
) -> EdgeRedo {
    if !surrogates.contains_key((collection, name)) {
        EdgeRedo::Fail(ErrorView::Internal { detail: unbound_text(collection, name) })
    } else {
        let ends = surrogates[(collection, name)];
        match codec::edge_put_encoding_of(
            collection,
            name.0,
            name.1,
            name.2,
            properties,
            ends.src,
            ends.dst,
        ) {
            Ok(b) => EdgeRedo::Op((RecordType::Put, b)),
            Err(e) => EdgeRedo::Fail(
                ErrorView::Serialization {
                    format: "msgpack"@,
                    detail: "graph resolve edge put: "@ + e,
                },
            ),
        }
    }
}

pub open spec fn delete_redo(collection: Seq<char>, name: EdgeName) -> EdgeRedo {
    match codec::edge_delete_encoding_of(collection, name.0, name.1, name.2) {
        Ok(b) => EdgeRedo::Op((RecordType::Delete, b)),
        Err(e) => EdgeRedo::Fail(
            ErrorView::Serialization {
                format: "msgpack"@,
                detail: "graph resolve edge delete: "@ + e,
            },
        ),
    }
}

/// A graph write as it is read back.
pub enum EdgeRecordView {
    Put {
        collection: Seq<char>,
        name: EdgeName,
        properties: Seq<u8>,
        src_surrogate: u32,
        dst_surrogate: u32,
    },
    Delete { collection: Seq<char>, name: EdgeName },
}

/// What is read of a graph write.
pub open spec fn edge_record_of(op: record::OpView) -> Option<EdgeRecordView> {
    match op.0 {
        RecordType::Put => match codec::edge_put_of(op.1) {
            Some((collection, src, label, dst, properties, src_surrogate, dst_surrogate)) => Some(
                EdgeRecordView::Put {
                    collection,
                    name: (src, label, dst),
                    properties,
                    src_surrogate,
                    dst_surrogate,
                },
            ),
            None => None,
        },
        RecordType::Delete => match codec::edge_delete_of(op.1) {
            Some((collection, src, label, dst)) => Some(
                EdgeRecordView::Delete { collection, name: (src, label, dst) },
            ),
            None => None,
        },
        _ => None,
    }
}

/// Whether the lengths of an edge can be written.
pub open spec fn edge_put_fits(collection: Seq<char>, name: EdgeName, properties: Seq<u8>) -> bool {
    codec::edge_fits(collection, name.0, name.1, name.2) && properties.len() <= u32::MAX
}

/// Whether the write of an edge, if there is one, reads back as the edge.
pub open spec fn put_reads_back(
    collection: Seq<char>,
    surrogates: SurrogateMap,
    name: EdgeName,
    properties: Seq<u8>,
) -> bool {
    match put_redo(collection, surrogates, name, properties) {
        EdgeRedo::Op(op) => edge_record_of(op) == Some(
            EdgeRecordView::Put {
                collection,
                name,
                properties,
                src_surrogate: surrogates[(collection, name)].src,
                dst_surrogate: surrogates[(collection, name)].dst,
            },
        ),
        EdgeRedo::Fail(_) => true,
    }
}

/// Whether the deletion of an edge, if there is one, reads back as the deletion.
pub open spec fn delete_reads_back(collection: Seq<char>, name: EdgeName) -> bool {
    match delete_redo(collection, name) {
        EdgeRedo::Op(op) => edge_record_of(op) == Some(
            EdgeRecordView::Delete { collection, name },
        ),
        EdgeRedo::Fail(_) => true,
    }
}

/// Whether the writes of edges read back, an edge that is too long left open.
pub open spec fn puts_read_back(
    collection: Seq<char>,
    surrogates: SurrogateMap,
    puts: Seq<(EdgeName, Vec<u8>)>,
) -> bool {
    forall|i: int|
        0 <= i < puts.len() && edge_put_fits(collection, (#[trigger] puts[i]).0, puts[i].1@)
            ==> put_reads_back(collection, surrogates, puts[i].0, puts[i].1@)
}

/// Whether the deletions of edges read back, a name that is too long left open.
pub open spec fn deletes_read_back(collection: Seq<char>, deletes: Seq<(EdgeName, ())>) -> bool {
    forall|i: int|
        0 <= i < deletes.len() && edge_put_fits(
            collection,
            (#[trigger] deletes[i]).0,
            Seq::empty(),
        ) ==> delete_reads_back(collection, deletes[i].0)
}

/// A graph write that was read back.
pub enum EdgeRecord {
    Put { collection: String, edge: EdgePut },
    Delete { collection: String, src: String, label: String, dst: String },
}

impl View for EdgeRecord {
    type V = EdgeRecordView;

    open spec fn view(&self) -> EdgeRecordView {
        match *self {
            EdgeRecord::Put { collection, edge } => EdgeRecordView::Put {
                collection: collection@,
                name: (edge.src@, edge.label@, edge.dst@),
                properties: edge.properties@,
                src_surrogate: edge.src_surrogate,
                dst_surrogate: edge.dst_surrogate,
            },
            EdgeRecord::Delete { collection, src, label, dst } => EdgeRecordView::Delete {
                collection: collection@,
                name: (src@, label@, dst@),
            },
        }
    }
}

/// Read a graph write back. A write of another type, or with a payload of
/// another shape, is none.
pub fn read_edge_record(op: &RedoSubRecord) -> (r: Option<EdgeRecord>)
    ensures
        match r {
            Some(e) => edge_record_of(record::op_view(*op)) == Some(e@),
            None => edge_record_of(record::op_view(*op)) is None,
        },
{
    match op.record_type {
        RecordType::Put => match codec::decode_edge_put(op.payload.as_slice()) {
            Some((collection, src, label, dst, properties, src_surrogate, dst_surrogate)) => Some(
                EdgeRecord::Put {
                    collection,
                    edge: EdgePut { src, label, dst, properties, src_surrogate, dst_surrogate },
                },
            ),
            None => None,
        },
        RecordType::Delete => match codec::decode_edge_delete(op.payload.as_slice()) {
            Some((collection, src, label, dst)) => Some(
                EdgeRecord::Delete { collection, src, label, dst },
            ),
            None => None,
        },
        _ => None,
    }
}

/// A record in the making, and what stopped it.
pub type GraphResolved = (Seq<record::OpView>, Option<ErrorView>);

pub open spec fn with_edge(before: GraphResolved, redo: EdgeRedo) -> GraphResolved {
    if before.1 is Some {
        before
    } else {
        match redo {
            EdgeRedo::Op(op) => (before.0.push(op), None),
            EdgeRedo::Fail(e) => (before.0, Some(e)),
        }
    }
}

/// A record with puts of edges, in turn.
pub open spec fn with_puts(
    before: GraphResolved,
    collection: Seq<char>,
    surrogates: SurrogateMap,
    puts: Seq<(EdgeName, Vec<u8>)>,
) -> GraphResolved
    decreases puts.len(),
{
    if puts.len() == 0 {
        before
    } else {
        with_edge(
            with_puts(before, collection, surrogates, puts.drop_last()),
            put_redo(collection, surrogates, puts.last().0, puts.last().1@),
        )
    }
}

/// A record with deletions of edges, in turn.
pub open spec fn with_deletes(
    before: GraphResolved,
    collection: Seq<char>,
    deletes: Seq<(EdgeName, ())>,
) -> GraphResolved
    decreases deletes.len(),
{
    if deletes.len() == 0 {
        before
    } else {
        with_edge(
            with_deletes(before, collection, deletes.drop_last()),
            delete_redo(collection, deletes.last().0),
        )
    }
}

proof fn lemma_put_failure_stays(
    before: GraphResolved,
    collection: Seq<char>,
    surrogates: SurrogateMap,
    puts: Seq<(EdgeName, Vec<u8>)>,
    i: int,
)
    requires
        0 <= i <= puts.len(),
        with_puts(before, collection, surrogates, puts.take(i)).1 is Some,
    ensures
        with_puts(before, collection, surrogates, puts) == with_puts(
            before,
            collection,
            surrogates,
            puts.take(i),
        ),
    decreases puts.len(),
{
    if i == puts.len() {
        assert(puts.take(i) =~= puts);
    } else {
        assert(puts.drop_last().take(i) =~= puts.take(i));
        lemma_put_failure_stays(before, collection, surrogates, puts.drop_last(), i);
    }
}

proof fn lemma_delete_failure_stays(
    before: GraphResolved,
    collection: Seq<char>,
    deletes: Seq<(EdgeName, ())>,
    i: int,
)
    requires
        0 <= i <= deletes.len(),
        with_deletes(before, collection, deletes.take(i)).1 is Some,
    ensures
        with_deletes(before, collection, deletes) == with_deletes(
            before,
            collection,
            deletes.take(i),
        ),
    decreases deletes.len(),
{
    if i == deletes.len() {
        assert(deletes.take(i) =~= deletes);
    } else {
        assert(deletes.drop_last().take(i) =~= deletes.take(i));
        lemma_delete_failure_stays(before, collection, deletes.drop_last(), i);
    }
}

/// A record that has failed stays as it is.
proof fn lemma_failed_record_stays(
    before: GraphResolved,
    collection: Seq<char>,
    deletes: Seq<(EdgeName, ())>,
)
    requires
        before.1 is Some,
    ensures
        with_deletes(before, collection, deletes) == before,
    decreases deletes.len(),
{
    if deletes.len() > 0 {
        lemma_failed_record_stays(before, collection, deletes.drop_last());
    }
}

/// A record with all staged edges of a collection.
pub open spec fn with_collection(
    before: GraphResolved,
    edges: Map<graph_staged::EdgeId, Vec<u8>>,
    deletions: Map<graph_staged::EdgeId, ()>,
    place: (u64, u64, Seq<char>),
    collection: Seq<char>,
    surrogates: SurrogateMap,
) -> GraphResolved {
    with_deletes(
        with_puts(before, collection, surrogates, sorted_edges(edges, place)),
        collection,
        sorted_edges(deletions, place),
    )
}

fn unbound_error(collection: &str, src: &str, label: &str, dst: &str) -> (r: Error)
    ensures
        r@ == (ErrorView::Internal { detail: unbound_text(collection@, (src@, label@, dst@)) }),
{
    let mut detail = "graph resolve: staged edge put '".to_owned();
    detail.append(collection);
    detail.append("'/'");
    detail.append(src);
    detail.append("'-'");
    detail.append(label);
    detail.append("'->'");
    detail.append(dst);
    detail.append("' has no bound endpoint surrogates");
    proof {
        assert(detail@ =~= unbound_text(collection@, (src@, label@, dst@)));
    }
    Error::Internal { detail }
}

fn encode_error(prefix: &str, e: &str) -> (r: Error)
    ensures
        r@ == (ErrorView::Serialization { format: "msgpack"@, detail: prefix@ + e@ }),
{
    let mut detail = prefix.to_owned();
    detail.append(e);
    Error::Serialization { format: "msgpack".to_owned(), detail }
}

fn put_op(
    collection: &str,
    surrogates: &VecMap<EdgeIdentity, EndSurrogates>,
    edge: &NamedEdge<&Vec<u8>>,
) -> (r: Result<RedoSubRecord, Error>)
    ensures
        match put_redo(collection@, surrogates@, edge.name(), edge.item@) {
            EdgeRedo::Op(op) => r is Ok && record::op_view(r->Ok_0) == op,
            EdgeRedo::Fail(e) => r is Err && r->Err_0@ == e,
        },
        edge_put_fits(collection@, edge.name(), edge.item@) ==> put_reads_back(
            collection@,
            surrogates@,
            edge.name(),
            edge.item@,
        ),
{
    let id = EdgeIdentity {
        collection: collection.to_owned(),
        src: edge.src.clone(),
        label: edge.label.clone(),
        dst: edge.dst.clone(),
    };
    let ends: EndSurrogates = match surrogates.get(&id) {
        Some(ends) => *ends,
        None => {
            return Err(
                unbound_error(
                    collection,
                    edge.src.as_str(),
                    edge.label.as_str(),
                    edge.dst.as_str(),
                ),
            );
        },
    };
    let put = EdgePut {
        src: edge.src.clone(),
        label: edge.label.clone(),
        dst: edge.dst.clone(),
        properties: text::copy_bytes(edge.item.as_slice()),
        src_surrogate: ends.src,
        dst_surrogate: ends.dst,
    };
    match codec::encode_edge_put(collection, &put) {
        Ok(payload) => Ok(RedoSubRecord { record_type: RecordType::Put, payload }),
        Err(e) => Err(encode_error("graph resolve edge put: ", e.as_str())),
    }
}

fn delete_op(collection: &str, edge: &NamedEdge<()>) -> (r: Result<RedoSubRecord, Error>)
    ensures
        match delete_redo(collection@, edge.name()) {
            EdgeRedo::Op(op) => r is Ok && record::op_view(r->Ok_0) == op,
            EdgeRedo::Fail(e) => r is Err && r->Err_0@ == e,
        },
        edge_put_fits(collection@, edge.name(), Seq::empty()) ==> delete_reads_back(
            collection@,
            edge.name(),
        ),
{
    match codec::encode_edge_delete(
        collection,
        edge.src.as_str(),
        edge.label.as_str(),
        edge.dst.as_str(),
    ) {
        Ok(payload) => Ok(RedoSubRecord { record_type: RecordType::Delete, payload }),
        Err(e) => Err(encode_error("graph resolve edge delete: ", e.as_str())),
    }
}

/// Append the writes of a collection's staged edges. An edge that no plan
/// carries the surrogates of fails.
pub fn serialize_graph_collection(
    o: &GraphTxnOverlay,
    coll_key: &GraphCollKey,
    collection: &str,
    surrogates: &VecMap<EdgeIdentity, EndSurrogates>,
    ops: &mut Vec<RedoSubRecord>,
) -> (r: Result<(), Error>)
    ensures
        ({
            let after = with_collection(
                (record::op_views(old(ops)@), None),
                o.edges(),
                o.deletions(),
                staged::coll_id(*coll_key),
                collection@,
                surrogates@,
            );
            &&& record::op_views(final(ops)@) == after.0
            &&& match after.1 {
                None => r is Ok,
                Some(e) => r is Err && r->Err_0@ == e,
            }
        }),
        is_edge_order(
            sorted_edges(o.edges(), staged::coll_id(*coll_key)),
            o.edges(),
            staged::coll_id(*coll_key),
        ),
        is_edge_order(
            sorted_edges(o.deletions(), staged::coll_id(*coll_key)),
            o.deletions(),
            staged::coll_id(*coll_key),
        ),
        r is Ok ==> puts_read_back(
            collection@,
            surrogates@,
            sorted_edges(o.edges(), staged::coll_id(*coll_key)),
        ) && deletes_read_back(
            collection@,
            sorted_edges(o.deletions(), staged::coll_id(*coll_key)),
        ),
{
    let ghost place = staged::coll_id(*coll_key);
    let ghost start: GraphResolved = (record::op_views(ops@), None);
    let puts = sorted_puts(o, coll_key);
    let deletes = sorted_deletes(o, coll_key);
    let ghost all_puts = put_names(puts@);
    let ghost all_deletes = named_edges(deletes@);
    let mut i: usize = 0;
    proof {
        assert(all_puts.take(0) =~= Seq::empty());
    }
    while i < puts.len()
        invariant
            i <= puts@.len(),
            all_puts == put_names(puts@),
            all_puts == sorted_edges(o.edges(), place),
            all_deletes == sorted_edges(o.deletions(), place),
            is_edge_order(all_puts, o.edges(), place),
            is_edge_order(all_deletes, o.deletions(), place),
            place == staged::coll_id(*coll_key),
            start == (record::op_views(old(ops)@), None::<ErrorView>),
            with_puts(start, collection@, surrogates@, all_puts.take(i as int)) == (
                record::op_views(ops@),
                None::<ErrorView>,
            ),
            puts_read_back(collection@, surrogates@, all_puts.take(i as int)),
        decreases puts.len() - i,
    {
        let ghost before = record::op_views(ops@);
        proof {
            assert(all_puts.take(i + 1).drop_last() =~= all_puts.take(i as int));
            assert(all_puts.take(i + 1).last() == all_puts[i as int]);
            assert forall|k: int| 0 <= k < i implies #[trigger] all_puts.take(i + 1)[k]
                == all_puts.take(i as int)[k] by {}
        }
        match put_op(collection, surrogates, &puts[i]) {
            Ok(op) => {
                ops.push(op);
                proof {
                    assert(record::op_views(ops@) =~= before.push(record::op_view(op)));
                }
            },
            Err(e) => {
                proof {
                    lemma_put_failure_stays(start, collection@, surrogates@, all_puts, i + 1);
                    lemma_failed_record_stays(
                        with_puts(start, collection@, surrogates@, all_puts),
                        collection@,
                        all_deletes,
                    );
                }
                return Err(e);
            },
        }
        i = i + 1;
    }
    let ghost middle: GraphResolved = (record::op_views(ops@), None);
    proof {
        assert(all_puts.take(all_puts.len() as int) =~= all_puts);
        assert(all_deletes.take(0) =~= Seq::empty());
        assert(with_puts(start, collection@, surrogates@, all_puts) == middle);
    }
    let mut j: usize = 0;
    while j < deletes.len()
        invariant
            j <= deletes@.len(),
            all_deletes == named_edges(deletes@),
            all_puts == sorted_edges(o.edges(), place),
            all_deletes == sorted_edges(o.deletions(), place),
            is_edge_order(all_puts, o.edges(), place),
            is_edge_order(all_deletes, o.deletions(), place),
            place == staged::coll_id(*coll_key),
            start == (record::op_views(old(ops)@), None::<ErrorView>),
            with_puts(start, collection@, surrogates@, all_puts) == middle,
            with_deletes(middle, collection@, all_deletes.take(j as int)) == (
                record::op_views(ops@),
                None::<ErrorView>,
            ),
            puts_read_back(collection@, surrogates@, all_puts),
            deletes_read_back(collection@, all_deletes.take(j as int)),
        decreases deletes.len() - j,
    {
        let ghost before = record::op_views(ops@);
        proof {
            assert(all_deletes.take(j + 1).drop_last() =~= all_deletes.take(j as int));
            assert(all_deletes.take(j + 1).last() == all_deletes[j as int]);
            assert forall|k: int| 0 <= k < j implies #[trigger] all_deletes.take(j + 1)[k]
                == all_deletes.take(j as int)[k] by {}
        }
        match delete_op(collection, &deletes[j]) {
            Ok(op) => {
                ops.push(op);
                proof {
                    assert(record::op_views(ops@) =~= before.push(record::op_view(op)));
                }
            },
            Err(e) => {
                proof {
                    lemma_delete_failure_stays(middle, collection@, all_deletes, j + 1);
                }
                return Err(e);
            },
        }
        j = j + 1;
    }
    proof {
        assert(all_deletes.take(all_deletes.len() as int) =~= all_deletes);
    }
    Ok(())
}

/// The writes of puts that were all written: one each, after those that were
/// there.
proof fn lemma_puts_listed(
    before: GraphResolved,
    collection: Seq<char>,
    surrogates: SurrogateMap,
    puts: Seq<(EdgeName, Vec<u8>)>,
)
    requires
        with_puts(before, collection, surrogates, puts).1 is None,
    ensures
        before.1 is None,
        with_puts(before, collection, surrogates, puts).0.len() == before.0.len() + puts.len(),
        with_puts(before, collection, surrogates, puts).0.take(before.0.len() as int) == before.0,
        forall|i: int|
            0 <= i < puts.len() ==> put_redo(
                collection,
                surrogates,
                (#[trigger] puts[i]).0,
                puts[i].1@,
            ) == EdgeRedo::Op(
                with_puts(before, collection, surrogates, puts).0[before.0.len() + i],
            ),
    decreases puts.len(),
{
    if puts.len() > 0 {
        let init = puts.drop_last();
        lemma_puts_listed(before, collection, surrogates, init);
        let prior = with_puts(before, collection, surrogates, init).0;
        let after = with_puts(before, collection, surrogates, puts).0;
        assert(after.take(before.0.len() as int) =~= prior.take(before.0.len() as int));
        assert forall|i: int| 0 <= i < puts.len() implies put_redo(
            collection,
            surrogates,
            (#[trigger] puts[i]).0,
            puts[i].1@,
        ) == EdgeRedo::Op(after[before.0.len() + i]) by {
            if i < init.len() {
                assert(init[i] == puts[i]);
                assert(after[before.0.len() + i] == prior[before.0.len() + i]);
            }
        }
    } else {
        assert(before.0.take(before.0.len() as int) =~= before.0);
    }
}

/// The same of deletions.
proof fn lemma_deletes_listed(
    before: GraphResolved,
    collection: Seq<char>,
    deletes: Seq<(EdgeName, ())>,
)
    requires
        with_deletes(before, collection, deletes).1 is None,
    ensures
        before.1 is None,
        with_deletes(before, collection, deletes).0.len() == before.0.len() + deletes.len(),
        with_deletes(before, collection, deletes).0.take(before.0.len() as int) == before.0,
        forall|i: int|
            0 <= i < deletes.len() ==> delete_redo(collection, (#[trigger] deletes[i]).0)
                == EdgeRedo::Op(with_deletes(before, collection, deletes).0[before.0.len() + i]),
    decreases deletes.len(),
{
    if deletes.len() > 0 {
        let init = deletes.drop_last();
        lemma_deletes_listed(before, collection, init);
        let prior = with_deletes(before, collection, init).0;
        let after = with_deletes(before, collection, deletes).0;
        assert(after.take(before.0.len() as int) =~= prior.take(before.0.len() as int));
        assert forall|i: int| 0 <= i < deletes.len() implies delete_redo(
            collection,
            (#[trigger] deletes[i]).0,
        ) == EdgeRedo::Op(after[before.0.len() + i]) by {
            if i < init.len() {
                assert(init[i] == deletes[i]);
                assert(after[before.0.len() + i] == prior[before.0.len() + i]);
            }
        }
    } else {
        assert(before.0.take(before.0.len() as int) =~= before.0);
    }
}

/// A resolved collection reads back as what was staged: after the writes that
/// were there, every staged edge with its properties and the surrogates that the
/// plans carry for it, then every staged deletion, in the order of the names. An
/// edge that is too long to be written is left open.
pub proof fn law_a_resolved_graph_reads_back(
    before: Seq<record::OpView>,
    edges: Map<graph_staged::EdgeId, Vec<u8>>,
    deletions: Map<graph_staged::EdgeId, ()>,
    place: (u64, u64, Seq<char>),
    collection: Seq<char>,
    surrogates: SurrogateMap,
)
    requires
        with_collection(
            (before, None),
            edges,
            deletions,
            place,
            collection,
            surrogates,
        ).1 is None,
        puts_read_back(collection, surrogates, sorted_edges(edges, place)),
        deletes_read_back(collection, sorted_edges(deletions, place)),
    ensures
        ({
            let puts = sorted_edges(edges, place);
            let deletes = sorted_edges(deletions, place);
            let after = with_collection(
                (before, None),
                edges,
                deletions,
                place,
                collection,
                surrogates,
            ).0;
            &&& after.len() == before.len() + puts.len() + deletes.len()
            &&& after.take(before.len() as int) == before
            &&& forall|i: int|
                0 <= i < puts.len() && edge_put_fits(collection, (#[trigger] puts[i]).0, puts[i].1@)
                    ==> edge_record_of(after[before.len() + i]) == Some(
                    EdgeRecordView::Put {
                        collection,
                        name: puts[i].0,
                        properties: puts[i].1@,
                        src_surrogate: surrogates[(collection, puts[i].0)].src,
                        dst_surrogate: surrogates[(collection, puts[i].0)].dst,
                    },
                )
            &&& forall|i: int|
                0 <= i < deletes.len() && edge_put_fits(
                    collection,
                    (#[trigger] deletes[i]).0,
                    Seq::empty(),
                ) ==> edge_record_of(after[before.len() + puts.len() + i]) == Some(
                    EdgeRecordView::Delete { collection, name: deletes[i].0 },
                )
        }),
{
    let start: GraphResolved = (before, None);
    let puts = sorted_edges(edges, place);
    let deletes = sorted_edges(deletions, place);
    let middle = with_puts(start, collection, surrogates, puts);
    lemma_deletes_listed(middle, collection, deletes);
    lemma_puts_listed(start, collection, surrogates, puts);
    let after = with_deletes(middle, collection, deletes).0;
    assert(after.take(before.len() as int) =~= middle.0.take(before.len() as int)) by {
        assert forall|i: int| 0 <= i < before.len() implies after[i] == #[trigger] middle.0[i] by {
            assert(after.take(middle.0.len() as int)[i] == after[i]);
        }
    }
    assert forall|i: int|
        0 <= i < puts.len() && edge_put_fits(
            collection,
            (#[trigger] puts[i]).0,
            puts[i].1@,
        ) implies edge_record_of(after[before.len() + i]) == Some(
        EdgeRecordView::Put {
            collection,
            name: puts[i].0,
            properties: puts[i].1@,
            src_surrogate: surrogates[(collection, puts[i].0)].src,
            dst_surrogate: surrogates[(collection, puts[i].0)].dst,
        },
    ) by {
        assert(after.take(middle.0.len() as int)[before.len() + i] == after[before.len() + i]);
        assert(put_reads_back(collection, surrogates, puts[i].0, puts[i].1@));
    }
}

/// The same staged edges give the same record, in whatever order they were
/// staged.
pub proof fn law_a_graph_resolves_alike(
    a: GraphTxnOverlay,
    b: GraphTxnOverlay,
    before: GraphResolved,
    place: (u64, u64, Seq<char>),
    collection: Seq<char>,
    surrogates: SurrogateMap,
)
    requires
        a.edges() == b.edges(),
        a.deleted() == b.deleted(),
    ensures
        with_collection(before, a.edges(), a.deletions(), place, collection, surrogates)
            == with_collection(before, b.edges(), b.deletions(), place, collection, surrogates),
{
    assert(a.deletions() =~= b.deletions());
}

/// Edges are ordered by source, those of one source by label and those of one label
/// by target, each as texts are.
pub proof fn law_edges_are_ordered_by_source_label_and_target(a: EdgeName, b: EdgeName)
    ensures
        a != b ==> (edge_le(a, b) <==> {
            ||| exists|d: int| sorting::differ_at(a.0, b.0, d)
            ||| a.0 == b.0 && exists|d: int| sorting::differ_at(a.1, b.1, d)
            ||| a.0 == b.0 && a.1 == b.1 && exists|d: int| sorting::differ_at(a.2, b.2, d)
        }),
        edge_le(a, a),
{
    sorting::lemma_text_total(a.2, a.2);
    lemma_strictly_before(a.0, b.0);
    lemma_strictly_before(a.1, b.1);
    lemma_strictly_before(a.2, b.2);
}

proof fn lemma_strictly_before(a: Seq<char>, b: Seq<char>)
    ensures
        a != b ==> (sorting::text_le(a, b) <==> exists|d: int| sorting::differ_at(a, b, d)),
        a == b ==> !(exists|d: int| sorting::differ_at(a, b, d)),
{
    sorting::law_texts_are_ordered_at_their_first_difference(a, b);
    sorting::lemma_text_total(a, b);
    if sorting::text_le(a, b) && sorting::text_le(b, a) {
        sorting::lemma_text_antisymmetric(a, b);
    }
}

/// A staged put is recorded with the surrogates that are bound to its ends, and
/// fails where none are; a staged delete is recorded by its name alone.
pub proof fn law_an_edge_is_recorded_with_its_ends(
    collection: Seq<char>,
    surrogates: SurrogateMap,
    name: EdgeName,
    properties: Seq<u8>,
)
    ensures
        put_redo(collection, surrogates, name, properties) matches EdgeRedo::Op((t, bytes)) ==> t
            == RecordType::Put && surrogates.contains_key((collection, name))
            && codec::edge_put_encoding_of(
            collection,
            name.0,
            name.1,
            name.2,
            properties,
            surrogates[(collection, name)].src,
            surrogates[(collection, name)].dst,
        ) == Ok::<Seq<u8>, Seq<char>>(bytes),
        !surrogates.contains_key((collection, name)) ==> (put_redo(
            collection,
            surrogates,
            name,
            properties,
        ) matches EdgeRedo::Fail(e) && e is Internal),
        delete_redo(collection, name) matches EdgeRedo::Op((t, bytes)) ==> t == RecordType::Delete
            && codec::edge_delete_encoding_of(collection, name.0, name.1, name.2) == Ok::<
            Seq<u8>,
            Seq<char>,
        >(bytes),
{
}

/// Resolving stops at the first edge that fails and keeps what it recorded before;
/// where none fails every put and every delete has its record.
pub proof fn law_every_staged_edge_is_recorded(
    before: Seq<record::OpView>,
    collection: Seq<char>,
    surrogates: SurrogateMap,
    puts: Seq<(EdgeName, Vec<u8>)>,
    deletes: Seq<(EdgeName, ())>,
)
    ensures
        ({
            let (ops, failed) = with_deletes(
                with_puts((before, None), collection, surrogates, puts),
                collection,
                deletes,
            );
            &&& ops.len() >= before.len()
            &&& ops.take(before.len() as int) == before
            &&& failed is None ==> ops.len() == before.len() + puts.len() + deletes.len()
            &&& failed is Some ==> ops.len() < before.len() + puts.len() + deletes.len()
        }),
    decreases puts.len() + deletes.len(),
{
    let first = with_puts((before, None), collection, surrogates, puts);
    let all = with_deletes(first, collection, deletes);
    if deletes.len() > 0 {
        law_every_staged_edge_is_recorded(
            before,
            collection,
            surrogates,
            puts,
            deletes.drop_last(),
        );
        assert(all.0.take(before.len() as int) =~= before);
    } else if puts.len() > 0 {
        law_every_staged_edge_is_recorded(
            before,
            collection,
            surrogates,
            puts.drop_last(),
            deletes,
        );
        assert(all.0.take(before.len() as int) =~= before);
    } else {
        assert(all.0.take(before.len() as int) =~= before);
    }
}

} // verus!
