//! Which vector indexes a core has, and how they were configured.
use crate::maps;
use crate::maps::{MapKey, VecMap};
use crate::text;
use vstd::prelude::*;
use vstd::string::*;

verus! {

/// The index of one collection, or of one of its vector fields.
pub struct IndexKey {
    pub db: u64,
    pub tid: u64,
    pub name: String,
}

/// An index key as a mathematical value.
pub type IndexId = (u64, u64, Seq<char>);

impl MapKey for IndexKey {
    type Key = (u64, u64, Seq<char>);

    open spec fn key(&self) -> (u64, u64, Seq<char>) {
        (self.db, self.tid, self.name@)
    }

    fn same(&self, other: &Self) -> (r: bool) {
        self.db == other.db && self.tid == other.tid && self.name == other.name
    }
}

impl IndexKey {
    pub fn copy(&self) -> (r: IndexKey)
        ensures
            r.key() == self.key(),
    {
        IndexKey { db: self.db, tid: self.tid, name: self.name.clone() }
    }
}

/// The name an index is kept under: the collection, or the collection, a colon
/// and the field.
pub open spec fn index_name(collection: Seq<char>, field: Seq<char>) -> Seq<char> {
    if field.len() == 0 {
        collection
    } else {
        collection + seq![':'] + field
    }
}

pub fn vector_index_key(db: u64, tid: u64, collection: &str, field: &str) -> (r: IndexKey)
    ensures
        r.key() == (db, tid, index_name(collection@, field@)),
{
    let mut name = collection.to_owned();
    if field.unicode_len() > 0 {
        name.push(':');
        name.append(field);
        proof {
            assert(collection@.push(':') =~= collection@ + seq![':']);
        }
    }
    IndexKey { db, tid, name }
}

/// How two vectors are compared.
#[derive(Clone, Copy, Debug, PartialEq, Eq, Structural)]
pub enum DistanceMetric {
    L2,
    Cosine,
    InnerProduct,
    Manhattan,
    Chebyshev,
    Hamming,
    Jaccard,
    Pearson,
}

/// The metric that a name stands for; an unknown name stands for the cosine.
pub open spec fn metric_of(name: Seq<char>) -> DistanceMetric {
    if name == "l2"@ || name == "euclidean"@ {
        DistanceMetric::L2
    } else if name == "cosine"@ {
        DistanceMetric::Cosine
    } else if name == "inner_product"@ || name == "ip"@ || name == "dot"@ {
        DistanceMetric::InnerProduct
    } else if name == "manhattan"@ || name == "l1"@ {
        DistanceMetric::Manhattan
    } else if name == "chebyshev"@ || name == "linf"@ {
        DistanceMetric::Chebyshev
    } else if name == "hamming"@ {
        DistanceMetric::Hamming
    } else if name == "jaccard"@ {
        DistanceMetric::Jaccard
    } else if name == "pearson"@ {
        DistanceMetric::Pearson
    } else {
        DistanceMetric::Cosine
    }
}

pub fn parse_metric(name: &str) -> (r: DistanceMetric)
    ensures
        r == metric_of(name@),
{
    if text::same_text(name, "l2") || text::same_text(name, "euclidean") {
        DistanceMetric::L2
    } else if text::same_text(name, "cosine") {
        DistanceMetric::Cosine
    } else if text::same_text(name, "inner_product") || text::same_text(name, "ip")
        || text::same_text(name, "dot") {
        DistanceMetric::InnerProduct
    } else if text::same_text(name, "manhattan") || text::same_text(name, "l1") {
        DistanceMetric::Manhattan
    } else if text::same_text(name, "chebyshev") || text::same_text(name, "linf") {
        DistanceMetric::Chebyshev
    } else if text::same_text(name, "hamming") {
        DistanceMetric::Hamming
    } else if text::same_text(name, "jaccard") {
        DistanceMetric::Jaccard
    } else if text::same_text(name, "pearson") {
        DistanceMetric::Pearson
    } else {
        DistanceMetric::Cosine
    }
}

/// The type in which an index stores the elements of its vectors.
#[derive(Clone, Copy, Debug, PartialEq, Eq, Structural)]
pub enum ElementType {
    F32,
    /// A type that no record of the log declares.
    Other,
}

/// The parameters of a graph index.
#[derive(Clone, Copy, Debug, PartialEq, Eq, Structural)]
pub struct HnswParams {
    pub m: usize,
    pub m0: usize,
    pub ef_construction: usize,
    pub metric: DistanceMetric,
    pub dtype: ElementType,
}

/// Which structure an index is built on.
#[derive(Clone, Copy, Debug, PartialEq, Eq, Structural)]
pub enum IndexType {
    Hnsw,
    HnswPq,
    IvfPq,
}

/// Whether an index is one of a collection, or of one of its fields.
pub open spec fn is_index_of(name: Seq<char>, coll: Seq<char>) -> bool {
    name == coll || text::begins_with(name, coll + seq![':'])
}

/// Whether an index is not one of a collection of a tenant.
pub open spec fn spared(db: u64, tid: u64, coll: Seq<char>) -> spec_fn(IndexId) -> bool {
    |k: IndexId| !(k.0 == db && k.1 == tid && is_index_of(k.2, coll))
}

/// The registry without the indexes of a collection.
pub open spec fn without_collection(r: Registry, db: u64, tid: u64, coll: Seq<char>) -> Registry {
    Registry {
        params: maps::kept_part(r.params, spared(db, tid, coll)),
        dims: maps::kept_part(r.dims, spared(db, tid, coll)),
        configs: maps::kept_part(r.configs, spared(db, tid, coll)),
        ivf: r.ivf.filter(spared(db, tid, coll)),
    }
}

fn is_spared(k: &IndexKey, db: u64, tid: u64, coll: &str) -> (r: bool)
    ensures
        r == spared(db, tid, coll@)(k.key()),
{
    if k.db != db || k.tid != tid {
        return true;
    }
    let mut prefix = coll.to_owned();
    prefix.push(':');
    proof {
        assert(prefix@ =~= coll@ + seq![':']);
    }
    !(text::same_text(k.name.as_str(), coll) || text::text_has_prefix(
        k.name.as_str(),
        prefix.as_str(),
    ))
}

/// What the registry holds, as mathematical values.
#[verifier::ext_equal]
pub struct Registry {
    /// The parameters each index was declared with.
    pub params: Map<IndexId, HnswParams>,
    /// The dimension of each index that exists.
    pub dims: Map<IndexId, usize>,
    /// The structure each index was declared with.
    pub configs: Map<IndexId, IndexType>,
    /// The indexes that have an inverted-file structure.
    pub ivf: Set<IndexId>,
}

pub struct VectorRegistry {
    params: VecMap<IndexKey, HnswParams>,
    dims: VecMap<IndexKey, usize>,
    configs: VecMap<IndexKey, IndexType>,
    ivf: VecMap<IndexKey, ()>,
}

impl View for VectorRegistry {
    type V = Registry;

    closed spec fn view(&self) -> Registry {
        Registry {
            params: self.params@,
            dims: self.dims@,
            configs: self.configs@,
            ivf: self.ivf@.dom(),
        }
    }
}

impl VectorRegistry {
    pub fn new() -> (r: Self)
        ensures
            r@ == (Registry {
                params: Map::empty(),
                dims: Map::empty(),
                configs: Map::empty(),
                ivf: Set::empty(),
            }),
    {
        let r = VectorRegistry {
            params: VecMap::new(),
            dims: VecMap::new(),
            configs: VecMap::new(),
            ivf: VecMap::new(),
        };
        proof {
            assert(r@.ivf =~= Set::empty());
        }
        r
    }

    pub fn params_of(&self, key: &IndexKey) -> (r: Option<HnswParams>)
        ensures
            match r {
                Some(p) => self@.params.contains_key(key.key()) && p == self@.params[key.key()],
                None => !self@.params.contains_key(key.key()),
            },
    {
        match self.params.get(key) {
            Some(p) => Some(*p),
            None => None,
        }
    }

    pub fn dim_of(&self, key: &IndexKey) -> (r: Option<usize>)
        ensures
            match r {
                Some(d) => self@.dims.contains_key(key.key()) && d == self@.dims[key.key()],
                None => !self@.dims.contains_key(key.key()),
            },
    {
        match self.dims.get(key) {
            Some(d) => Some(*d),
            None => None,
        }
    }

    pub fn is_ivf(&self, key: &IndexKey) -> (r: bool)
        ensures
            r == (self@.configs.contains_key(key.key()) && self@.configs[key.key()]
                == IndexType::IvfPq),
    {
        match self.configs.get(key) {
            Some(t) => *t == IndexType::IvfPq,
            None => false,
        }
    }

    pub fn has_ivf(&self, key: &IndexKey) -> (r: bool)
        ensures
            r == self@.ivf.contains(key.key()),
    {
        self.ivf.contains(key)
    }

    /// Declare the parameters of an index.
    pub fn set_params(&mut self, key: IndexKey, p: HnswParams)
        ensures
            final(self)@ == (Registry {
                params: old(self)@.params.insert(key.key(), p),
                ..old(self)@
            }),
    {
        self.params.insert(key, p);
    }

    /// Declare the structure of an index.
    pub fn set_config(&mut self, key: IndexKey, t: IndexType)
        ensures
            final(self)@ == (Registry {
                configs: old(self)@.configs.insert(key.key(), t),
                ..old(self)@
            }),
    {
        self.configs.insert(key, t);
    }

    /// Note that an index exists.
    pub fn set_dim(&mut self, key: IndexKey, dim: usize)
        ensures
            final(self)@ == (Registry {
                dims: old(self)@.dims.insert(key.key(), dim),
                ..old(self)@
            }),
    {
        self.dims.insert(key, dim);
    }

    /// Note that an index has an inverted-file structure.
    pub fn set_ivf(&mut self, key: IndexKey)
        ensures
            final(self)@ == (Registry { ivf: old(self)@.ivf.insert(key.key()), ..old(self)@ }),
    {
        self.ivf.insert(key, ());
        proof {
            assert(self@.ivf =~= old(self)@.ivf.insert(key.key()));
        }
    }

    /// Forget the indexes of a collection and of its fields, and say how many
    /// there were.
    pub fn clear_collection(&mut self, db: u64, tid: u64, coll: &str) -> (r: usize)
        ensures
            final(self)@ == without_collection(old(self)@, db, tid, coll@),
            final(self)@.dims.dom().finite() && old(self)@.dims.dom().finite(),
            r == old(self)@.dims.dom().len() - final(self)@.dims.dom().len(),
    {
        let ghost pred = spared(db, tid, coll@);
        let keep = |k: &IndexKey| -> (b: bool)
            ensures
                b == pred(k.key()),
            { is_spared(k, db, tid, coll) };
        let before: usize = self.dims.len();
        proof {
            use_type_invariant(&self.dims);
            self.dims.lemma_listed();
            maps::lemma_map_len(self.dims.listed());
        }
        self.dims.retain(keep, Ghost(pred));
        let after: usize = self.dims.len();
        proof {
            use_type_invariant(&self.dims);
            self.dims.lemma_listed();
            maps::lemma_map_len(self.dims.listed());
            vstd::set_lib::lemma_len_subset(self.dims@.dom(), old(self).dims@.dom());
        }
        self.params.retain(keep, Ghost(pred));
        self.configs.retain(keep, Ghost(pred));
        self.ivf.retain(keep, Ghost(pred));
        proof {
            assert(self@.ivf =~= old(self)@.ivf.filter(pred));
        }
        before - after
    }

    /// The first index of a tenant whose name begins with `prefix`.
    pub fn find_by_prefix(&self, db: u64, tid: u64, prefix: &str) -> (r: Option<IndexKey>)
        ensures
            match r {
                Some(k) => self@.dims.contains_key(k.key()) && k.db == db && k.tid == tid
                    && text::begins_with(k.name@, prefix@),
                None => forall|name: Seq<char>| #[trigger]
                    self@.dims.contains_key((db, tid, name)) ==> !text::begins_with(name, prefix@),
            },
    {
        proof {
            self.dims.lemma_listed();
        }
        let ghost list = self.dims.listed();
        let mut i: usize = 0;
        while i < self.dims.len()
            invariant
                i <= list.len(),
                list == self.dims.listed(),
                self.dims@ == maps::as_map(list),
                forall|q: int|
                    0 <= q < i ==> !((#[trigger] list[q]).0.db == db && list[q].0.tid == tid
                        && text::begins_with(list[q].0.name@, prefix@)),
            decreases list.len() - i,
        {
            let e = self.dims.entry(i);
            if e.0.db == db && e.0.tid == tid && text::text_has_prefix(e.0.name.as_str(), prefix) {
                return Some(e.0.copy());
            }
            i = i + 1;
        }
        proof {
            assert forall|name: Seq<char>| #[trigger]
                self@.dims.contains_key((db, tid, name)) implies !text::begins_with(name, prefix@) by {
                maps::lemma_map_has_entry(list, (db, tid, name));
                let p = maps::position(list, (db, tid, name));
                assert(list[p].0.key() == (db, tid, name));
            }
        }
        None
    }
}

/// The index of a collection has its name; that of a field has the collection's
/// name, a colon and the field's.
pub proof fn law_an_index_is_named_after_its_field(collection: Seq<char>, field: Seq<char>)
    ensures
        ({
            let name = index_name(collection, field);
            let n = collection.len() as int;
            &&& name.take(n) == collection
            &&& field.len() == 0 ==> name.len() == n
            &&& field.len() > 0 ==> name.len() == n + 1 + field.len() && name[n] == ':'
                && name.skip(n + 1) == field
        }),
        is_index_of(index_name(collection, field), collection),
{
    let name = index_name(collection, field);
    let n = collection.len() as int;
    assert(name.take(n) =~= collection);
    if field.len() > 0 {
        assert(name.skip(n + 1) =~= field);
        assert(name.take(n + 1) =~= collection + seq![':']);
    }
}

/// Clearing a collection takes out everything that was kept of its own index and
/// of the indexes of its fields, and leaves everything else as it was.
pub proof fn law_clearing_takes_the_indexes_of_a_collection(
    r: Registry,
    db: u64,
    tid: u64,
    coll: Seq<char>,
    k: IndexId,
)
    ensures
        ({
            let after = without_collection(r, db, tid, coll);
            let own = k.0 == db && k.1 == tid && (k.2 == coll || exists|field: Seq<char>|
                k.2 == coll + seq![':'] + field);
            &&& own ==> !after.params.contains_key(k) && !after.dims.contains_key(k)
                && !after.configs.contains_key(k) && !after.ivf.contains(k)
            &&& !own ==> {
                &&& after.params.contains_key(k) == r.params.contains_key(k)
                &&& after.dims.contains_key(k) == r.dims.contains_key(k)
                &&& after.configs.contains_key(k) == r.configs.contains_key(k)
                &&& after.ivf.contains(k) == r.ivf.contains(k)
                &&& r.params.contains_key(k) ==> after.params[k] == r.params[k]
                &&& r.dims.contains_key(k) ==> after.dims[k] == r.dims[k]
                &&& r.configs.contains_key(k) ==> after.configs[k] == r.configs[k]
            }
        }),
{
    let head = coll + seq![':'];
    if text::begins_with(k.2, head) {
        assert(k.2 =~= head + k.2.skip(head.len() as int));
        assert(k.2 == coll + seq![':'] + k.2.skip(head.len() as int));
    }
    if exists|field: Seq<char>| k.2 == coll + seq![':'] + field {
        let field = choose|field: Seq<char>| k.2 == coll + seq![':'] + field;
        assert(k.2.take(head.len() as int) =~= head);
    }
}

/// Each metric has its names; every other name means cosine.
pub proof fn law_a_metric_has_its_names(name: Seq<char>)
    ensures
        metric_of(name) is L2 <==> name == "l2"@ || name == "euclidean"@,
        metric_of(name) is InnerProduct <==> name == "inner_product"@ || name == "ip"@ || name
            == "dot"@,
        metric_of(name) is Manhattan <==> name == "manhattan"@ || name == "l1"@,
        metric_of(name) is Chebyshev <==> name == "chebyshev"@ || name == "linf"@,
        metric_of(name) is Hamming <==> name == "hamming"@,
        metric_of(name) is Jaccard <==> name == "jaccard"@,
        metric_of(name) is Pearson <==> name == "pearson"@,
        name == "cosine"@ ==> metric_of(name) is Cosine,
{
    reveal_strlit("l2");
    reveal_strlit("euclidean");
    reveal_strlit("cosine");
    reveal_strlit("inner_product");
    reveal_strlit("ip");
    reveal_strlit("dot");
    reveal_strlit("manhattan");
    reveal_strlit("l1");
    reveal_strlit("chebyshev");
    reveal_strlit("linf");
    reveal_strlit("hamming");
    reveal_strlit("jaccard");
    reveal_strlit("pearson");
    assert("l2"@[1] == '2' && "l1"@[1] == '1' && "ip"@[0] == 'i');
    assert("hamming"@[0] == 'h' && "jaccard"@[0] == 'j' && "pearson"@[0] == 'p');
    assert("euclidean"@[0] == 'e' && "manhattan"@[0] == 'm' && "chebyshev"@[0] == 'c');
    assert("l2"@.len() == 2 && "euclidean"@.len() == 9 && "cosine"@.len() == 6
        && "inner_product"@.len() == 13 && "dot"@.len() == 3 && "linf"@.len() == 4
        && "hamming"@.len() == 7);
}

} // verus!
