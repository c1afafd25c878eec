//! Vector writes: single, batch and multi-vector inserts, and deletes.
//!
//! A handler decides on the registry and says what the engine has to do.
use crate::error::ErrorCode;
use crate::hex;
use crate::ids::Surrogate;
use crate::maps::MapKey;
use crate::text;
use crate::vectors::registry;
use crate::vectors::registry::{HnswParams, IndexKey, Registry, VectorRegistry};
use vstd::prelude::*;
use vstd::string::*;

verus! {

/// Who produced a synchronised write, and its place in the producer's stream.
#[derive(Clone, Copy, Debug, PartialEq, Eq, Structural)]
pub struct SyncProvenance {
    pub producer_id: u64,
    pub epoch: u64,
    pub stream_id: u64,
    pub seq: u64,
}

/// What the idempotency guard says of a synchronised write.
#[derive(Clone, Copy, Debug, PartialEq, Eq, Structural)]
pub enum SyncAdmit {
    Apply,
    Duplicate,
    Fenced,
    Gap,
}

/// What a vector write is answered.
#[derive(Debug)]
pub enum VectorReply {
    Done,
    /// A synchronised write was applied; its place is to be committed.
    Applied,
    /// The guard held a synchronised write back.
    Held(SyncAdmit),
    Rejected(ErrorCode),
}

/// What the engine has to do for a vector write.
pub enum VectorAction {
    Nothing,
    /// Insert into the graph index `key`; where it is new, create it first with
    /// `params`, or with the engine's defaults.
    Hnsw { key: IndexKey, create: bool, params: Option<HnswParams> },
    /// Insert into the inverted-file index `key`, creating it first where it is
    /// new and training it before its first vector.
    Ivf { key: IndexKey, create: bool, bind: bool },
}

pub open spec fn dimension_text(expected: usize, got: usize) -> Seq<char> {
    "vector dimension mismatch: expected "@ + text::decimal(expected as nat) + (", got "@
        + text::decimal(got as nat))
}

pub open spec fn index_dimension_text(have: usize, got: usize) -> Seq<char> {
    "dimension mismatch: index has "@ + text::decimal(have as nat) + (", got "@ + text::decimal(
        got as nat,
    ))
}

pub open spec fn batch_dimension_text(expected: usize, got: usize) -> Seq<char> {
    "dimension mismatch in batch: expected "@ + text::decimal(expected as nat) + (", got "@
        + text::decimal(got as nat))
}

/// A rejection with this constraint and no detail.
pub open spec fn rejects_with(e: ErrorCode, constraint: Seq<char>) -> bool {
    e matches ErrorCode::RejectedConstraint { constraint: c, detail: d } && c@ == constraint
        && d@.len() == 0
}

fn two_numbers(head: &str, a: usize, b: usize) -> (r: ErrorCode)
    ensures
        rejects_with(
            r,
            head@ + text::decimal(a as nat) + (", got "@ + text::decimal(b as nat)),
        ),
{
    let mut c = head.to_owned();
    text::push_decimal(&mut c, a as u64);
    c.append(", got ");
    text::push_decimal(&mut c, b as u64);
    proof {
        assert(c@ =~= head@ + text::decimal(a as nat) + (", got "@ + text::decimal(b as nat)));
    }
    ErrorCode::RejectedConstraint { constraint: c, detail: String::new() }
}

/// Whether an index of another dimension stands in the way.
pub open spec fn dimension_clash(s: Registry, key: registry::IndexId, dim: usize) -> bool {
    s.dims.contains_key(key) && s.dims[key] != dim
}

/// The registry once an index of dimension `dim` exists at `key`.
pub open spec fn with_index(s: Registry, key: registry::IndexId, dim: usize) -> Registry {
    if s.dims.contains_key(key) {
        s
    } else {
        Registry { dims: s.dims.insert(key, dim), ..s }
    }
}

/// The parameters that an index was declared with, if it was.
pub open spec fn declared(s: Registry, key: registry::IndexId) -> Option<HnswParams> {
    if s.params.contains_key(key) {
        Some(s.params[key])
    } else {
        None
    }
}

/// Make sure that an index of dimension `dim` exists. On success, says whether
/// the index is new and what it was declared with.
pub fn get_or_create_vector_index(
    reg: &mut VectorRegistry,
    database_id: u64,
    tid: u64,
    collection: &str,
    dim: usize,
    field_name: &str,
) -> (r: Result<(IndexKey, bool, Option<HnswParams>), ErrorCode>)
    ensures
        ({
            let key = (database_id, tid, registry::index_name(collection@, field_name@));
            if dimension_clash(old(reg)@, key, dim) {
                r is Err && rejects_with(r->Err_0, index_dimension_text(old(reg)@.dims[key], dim))
                    && final(reg)@ == old(reg)@
            } else {
                r is Ok && r->Ok_0.0.key() == key && r->Ok_0.1 == !old(reg)@.dims.contains_key(key)
                    && r->Ok_0.2 == declared(old(reg)@, key) && final(reg)@ == with_index(
                    old(reg)@,
                    key,
                    dim,
                )
            }
        }),
        r is Err <==> exists|k: (u64, u64, Seq<char>)| #[trigger]
            old(reg)@.dims.contains_key(k) && k == (
                database_id,
                tid,
                registry::index_name(collection@, field_name@),
            ) && old(reg)@.dims[k] != dim,
        r matches Ok(x) ==> final(reg)@.dims.contains_key(x.0.key()) && final(reg)@.dims[x.0.key()] == dim,
        forall|k: (u64, u64, Seq<char>)| #[trigger]
            old(reg)@.dims.contains_key(k) ==> final(reg)@.dims.contains_key(k)
                && final(reg)@.dims[k] == old(reg)@.dims[k],
{
    let key = registry::vector_index_key(database_id, tid, collection, field_name);
    let params = reg.params_of(&key);
    match reg.dim_of(&key) {
        Some(have) => {
            if have != dim {
                return Err(two_numbers("dimension mismatch: index has ", have, dim));
            }
            Ok((key, false, params))
        },
        None => {
            let copy = key.copy();
            reg.set_dim(copy, dim);
            Ok((key, true, params))
        },
    }
}

/// A vector to insert: what the handler reads of it.
pub struct VectorInsert<'a> {
    pub database_id: u64,
    pub tid: u64,
    pub collection: &'a str,
    pub field_name: &'a str,
    /// How many elements the vector has.
    pub vector_len: usize,
    /// How many the request says it has.
    pub dim: usize,
    pub surrogate: u32,
}

impl<'a> VectorInsert<'a> {
    pub open spec fn key(&self) -> registry::IndexId {
        (self.database_id, self.tid, registry::index_name(self.collection@, self.field_name@))
    }
}

/// Whether the index is declared with an inverted-file structure.
pub open spec fn declared_ivf(s: Registry, key: registry::IndexId) -> bool {
    s.configs.contains_key(key) && s.configs[key] == registry::IndexType::IvfPq
}

/// The outcome of an insert that no guard stands before.
pub open spec fn inserted(
    p: VectorInsert,
    before: Registry,
    after: Registry,
    reply: VectorReply,
    action: VectorAction,
) -> bool {
    let key = p.key();
    if p.vector_len != p.dim {
        reply is Rejected && rejects_with(reply->Rejected_0, dimension_text(p.dim, p.vector_len))
            && action is Nothing && after == before
    } else if declared_ivf(before, key) {
        reply is Done && (action matches VectorAction::Ivf { key: k, create, bind } && k.key() == key
            && create == !before.ivf.contains(key) && bind == (p.surrogate != 0)) && after == ({
            let s = Registry { ivf: before.ivf.insert(key), ..before };
            if p.surrogate != 0 {
                with_index(s, key, p.dim)
            } else {
                s
            }
        })
    } else if dimension_clash(before, key, p.dim) {
        reply is Rejected && rejects_with(
            reply->Rejected_0,
            index_dimension_text(before.dims[key], p.dim),
        ) && action is Nothing && after == before
    } else {
        reply is Done && (action matches VectorAction::Hnsw { key: k, create, params } && k.key() == key
            && create == !before.dims.contains_key(key) && params == declared(before, key))
            && after == with_index(before, key, p.dim)
    }
}

/// Insert into an inverted-file index; a bound row also gets an index entry.
fn ivf_insert(reg: &mut VectorRegistry, p: &VectorInsert, key: IndexKey) -> (action: VectorAction)
    requires
        key.key() == p.key(),
    ensures
        action matches VectorAction::Ivf { key: k, create, bind } && k.key() == p.key() && create
            == !old(reg)@.ivf.contains(p.key()) && bind == (p.surrogate != 0),
        final(reg)@ == ({
            let s = Registry { ivf: old(reg)@.ivf.insert(p.key()), ..old(reg)@ };
            if p.surrogate != 0 {
                with_index(s, p.key(), p.dim)
            } else {
                s
            }
        }),
{
    let create = !reg.has_ivf(&key);
    let copy = key.copy();
    reg.set_ivf(copy);
    let bind = p.surrogate != 0;
    if bind {
        match reg.dim_of(&key) {
            Some(_) => {},
            None => {
                let again = key.copy();
                reg.set_dim(again, p.dim);
            },
        }
    }
    VectorAction::Ivf { key, create, bind }
}

pub fn execute_vector_insert_inner(reg: &mut VectorRegistry, p: &VectorInsert) -> (r: (
    VectorReply,
    VectorAction,
))
    ensures
        inserted(*p, old(reg)@, final(reg)@, r.0, r.1),
{
    if p.vector_len != p.dim {
        return (
            VectorReply::Rejected(
                two_numbers("vector dimension mismatch: expected ", p.dim, p.vector_len),
            ),
            VectorAction::Nothing,
        );
    }
    let key = registry::vector_index_key(p.database_id, p.tid, p.collection, p.field_name);
    if reg.is_ivf(&key) {
        let action = ivf_insert(reg, p, key);
        return (VectorReply::Done, action);
    }
    match get_or_create_vector_index(
        reg,
        p.database_id,
        p.tid,
        p.collection,
        p.dim,
        p.field_name,
    ) {
        Ok((key, create, params)) => (
            VectorReply::Done,
            VectorAction::Hnsw { key, create, params },
        ),
        Err(e) => (VectorReply::Rejected(e), VectorAction::Nothing),
    }
}

/// Insert a vector. `verdict` is what the guard says of a synchronised write; a
/// local write has none. A write that the guard holds back changes nothing.
pub fn execute_vector_insert(
    reg: &mut VectorRegistry,
    p: &VectorInsert,
    verdict: Option<SyncAdmit>,
) -> (r: (VectorReply, VectorAction))
    ensures
        match verdict {
            None => inserted(*p, old(reg)@, final(reg)@, r.0, r.1),
            Some(SyncAdmit::Apply) => exists|inner: VectorReply|
                {
                    &&& #[trigger] inserted(*p, old(reg)@, final(reg)@, inner, r.1)
                    &&& r.0 == if inner is Done {
                        VectorReply::Applied
                    } else {
                        inner
                    }
                },
            Some(held) => r.0 == VectorReply::Held(held) && r.1 is Nothing && final(reg)@ == old(
                reg,
            )@,
        },
{
    match verdict {
        None => execute_vector_insert_inner(reg, p),
        Some(SyncAdmit::Apply) => {
            let (inner, action) = execute_vector_insert_inner(reg, p);
            let ghost g = inner;
            let reply = match inner {
                VectorReply::Done => VectorReply::Applied,
                other => other,
            };
            proof {
                assert(inserted(*p, old(reg)@, reg@, g, action));
            }
            (reply, action)
        },
        Some(held) => (VectorReply::Held(held), VectorAction::Nothing),
    }
}

/// What a delete finds before it asks the engine.
pub enum DeleteTarget {
    /// Nothing to delete: a success.
    Absent,
    /// Look the row up in this index.
    Index(IndexKey),
}

/// The index that a delete by surrogate looks in: the field's index, else the
/// collection's.
pub fn execute_vector_delete_by_surrogate_inner(
    reg: &VectorRegistry,
    database_id: u64,
    tid: u64,
    collection: &str,
    field_name: &str,
) -> (r: DeleteTarget)
    ensures
        ({
            let named = (database_id, tid, registry::index_name(collection@, field_name@));
            let plain = (database_id, tid, collection@);
            if reg@.dims.contains_key(named) {
                r matches DeleteTarget::Index(k) && k.key() == named
            } else if reg@.dims.contains_key(plain) {
                r matches DeleteTarget::Index(k) && k.key() == plain
            } else {
                r is Absent
            }
        }),
{
    let named = registry::vector_index_key(database_id, tid, collection, field_name);
    if reg.dim_of(&named).is_some() {
        return DeleteTarget::Index(named);
    }
    let plain = IndexKey { db: database_id, tid, name: collection.to_owned() };
    if reg.dim_of(&plain).is_some() {
        return DeleteTarget::Index(plain);
    }
    DeleteTarget::Absent
}

/// Delete by surrogate: the guard first, then the lookup.
pub fn execute_vector_delete_by_surrogate(
    reg: &VectorRegistry,
    database_id: u64,
    tid: u64,
    collection: &str,
    field_name: &str,
    verdict: Option<SyncAdmit>,
) -> (r: Result<DeleteTarget, VectorReply>)
    ensures
        match verdict {
            Some(SyncAdmit::Duplicate) => r == Err::<DeleteTarget, VectorReply>(
                VectorReply::Held(SyncAdmit::Duplicate),
            ),
            Some(SyncAdmit::Fenced) => r == Err::<DeleteTarget, VectorReply>(
                VectorReply::Held(SyncAdmit::Fenced),
            ),
            Some(SyncAdmit::Gap) => r == Err::<DeleteTarget, VectorReply>(
                VectorReply::Held(SyncAdmit::Gap),
            ),
            _ => {
                let named = (database_id, tid, registry::index_name(collection@, field_name@));
                let plain = (database_id, tid, collection@);
                r is Ok && if reg@.dims.contains_key(named) {
                    r->Ok_0 matches DeleteTarget::Index(k) && k.key() == named
                } else if reg@.dims.contains_key(plain) {
                    r->Ok_0 matches DeleteTarget::Index(k) && k.key() == plain
                } else {
                    r->Ok_0 is Absent
                }
            },
        },
{
    match verdict {
        Some(SyncAdmit::Duplicate) => {
            return Err(VectorReply::Held(SyncAdmit::Duplicate));
        },
        Some(SyncAdmit::Fenced) => {
            return Err(VectorReply::Held(SyncAdmit::Fenced));
        },
        Some(SyncAdmit::Gap) => {
            return Err(VectorReply::Held(SyncAdmit::Gap));
        },
        _ => {},
    }
    Ok(
        execute_vector_delete_by_surrogate_inner(
            reg,
            database_id,
            tid,
            collection,
            field_name,
        ),
    )
}

/// The answer to a delete by surrogate. `deleted` is what the engine's delete
/// said of the row that the lookup found; a row that is absent is a success.
pub fn delete_by_surrogate_reply(synced: bool, deleted: Option<bool>) -> (r: VectorReply)
    ensures
        r == if deleted == Some(false) {
            VectorReply::Rejected(ErrorCode::NotFound)
        } else if synced {
            VectorReply::Applied
        } else {
            VectorReply::Done
        },
{
    match deleted {
        Some(false) => VectorReply::Rejected(ErrorCode::NotFound),
        _ => if synced {
            VectorReply::Applied
        } else {
            VectorReply::Done
        },
    }
}

/// Whether a delete by node looks in this index: the collection's, else any index
/// over one of its fields. None when the collection has no index.
pub open spec fn is_delete_index(s: Registry, coll: registry::IndexId, r: Option<IndexKey>) -> bool {
    let prefix = coll.2 + seq![':'];
    match r {
        Some(k) => s.dims.contains_key(k.key()) && if s.dims.contains_key(coll) {
            k.key() == coll
        } else {
            k.db == coll.0 && k.tid == coll.1 && text::begins_with(k.name@, prefix)
        },
        None => !s.dims.contains_key(coll) && forall|name: Seq<char>| #[trigger]
            s.dims.contains_key((coll.0, coll.1, name)) ==> !text::begins_with(name, prefix),
    }
}

/// The index that a delete by node looks in: the collection's, else any index
/// over one of its fields. None when the collection has no index.
pub fn execute_vector_delete(
    reg: &VectorRegistry,
    database_id: u64,
    tid: u64,
    collection: &str,
) -> (r: Option<IndexKey>)
    ensures
        is_delete_index(reg@, (database_id, tid, collection@), r),
{
    let plain = IndexKey { db: database_id, tid, name: collection.to_owned() };
    if reg.dim_of(&plain).is_some() {
        return Some(plain);
    }
    let mut prefix = collection.to_owned();
    prefix.push(':');
    proof {
        assert(prefix@ =~= collection@ + seq![':']);
    }
    reg.find_by_prefix(database_id, tid, prefix.as_str())
}

/// What a delete takes out of an index: the node, and from the payload bitmaps
/// the field values of its row.
pub struct NodeRemoval<P> {
    pub index: IndexKey,
    pub node: u32,
    /// None for a node that is bound to no row, and for a row that cannot be read
    /// or decoded: the node goes all the same, and what is left in the bitmaps
    /// is filtered when they are read.
    pub payload: Option<P>,
}

/// Whether a removal is what the standard delete of a node comes to: the row is
/// the one that the node is bound to, under its eight-digit key.
pub open spec fn is_removal<
    P,
    S: Fn(&IndexKey, u32) -> Option<u32>,
    R: Fn(&str) -> Option<P>,
>(
    s: Registry,
    coll: registry::IndexId,
    node: u32,
    surrogate_of: S,
    fields_of: R,
    r: Option<NodeRemoval<P>>,
) -> bool {
    match r {
        None => is_delete_index(s, coll, None),
        Some(x) => {
            &&& is_delete_index(s, coll, Some(x.index))
            &&& x.node == node
            &&& exists|bound: Option<u32>|
                {
                    &&& #[trigger] surrogate_of.ensures((&x.index, node), bound)
                    &&& match bound {
                        None => x.payload is None,
                        Some(row) => exists|key: &str|
                            key@ == hex::row_key(row) && #[trigger] fields_of.ensures(
                                (key,),
                                x.payload,
                            ),
                    }
                }
        },
    }
}

/// The standard delete of a node. `surrogate_of` says which row a node of an
/// index is bound to, `fields_of` reads the fields of a row.
pub fn vector_delete_plan<P, S: Fn(&IndexKey, u32) -> Option<u32>, R: Fn(&str) -> Option<P>>(
    reg: &VectorRegistry,
    database_id: u64,
    tid: u64,
    collection: &str,
    node: u32,
    surrogate_of: &S,
    fields_of: &R,
) -> (r: Option<NodeRemoval<P>>)
    requires
        forall|k: &IndexKey, n: u32| #[trigger] surrogate_of.requires((k, n)),
        forall|key: &str| #[trigger] fields_of.requires((key,)),
    ensures
        is_removal(
            reg@,
            (database_id, tid, collection@),
            node,
            *surrogate_of,
            *fields_of,
            r,
        ),
{
    let index = match execute_vector_delete(reg, database_id, tid, collection) {
        Some(index) => index,
        None => {
            return None;
        },
    };
    let bound = surrogate_of(&index, node);
    let payload = match bound {
        Some(row) => {
            let key = hex::surrogate_to_doc_id(Surrogate(row));
            let fields = fields_of(key.as_str());
            proof {
                assert(key@ == hex::row_key(row));
            }
            fields
        },
        None => None,
    };
    let r = NodeRemoval { index, node, payload };
    proof {
        assert(surrogate_of.ensures((&r.index, node), bound));
    }
    Some(r)
}

/// What a delete by surrogate does with what its lookup found.
pub enum FoundDelete<P> {
    /// No index has the row: a success with nothing to do.
    Absent,
    /// The collection has no index to delete from.
    NoIndex,
    Remove(NodeRemoval<P>),
}

/// A node that a delete by surrogate found goes down the standard delete of the
/// collection.
pub fn delete_found_node<P, S: Fn(&IndexKey, u32) -> Option<u32>, R: Fn(&str) -> Option<P>>(
    reg: &VectorRegistry,
    database_id: u64,
    tid: u64,
    collection: &str,
    found: Option<u32>,
    surrogate_of: &S,
    fields_of: &R,
) -> (r: FoundDelete<P>)
    requires
        forall|k: &IndexKey, n: u32| #[trigger] surrogate_of.requires((k, n)),
        forall|key: &str| #[trigger] fields_of.requires((key,)),
    ensures
        match found {
            None => r is Absent,
            Some(node) => match r {
                FoundDelete::Absent => false,
                FoundDelete::NoIndex => is_removal(
                    reg@,
                    (database_id, tid, collection@),
                    node,
                    *surrogate_of,
                    *fields_of,
                    None,
                ),
                FoundDelete::Remove(x) => is_removal(
                    reg@,
                    (database_id, tid, collection@),
                    node,
                    *surrogate_of,
                    *fields_of,
                    Some(x),
                ),
            },
        },
{
    match found {
        None => FoundDelete::Absent,
        Some(node) => match vector_delete_plan(
            reg,
            database_id,
            tid,
            collection,
            node,
            surrogate_of,
            fields_of,
        ) {
            Some(x) => FoundDelete::Remove(x),
            None => FoundDelete::NoIndex,
        },
    }
}

/// The answer to a delete by node. Without an index, or where the engine had no
/// such node, there is nothing to delete.
pub fn vector_delete_reply(deleted: Option<bool>) -> (r: VectorReply)
    ensures
        r == if deleted == Some(true) {
            VectorReply::Done
        } else {
            VectorReply::Rejected(ErrorCode::NotFound)
        },
{
    match deleted {
        Some(true) => VectorReply::Done,
        _ => VectorReply::Rejected(ErrorCode::NotFound),
    }
}

/// The length of the longest prefix of vectors of the right length.
pub open spec fn good_prefix(lens: Seq<usize>, dim: usize) -> int
    decreases lens.len(),
{
    if lens.len() > 0 && lens[0] == dim {
        1 + good_prefix(lens.subrange(1, lens.len() as int), dim)
    } else {
        0
    }
}

/// What a batch insert does: the index it writes to, how many vectors from the
/// front it inserts, and how it is answered.
pub struct BatchInsert {
    pub target: Option<(IndexKey, bool, Option<HnswParams>)>,
    pub inserted: usize,
    /// The surrogate each inserted vector is bound to.
    pub surrogates: Vec<u32>,
    pub reply: Result<usize, ErrorCode>,
}

/// Insert several vectors into the index of a collection. The vectors before
/// the first of a wrong length stay inserted.
pub fn execute_vector_batch_insert(
    reg: &mut VectorRegistry,
    database_id: u64,
    tid: u64,
    collection: &str,
    lens: &Vec<usize>,
    dim: usize,
    surrogates: &Vec<u32>,
) -> (r: BatchInsert)
    ensures
        ({
            let key = (database_id, tid, collection@);
            let n = good_prefix(lens@, dim);
            if dimension_clash(old(reg)@, key, dim) {
                r.target is None && r.inserted == 0 && r.surrogates@.len() == 0 && r.reply is Err
                    && rejects_with(
                    r.reply->Err_0,
                    index_dimension_text(old(reg)@.dims[key], dim),
                ) && final(reg)@ == old(reg)@
            } else {
                &&& r.target is Some
                &&& (r.target->0).0.key() == key
                &&& (r.target->0).1 == !old(reg)@.dims.contains_key(key)
                &&& (r.target->0).2 == declared(old(reg)@, key)
                &&& final(reg)@ == with_index(old(reg)@, key, dim)
                &&& r.inserted == n
                &&& r.surrogates@ == Seq::new(
                    n as nat,
                    |i: int|
                        if i < surrogates@.len() {
                            surrogates@[i]
                        } else {
                            0
                        },
                )
                &&& if n == lens@.len() {
                    r.reply == Ok::<usize, ErrorCode>(lens@.len() as usize)
                } else {
                    r.reply is Err && rejects_with(
                        r.reply->Err_0,
                        batch_dimension_text(dim, lens@[n]),
                    )
                }
            }
        }),
{
    proof {
        reveal_strlit("");
        assert(""@.len() == 0);
    }
    match get_or_create_vector_index(reg, database_id, tid, collection, dim, "") {
        Err(e) => BatchInsert { target: None, inserted: 0, surrogates: Vec::new(), reply: Err(e) },
        Ok(target) => {
            let mut bound: Vec<u32> = Vec::new();
            let mut i: usize = 0;
            proof {
                assert(lens@.subrange(0, lens@.len() as int) =~= lens@);
            }
            while i < lens.len()
                invariant
                    i <= lens@.len(),
                    good_prefix(lens@, dim) == i + good_prefix(
                        lens@.subrange(i as int, lens@.len() as int),
                        dim,
                    ),
                    bound@ == Seq::new(
                        i as nat,
                        |j: int|
                            if j < surrogates@.len() {
                                surrogates@[j]
                            } else {
                                0
                            },
                    ),
                    target.0.key() == (database_id, tid, collection@),
                    target.1 == !old(reg)@.dims.contains_key((database_id, tid, collection@)),
                    target.2 == declared(old(reg)@, (database_id, tid, collection@)),
                    reg@ == with_index(old(reg)@, (database_id, tid, collection@), dim),
                    !dimension_clash(old(reg)@, (database_id, tid, collection@), dim),
                decreases lens.len() - i,
            {
                let ghost rest = lens@.subrange(i as int, lens@.len() as int);
                if lens[i] != dim {
                    proof {
                        assert(rest[0] == lens@[i as int]);
                    }
                    return BatchInsert {
                        target: Some(target),
                        inserted: i,
                        surrogates: bound,
                        reply: Err(two_numbers("dimension mismatch in batch: expected ", dim, lens[i])),
                    };
                }
                let s: u32 = if i < surrogates.len() {
                    surrogates[i]
                } else {
                    0
                };
                bound.push(s);
                proof {
                    assert(rest.subrange(1, rest.len() as int) =~= lens@.subrange(
                        i + 1,
                        lens@.len() as int,
                    ));
                    assert(bound@ =~= Seq::new(
                        (i + 1) as nat,
                        |j: int|
                            if j < surrogates@.len() {
                                surrogates@[j]
                            } else {
                                0
                            },
                    ));
                }
                i = i + 1;
            }
            let n: usize = lens.len();
            BatchInsert { target: Some(target), inserted: n, surrogates: bound, reply: Ok(n) }
        },
    }
}

/// An insert changes the dimension of no index that exists.
pub proof fn law_an_index_keeps_its_dimension(
    p: VectorInsert,
    before: Registry,
    after: Registry,
    reply: VectorReply,
    action: VectorAction,
    key: registry::IndexId,
)
    requires
        inserted(p, before, after, reply, action),
        before.dims.contains_key(key),
    ensures
        after.dims.contains_key(key),
        after.dims[key] == before.dims[key],
{
}

/// A refused insert changes nothing.
pub proof fn law_a_refused_insert_changes_nothing(
    p: VectorInsert,
    before: Registry,
    after: Registry,
    reply: VectorReply,
    action: VectorAction,
)
    requires
        inserted(p, before, after, reply, action),
        reply is Rejected,
    ensures
        after == before,
        action is Nothing,
{
}

/// An insert is refused exactly where the vector has another length than the
/// request says, or where a graph index of that name has another dimension; the
/// refusal tells both numbers.
pub proof fn law_when_an_insert_is_refused(
    p: VectorInsert,
    before: Registry,
    after: Registry,
    reply: VectorReply,
    action: VectorAction,
)
    requires
        inserted(p, before, after, reply, action),
    ensures
        ({
            let key = (p.database_id, p.tid, registry::index_name(p.collection@, p.field_name@));
            let ivf = before.configs.contains_key(key) && before.configs[key]
                == registry::IndexType::IvfPq;
            let clash = before.dims.contains_key(key) && before.dims[key] != p.dim;
            &&& reply is Rejected <==> p.vector_len != p.dim || (!ivf && clash)
            &&& reply is Rejected || reply is Done
            &&& p.vector_len != p.dim ==> rejects_with(
                reply->Rejected_0,
                "vector dimension mismatch: expected "@ + text::decimal(p.dim as nat) + (", got "@
                    + text::decimal(p.vector_len as nat)),
            )
            &&& p.vector_len == p.dim && !ivf && clash ==> rejects_with(
                reply->Rejected_0,
                "dimension mismatch: index has "@ + text::decimal(before.dims[key] as nat) + (
                ", got "@ + text::decimal(p.dim as nat)),
            )
        }),
{
}

/// An insert that is not refused leaves an index of the vector's dimension under
/// the name of its field, created where there was none; an index that was
/// declared as an inverted file is one, and has a graph index beside it only for
/// a vector that is bound to a row.
pub proof fn law_an_insert_leaves_its_index(
    p: VectorInsert,
    before: Registry,
    after: Registry,
    reply: VectorReply,
    action: VectorAction,
)
    requires
        inserted(p, before, after, reply, action),
        reply is Done,
    ensures
        ({
            let key = (p.database_id, p.tid, registry::index_name(p.collection@, p.field_name@));
            if before.configs.contains_key(key) && before.configs[key]
                == registry::IndexType::IvfPq {
                &&& action matches VectorAction::Ivf { key: k, create, bind }
                &&& (k.db, k.tid, k.name@) == key
                &&& create <==> !before.ivf.contains(key)
                &&& bind <==> p.surrogate != 0
                &&& after.ivf.contains(key)
                &&& after.dims.contains_key(key) <==> before.dims.contains_key(key) || p.surrogate
                    != 0
            } else {
                &&& action matches VectorAction::Hnsw { key: k, create, params }
                &&& (k.db, k.tid, k.name@) == key
                &&& create <==> !before.dims.contains_key(key)
                &&& params is Some <==> before.params.contains_key(key)
                &&& params is Some ==> params->0 == before.params[key]
                &&& after.dims.contains_key(key)
                &&& after.dims[key] == p.dim
                &&& after.ivf == before.ivf
            }
        }),
{
}

/// An insert touches no other index, and no declaration.
pub proof fn law_an_insert_spares_other_indexes(
    p: VectorInsert,
    before: Registry,
    after: Registry,
    reply: VectorReply,
    action: VectorAction,
    other: registry::IndexId,
)
    requires
        inserted(p, before, after, reply, action),
        other != (p.database_id, p.tid, registry::index_name(p.collection@, p.field_name@)),
    ensures
        after.dims.contains_key(other) == before.dims.contains_key(other),
        before.dims.contains_key(other) ==> after.dims[other] == before.dims[other],
        after.ivf.contains(other) == before.ivf.contains(other),
        after.params == before.params,
        after.configs == before.configs,
{
}

/// A batch inserts the vectors before the first one of another length.
pub proof fn law_a_batch_stops_at_the_first_misfit(lens: Seq<usize>, dim: usize)
    ensures
        0 <= good_prefix(lens, dim) <= lens.len(),
        forall|i: int| 0 <= i < good_prefix(lens, dim) ==> #[trigger] lens[i] == dim,
        good_prefix(lens, dim) < lens.len() ==> lens[good_prefix(lens, dim)] != dim,
    decreases lens.len(),
{
    if lens.len() > 0 && lens[0] == dim {
        let rest = lens.subrange(1, lens.len() as int);
        law_a_batch_stops_at_the_first_misfit(rest, dim);
        assert forall|i: int| 0 <= i < good_prefix(lens, dim) implies #[trigger] lens[i] == dim by {
            if i > 0 {
                assert(rest[i - 1] == lens[i]);
            }
        }
        if good_prefix(lens, dim) < lens.len() {
            assert(rest[good_prefix(rest, dim)] == lens[good_prefix(lens, dim)]);
        }
    }
}

/// A delete goes to the collection's own index where there is one, otherwise to
/// the index of one of its fields; to none exactly where it has neither.
pub proof fn law_a_delete_finds_an_index_of_its_collection(
    s: Registry,
    db: u64,
    tid: u64,
    coll: Seq<char>,
    r: Option<IndexKey>,
)
    requires
        is_delete_index(s, (db, tid, coll), r),
    ensures
        s.dims.contains_key((db, tid, coll)) ==> r is Some && (r->0.db, r->0.tid, r->0.name@) == (
            db,
            tid,
            coll,
        ),
        r matches Some(k) ==> s.dims.contains_key((db, tid, k.name@)) && k.db == db && k.tid == tid
            && (k.name@ == coll || exists|field: Seq<char>| k.name@ == coll + seq![':'] + field),
        r is None <==> forall|name: Seq<char>| #[trigger]
            s.dims.contains_key((db, tid, name)) ==> name != coll && !exists|field: Seq<char>|
                name == coll + seq![':'] + field,
{
    let head = coll + seq![':'];
    if r is Some {
        let k = r->0;
        if !s.dims.contains_key((db, tid, coll)) {
            assert(k.name@ =~= head + k.name@.skip(head.len() as int));
            assert(k.name@ == coll + seq![':'] + k.name@.skip(head.len() as int));
        }
        assert(k.key() == (db, tid, k.name@));
        assert(s.dims.contains_key((db, tid, k.name@)));
    } else {
        assert forall|name: Seq<char>| #[trigger] s.dims.contains_key((db, tid, name)) implies name
            != coll && !exists|field: Seq<char>| name == coll + seq![':'] + field by {
            if exists|field: Seq<char>| name == coll + seq![':'] + field {
                let field = choose|field: Seq<char>| name == coll + seq![':'] + field;
                assert(name.take(head.len() as int) =~= head);
                let id: registry::IndexId = (db, tid, coll);
                assert(s.dims.contains_key((id.0, id.1, name)));
                assert(!text::begins_with(name, id.2 + seq![':']));
            }
            assert(name != coll);
        }
    }
}

/// A removed node comes from an index of its collection, and carries a payload
/// only where a row was bound to it.
pub proof fn law_a_removal_names_its_node<
    P,
    S: Fn(&IndexKey, u32) -> Option<u32>,
    R: Fn(&str) -> Option<P>,
>(
    s: Registry,
    coll: registry::IndexId,
    node: u32,
    surrogate_of: S,
    fields_of: R,
    r: Option<NodeRemoval<P>>,
)
    requires
        is_removal(s, coll, node, surrogate_of, fields_of, r),
    ensures
        r matches Some(x) ==> {
            &&& x.node == node
            &&& s.dims.contains_key(x.index.key())
            &&& x.payload is Some ==> exists|row: u32|
                #[trigger] surrogate_of.ensures((&x.index, node), Some(row)) && exists|key: &str|
                    hex::parsed_hex_u32(key@) == Some(row) && #[trigger] fields_of.ensures(
                        (key,),
                        x.payload,
                    )
        },
{
    match r {
        None => {},
        Some(x) => {
            let bound = choose|bound: Option<u32>|
                {
                    &&& #[trigger] surrogate_of.ensures((&x.index, node), bound)
                    &&& match bound {
                        None => x.payload is None,
                        Some(row) => exists|key: &str|
                            key@ == hex::row_key(row) && #[trigger] fields_of.ensures(
                                (key,),
                                x.payload,
                            ),
                    }
                };
            match bound {
                None => {},
                Some(row) => {
                    hex::law_row_key_parses_back(row);
                    let key = choose|key: &str|
                        key@ == hex::row_key(row) && #[trigger] fields_of.ensures(
                            (key,),
                            x.payload,
                        );
                    assert(hex::parsed_hex_u32(key@) == Some(row));
                    assert(surrogate_of.ensures((&x.index, node), Some(row)));
                },
            }
        },
    }
}


} // verus!
