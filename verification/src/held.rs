//! What a core keeps in memory of a collection beside its engines.
use crate::maps;
use crate::maps::{MapKey, VecMap};
use crate::text;
use vstd::prelude::*;
use vstd::string::*;

verus! {

/// A kind of thing that is kept.
#[derive(Clone, Copy, Debug, PartialEq, Eq, Structural)]
pub enum HeldKind {
    /// The sparse-vector index of a field.
    SparseVectorIndex,
    /// The surrogates of the flushed columnar segments.
    FlushedSurrogates,
    /// The last values of the timeseries.
    LastValues,
    /// A document as it was last read or written.
    CachedDocument,
    /// What the collection declares of its documents.
    DocumentConfig,
    /// An aggregate as it was last computed.
    CachedAggregate,
}

/// Kind, database, tenant, collection, and the part of the collection: a field, a
/// row, an aggregate; empty for what there is one of.
pub type HeldId = (HeldKind, u64, u64, Seq<char>, Seq<char>);

/// One thing that is kept.
pub struct HeldKey {
    pub kind: HeldKind,
    pub db: u64,
    pub tid: u64,
    pub coll: String,
    pub part: String,
}

impl MapKey for HeldKey {
    type Key = HeldId;

    open spec fn key(&self) -> HeldId {
        (self.kind, self.db, self.tid, self.coll@, self.part@)
    }

    fn same(&self, other: &Self) -> (r: bool) {
        self.kind == other.kind && self.db == other.db && self.tid == other.tid && self.coll
            == other.coll && self.part == other.part
    }
}

/// Whether a thing is not one of a collection.
pub open spec fn elsewhere(coll: maps::CollId) -> spec_fn(HeldId) -> bool {
    |k: HeldId| !(k.1 == coll.0 && k.2 == coll.1 && k.3 == coll.2)
}

/// Whether a thing stays when a collection is cleared: what is of another
/// collection, and the collection's definition where that is preserved.
pub open spec fn stays(coll: maps::CollId, preserve_definition: bool) -> spec_fn(HeldId) -> bool {
    |k: HeldId| elsewhere(coll)(k) || (preserve_definition && k.0 == HeldKind::DocumentConfig)
}

/// What is kept without a collection.
pub open spec fn without_collection(
    held: Set<HeldId>,
    coll: maps::CollId,
    preserve_definition: bool,
) -> Set<HeldId> {
    held.filter(stays(coll, preserve_definition))
}

/// Whether a thing is not of a kind in a collection.
pub open spec fn of_no_kind(kind: HeldKind, coll: maps::CollId) -> spec_fn(HeldId) -> bool {
    |k: HeldId| k.0 != kind || elsewhere(coll)(k)
}

/// What is kept.
pub struct HeldState {
    entries: VecMap<HeldKey, ()>,
}

impl View for HeldState {
    type V = Set<HeldId>;

    closed spec fn view(&self) -> Set<HeldId> {
        self.entries@.dom()
    }
}

impl HeldState {
    pub fn new() -> (r: Self)
        ensures
            r@ == Set::<HeldId>::empty(),
    {
        let r = HeldState { entries: VecMap::new() };
        proof {
            assert(r@ =~= Set::empty());
        }
        r
    }

    /// Keep a thing.
    pub fn hold(&mut self, key: HeldKey)
        ensures
            final(self)@ == old(self)@.insert(key.key()),
    {
        self.entries.insert(key, ());
        proof {
            assert(self@ =~= old(self)@.insert(key.key()));
        }
    }

    /// Whether a thing is kept.
    pub fn holds(&self, key: &HeldKey) -> (r: bool)
        ensures
            r == self@.contains(key.key()),
    {
        self.entries.contains(key)
    }

    /// Forget a thing.
    pub fn drop_one(&mut self, key: &HeldKey)
        ensures
            final(self)@ == old(self)@.remove(key.key()),
    {
        self.entries.remove(key);
        proof {
            assert(self@ =~= old(self)@.remove(key.key()));
        }
    }

    /// Forget all of a kind in a collection.
    pub fn drop_kind(&mut self, kind: HeldKind, db: u64, tid: u64, coll: &str)
        ensures
            final(self)@ == old(self)@.filter(of_no_kind(kind, (db, tid, coll@))),
    {
        let ghost pred = of_no_kind(kind, (db, tid, coll@));
        let keep = |k: &HeldKey| -> (b: bool)
            ensures
                b == pred(k.key()),
            {
                k.kind != kind || !(k.db == db && k.tid == tid && text::same_text(
                    k.coll.as_str(),
                    coll,
                ))
            };
        self.entries.retain(keep, Ghost(pred));
        proof {
            assert(self@ =~= old(self)@.filter(pred));
        }
    }

    /// Forget a collection, except for its definition where that is preserved.
    pub fn clear_collection(&mut self, db: u64, tid: u64, coll: &str, preserve_definition: bool)
        ensures
            final(self)@ == without_collection(old(self)@, (db, tid, coll@), preserve_definition),
    {
        let ghost pred = stays((db, tid, coll@), preserve_definition);
        let keep = |k: &HeldKey| -> (b: bool)
            ensures
                b == pred(k.key()),
            {
                !(k.db == db && k.tid == tid && text::same_text(k.coll.as_str(), coll)) || (
                preserve_definition && k.kind == HeldKind::DocumentConfig)
            };
        self.entries.retain(keep, Ghost(pred));
        proof {
            assert(self@ =~= without_collection(
                old(self)@,
                (db, tid, coll@),
                preserve_definition,
            ));
        }
    }
}

/// Clearing a collection drops what is held of it, but for what it declares where
/// that is to stay; what is held of other collections stays.
pub proof fn law_clearing_drops_what_is_held(
    held: Set<HeldId>,
    db: u64,
    tid: u64,
    coll: Seq<char>,
    preserve_definition: bool,
    k: HeldId,
)
    ensures
        without_collection(held, (db, tid, coll), preserve_definition).contains(k)
            <==> held.contains(k) && (k.1 != db || k.2 != tid || k.3 != coll || (
        preserve_definition && k.0 == HeldKind::DocumentConfig)),
{
}

/// Dropping one kind drops it for one collection and nothing else.
pub proof fn law_dropping_a_kind_spares_the_others(
    held: Set<HeldId>,
    kind: HeldKind,
    db: u64,
    tid: u64,
    coll: Seq<char>,
    k: HeldId,
)
    ensures
        held.filter(of_no_kind(kind, (db, tid, coll))).contains(k) <==> held.contains(k) && !(k.0
            == kind && k.1 == db && k.2 == tid && k.3 == coll),
{
}

} // verus!
