//! The heads of the hash chains of collections that keep one.
use crate::maps::{MapKey, VecMap};
use vstd::prelude::*;

verus! {

/// The place of a collection.
pub struct CollKey {
    pub db: u64,
    pub tid: u64,
    pub coll: String,
}

impl MapKey for CollKey {
    type Key = (u64, u64, Seq<char>);

    open spec fn key(&self) -> (u64, u64, Seq<char>) {
        (self.db, self.tid, self.coll@)
    }

    fn same(&self, other: &Self) -> (r: bool) {
        self.db == other.db && self.tid == other.tid && self.coll == other.coll
    }
}

impl CollKey {
    pub fn at(db: u64, tid: u64, coll: &str) -> (r: CollKey)
        ensures
            r.key() == (db, tid, coll@),
    {
        CollKey { db, tid, coll: coll.to_owned() }
    }
}

/// Heads by collection, as text.
pub type Heads = Map<(u64, u64, Seq<char>), Seq<char>>;

pub struct ChainHeads {
    heads: VecMap<CollKey, String>,
}

impl View for ChainHeads {
    type V = Map<(u64, u64, Seq<char>), Seq<char>>;

    closed spec fn view(&self) -> Heads {
        self.heads@.map_values(|s: String| s@)
    }
}

/// What a captured head stands for: not captured, none yet, or this one.
pub open spec fn captured(prior: Option<Option<String>>) -> Option<Option<Seq<char>>> {
    match prior {
        None => None,
        Some(None) => Some(None),
        Some(Some(s)) => Some(Some(s@)),
    }
}

/// The heads with one put back to what was captured of it.
pub open spec fn put_back(
    heads: Heads,
    key: (u64, u64, Seq<char>),
    prior: Option<Option<Seq<char>>>,
) -> Heads {
    match prior {
        None => heads,
        Some(None) => heads.remove(key),
        Some(Some(prev)) => heads.insert(key, prev),
    }
}

/// What is captured of a head.
pub open spec fn capture(heads: Heads, key: (u64, u64, Seq<char>)) -> Option<Option<Seq<char>>> {
    if heads.contains_key(key) {
        Some(Some(heads[key]))
    } else {
        Some(None)
    }
}

impl ChainHeads {
    pub fn new() -> (r: Self)
        ensures
            r@ == Map::<(u64, u64, Seq<char>), Seq<char>>::empty(),
    {
        let r = ChainHeads { heads: VecMap::new() };
        proof {
            assert(r@ =~= Map::<(u64, u64, Seq<char>), Seq<char>>::empty());
        }
        r
    }

    /// The head of a collection's chain.
    pub fn head(&self, db: u64, tid: u64, coll: &str) -> (r: Option<String>)
        ensures
            match r {
                Some(h) => self@.contains_key((db, tid, coll@)) && h@ == self@[(db, tid, coll@)],
                None => !self@.contains_key((db, tid, coll@)),
            },
    {
        match self.heads.get(&CollKey::at(db, tid, coll)) {
            Some(h) => Some(h.clone()),
            None => None,
        }
    }

    /// Set the head of a collection's chain.
    pub fn set_head(&mut self, db: u64, tid: u64, coll: &str, head: String)
        ensures
            final(self)@ == old(self)@.insert((db, tid, coll@), head@),
    {
        self.heads.insert(CollKey::at(db, tid, coll), head);
        proof {
            assert(self@ =~= old(self)@.insert((db, tid, coll@), head@));
        }
    }

    /// Take the head of a collection's chain away.
    pub fn remove_head(&mut self, db: u64, tid: u64, coll: &str)
        ensures
            final(self)@ == old(self)@.remove((db, tid, coll@)),
    {
        self.heads.remove(&CollKey::at(db, tid, coll));
        proof {
            assert(self@ =~= old(self)@.remove((db, tid, coll@)));
        }
    }

    /// Capture the head of a collection's chain before a write.
    pub fn capture_head(&self, db: u64, tid: u64, coll: &str) -> (r: Option<Option<String>>)
        ensures
            captured(r) == capture(self@, (db, tid, coll@)),
    {
        Some(self.head(db, tid, coll))
    }

    /// Put a head back after an aborted insert, where the insert had moved it.
    pub fn restore_chain_head(
        &mut self,
        mutated: bool,
        db: u64,
        tid: u64,
        coll: &str,
        prior: &Option<Option<String>>,
    )
        ensures
            final(self)@ == if mutated {
                put_back(old(self)@, (db, tid, coll@), captured(*prior))
            } else {
                old(self)@
            },
    {
        if !mutated {
            return ;
        }
        match prior {
            Some(None) => {
                self.remove_head(db, tid, coll);
            },
            Some(Some(prev)) => {
                let copy = prev.clone();
                self.set_head(db, tid, coll, copy);
            },
            None => {},
        }
    }

    /// Put a head back on rollback of a write that may have moved it.
    pub fn undo_chain_hash(&mut self, db: u64, tid: u64, coll: &str, prior: Option<Option<String>>)
        ensures
            final(self)@ == put_back(old(self)@, (db, tid, coll@), captured(prior)),
    {
        match prior {
            None => {},
            Some(None) => {
                self.remove_head(db, tid, coll);
            },
            Some(Some(prev)) => {
                self.set_head(db, tid, coll, prev);
            },
        }
    }
}

/// Putting back what was captured takes a move of the head back, whatever the
/// head was moved to.
pub proof fn law_putting_back_undoes_a_move(heads: Heads, key: (u64, u64, Seq<char>), head: Seq<char>)
    ensures
        put_back(heads.insert(key, head), key, capture(heads, key)) == heads,
{
    assert(put_back(heads.insert(key, head), key, capture(heads, key)) =~= heads);
}

/// What is captured is the head of the collection, and putting back changes the
/// head of that collection alone; where nothing was captured nothing is put back.
pub proof fn law_a_head_belongs_to_its_collection(
    heads: Heads,
    key: (u64, u64, Seq<char>),
    other: (u64, u64, Seq<char>),
    prior: Option<Option<Seq<char>>>,
)
    ensures
        capture(heads, key) is Some,
        capture(heads, key)->0 is Some <==> heads.contains_key(key),
        heads.contains_key(key) ==> capture(heads, key) == Some(Some(heads[key])),
        ({
            let after = put_back(heads, key, prior);
            &&& other != key || prior is None ==> after.contains_key(other) == heads.contains_key(
                other,
            ) && (heads.contains_key(other) ==> after[other] == heads[other])
            &&& prior is Some ==> (after.contains_key(key) <==> prior->0 is Some)
            &&& prior is Some && prior->0 is Some ==> after[key] == prior->0->0
        }),
{
}

} // verus!
