//! Write-ahead-log records as the replays see them.
use crate::maps::{MapKey, VecMap};
use vstd::prelude::*;

verus! {

/// What a record holds.
#[derive(Clone, Copy, Debug, PartialEq, Eq, Structural)]
pub enum RecordType {
    Put,
    Delete,
    VectorPut,
    VectorDelete,
    VectorParams,
    CrdtDelta,
    TimeseriesBatch,
    ArrayPut,
    ArrayDelete,
    /// A type that no replay of this crate reads.
    Other,
}

/// One record of the log.
pub struct WalRecord {
    pub record_type: RecordType,
    pub lsn: u64,
    pub tenant_id: u64,
    pub database_id: u64,
    pub vshard_id: u32,
    pub payload: Vec<u8>,
}

/// The core that a record belongs to: its shard modulo the number of cores.
pub open spec fn target_core(vshard_id: u32, num_cores: usize) -> int {
    if num_cores > 0 {
        vshard_id as int % num_cores as int
    } else {
        0
    }
}

/// Whether a record belongs to a core.
pub fn is_routed_to(vshard_id: u32, num_cores: usize, core_id: usize) -> (r: bool)
    ensures
        r == (target_core(vshard_id, num_cores) == core_id),
{
    let target: u64 = if num_cores > 0 {
        vshard_id as u64 % num_cores as u64
    } else {
        0
    };
    target == core_id as u64
}

/// Every record belongs to exactly one of the cores.
pub proof fn law_one_core_replays_a_record(vshard_id: u32, num_cores: usize, a: usize, b: usize)
    requires
        num_cores > 0,
    ensures
        0 <= target_core(vshard_id, num_cores) < num_cores,
        target_core(vshard_id, num_cores) == a && target_core(vshard_id, num_cores) == b ==> a == b,
{
    vstd::arithmetic::div_mod::lemma_mod_bound(vshard_id as int, num_cores as int);
}

/// A collection of a tenant.
pub struct TenantCollection {
    pub tenant_id: u64,
    pub collection: String,
}

impl MapKey for TenantCollection {
    type Key = (u64, Seq<char>);

    open spec fn key(&self) -> (u64, Seq<char>) {
        (self.tenant_id, self.collection@)
    }

    fn same(&self, other: &Self) -> (r: bool) {
        self.tenant_id == other.tenant_id && self.collection == other.collection
    }
}

/// The collections that were purged, each with the LSN of its purge. A record
/// below the purge of its collection must not be replayed.
pub struct TombstoneSet {
    purged: VecMap<TenantCollection, u64>,
}

impl TombstoneSet {
    /// The LSN at which each purged collection was purged last.
    pub closed spec fn purges(&self) -> Map<(u64, Seq<char>), u64> {
        self.purged@
    }

    /// Whether a record of a collection falls to a purge.
    pub open spec fn covers(&self, tenant_id: u64, collection: Seq<char>, lsn: u64) -> bool {
        self.purges().contains_key((tenant_id, collection)) && lsn < self.purges()[(
            tenant_id,
            collection,
        )]
    }

    pub fn new() -> (r: Self)
        ensures
            r.purges() == Map::<(u64, Seq<char>), u64>::empty(),
            forall|t: u64, c: Seq<char>, l: u64| !(#[trigger] r.covers(t, c, l)),
    {
        TombstoneSet { purged: VecMap::new() }
    }

    /// Note a purge; the latest one of a collection counts.
    pub fn note_purge(&mut self, tenant_id: u64, collection: &str, purge_lsn: u64)
        ensures
            final(self).purges() == old(self).purges().insert(
                (tenant_id, collection@),
                if old(self).purges().contains_key((tenant_id, collection@)) && old(
                    self,
                ).purges()[(tenant_id, collection@)] > purge_lsn {
                    old(self).purges()[(tenant_id, collection@)]
                } else {
                    purge_lsn
                },
            ),
            forall|t: u64, c: Seq<char>, l: u64| #[trigger]
                final(self).covers(t, c, l) <==> old(self).covers(t, c, l) || (t == tenant_id && c
                    == collection@ && l < purge_lsn),
    {
        let key = TenantCollection { tenant_id, collection: collection.to_owned() };
        let lsn: u64 = match self.purged.get(&key) {
            Some(prior) => if *prior > purge_lsn {
                *prior
            } else {
                purge_lsn
            },
            None => purge_lsn,
        };
        self.purged.insert(key, lsn);
    }

    pub fn is_tombstoned(&self, tenant_id: u64, collection: &str, lsn: u64) -> (r: bool)
        ensures
            r == self.covers(tenant_id, collection@, lsn),
    {
        let key = TenantCollection { tenant_id, collection: collection.to_owned() };
        match self.purged.get(&key) {
            Some(purge) => lsn < *purge,
            None => false,
        }
    }
}

/// The cores take the shards in turn: the core of a shard is what is left of its
/// number when whole rounds over the cores are taken off. Without cores it is the
/// first one.
pub proof fn law_shards_go_round_the_cores(vshard_id: u32, num_cores: usize)
    ensures
        num_cores == 0 ==> target_core(vshard_id, num_cores) == 0,
        num_cores > 0 ==> exists|rounds: int|
            0 <= rounds && #[trigger] (rounds * num_cores) + target_core(vshard_id, num_cores)
                == vshard_id,
        num_cores > 0 && vshard_id < num_cores ==> target_core(vshard_id, num_cores) == vshard_id,
        num_cores > 0 && vshard_id + num_cores <= u32::MAX ==> target_core(
            (vshard_id + num_cores) as u32,
            num_cores,
        ) == target_core(vshard_id, num_cores),
{
    if num_cores > 0 {
        let v = vshard_id as int;
        let n = num_cores as int;
        vstd::arithmetic::div_mod::lemma_fundamental_div_mod(v, n);
        vstd::arithmetic::div_mod::lemma_div_pos_is_pos(v, n);
        vstd::arithmetic::mul::lemma_mul_is_commutative(n, v / n);
        assert((v / n) * num_cores + target_core(vshard_id, num_cores) == vshard_id);
        if v < n {
            vstd::arithmetic::div_mod::lemma_small_mod(vshard_id as nat, num_cores as nat);
        }
        vstd::arithmetic::div_mod::lemma_mod_add_multiples_vanish(v, n);
    }
}

} // verus!
