//! Grouping with a bounded number of groups in memory.
//!
//! When the groups in memory are too many, or memory runs short, they are
//! handed out as a run to be written to disk; in the end the runs and what is
//! left in memory are merged.
use crate::maps;
use crate::maps::{MapKey, TextKey, VecMap};
use vstd::prelude::*;
use vstd::string::*;
use vstd::utf8::*;

verus! {

/// What is accumulated of a group. Accumulating two parts of a group apart and
/// merging them is the same as accumulating the whole.
pub trait GroupState: Sized {
    spec fn merged(a: Self, b: Self) -> Self;

    proof fn associative(a: Self, b: Self, c: Self)
        ensures
            Self::merged(Self::merged(a, b), c) == Self::merged(a, Self::merged(b, c)),
    ;

    fn merge_from(self, other: Self) -> (r: Self)
        ensures
            r == Self::merged(self, other),
    ;
}

/// Count, minimum and maximum of a group's integers.
#[derive(Clone, Copy, Debug, PartialEq, Eq, Structural)]
pub struct Tally {
    pub count: u64,
    pub min: i64,
    pub max: i64,
}

impl Tally {
    /// The tally of one value.
    pub fn of(value: i64) -> (r: Tally)
        ensures
            r == (Tally { count: 1, min: value, max: value }),
    {
        Tally { count: 1, min: value, max: value }
    }
}

impl GroupState for Tally {
    open spec fn merged(a: Tally, b: Tally) -> Tally {
        Tally {
            count: if a.count + b.count > u64::MAX {
                u64::MAX
            } else {
                (a.count + b.count) as u64
            },
            min: if a.min <= b.min {
                a.min
            } else {
                b.min
            },
            max: if a.max >= b.max {
                a.max
            } else {
                b.max
            },
        }
    }

    proof fn associative(a: Tally, b: Tally, c: Tally) {
    }

    fn merge_from(self, other: Tally) -> (r: Tally) {
        Tally {
            count: if self.count > u64::MAX - other.count {
                u64::MAX
            } else {
                self.count + other.count
            },
            min: if self.min <= other.min {
                self.min
            } else {
                other.min
            },
            max: if self.max >= other.max {
                self.max
            } else {
                other.max
            },
        }
    }
}

/// Two parts of a group, either of which may be missing.
pub open spec fn joined<S: GroupState>(a: Option<S>, b: Option<S>) -> Option<S> {
    match (a, b) {
        (Some(x), Some(y)) => Some(S::merged(x, y)),
        (Some(x), None) => Some(x),
        (None, y) => y,
    }
}

pub open spec fn part_of<S>(groups: Map<Seq<char>, S>, k: Seq<char>) -> Option<S> {
    if groups.contains_key(k) {
        Some(groups[k])
    } else {
        None
    }
}

/// What runs hold of a group.
pub open spec fn in_runs<S: GroupState>(runs: Seq<Map<Seq<char>, S>>, k: Seq<char>) -> Option<S>
    decreases runs.len(),
{
    if runs.len() == 0 {
        None
    } else {
        joined(in_runs(runs.drop_last(), k), part_of(runs.last(), k))
    }
}

/// What was fed to a group.
pub open spec fn in_feeds<S: GroupState>(feeds: Seq<(Seq<char>, S)>, k: Seq<char>) -> Option<S>
    decreases feeds.len(),
{
    if feeds.len() == 0 {
        None
    } else {
        let init = in_feeds(feeds.drop_last(), k);
        if feeds.last().0 == k {
            joined(init, Some(feeds.last().1))
        } else {
            init
        }
    }
}

/// Whether the runs and the groups in memory together hold what was fed.
pub open spec fn hold<S: GroupState>(
    runs: Seq<Map<Seq<char>, S>>,
    groups: Map<Seq<char>, S>,
    feeds: Seq<(Seq<char>, S)>,
) -> bool {
    forall|k: Seq<char>| #[trigger]
        in_feeds(feeds, k) == joined(in_runs(runs, k), part_of(groups, k))
}

/// What the memory governor says of a request.
#[derive(Clone, Copy, Debug, PartialEq, Eq, Structural)]
pub enum MemoryAnswer {
    /// Memory is not governed.
    Ungoverned,
    Granted,
    Denied,
}

/// The state as a mathematical value.
#[verifier::ext_equal]
#[verifier::reject_recursive_types(S)]
pub struct SpillModel<S> {
    pub groups: Map<Seq<char>, S>,
    pub reservations: Seq<usize>,
    pub reserved_bytes: nat,
    pub bytes_estimate: nat,
    pub feed_counter: u64,
    pub spilled_runs: u64,
}

/// The bytes of the groups in memory.
struct Ledger {
    /// What each granted request reserved; all of it is held until the next
    /// run is handed out.
    reservations: Vec<usize>,
    reserved_bytes: usize,
    bytes_estimate: usize,
}

pub struct GroupBySpiller<S: GroupState> {
    in_mem: VecMap<TextKey, S>,
    cap: usize,
    state_bytes: usize,
    ledger: Ledger,
    feed_counter: u64,
    spilled_runs: u64,
}

pub open spec fn reserved() -> spec_fn(usize) -> nat {
    |n: usize| n as nat
}

/// The groups with one more item.
pub open spec fn with_item<S: GroupState>(
    groups: Map<Seq<char>, S>,
    k: Seq<char>,
    item: S,
) -> Map<Seq<char>, S> {
    groups.insert(
        k,
        if groups.contains_key(k) {
            S::merged(groups[k], item)
        } else {
            item
        },
    )
}

/// The state once the groups in memory are handed out; as it was where there
/// are none.
pub open spec fn spilled<S>(m: SpillModel<S>) -> SpillModel<S> {
    if m.groups.dom() == Set::<Seq<char>>::empty() {
        m
    } else {
        SpillModel {
            groups: Map::empty(),
            reservations: Seq::empty(),
            reserved_bytes: 0,
            bytes_estimate: 0,
            spilled_runs: (m.spilled_runs + 1) as u64,
            ..m
        }
    }
}

/// The state once a feed has asked for memory: every ten thousandth does, for
/// what the groups have grown by since the last request.
pub open spec fn charged<S>(m: SpillModel<S>, memory: MemoryAnswer) -> SpillModel<S> {
    let m = SpillModel { feed_counter: (m.feed_counter + 1) as u64, ..m };
    if m.feed_counter % 10_000 == 0 && m.bytes_estimate > m.reserved_bytes {
        match memory {
            MemoryAnswer::Ungoverned => m,
            MemoryAnswer::Granted => SpillModel {
                reservations: m.reservations.push((m.bytes_estimate - m.reserved_bytes) as usize),
                reserved_bytes: m.bytes_estimate,
                ..m
            },
            MemoryAnswer::Denied => spilled(m),
        }
    } else {
        m
    }
}

pub open spec fn saturated(n: int) -> nat {
    if n > usize::MAX {
        usize::MAX as nat
    } else {
        n as nat
    }
}

/// The state after a feed, given the state after its request for memory.
pub open spec fn placed<S: GroupState>(
    m: SpillModel<S>,
    cap: usize,
    state_bytes: usize,
    k: Seq<char>,
    item: S,
) -> SpillModel<S> {
    if m.groups.contains_key(k) {
        SpillModel { groups: with_item(m.groups, k, item), ..m }
    } else {
        let room = if m.groups.dom().len() >= cap {
            spilled(m)
        } else {
            m
        };
        SpillModel {
            groups: room.groups.insert(k, item),
            bytes_estimate: saturated(
                room.bytes_estimate + state_bytes + encode_utf8(k).len(),
            ),
            ..room
        }
    }
}

/// A run: groups that are handed out.
pub type Run<S> = Vec<(TextKey, S)>;

pub open spec fn is_run<S>(run: Seq<(TextKey, S)>, groups: Map<Seq<char>, S>) -> bool {
    maps::keys_unique(run) && maps::as_map(run) == groups
}

impl<S: GroupState> GroupBySpiller<S> {
    #[verifier::type_invariant]
    spec fn wf(self) -> bool {
        &&& self.cap >= 1
        &&& self.in_mem.listed().len() <= self.cap
        &&& self.ledger.reserved_bytes <= self.ledger.bytes_estimate
        &&& maps::total(self.ledger.reservations@, reserved()) == self.ledger.reserved_bytes
    }

    pub closed spec fn model(&self) -> SpillModel<S> {
        SpillModel {
            groups: self.in_mem@,
            reservations: self.ledger.reservations@,
            reserved_bytes: self.ledger.reserved_bytes as nat,
            bytes_estimate: self.ledger.bytes_estimate as nat,
            feed_counter: self.feed_counter,
            spilled_runs: self.spilled_runs,
        }
    }

    pub closed spec fn spec_cap(&self) -> usize {
        self.cap
    }

    pub closed spec fn spec_state_bytes(&self) -> usize {
        self.state_bytes
    }

    /// At most `cap` groups in memory, each counted as `state_bytes` and its
    /// key; at least one group is kept.
    pub fn new(cap: usize, state_bytes: usize) -> (r: Self)
        ensures
            r.model() == (SpillModel::<S> {
                groups: Map::empty(),
                reservations: Seq::empty(),
                reserved_bytes: 0,
                bytes_estimate: 0,
                feed_counter: 0,
                spilled_runs: 0,
            }),
            r.spec_cap() == (if cap == 0 {
                1
            } else {
                cap
            }),
            r.spec_state_bytes() == state_bytes,
    {
        let r = GroupBySpiller {
            in_mem: VecMap::new(),
            cap: if cap == 0 {
                1
            } else {
                cap
            },
            state_bytes,
            ledger: Ledger { reservations: Vec::new(), reserved_bytes: 0, bytes_estimate: 0 },
            feed_counter: 0,
            spilled_runs: 0,
        };
        proof {
            assert(r.model().reservations =~= Seq::empty());
        }
        r
    }

    pub fn spilled_runs(&self) -> (r: u64)
        ensures
            r == self.model().spilled_runs,
    {
        self.spilled_runs
    }

    pub fn reservations(&self) -> (r: &Vec<usize>)
        ensures
            r@ == self.model().reservations,
            maps::total(r@, reserved()) == self.model().reserved_bytes,
    {
        proof {
            use_type_invariant(self);
        }
        &self.ledger.reservations
    }

    pub fn reserved_bytes(&self) -> (r: usize)
        ensures
            r == self.model().reserved_bytes,
            r <= self.model().bytes_estimate,
    {
        proof {
            use_type_invariant(self);
        }
        self.ledger.reserved_bytes
    }

    pub fn bytes_estimate(&self) -> (r: usize)
        ensures
            r == self.model().bytes_estimate,
    {
        self.ledger.bytes_estimate
    }

    fn spill_current_run(&mut self) -> (r: Option<Run<S>>)
        requires
            old(self).model().spilled_runs < u64::MAX,
        ensures
            final(self).model() == spilled(old(self).model()),
            final(self).spec_cap() == old(self).spec_cap(),
            final(self).spec_state_bytes() == old(self).spec_state_bytes(),
            match r {
                Some(run) => old(self).model().groups.dom() != Set::<Seq<char>>::empty() && is_run(
                    run@,
                    old(self).model().groups,
                ),
                None => old(self).model().groups.dom() == Set::<Seq<char>>::empty(),
            },
    {
        proof {
            use_type_invariant(&*self);
            use_type_invariant(&self.in_mem);
            self.in_mem.lemma_listed();
            maps::lemma_map_len(self.in_mem.listed());
        }
        if self.in_mem.len() == 0 {
            proof {
                assert(self.model().groups.dom() =~= Set::<Seq<char>>::empty());
            }
            return None;
        }
        proof {
            let k = self.in_mem.listed()[0].0.key();
            maps::lemma_entry_in_map(self.in_mem.listed(), 0);
            assert(self.model().groups.dom().contains(k));
        }
        let mut taken: VecMap<TextKey, S> = VecMap::new();
        std::mem::swap(&mut taken, &mut self.in_mem);
        self.ledger = Ledger { reservations: Vec::new(), reserved_bytes: 0, bytes_estimate: 0 };
        self.spilled_runs = self.spilled_runs + 1;
        proof {
            assert(self.model() =~= spilled(old(self).model()));
        }
        Some(taken.into_entries())
    }

    /// Ask for what the groups in memory have grown by. Where it is denied, the
    /// groups are handed out, and with them what was reserved.
    fn charge_map_growth(&mut self, memory: MemoryAnswer) -> (r: Option<Run<S>>)
        requires
            old(self).model().spilled_runs < u64::MAX,
        ensures
            ({
                let m = old(self).model();
                let asked = m.bytes_estimate > m.reserved_bytes;
                &&& final(self).model() == if asked && memory == MemoryAnswer::Granted {
                    SpillModel {
                        reservations: m.reservations.push(
                            (m.bytes_estimate - m.reserved_bytes) as usize,
                        ),
                        reserved_bytes: m.bytes_estimate,
                        ..m
                    }
                } else if asked && memory == MemoryAnswer::Denied {
                    spilled(m)
                } else {
                    m
                }
                &&& match r {
                    Some(run) => asked && memory == MemoryAnswer::Denied && m.groups.dom()
                        != Set::<Seq<char>>::empty() && is_run(run@, m.groups),
                    None => !(asked && memory == MemoryAnswer::Denied) || m.groups.dom() == Set::<
                        Seq<char>,
                    >::empty(),
                }
            }),
            final(self).spec_cap() == old(self).spec_cap(),
            final(self).spec_state_bytes() == old(self).spec_state_bytes(),
    {
        proof {
            use_type_invariant(&*self);
        }
        let shortfall: usize = self.ledger.bytes_estimate - self.ledger.reserved_bytes;
        if shortfall == 0 {
            return None;
        }
        match memory {
            MemoryAnswer::Ungoverned => None,
            MemoryAnswer::Granted => {
                let estimate: usize = self.ledger.bytes_estimate;
                let mut ledger = Ledger {
                    reservations: Vec::new(),
                    reserved_bytes: 0,
                    bytes_estimate: 0,
                };
                std::mem::swap(&mut ledger, &mut self.ledger);
                let ghost before = ledger.reservations@;
                ledger.reservations.push(shortfall);
                ledger.reserved_bytes = estimate;
                proof {
                    maps::lemma_total_push(before, shortfall, reserved());
                }
                self.ledger = ledger;
                None
            },
            MemoryAnswer::Denied => self.spill_current_run(),
        }
    }

    /// Feed an item to a group. Where groups have to leave memory first, they
    /// are handed out.
    pub fn feed(&mut self, key: String, item: S, memory: MemoryAnswer) -> (r: Option<Run<S>>)
        requires
            old(self).model().feed_counter < u64::MAX,
            old(self).model().spilled_runs < u64::MAX - 1,
        ensures
            final(self).model() == placed(
                charged(old(self).model(), memory),
                old(self).spec_cap(),
                old(self).spec_state_bytes(),
                key@,
                item,
            ),
            final(self).spec_cap() == old(self).spec_cap(),
            final(self).spec_state_bytes() == old(self).spec_state_bytes(),
            match r {
                Some(run) => is_run(run@, old(self).model().groups) && final(self).model().groups
                    == Map::<Seq<char>, S>::empty().insert(key@, item),
                None => final(self).model().groups == with_item(
                    old(self).model().groups,
                    key@,
                    item,
                ),
            },
    {
        proof {
            use_type_invariant(&*self);
        }
        self.feed_counter = self.feed_counter + 1;
        let mut run: Option<Run<S>> = None;
        if self.feed_counter % 10_000 == 0 {
            run = self.charge_map_growth(memory);
        }
        let ghost m = charged(old(self).model(), memory);
        proof {
            assert(self.model() == m);
            use_type_invariant(&*self);
            use_type_invariant(&self.in_mem);
            self.in_mem.lemma_listed();
            maps::lemma_map_len(self.in_mem.listed());
            if run is Some {
                assert(m.groups =~= Map::<Seq<char>, S>::empty());
            }
        }
        let key_bytes: usize = key.as_str().as_bytes().len();
        let k = TextKey(key);
        let ghost kk = k.key();
        let is_new = !self.in_mem.contains(&k);
        if is_new && self.in_mem.len() >= self.cap {
            proof {
                assert(m.groups.dom().len() > 0);
                assert(run is None);
                assert(m.groups == old(self).model().groups);
            }
            run = self.spill_current_run();
        }
        let ghost room = self.model();
        proof {
            use_type_invariant(&*self);
            use_type_invariant(&self.in_mem);
            self.in_mem.lemma_listed();
            maps::lemma_map_len(self.in_mem.listed());
        }
        let mut groups: VecMap<TextKey, S> = VecMap::new();
        std::mem::swap(&mut groups, &mut self.in_mem);
        let ghost before = groups@;
        match groups.remove(&k) {
            Some(state) => {
                groups.insert(k, state.merge_from(item));
                proof {
                    assert(groups@ =~= with_item(before, kk, item));
                }
            },
            None => {
                groups.insert(k, item);
                proof {
                    assert(groups@ =~= before.insert(kk, item));
                }
            },
        }
        proof {
            use_type_invariant(&groups);
            groups.lemma_listed();
            maps::lemma_map_len(groups.listed());
            assert(groups@.dom() =~= before.dom().insert(kk));
        }
        self.in_mem = groups;
        if is_new {
            let estimate: usize = self.ledger.bytes_estimate;
            let added: usize = if self.state_bytes > usize::MAX - key_bytes {
                usize::MAX
            } else {
                self.state_bytes + key_bytes
            };
            let next: usize = if estimate > usize::MAX - added {
                usize::MAX
            } else {
                estimate + added
            };
            self.ledger.bytes_estimate = next;
        }
        proof {
            assert(self.model() =~= placed(
                m,
                old(self).spec_cap(),
                old(self).spec_state_bytes(),
                kk,
                item,
            ));
        }
        run
    }

    /// Merge the runs, in the order in which they were handed out, and the
    /// groups that are left in memory.
    pub fn finalize(self, runs: Vec<Run<S>>) -> (r: VecMap<TextKey, S>)
        requires
            forall|i: int| 0 <= i < runs@.len() ==> maps::keys_unique((#[trigger] runs@[i])@),
        ensures
            forall|k: Seq<char>| #[trigger]
                part_of(r@, k) == joined(in_runs(run_maps(runs@), k), part_of(self.model().groups, k)),
    {
        let ghost all = runs@;
        let mut out: VecMap<TextKey, S> = VecMap::new();
        for run in it: runs.into_iter()
            invariant
                it.seq() == all,
                forall|i: int| 0 <= i < all.len() ==> maps::keys_unique((#[trigger] all[i])@),
                forall|k: Seq<char>| #[trigger]
                    part_of(out@, k) == in_runs(run_maps(all).take(it.index() as int), k),
        {
            let ghost n = it.index() as int;
            let ghost before = out@;
            proof {
                let maps = run_maps(all);
                assert(maps.take(n + 1).drop_last() =~= maps.take(n));
                assert(maps.take(n + 1).last() == maps::as_map(run@));
                assert(all[n] == run);
            }
            absorb(&mut out, run);
            proof {
                assert forall|k: Seq<char>| #[trigger]
                    part_of(out@, k) == in_runs(run_maps(all).take(n + 1), k) by {
                    assert(part_of(before, k) == in_runs(run_maps(all).take(n), k));
                }
            }
        }
        proof {
            assert(run_maps(all).take(all.len() as int) =~= run_maps(all));
        }
        let ghost merged = out@;
        let rest = self.in_mem.into_entries();
        absorb(&mut out, rest);
        proof {
            assert forall|k: Seq<char>| #[trigger]
                part_of(out@, k) == joined(
                    in_runs(run_maps(all), k),
                    part_of(self.model().groups, k),
                ) by {
                assert(part_of(merged, k) == in_runs(run_maps(all), k));
            }
        }
        out
    }
}

/// The groups of each run.
pub open spec fn run_maps<S>(runs: Seq<Vec<(TextKey, S)>>) -> Seq<Map<Seq<char>, S>> {
    runs.map_values(|r: Vec<(TextKey, S)>| maps::as_map(r@))
}

fn absorb<S: GroupState>(out: &mut VecMap<TextKey, S>, run: Vec<(TextKey, S)>)
    requires
        maps::keys_unique(run@),
    ensures
        forall|k: Seq<char>| #[trigger]
            part_of(final(out)@, k) == joined(part_of(old(out)@, k), part_of(maps::as_map(run@), k)),
{
    let ghost all = run@;
    proof {
        assert forall|k: Seq<char>| #[trigger]
            part_of(out@, k) == joined(
                part_of(old(out)@, k),
                part_of(maps::as_map(all.take(0)), k),
            ) by {
            assert(!maps::holds_key(all.take(0), k));
        }
    }
    for x in it: run.into_iter()
        invariant
            it.seq() == all,
            maps::keys_unique(all),
            forall|k: Seq<char>| #[trigger]
                part_of(out@, k) == joined(
                    part_of(old(out)@, k),
                    part_of(maps::as_map(all.take(it.index() as int)), k),
                ),
    {
        let ghost n = it.index() as int;
        let ghost before = out@;
        let (k, item) = x;
        let ghost kk = k.key();
        let ghost first = all.take(n);
        proof {
            lemma_prefix_unique(all, n);
            if maps::as_map(first).contains_key(kk) {
                maps::lemma_map_has_entry(first, kk);
                let p = maps::position(first, kk);
                assert(all[p].0.key() != all[n].0.key());
            }
            maps::lemma_push_entry(first, k, item);
            assert(all.take(n + 1) =~= first.push((k, item)));
        }
        match out.remove(&k) {
            Some(state) => {
                out.insert(k, state.merge_from(item));
            },
            None => {
                out.insert(k, item);
            },
        }
        proof {
            assert forall|q: Seq<char>| #[trigger]
                part_of(out@, q) == joined(
                    part_of(old(out)@, q),
                    part_of(maps::as_map(all.take(n + 1)), q),
                ) by {
                assert(part_of(before, q) == joined(
                    part_of(old(out)@, q),
                    part_of(maps::as_map(first), q),
                ));
            }
        }
    }
    proof {
        assert(all.take(all.len() as int) =~= all);
    }
}

proof fn lemma_prefix_unique<S>(e: Seq<(TextKey, S)>, n: int)
    requires
        maps::keys_unique(e),
        0 <= n <= e.len(),
    ensures
        maps::keys_unique(e.take(n)),
{
    assert forall|i: int, j: int| 0 <= i < j < e.take(n).len() implies #[trigger] e.take(
        n,
    )[i].0.key() != #[trigger] e.take(n)[j].0.key() by {
        assert(e[i].0.key() != e[j].0.key());
    }
}

/// Feeding keeps that the runs and the groups in memory together hold what was
/// fed, whether or not groups leave memory for it.
pub proof fn law_spilling_loses_nothing<S: GroupState>(
    runs: Seq<Map<Seq<char>, S>>,
    groups: Map<Seq<char>, S>,
    feeds: Seq<(Seq<char>, S)>,
    key: Seq<char>,
    item: S,
)
    requires
        hold(runs, groups, feeds),
    ensures
        hold(runs, with_item(groups, key, item), feeds.push((key, item))),
        hold(
            runs.push(groups),
            Map::<Seq<char>, S>::empty().insert(key, item),
            feeds.push((key, item)),
        ),
{
    let more = feeds.push((key, item));
    assert(more.drop_last() =~= feeds);
    let next = with_item(groups, key, item);
    assert forall|k: Seq<char>| #[trigger]
        in_feeds(more, k) == joined(in_runs(runs, k), part_of(next, k)) by {
        assert(in_feeds(feeds, k) == joined(in_runs(runs, k), part_of(groups, k)));
        if k == key {
            match (in_runs(runs, k), part_of(groups, k)) {
                (Some(a), Some(b)) => {
                    S::associative(a, b, item);
                },
                _ => {},
            }
        }
    }
    let all = runs.push(groups);
    let fresh = Map::<Seq<char>, S>::empty().insert(key, item);
    assert forall|k: Seq<char>| #[trigger]
        in_feeds(more, k) == joined(in_runs(all, k), part_of(fresh, k)) by {
        assert(in_feeds(feeds, k) == joined(in_runs(runs, k), part_of(groups, k)));
        assert(all.drop_last() =~= runs);
    }
}

/// Merging in the end gives each group what was fed to it, as if nothing had
/// ever left memory.
pub proof fn law_finalize_gives_what_was_fed<S: GroupState>(
    runs: Seq<Map<Seq<char>, S>>,
    groups: Map<Seq<char>, S>,
    feeds: Seq<(Seq<char>, S)>,
    result: Map<Seq<char>, S>,
)
    requires
        hold(runs, groups, feeds),
        forall|k: Seq<char>| #[trigger]
            part_of(result, k) == joined(in_runs(runs, k), part_of(groups, k)),
    ensures
        forall|k: Seq<char>| #[trigger] part_of(result, k) == in_feeds(feeds, k),
{
    assert forall|k: Seq<char>| #[trigger] part_of(result, k) == in_feeds(feeds, k) by {
        assert(in_feeds(feeds, k) == joined(in_runs(runs, k), part_of(groups, k)));
    }
}

/// Tallies add their counts as far as a count reaches, and keep the least and the
/// greatest value.
pub proof fn law_tallies_add_up(a: Tally, b: Tally)
    ensures
        ({
            let t = Tally::merged(a, b);
            &&& a.count + b.count <= u64::MAX ==> t.count == a.count + b.count
            &&& a.count + b.count > u64::MAX ==> t.count == u64::MAX
            &&& t.min <= a.min && t.min <= b.min && (t.min == a.min || t.min == b.min)
            &&& t.max >= a.max && t.max >= b.max && (t.max == a.max || t.max == b.max)
        }),
{
}

/// Memory is asked for at every ten-thousandth item, where the groups take up more
/// than is reserved. What is granted is what was missing; where it is denied the
/// groups are handed out and nothing stays reserved.
pub proof fn law_memory_is_asked_for_in_steps<S: GroupState>(
    m: SpillModel<S>,
    memory: MemoryAnswer,
)
    requires
        m.feed_counter < u64::MAX,
        m.spilled_runs < u64::MAX,
        m.reserved_bytes <= m.bytes_estimate <= usize::MAX,
    ensures
        ({
            let after = charged(m, memory);
            let asks = (m.feed_counter + 1) % 10_000 == 0 && m.bytes_estimate > m.reserved_bytes;
            let held = m.groups.dom() != Set::<Seq<char>>::empty();
            &&& after.feed_counter == m.feed_counter + 1
            &&& !asks || memory is Ungoverned || (memory is Denied && !held) ==> after.groups
                == m.groups && after.reservations == m.reservations && after.reserved_bytes
                == m.reserved_bytes && after.bytes_estimate == m.bytes_estimate
                && after.spilled_runs == m.spilled_runs
            &&& asks && memory is Granted ==> after.groups == m.groups && after.reserved_bytes
                == m.bytes_estimate && after.reservations.len() == m.reservations.len() + 1
                && after.reservations.last() == m.bytes_estimate - m.reserved_bytes
                && after.bytes_estimate == m.bytes_estimate && after.spilled_runs == m.spilled_runs
            &&& asks && memory is Denied && held ==> after.groups.dom() == Set::<Seq<char>>::empty()
                && after.reservations.len() == 0 && after.reserved_bytes == 0
                && after.bytes_estimate == 0 && after.spilled_runs == m.spilled_runs + 1
        }),
{
    let after = charged(m, memory);
    assert(Map::<Seq<char>, S>::empty().dom() =~= Set::<Seq<char>>::empty());
}

/// An item goes into the group of its key. Where there is none it starts one; where
/// the groups are as many as may be kept they are handed out first, all of them, and
/// the new one is alone.
pub proof fn law_an_item_goes_into_its_group<S: GroupState>(
    m: SpillModel<S>,
    cap: usize,
    state_bytes: usize,
    k: Seq<char>,
    item: S,
    other: Seq<char>,
)
    requires
        cap > 0,
        m.groups.dom().finite(),
        m.spilled_runs < u64::MAX,
    ensures
        ({
            let after = placed(m, cap, state_bytes, k, item);
            let known = m.groups.contains_key(k);
            let full = m.groups.dom().len() >= cap;
            &&& after.groups.contains_key(k)
            &&& known ==> after.groups[k] == S::merged(m.groups[k], item) && after.bytes_estimate
                == m.bytes_estimate && after.spilled_runs == m.spilled_runs
            &&& !known ==> after.groups[k] == item
            &&& !known && !full ==> after.spilled_runs == m.spilled_runs && (m.bytes_estimate
                + state_bytes + encode_utf8(k).len() <= usize::MAX ==> after.bytes_estimate
                == m.bytes_estimate + state_bytes + encode_utf8(k).len())
            &&& !known && full ==> after.spilled_runs == m.spilled_runs + 1 && after.reserved_bytes
                == 0 && after.reservations.len() == 0 && (state_bytes + encode_utf8(k).len()
                <= usize::MAX ==> after.bytes_estimate == state_bytes + encode_utf8(k).len())
            &&& other != k && (known || !full) ==> after.groups.contains_key(other)
                == m.groups.contains_key(other) && (m.groups.contains_key(other)
                ==> after.groups[other] == m.groups[other])
            &&& other != k && !known && full ==> !after.groups.contains_key(other)
        }),
{
    if m.groups.dom() == Set::<Seq<char>>::empty() {
        assert(m.groups.dom().len() == 0);
    }
}

} // verus!
