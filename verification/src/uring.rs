//! Batched reads of files through a submission ring: which buffer each read gets,
//! when reads are handed to the kernel, how long completions are waited for, and
//! which buffers come back to the pool.
//!
//! The ring itself is outside. [`ReadLoop`] says what to do with it next, and is
//! told what came of it.
use vstd::prelude::*;

verus! {

/// Consecutive waits without progress before a batch is given up.
pub const MAX_STALLED_WAITS: u32 = 8;

/// The urgency of a request.
#[derive(Clone, Copy, Debug, PartialEq, Eq, Structural)]
pub enum Priority {
    Background,
    Normal,
    High,
    Critical,
}

/// The bucket that waits are counted in.
#[derive(Clone, Copy, Debug, PartialEq, Eq, Structural)]
pub enum Tier {
    Low,
    High,
    Critical,
}

/// The bucket of a priority.
pub fn tier_of(priority: Priority) -> (r: Tier)
    ensures
        r == (match priority {
            Priority::Background | Priority::Normal => Tier::Low,
            Priority::High => Tier::High,
            Priority::Critical => Tier::Critical,
        }),
{
    match priority {
        Priority::Background => Tier::Low,
        Priority::Normal => Tier::Low,
        Priority::High => Tier::High,
        Priority::Critical => Tier::Critical,
    }
}

/// The least multiple of `alignment` that is no less than `size`.
pub open spec fn rounded_up(size: int, alignment: int) -> int {
    if size % alignment == 0 {
        size
    } else {
        size + (alignment - size % alignment)
    }
}

/// The bytes to ask for: the size of the file, rounded up, within the buffer.
pub fn round_up_read(size: usize, alignment: usize, capacity: usize) -> (r: usize)
    requires
        alignment > 0,
    ensures
        r == if rounded_up(size as int, alignment as int) <= capacity {
            rounded_up(size as int, alignment as int)
        } else {
            capacity as int
        },
{
    let over: usize = size % alignment;
    let pad: usize = if over == 0 {
        0
    } else {
        alignment - over
    };
    if size <= capacity && pad <= capacity - size {
        size + pad
    } else {
        capacity
    }
}

/// Rounding gives a multiple of the alignment that is less than one step away.
pub proof fn law_rounding_aligns(size: int, alignment: int)
    requires
        size >= 0,
        alignment > 0,
    ensures
        rounded_up(size, alignment) % alignment == 0,
        size <= rounded_up(size, alignment) < size + alignment,
{
    let m = size % alignment;
    vstd::arithmetic::div_mod::lemma_mod_bound(size, alignment);
    if m != 0 {
        vstd::arithmetic::div_mod::lemma_fundamental_div_mod(size, alignment);
        let q = size / alignment;
        assert(size + (alignment - m) == alignment * q + alignment);
        assert(alignment * q + alignment == (q + 1) * alignment) by (nonlinear_arith);
        vstd::arithmetic::div_mod::lemma_mod_multiples_basic(q + 1, alignment);
    }
}

/// Where a read puts its bytes.
#[derive(Clone, Copy, Debug, PartialEq, Eq, Structural)]
pub enum BufSource {
    /// A buffer of the pool.
    Pool(usize),
    /// A buffer of its own, by its number within the batch.
    Oversized(usize),
    /// There is nothing to read, or no buffer could be had.
    Nowhere,
}

/// A read of one file.
#[derive(Clone, Copy, Debug, PartialEq, Eq, Structural)]
pub struct PlannedRead {
    pub size: usize,
    pub source: BufSource,
}

/// How far a read has come.
#[derive(Clone, Copy, Debug, PartialEq, Eq, Structural)]
pub enum ReadState {
    /// The kernel has not seen its buffer.
    NotSubmitted,
    /// The kernel may write into its buffer.
    InFlight,
    Done,
    Failed,
}

/// What to do about a file.
#[derive(Clone, Copy, Debug, PartialEq, Eq, Structural)]
pub enum Assigned {
    /// Nothing: it could not be opened, or is empty.
    Skip,
    /// Read it into a buffer of the pool.
    Pool(usize),
    /// Get a buffer of this size for it.
    Allocate(usize),
}

/// The free buffers of a reader.
pub struct BufferPool {
    free: Vec<usize>,
    slots: usize,
    buf_size: usize,
    queue_depth: usize,
}

impl BufferPool {
    /// The free buffers, the next to be lent last.
    pub closed spec fn free(&self) -> Seq<usize> {
        self.free@
    }

    pub closed spec fn slots(&self) -> nat {
        self.slots as nat
    }

    pub closed spec fn buf_size(&self) -> usize {
        self.buf_size
    }

    pub closed spec fn queue_depth(&self) -> usize {
        self.queue_depth
    }

    /// A pool of as many buffers as could be had. A reader without buffers is no
    /// reader, and a ring holds at least one entry.
    pub fn with_config(queue_depth: usize, allocated: usize, buf_size: usize) -> (r: Option<Self>)
        ensures
            r is None == (allocated == 0),
            r matches Some(pool) ==> {
                &&& pool.free() == Seq::new(allocated as nat, |i: int| i as usize)
                &&& pool.slots() == allocated
                &&& pool.buf_size() == buf_size
                &&& pool.queue_depth() == if queue_depth == 0 {
                    1
                } else {
                    queue_depth
                }
            },
    {
        if allocated == 0 {
            return None;
        }
        let mut free: Vec<usize> = Vec::new();
        let mut i: usize = 0;
        while i < allocated
            invariant
                i <= allocated,
                free@ == Seq::new(i as nat, |j: int| j as usize),
            decreases allocated - i,
        {
            free.push(i);
            proof {
                assert(free@ =~= Seq::new((i + 1) as nat, |j: int| j as usize));
            }
            i = i + 1;
        }
        let depth: usize = if queue_depth == 0 {
            1
        } else {
            queue_depth
        };
        Some(BufferPool { free, slots: allocated, buf_size, queue_depth: depth })
    }

    pub fn available(&self) -> (r: usize)
        ensures
            r == self.free().len(),
    {
        self.free.len()
    }

    pub fn depth(&self) -> (r: usize)
        ensures
            r == self.queue_depth(),
    {
        self.queue_depth
    }

    /// Assign a buffer to a file of a size; none where it could not be opened. A
    /// file that fits takes a buffer of the pool, while there is one.
    pub fn assign(&mut self, size: Option<usize>) -> (r: Assigned)
        ensures
            final(self).slots() == old(self).slots(),
            final(self).buf_size() == old(self).buf_size(),
            final(self).queue_depth() == old(self).queue_depth(),
            match size {
                None => r == Assigned::Skip && final(self).free() == old(self).free(),
                Some(n) => if n == 0 {
                    r == Assigned::Skip && final(self).free() == old(self).free()
                } else if n <= old(self).buf_size() && old(self).free().len() > 0 {
                    r == Assigned::Pool(old(self).free().last()) && final(self).free() == old(
                        self,
                    ).free().drop_last()
                } else {
                    r == Assigned::Allocate(n) && final(self).free() == old(self).free()
                },
            },
    {
        let n: usize = match size {
            None => {
                return Assigned::Skip;
            },
            Some(n) => n,
        };
        if n == 0 {
            return Assigned::Skip;
        }
        if n <= self.buf_size {
            match self.free.pop() {
                Some(slot) => {
                    return Assigned::Pool(slot);
                },
                None => {},
            }
        }
        Assigned::Allocate(n)
    }

    /// Take back the buffers of a finished batch, and say which reads have their
    /// bytes. A buffer that the kernel may still write into is withheld.
    pub fn finish(&mut self, reads: &Vec<PlannedRead>, states: &Vec<ReadState>) -> (r: Vec<bool>)
        requires
            states@.len() == reads@.len(),
        ensures
            final(self).free() == old(self).free() + returned(reads@, states@),
            final(self).slots() == old(self).slots(),
            final(self).buf_size() == old(self).buf_size(),
            final(self).queue_depth() == old(self).queue_depth(),
            r@.len() == reads@.len(),
            forall|i: int|
                0 <= i < r@.len() ==> #[trigger] r@[i] == has_bytes(reads@[i], states@[i]),
    {
        let mut read: Vec<bool> = Vec::new();
        let mut i: usize = 0;
        proof {
            assert(reads@.take(0) =~= Seq::empty());
            assert(self.free() + returned(reads@.take(0), states@.take(0)) =~= self.free());
        }
        while i < reads.len()
            invariant
                i <= reads@.len(),
                states@.len() == reads@.len(),
                self.free() == old(self).free() + returned(
                    reads@.take(i as int),
                    states@.take(i as int),
                ),
                self.slots() == old(self).slots(),
                self.buf_size() == old(self).buf_size(),
                self.queue_depth() == old(self).queue_depth(),
                read@.len() == i,
                forall|j: int|
                    0 <= j < i ==> #[trigger] read@[j] == has_bytes(reads@[j], states@[j]),
            decreases reads.len() - i,
        {
            let ghost before = self.free();
            proof {
                assert(reads@.take(i + 1).drop_last() =~= reads@.take(i as int));
                assert(states@.take(i + 1).drop_last() =~= states@.take(i as int));
            }
            let planned: PlannedRead = reads[i];
            let state: ReadState = states[i];
            let bytes: bool = match planned.source {
                BufSource::Nowhere => false,
                BufSource::Oversized(_) => state == ReadState::Done,
                BufSource::Pool(slot) => {
                    if state != ReadState::InFlight {
                        self.free.push(slot);
                        proof {
                            assert(self.free() =~= before.push(slot));
                        }
                    }
                    state == ReadState::Done
                },
            };
            proof {
                assert(self.free() =~= old(self).free() + returned(
                    reads@.take(i + 1),
                    states@.take(i + 1),
                ));
            }
            read.push(bytes);
            i = i + 1;
        }
        proof {
            assert(reads@.take(reads@.len() as int) =~= reads@);
            assert(states@.take(states@.len() as int) =~= states@);
        }
        read
    }
}

/// Whether a read has its bytes: it has a buffer, and the kernel has filled it.
pub open spec fn has_bytes(read: PlannedRead, state: ReadState) -> bool {
    read.source != BufSource::Nowhere && state == ReadState::Done
}

/// The pool buffers of reads, in order.
pub open spec fn lent(reads: Seq<PlannedRead>) -> Seq<usize>
    decreases reads.len(),
{
    if reads.len() == 0 {
        Seq::empty()
    } else {
        let before = lent(reads.drop_last());
        match reads.last().source {
            BufSource::Pool(slot) => before.push(slot),
            _ => before,
        }
    }
}

/// The pool buffers that come back, in order: those that the kernel is done with
/// or never had.
pub open spec fn returned(reads: Seq<PlannedRead>, states: Seq<ReadState>) -> Seq<usize>
    decreases reads.len(),
{
    if reads.len() == 0 {
        Seq::empty()
    } else {
        let before = returned(reads.drop_last(), states.drop_last());
        match reads.last().source {
            BufSource::Pool(slot) => if states.last() != ReadState::InFlight {
                before.push(slot)
            } else {
                before
            },
            _ => before,
        }
    }
}

/// Every pool buffer that comes back was lent, and none twice: where no buffer
/// was both free and lent, none is free twice afterwards.
pub proof fn law_no_buffer_is_free_twice(
    free: Seq<usize>,
    reads: Seq<PlannedRead>,
    states: Seq<ReadState>,
)
    requires
        states.len() == reads.len(),
        (free + lent(reads)).no_duplicates(),
    ensures
        (free + returned(reads, states)).no_duplicates(),
        forall|s: usize| #[trigger]
            returned(reads, states).contains(s) ==> lent(reads).contains(s),
    decreases reads.len(),
{
    if reads.len() > 0 {
        let r0 = reads.drop_last();
        let s0 = states.drop_last();
        let l0 = lent(r0);
        let l = lent(reads);
        let all = free + l;
        let all0 = free + l0;
        assert forall|i: int, j: int| 0 <= i < all0.len() && 0 <= j < all0.len() && i != j implies all0[i]
            != all0[j] by {
            assert(all0[i] == all[i] && all0[j] == all[j]);
        }
        law_no_buffer_is_free_twice(free, r0, s0);
        let b0 = returned(r0, s0);
        let b = returned(reads, states);
        match reads.last().source {
            BufSource::Pool(slot) => {
                assert(l == l0.push(slot));
                assert(l[l0.len() as int] == slot);
                assert(all[all.len() - 1] == slot);
                assert forall|s: usize| #[trigger] b.contains(s) implies l.contains(s) by {
                    if b0.contains(s) {
                        assert(l0.contains(s));
                        let i = choose|i: int| 0 <= i < l0.len() && l0[i] == s;
                        assert(l[i] == s);
                    } else {
                        let i = choose|i: int| 0 <= i < b.len() && b[i] == s;
                        if i < b0.len() {
                            assert(b0[i] == s);
                        }
                        assert(s == slot);
                    }
                }
                if states.last() != ReadState::InFlight {
                    let back = free + b;
                    let back0 = free + b0;
                    assert forall|i: int, j: int|
                        0 <= i < back.len() && 0 <= j < back.len() && i != j implies back[i]
                        != back[j] by {
                        let last = back.len() - 1;
                        assert(back[last] == slot);
                        assert forall|k: int| 0 <= k < last implies back[k] != slot by {
                            if k < free.len() {
                                assert(all[k] == back[k]);
                            } else {
                                let s = back[k];
                                assert(b0[k - free.len()] == s);
                                assert(b0.contains(s));
                                assert(l0.contains(s));
                                let q = choose|q: int| 0 <= q < l0.len() && l0[q] == s;
                                assert(all[free.len() + q] == s);
                            }
                        }
                        if i < last && j < last {
                            assert(back[i] == back0[i] && back[j] == back0[j]);
                        }
                    }
                }
            },
            _ => {
                assert(l == l0);
                assert(b == b0);
            },
        }
    }
}

/// A batch whose reads are all finished gives every buffer back.
pub proof fn law_a_finished_batch_gives_its_buffers_back(
    reads: Seq<PlannedRead>,
    states: Seq<ReadState>,
)
    requires
        states.len() == reads.len(),
        forall|i: int| 0 <= i < states.len() ==> #[trigger] states[i] != ReadState::InFlight,
    ensures
        returned(reads, states) == lent(reads),
    decreases reads.len(),
{
    if reads.len() > 0 {
        assert(states[states.len() - 1] != ReadState::InFlight);
        law_a_finished_batch_gives_its_buffers_back(reads.drop_last(), states.drop_last());
    }
}

/// What is done with the ring next.
#[derive(Clone, Copy, Debug, PartialEq, Eq, Structural)]
pub enum Action {
    /// Hand what is queued to the kernel, and reap what is ready.
    Flush,
    /// Hand over what is queued, wait for this many completions, and reap.
    Wait(usize),
    /// Queue the read with this number.
    Push(usize),
    /// Nothing: the batch is over.
    Finish,
}

/// Where a batch stands.
#[derive(Clone, Copy, Debug, PartialEq, Eq, Structural)]
pub enum Stage {
    /// The ring is full: hand over what is queued.
    MakeRoom,
    /// It is still full: wait for a completion.
    AwaitRoom,
    /// Queue the next read.
    Push,
    /// It could not be queued: hand over what is queued, and try once more.
    Refill,
    PushAgain,
    /// All reads were queued: wait for what is outstanding.
    Drain,
    Finished,
}

/// A completion: the number of its read, and whether the kernel failed it.
#[derive(Clone, Copy, Debug, PartialEq, Eq, Structural)]
pub struct Completion {
    pub index: usize,
    pub failed: bool,
}

/// The states of reads after completions, in turn. A completion of no read of
/// the batch changes none.
pub open spec fn completed(states: Seq<ReadState>, done: Seq<Completion>) -> Seq<ReadState>
    decreases done.len(),
{
    if done.len() == 0 {
        states
    } else {
        let before = completed(states, done.drop_last());
        let c = done.last();
        if c.index < before.len() {
            before.update(
                c.index as int,
                if c.failed {
                    ReadState::Failed
                } else {
                    ReadState::Done
                },
            )
        } else {
            before
        }
    }
}

/// How many reads are queued and how many are with the kernel.
#[derive(Clone, Copy, Debug, PartialEq, Eq, Structural)]
pub struct Counts {
    pub queued: usize,
    pub in_flight: usize,
}

pub open spec fn outstanding(c: Counts) -> int {
    c.queued + c.in_flight
}

/// The counts after the kernel took `n` entries; none where it refused.
pub open spec fn submitted(c: Counts, n: Option<usize>) -> Counts {
    match n {
        None => c,
        Some(n) => {
            let taken = if n <= c.queued {
                n
            } else {
                c.queued
            };
            Counts {
                queued: (c.queued - taken) as usize,
                in_flight: (c.in_flight + taken) as usize,
            }
        },
    }
}

/// The counts after `n` completions.
pub open spec fn reaped(c: Counts, n: nat) -> Counts {
    Counts {
        queued: c.queued,
        in_flight: if n <= c.in_flight {
            (c.in_flight - n) as usize
        } else {
            0
        },
    }
}

/// What came of handing over what is queued. A submission that is refused is
/// tried again behind a reaping.
pub struct Flushed {
    pub first: Option<usize>,
    /// What was reaped between the two submissions.
    pub between: Vec<Completion>,
    pub second: Option<usize>,
    /// What was reaped at the end.
    pub after: Vec<Completion>,
}

/// The counts after what is queued was handed over.
pub open spec fn flushed(c: Counts, f: Flushed) -> Counts {
    let handed = if c.queued == 0 {
        c
    } else if f.first is Some {
        submitted(c, f.first)
    } else {
        submitted(reaped(c, f.between@.len()), f.second)
    };
    reaped(handed, f.after@.len())
}

/// The states after what is queued was handed over.
pub open spec fn flushed_states(c: Counts, states: Seq<ReadState>, f: Flushed) -> Seq<ReadState> {
    if c.queued == 0 || f.first is Some {
        completed(states, f.after@)
    } else {
        completed(completed(states, f.between@), f.after@)
    }
}

/// A batch of reads on its way through the ring.
pub struct ReadLoop {
    pub reads: Vec<PlannedRead>,
    pub states: Vec<ReadState>,
    pub counts: Counts,
    /// The read that is queued next.
    pub next: usize,
    pub stage: Stage,
    pub stalled: u32,
    pub depth: usize,
}

/// The first read from `i` on that has a buffer.
pub open spec fn next_read(reads: Seq<PlannedRead>, i: int) -> int
    decreases reads.len() - i,
{
    if 0 <= i < reads.len() && reads[i].source == BufSource::Nowhere {
        next_read(reads, i + 1)
    } else {
        i
    }
}

/// Where a batch stands when it comes to a read.
pub open spec fn stage_at(reads: Seq<PlannedRead>, next: int, c: Counts, depth: usize) -> Stage {
    if next >= reads.len() {
        if outstanding(c) == 0 {
            Stage::Finished
        } else {
            Stage::Drain
        }
    } else if outstanding(c) >= depth {
        Stage::MakeRoom
    } else {
        Stage::Push
    }
}

impl ReadLoop {
    pub open spec fn wf(&self) -> bool {
        &&& self.states@.len() == self.reads@.len()
        &&& self.next <= self.reads@.len()
        &&& outstanding(self.counts) <= self.next
        &&& self.stalled <= MAX_STALLED_WAITS
        &&& match self.stage {
            Stage::Drain => self.next == self.reads@.len() && self.stalled < MAX_STALLED_WAITS,
            Stage::Finished => self.next == self.reads@.len(),
            _ => self.next < self.reads@.len() && self.reads@[self.next as int].source
                != BufSource::Nowhere && self.stalled == 0,
        }
    }

    /// Whether the batch came to its next read, or its end, from `i` on.
    pub open spec fn enters(&self, i: int) -> bool {
        &&& self.next == next_read(self.reads@, i)
        &&& self.stage == stage_at(self.reads@, self.next as int, self.counts, self.depth)
        &&& self.stalled == 0
    }

    /// Whether the parts that no step changes are the same.
    pub open spec fn same_batch(&self, other: ReadLoop) -> bool {
        self.reads@ == other.reads@ && self.depth == other.depth
    }

    /// Start a batch.
    pub fn start(reads: Vec<PlannedRead>, depth: usize) -> (r: ReadLoop)
        ensures
            r.wf(),
            r.reads@ == reads@,
            r.depth == depth,
            r.states@ == Seq::new(reads@.len(), |i: int| ReadState::NotSubmitted),
            r.counts == (Counts { queued: 0, in_flight: 0 }),
            r.enters(0),
    {
        let mut states: Vec<ReadState> = Vec::new();
        let mut i: usize = 0;
        while i < reads.len()
            invariant
                i <= reads@.len(),
                states@ == Seq::new(i as nat, |j: int| ReadState::NotSubmitted),
            decreases reads.len() - i,
        {
            states.push(ReadState::NotSubmitted);
            proof {
                assert(states@ =~= Seq::new((i + 1) as nat, |j: int| ReadState::NotSubmitted));
            }
            i = i + 1;
        }
        let mut r = ReadLoop {
            reads,
            states,
            counts: Counts { queued: 0, in_flight: 0 },
            next: 0,
            stage: Stage::Finished,
            stalled: 0,
            depth,
        };
        r.enter(0);
        r
    }

    /// Come to the first read from `from` on that has a buffer.
    fn enter(&mut self, from: usize)
        requires
            old(self).states@.len() == old(self).reads@.len(),
            from <= old(self).reads@.len(),
            outstanding(old(self).counts) <= from,
        ensures
            final(self).wf(),
            final(self).enters(from as int),
            final(self).same_batch(*old(self)),
            final(self).states@ == old(self).states@,
            final(self).counts == old(self).counts,
    {
        let mut i: usize = from;
        while i < self.reads.len() && self.reads[i].source == BufSource::Nowhere
            invariant
                from <= i <= self.reads@.len(),
                next_read(self.reads@, from as int) == next_read(self.reads@, i as int),
            decreases self.reads.len() - i,
        {
            i = i + 1;
        }
        self.next = i;
        self.stalled = 0;
        let waiting: usize = self.counts.queued + self.counts.in_flight;
        if i >= self.reads.len() {
            if waiting == 0 {
                self.stage = Stage::Finished;
            } else {
                self.stage = Stage::Drain;
            }
        } else if waiting >= self.depth {
            self.stage = Stage::MakeRoom;
        } else {
            self.stage = Stage::Push;
        }
    }

    /// What to do with the ring.
    pub fn action(&self) -> (r: Action)
        requires
            self.wf(),
        ensures
            r == (match self.stage {
                Stage::MakeRoom | Stage::Refill => Action::Flush,
                Stage::AwaitRoom => Action::Wait(1),
                Stage::Push | Stage::PushAgain => Action::Push(self.next),
                Stage::Drain => Action::Wait(outstanding(self.counts) as usize),
                Stage::Finished => Action::Finish,
            }),
    {
        match self.stage {
            Stage::MakeRoom => Action::Flush,
            Stage::Refill => Action::Flush,
            Stage::AwaitRoom => Action::Wait(1),
            Stage::Push => Action::Push(self.next),
            Stage::PushAgain => Action::Push(self.next),
            Stage::Drain => Action::Wait(self.counts.queued + self.counts.in_flight),
            Stage::Finished => Action::Finish,
        }
    }

    /// Note completions.
    fn drain_ready(&mut self, done: &Vec<Completion>)
        ensures
            final(self).states@ == completed(old(self).states@, done@),
            final(self).states@.len() == old(self).states@.len(),
            final(self).counts == reaped(old(self).counts, done@.len()),
            final(self).same_batch(*old(self)),
            final(self).next == old(self).next,
            final(self).stage == old(self).stage,
            final(self).stalled == old(self).stalled,
    {
        let mut i: usize = 0;
        proof {
            assert(done@.take(0) =~= Seq::empty());
        }
        while i < done.len()
            invariant
                i <= done@.len(),
                self.states@ == completed(old(self).states@, done@.take(i as int)),
                self.states@.len() == old(self).states@.len(),
                self.counts == old(self).counts,
                self.same_batch(*old(self)),
                self.next == old(self).next,
                self.stage == old(self).stage,
                self.stalled == old(self).stalled,
            decreases done.len() - i,
        {
            proof {
                assert(done@.take(i + 1).drop_last() =~= done@.take(i as int));
                assert(done@.take(i + 1).last() == done@[i as int]);
            }
            let c: Completion = done[i];
            if c.index < self.states.len() {
                let state = if c.failed {
                    ReadState::Failed
                } else {
                    ReadState::Done
                };
                self.states.set(c.index, state);
            }
            i = i + 1;
        }
        proof {
            assert(done@.take(done@.len() as int) =~= done@);
        }
        let n: usize = done.len();
        self.counts = Counts {
            queued: self.counts.queued,
            in_flight: if n <= self.counts.in_flight {
                self.counts.in_flight - n
            } else {
                0
            },
        };
    }

    /// Note that the kernel took entries.
    fn submit_queued(&mut self, n: Option<usize>)
        requires
            outstanding(old(self).counts) <= usize::MAX,
        ensures
            final(self).counts == submitted(old(self).counts, n),
            outstanding(final(self).counts) == outstanding(old(self).counts),
            final(self).states@ == old(self).states@,
            final(self).same_batch(*old(self)),
            final(self).next == old(self).next,
            final(self).stage == old(self).stage,
            final(self).stalled == old(self).stalled,
    {
        match n {
            None => {},
            Some(n) => {
                let taken: usize = if n <= self.counts.queued {
                    n
                } else {
                    self.counts.queued
                };
                self.counts = Counts {
                    queued: self.counts.queued - taken,
                    in_flight: self.counts.in_flight + taken,
                };
            },
        }
    }

    /// Note what came of [`Action::Flush`].
    pub fn on_flushed(&mut self, f: &Flushed)
        requires
            old(self).wf(),
            old(self).stage == Stage::MakeRoom || old(self).stage == Stage::Refill,
        ensures
            final(self).wf(),
            final(self).same_batch(*old(self)),
            final(self).next == old(self).next,
            final(self).counts == flushed(old(self).counts, *f),
            final(self).states@ == flushed_states(old(self).counts, old(self).states@, *f),
            final(self).stage == (if old(self).stage == Stage::Refill {
                Stage::PushAgain
            } else if outstanding(final(self).counts) >= old(self).depth {
                Stage::AwaitRoom
            } else {
                Stage::Push
            }),
    {
        let refill = self.stage == Stage::Refill;
        if self.counts.queued != 0 {
            match f.first {
                Some(n) => {
                    self.submit_queued(Some(n));
                },
                None => {
                    self.drain_ready(&f.between);
                    self.submit_queued(f.second);
                },
            }
        }
        self.drain_ready(&f.after);
        if refill {
            self.stage = Stage::PushAgain;
        } else if self.counts.queued + self.counts.in_flight >= self.depth {
            self.stage = Stage::AwaitRoom;
        } else {
            self.stage = Stage::Push;
        }
    }

    /// Note what came of [`Action::Wait`]: how many entries the kernel took, and
    /// what was reaped.
    pub fn wait_for_completions(&mut self, taken: Option<usize>, done: &Vec<Completion>)
        requires
            old(self).wf(),
            old(self).stage == Stage::AwaitRoom || old(self).stage == Stage::Drain,
        ensures
            final(self).wf(),
            final(self).same_batch(*old(self)),
            final(self).next == old(self).next,
            final(self).counts == reaped(submitted(old(self).counts, taken), done@.len()),
            final(self).states@ == completed(old(self).states@, done@),
            if old(self).stage == Stage::AwaitRoom {
                final(self).stage == Stage::Push && final(self).stalled == 0
            } else {
                waited(*old(self), *final(self))
            },
    {
        let before: usize = self.counts.queued + self.counts.in_flight;
        let draining = self.stage == Stage::Drain;
        self.submit_queued(taken);
        self.drain_ready(done);
        let after: usize = self.counts.queued + self.counts.in_flight;
        if !draining {
            self.stage = Stage::Push;
        } else if after == before {
            self.stalled = self.stalled + 1;
            if self.stalled >= MAX_STALLED_WAITS {
                self.stage = Stage::Finished;
            }
        } else {
            self.stalled = 0;
            if after == 0 {
                self.stage = Stage::Finished;
            }
        }
    }

    /// Note whether [`Action::Push`] could queue the read. A read that could not
    /// be queued twice is left out.
    pub fn on_pushed(&mut self, pushed: bool)
        requires
            old(self).wf(),
            old(self).stage == Stage::Push || old(self).stage == Stage::PushAgain,
        ensures
            final(self).wf(),
            final(self).same_batch(*old(self)),
            if pushed {
                &&& final(self).states@ == old(self).states@.update(
                    old(self).next as int,
                    ReadState::InFlight,
                )
                &&& final(self).counts == (Counts {
                    queued: (old(self).counts.queued + 1) as usize,
                    in_flight: old(self).counts.in_flight,
                })
                &&& final(self).enters(old(self).next + 1)
            } else {
                &&& final(self).states@ == old(self).states@
                &&& final(self).counts == old(self).counts
                &&& if old(self).stage == Stage::Push {
                    final(self).stage == Stage::Refill && final(self).next == old(self).next
                } else {
                    final(self).enters(old(self).next + 1)
                }
            },
    {
        let n: usize = self.reads.len();
        let i: usize = self.next;
        proof {
            assert(i < n);
        }
        if pushed {
            self.states.set(i, ReadState::InFlight);
            self.counts = Counts {
                queued: self.counts.queued + 1,
                in_flight: self.counts.in_flight,
            };
            self.enter(i + 1);
        } else if self.stage == Stage::Push {
            self.stage = Stage::Refill;
        } else {
            self.enter(i + 1);
        }
    }
}

/// Where a batch stands after a wait at its end: it is over when nothing is
/// outstanding, or when too many waits in a row made no progress.
pub open spec fn waited(before: ReadLoop, after: ReadLoop) -> bool {
    if outstanding(after.counts) == outstanding(before.counts) {
        &&& after.stalled == before.stalled + 1
        &&& after.stage == if after.stalled >= MAX_STALLED_WAITS {
            Stage::Finished
        } else {
            Stage::Drain
        }
    } else {
        &&& after.stalled == 0
        &&& after.stage == if outstanding(after.counts) == 0 {
            Stage::Finished
        } else {
            Stage::Drain
        }
    }
}

/// A wait at the end of a batch never brings more work: the waiting comes to an
/// end, whatever the kernel answers.
pub proof fn law_the_waiting_ends(before: ReadLoop, after: ReadLoop, taken: Option<usize>, n: nat)
    requires
        before.wf(),
        before.stage == Stage::Drain,
        after.counts == reaped(submitted(before.counts, taken), n),
        waited(before, after),
    ensures
        after.stage == Stage::Finished || outstanding(after.counts) < outstanding(before.counts)
            || outstanding(after.counts) == outstanding(before.counts) && before.stalled
            < after.stalled < MAX_STALLED_WAITS,
{
}

/// While there is room in the ring, what is outstanding after a read was queued
/// fits into it.
pub proof fn law_what_is_outstanding_fits(before: ReadLoop, after: ReadLoop)
    requires
        before.wf(),
        before.depth > 0,
        outstanding(before.counts) < before.depth,
        after.counts == (Counts {
            queued: (before.counts.queued + 1) as usize,
            in_flight: before.counts.in_flight,
        }),
    ensures
        outstanding(after.counts) <= before.depth,
{
}

/// The last completion of a read decides its state; a read without one keeps its
/// state, and no read is added.
pub proof fn law_the_last_completion_decides(
    states: Seq<ReadState>,
    done: Seq<Completion>,
    i: int,
    k: int,
)
    requires
        0 <= i < states.len(),
        -1 <= k < done.len(),
        k >= 0 ==> done[k].index == i,
        forall|j: int| k < j < done.len() ==> (#[trigger] done[j]).index != i,
    ensures
        completed(states, done).len() == states.len(),
        k == -1 ==> completed(states, done)[i] == states[i],
        k >= 0 && done[k].failed ==> completed(states, done)[i] == ReadState::Failed,
        k >= 0 && !done[k].failed ==> completed(states, done)[i] == ReadState::Done,
    decreases done.len(),
{
    if done.len() > 0 {
        let short = done.drop_last();
        let n = done.len() - 1;
        if k < n {
            assert(done[n].index != i);
            assert forall|j: int| k < j < short.len() implies (#[trigger] short[j]).index != i by {
                assert(short[j] == done[j]);
            }
            law_the_last_completion_decides(states, short, i, k);
        } else {
            lemma_completed_len(states, short);
        }
    }
}

proof fn lemma_completed_len(states: Seq<ReadState>, done: Seq<Completion>)
    ensures
        completed(states, done).len() == states.len(),
    decreases done.len(),
{
    if done.len() > 0 {
        lemma_completed_len(states, done.drop_last());
    }
}

/// A submission moves what the kernel took from the queue into flight, at most what
/// was queued; a reap takes what completed out of flight, at most what was there.
pub proof fn law_a_read_is_counted_once(c: Counts, n: usize, m: nat)
    requires
        c.queued + c.in_flight <= usize::MAX,
    ensures
        submitted(c, None) == c,
        ({
            let s = submitted(c, Some(n));
            &&& s.queued + s.in_flight == c.queued + c.in_flight
            &&& n <= c.queued ==> s.queued == c.queued - n
            &&& n > c.queued ==> s.queued == 0
        }),
        ({
            let r = reaped(c, m);
            &&& r.queued == c.queued
            &&& m <= c.in_flight ==> r.in_flight == c.in_flight - m
            &&& m > c.in_flight ==> r.in_flight == 0
        }),
{
}

/// A batch gives back the buffers of the pool that it had, but for those that the
/// kernel may still write into, in the order of its reads.
pub proof fn law_only_quiet_buffers_are_given_back(
    reads: Seq<PlannedRead>,
    states: Seq<ReadState>,
    read: PlannedRead,
    state: ReadState,
)
    requires
        states.len() == reads.len(),
    ensures
        ({
            let before = returned(reads, states);
            let after = returned(reads.push(read), states.push(state));
            match read.source {
                BufSource::Pool(slot) => if state == ReadState::InFlight {
                    after == before
                } else {
                    after == before.push(slot)
                },
                _ => after == before,
            }
        }),
        ({
            let before = lent(reads);
            let after = lent(reads.push(read));
            match read.source {
                BufSource::Pool(slot) => after == before.push(slot),
                _ => after == before,
            }
        }),
        has_bytes(read, state) <==> state == ReadState::Done && !(read.source is Nowhere),
{
    assert(reads.push(read).drop_last() =~= reads);
    assert(states.push(state).drop_last() =~= states);
}

/// The read that is queued next is the first from a place on that has a buffer.
pub proof fn law_the_next_read_has_a_buffer(reads: Seq<PlannedRead>, i: int)
    requires
        0 <= i <= reads.len(),
    ensures
        i <= next_read(reads, i) <= reads.len(),
        forall|j: int| i <= j < next_read(reads, i) ==> (#[trigger] reads[j]).source is Nowhere,
        next_read(reads, i) < reads.len() ==> !(reads[next_read(reads, i)].source is Nowhere),
    decreases reads.len() - i,
{
    if i < reads.len() && reads[i].source == BufSource::Nowhere {
        law_the_next_read_has_a_buffer(reads, i + 1);
    }
}

/// A batch is over where every read was queued and none is outstanding; where some
/// are it waits for them; otherwise it makes room where the ring is full and queues
/// the next read where it is not.
pub proof fn law_what_a_batch_does_next(
    reads: Seq<PlannedRead>,
    next: int,
    c: Counts,
    depth: usize,
)
    ensures
        ({
            let open = c.queued + c.in_flight;
            let stage = stage_at(reads, next, c, depth);
            &&& stage == Stage::Finished <==> next >= reads.len() && open == 0
            &&& stage == Stage::Drain <==> next >= reads.len() && open > 0
            &&& stage == Stage::MakeRoom <==> next < reads.len() && open >= depth
            &&& stage == Stage::Push <==> next < reads.len() && open < depth
        }),
{
}

} // verus!
