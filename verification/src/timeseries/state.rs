//! What a core keeps of its timeseries collections: the partitions on disk, how
//! far the log has been ingested, and the memory reserved for memtables.
use crate::error::{Error, ErrorView};
use crate::maps;
use crate::maps::{CollId, MapKey, VecMap};
use crate::text;
use crate::timeseries::paths;
use crate::transaction::chain::CollKey;
use vstd::prelude::*;
use vstd::string::*;

verus! {

/// The place of a partition: its collection and its earliest timestamp.
pub struct PartitionKey {
    pub db: u64,
    pub tid: u64,
    pub coll: String,
    pub min_ts: i64,
}

pub type PartitionId = (u64, u64, Seq<char>, i64);

impl MapKey for PartitionKey {
    type Key = (u64, u64, Seq<char>, i64);

    open spec fn key(&self) -> PartitionId {
        (self.db, self.tid, self.coll@, self.min_ts)
    }

    fn same(&self, other: &Self) -> (r: bool) {
        self.db == other.db && self.tid == other.tid && self.coll == other.coll && self.min_ts
            == other.min_ts
    }
}

/// What is known of a partition on disk.
pub struct Partition {
    pub max_ts: i64,
    pub row_count: u64,
    /// Every record of the log up to this one is in the partition or before it.
    pub last_flushed_wal_lsn: u64,
    pub sealed: bool,
    pub dir_name: String,
}

#[verifier::ext_equal]
pub struct PartitionFacts {
    pub max_ts: i64,
    pub row_count: u64,
    pub last_flushed_wal_lsn: u64,
    pub sealed: bool,
    pub dir_name: Seq<char>,
}

impl View for Partition {
    type V = PartitionFacts;

    open spec fn view(&self) -> PartitionFacts {
        PartitionFacts {
            max_ts: self.max_ts,
            row_count: self.row_count,
            last_flushed_wal_lsn: self.last_flushed_wal_lsn,
            sealed: self.sealed,
            dir_name: self.dir_name@,
        }
    }
}

/// The state as a mathematical value.
#[verifier::ext_equal]
pub struct TsModel {
    pub partitions: Map<PartitionId, PartitionFacts>,
    /// The highest record of the log that each collection has taken in.
    pub ingested: Map<CollId, u64>,
    /// The bytes reserved for each memtable.
    pub reserved: Map<CollId, usize>,
}

pub struct TsState {
    partitions: VecMap<PartitionKey, Partition>,
    ingested: VecMap<CollKey, u64>,
    reserved: VecMap<CollKey, usize>,
}

impl View for TsState {
    type V = TsModel;

    closed spec fn view(&self) -> TsModel {
        TsModel {
            partitions: self.partitions@.map_values(|p: Partition| p@),
            ingested: self.ingested@,
            reserved: self.reserved@,
        }
    }
}

pub open spec fn in_collection(coll: CollId, min_ts: i64) -> PartitionId {
    (coll.0, coll.1, coll.2, min_ts)
}

/// Whether a record of the log is in a partition of its collection already.
pub open spec fn is_flushed(m: TsModel, coll: CollId, lsn: u64) -> bool {
    exists|min_ts: i64|
        m.partitions.contains_key(#[trigger] in_collection(coll, min_ts)) && lsn
            <= m.partitions[in_collection(coll, min_ts)].last_flushed_wal_lsn
}

/// The highest record taken in, zero for none.
pub open spec fn ingested_through(m: TsModel, coll: CollId) -> u64 {
    if m.ingested.contains_key(coll) {
        m.ingested[coll]
    } else {
        0
    }
}

pub open spec fn noted(m: TsModel, coll: CollId, lsn: u64) -> TsModel {
    TsModel {
        ingested: m.ingested.insert(
            coll,
            if ingested_through(m, coll) > lsn {
                ingested_through(m, coll)
            } else {
                lsn
            },
        ),
        ..m
    }
}

/// The part of a memtable that a flush reads: how many rows it holds and the
/// span of their timestamps.
pub struct MemtableSpan {
    pub rows: usize,
    pub min_ts: i64,
    pub max_ts: i64,
}

/// A segment to write.
pub struct FlushPlan {
    pub segment_dir: String,
    pub partition_name: String,
    pub wal_lsn: u64,
}

/// What the segment writer reports of a partition.
#[derive(Clone, Copy, Debug, PartialEq, Eq, Structural)]
pub struct WrittenPartition {
    pub row_count: u64,
    pub last_flushed_wal_lsn: u64,
}

/// `ts-{min}_{max}`
pub open spec fn partition_name(min_ts: i64, max_ts: i64) -> Seq<char> {
    "ts-"@ + (text::signed_decimal(min_ts as int) + (seq!['_'] + text::signed_decimal(
        max_ts as int,
    )))
}

fn partition_text(min_ts: i64, max_ts: i64) -> (r: String)
    ensures
        r@ == partition_name(min_ts, max_ts),
{
    let mut r = "ts-".to_owned();
    text::push_signed(&mut r, min_ts);
    r.push('_');
    text::push_signed(&mut r, max_ts);
    proof {
        assert(r@ =~= partition_name(min_ts, max_ts));
    }
    r
}

/// Whether a memtable has anything to flush.
pub open spec fn has_rows(memtable: Option<MemtableSpan>) -> bool {
    memtable is Some && memtable->0.rows > 0
}

/// The partition that a flush registers.
pub open spec fn sealed_partition(
    name: Seq<char>,
    written: WrittenPartition,
    max_ts: i64,
) -> PartitionFacts {
    PartitionFacts {
        max_ts,
        row_count: written.row_count,
        last_flushed_wal_lsn: written.last_flushed_wal_lsn,
        sealed: true,
        dir_name: name,
    }
}

/// The state once a memtable has been written and drained.
pub open spec fn flushed(
    m: TsModel,
    coll: CollId,
    span: MemtableSpan,
    written: WrittenPartition,
    drained: (i64, i64),
) -> TsModel {
    TsModel {
        partitions: m.partitions.insert(
            in_collection(coll, drained.0),
            sealed_partition(partition_name(span.min_ts, span.max_ts), written, drained.1),
        ),
        reserved: m.reserved.remove(coll),
        ..m
    }
}

pub open spec fn write_failed_text(coll: Seq<char>, e: Seq<char>) -> Seq<char> {
    "columnar flush failed for collection "@ + (coll + (": "@ + e))
}

pub open spec fn vanished_text(coll: Seq<char>) -> Seq<char> {
    "timeseries memtable for collection "@ + (coll
        + " vanished between the segment write and the drain"@)
}

/// The state after a flush, and its failure. Nothing changes on a failure, nor
/// where there is nothing to flush.
pub open spec fn flush_outcome(
    m: TsModel,
    coll: CollId,
    memtable: Option<MemtableSpan>,
    written: Result<WrittenPartition, String>,
    drained: Option<(i64, i64)>,
) -> (TsModel, Option<ErrorView>) {
    if !has_rows(memtable) {
        (m, None)
    } else {
        match written {
            Err(e) => (
                m,
                Some(
                    ErrorView::Storage {
                        engine: "timeseries"@,
                        detail: write_failed_text(coll.2, e@),
                    },
                ),
            ),
            Ok(w) => match drained {
                None => (
                    m,
                    Some(
                        ErrorView::Storage {
                            engine: "timeseries"@,
                            detail: vanished_text(coll.2),
                        },
                    ),
                ),
                Some(d) => (flushed(m, coll, memtable->0, w, d), None),
            },
        }
    }
}

/// Whether a partition is not one of a collection.
pub open spec fn elsewhere(coll: CollId) -> spec_fn(PartitionId) -> bool {
    |k: PartitionId| !(k.0 == coll.0 && k.1 == coll.1 && k.2 == coll.2)
}

/// The state without a collection.
pub open spec fn without_collection(m: TsModel, coll: CollId) -> TsModel {
    TsModel {
        partitions: maps::kept_part(m.partitions, elsewhere(coll)),
        ingested: m.ingested.remove(coll),
        reserved: m.reserved.remove(coll),
    }
}

impl TsState {
    pub fn new() -> (r: Self)
        ensures
            r@ == (TsModel {
                partitions: Map::empty(),
                ingested: Map::empty(),
                reserved: Map::empty(),
            }),
    {
        let r = TsState {
            partitions: VecMap::new(),
            ingested: VecMap::new(),
            reserved: VecMap::new(),
        };
        proof {
            assert(r@.partitions =~= Map::empty());
        }
        r
    }

    /// Forget a collection.
    pub fn clear_collection(&mut self, db: u64, tid: u64, coll: &str)
        ensures
            final(self)@ == without_collection(old(self)@, (db, tid, coll@)),
    {
        let ghost pred = elsewhere((db, tid, coll@));
        let keep = |k: &PartitionKey| -> (b: bool)
            ensures
                b == pred(k.key()),
            { !(k.db == db && k.tid == tid && text::same_text(k.coll.as_str(), coll)) };
        self.partitions.retain(keep, Ghost(pred));
        self.ingested.remove(&CollKey::at(db, tid, coll));
        self.reserved.remove(&CollKey::at(db, tid, coll));
        proof {
            assert(self@ =~= without_collection(old(self)@, (db, tid, coll@)));
        }
    }

    /// What is known of a partition.
    pub fn partition(&self, db: u64, tid: u64, coll: &str, min_ts: i64) -> (r: Option<&Partition>)
        ensures
            match r {
                Some(p) => self@.partitions.contains_key((db, tid, coll@, min_ts)) && p@
                    == self@.partitions[(db, tid, coll@, min_ts)],
                None => !self@.partitions.contains_key((db, tid, coll@, min_ts)),
            },
    {
        self.partitions.get(&PartitionKey { db, tid, coll: coll.to_owned(), min_ts })
    }

    /// Register a partition, in place of one with the same earliest timestamp.
    pub fn import(&mut self, db: u64, tid: u64, coll: &str, min_ts: i64, p: Partition)
        ensures
            final(self)@ == (TsModel {
                partitions: old(self)@.partitions.insert((db, tid, coll@, min_ts), p@),
                ..old(self)@
            }),
    {
        self.partitions.insert(PartitionKey { db, tid, coll: coll.to_owned(), min_ts }, p);
        proof {
            assert(self@.partitions =~= old(self)@.partitions.insert((db, tid, coll@, min_ts), p@));
        }
    }

    /// Whether a record of the log is in a partition of its collection already.
    pub fn already_flushed(&self, db: u64, tid: u64, coll: &str, lsn: u64) -> (r: bool)
        ensures
            r == is_flushed(self@, (db, tid, coll@), lsn),
    {
        proof {
            use_type_invariant(&self.partitions);
            self.partitions.lemma_listed();
        }
        let ghost e = self.partitions.listed();
        let mut i: usize = 0;
        while i < self.partitions.len()
            invariant
                i <= e.len(),
                e == self.partitions.listed(),
                maps::keys_unique(e),
                self.partitions@ == maps::as_map(e),
                forall|j: int|
                    0 <= j < i ==> !((#[trigger] e[j]).0.key().0 == db && e[j].0.key().1 == tid
                        && e[j].0.key().2 == coll@ && lsn <= e[j].1.last_flushed_wal_lsn),
            decreases e.len() - i,
        {
            let (k, p) = self.partitions.entry(i);
            if k.db == db && k.tid == tid && text::same_text(k.coll.as_str(), coll) && lsn
                <= p.last_flushed_wal_lsn {
                proof {
                    maps::lemma_entry_in_map(e, i as int);
                    assert(k.key() == in_collection((db, tid, coll@), k.min_ts));
                    assert(self@.partitions.contains_key(
                        in_collection((db, tid, coll@), k.min_ts),
                    ));
                }
                return true;
            }
            i = i + 1;
        }
        proof {
            assert forall|min_ts: i64|
                !(self@.partitions.contains_key(#[trigger] in_collection((db, tid, coll@), min_ts))
                    && lsn <= self@.partitions[in_collection(
                    (db, tid, coll@),
                    min_ts,
                )].last_flushed_wal_lsn) by {
                let id = in_collection((db, tid, coll@), min_ts);
                if self@.partitions.contains_key(id) {
                    maps::lemma_map_has_entry(e, id);
                    assert(e[maps::position(e, id)].0.key() == id);
                }
            }
        }
        false
    }

    /// The highest record of the log that a collection has taken in.
    pub fn max_ingested_lsn(&self, db: u64, tid: u64, coll: &str) -> (r: u64)
        ensures
            r == ingested_through(self@, (db, tid, coll@)),
    {
        match self.ingested.get(&CollKey::at(db, tid, coll)) {
            Some(lsn) => *lsn,
            None => 0,
        }
    }

    /// Note that a record of the log is taken in.
    pub fn note_ingested(&mut self, db: u64, tid: u64, coll: &str, lsn: u64)
        ensures
            final(self)@ == noted(old(self)@, (db, tid, coll@), lsn),
    {
        let prior: u64 = self.max_ingested_lsn(db, tid, coll);
        let value: u64 = if prior > lsn {
            prior
        } else {
            lsn
        };
        self.ingested.insert(CollKey::at(db, tid, coll), value);
    }

    /// Whether and what a flush of a collection's memtable writes: nothing for
    /// a missing or empty memtable.
    pub fn plan_flush(
        &self,
        data_dir: &str,
        tid: u64,
        database_id: u64,
        collection: &str,
        memtable: &Option<MemtableSpan>,
    ) -> (r: Option<FlushPlan>)
        ensures
            if has_rows(*memtable) {
                r is Some && r->0.segment_dir@ == paths::collection_dir(
                    data_dir@,
                    database_id,
                    tid,
                    collection@,
                ) && r->0.partition_name@ == partition_name(memtable->0.min_ts, memtable->0.max_ts)
                    && r->0.wal_lsn == ingested_through(self@, (database_id, tid, collection@))
            } else {
                r is None
            },
    {
        match memtable {
            Some(span) if span.rows > 0 => Some(
                FlushPlan {
                    segment_dir: paths::ts_collection_dir(data_dir, database_id, tid, collection),
                    partition_name: partition_text(span.min_ts, span.max_ts),
                    wal_lsn: self.max_ingested_lsn(database_id, tid, collection),
                },
            ),
            _ => None,
        }
    }

    /// Finish the flush of a collection's memtable. `written` says what came of
    /// writing the segment, and `drained` the timestamps of what was then
    /// drained, if the memtable was still there. The rows are dropped and the
    /// partition registered only once the segment is written.
    pub fn flush_ts_collection(
        &mut self,
        tid: u64,
        database_id: u64,
        collection: &str,
        memtable: &Option<MemtableSpan>,
        written: &Result<WrittenPartition, String>,
        drained: &Option<(i64, i64)>,
    ) -> (r: Result<(), Error>)
        ensures
            ({
                let (after, failed) = flush_outcome(
                    old(self)@,
                    (database_id, tid, collection@),
                    *memtable,
                    *written,
                    *drained,
                );
                final(self)@ == after && match failed {
                    None => r is Ok,
                    Some(e) => r is Err && r->Err_0@ == e,
                }
            }),
    {
        let name = match memtable {
            Some(span) => {
                if span.rows == 0 {
                    return Ok(());
                }
                partition_text(span.min_ts, span.max_ts)
            },
            None => {
                return Ok(());
            },
        };
        let w: WrittenPartition = match written {
            Ok(w) => *w,
            Err(e) => {
                let mut detail = "columnar flush failed for collection ".to_owned();
                detail.append(collection);
                detail.append(": ");
                detail.append(e.as_str());
                proof {
                    assert(detail@ =~= write_failed_text(collection@, e@));
                }
                return Err(Error::Storage { engine: "timeseries".to_owned(), detail });
            },
        };
        let (min_ts, max_ts): (i64, i64) = match drained {
            Some(d) => *d,
            None => {
                let mut detail = "timeseries memtable for collection ".to_owned();
                detail.append(collection);
                detail.append(" vanished between the segment write and the drain");
                proof {
                    assert(detail@ =~= vanished_text(collection@));
                }
                return Err(Error::Storage { engine: "timeseries".to_owned(), detail });
            },
        };
        self.reserved.remove(&CollKey::at(database_id, tid, collection));
        self.import(
            database_id,
            tid,
            collection,
            min_ts,
            Partition {
                max_ts,
                row_count: w.row_count,
                last_flushed_wal_lsn: w.last_flushed_wal_lsn,
                sealed: true,
                dir_name: name,
            },
        );
        Ok(())
    }

    /// Reserve what a memtable takes up now in place of what was reserved for
    /// it. Without a governor nothing is kept account of; a reservation that is
    /// not granted leaves the memtable without one.
    pub fn recharge_ts_memtable_budget(
        &mut self,
        tid: u64,
        database_id: u64,
        collection: &str,
        governed: bool,
        resident: Option<usize>,
        granted: bool,
    )
        ensures
            final(self)@ == recharged(
                old(self)@,
                (database_id, tid, collection@),
                governed,
                resident,
                granted,
            ),
    {
        if !governed {
            return;
        }
        self.reserved.remove(&CollKey::at(database_id, tid, collection));
        match resident {
            Some(bytes) => {
                if bytes > 0 && granted {
                    self.reserved.insert(CollKey::at(database_id, tid, collection), bytes);
                    proof {
                        assert(self@.reserved =~= recharged(
                            old(self)@,
                            (database_id, tid, collection@),
                            governed,
                            resident,
                            granted,
                        ).reserved);
                    }
                }
            },
            None => {},
        }
    }
}

/// The state once the reservation of a memtable was renewed.
pub open spec fn recharged(
    m: TsModel,
    coll: CollId,
    governed: bool,
    resident: Option<usize>,
    granted: bool,
) -> TsModel {
    if !governed {
        m
    } else if resident is Some && resident->0 > 0 && granted {
        TsModel { reserved: m.reserved.insert(coll, resident->0), ..m }
    } else {
        TsModel { reserved: m.reserved.remove(coll), ..m }
    }
}

/// Once a flush has gone through with the log position that was planned for it,
/// every record that the collection had taken in counts as flushed.
pub proof fn law_a_flush_covers_what_was_ingested(
    m: TsModel,
    coll: CollId,
    span: MemtableSpan,
    written: WrittenPartition,
    drained: (i64, i64),
    lsn: u64,
)
    requires
        written.last_flushed_wal_lsn == ingested_through(m, coll),
        lsn <= ingested_through(m, coll),
    ensures
        is_flushed(flushed(m, coll, span, written, drained), coll, lsn),
{
    assert(flushed(m, coll, span, written, drained).partitions.contains_key(
        in_collection(coll, drained.0),
    ));
}

/// A flush that fails changes nothing: the rows stay in memory and nothing is
/// registered.
pub proof fn law_a_failed_flush_changes_nothing(
    m: TsModel,
    coll: CollId,
    memtable: Option<MemtableSpan>,
    written: Result<WrittenPartition, String>,
    drained: Option<(i64, i64)>,
)
    requires
        flush_outcome(m, coll, memtable, written, drained).1 is Some,
    ensures
        flush_outcome(m, coll, memtable, written, drained).0 == m,
{
}

/// A flush leaves the partitions and positions of other collections alone.
pub proof fn law_a_flush_keeps_other_collections(
    m: TsModel,
    coll: CollId,
    span: MemtableSpan,
    written: WrittenPartition,
    drained: (i64, i64),
    other: CollId,
    lsn: u64,
)
    requires
        other != coll,
    ensures
        is_flushed(flushed(m, coll, span, written, drained), other, lsn) == is_flushed(
            m,
            other,
            lsn,
        ),
{
    let after = flushed(m, coll, span, written, drained);
    assert forall|min_ts: i64|
        #![trigger in_collection(other, min_ts)]
        after.partitions.contains_key(in_collection(other, min_ts)) == m.partitions.contains_key(
            in_collection(other, min_ts),
        ) && (m.partitions.contains_key(in_collection(other, min_ts)) ==> after.partitions[in_collection(
            other,
            min_ts,
        )] == m.partitions[in_collection(other, min_ts)]) by {
        assert(in_collection(other, min_ts) != in_collection(coll, drained.0));
    }
}

/// A batch is on disk exactly where some partition of its collection covers its
/// place in the log.
pub proof fn law_what_is_flushed_is_in_a_partition(m: TsModel, db: u64, tid: u64, coll: Seq<char>, lsn: u64)
    ensures
        is_flushed(m, (db, tid, coll), lsn) <==> exists|k: PartitionId| #[trigger]
            m.partitions.contains_key(k) && k.0 == db && k.1 == tid && k.2 == coll && lsn
                <= m.partitions[k].last_flushed_wal_lsn,
{
    if is_flushed(m, (db, tid, coll), lsn) {
        let t = choose|t: i64|
            m.partitions.contains_key(#[trigger] in_collection((db, tid, coll), t)) && lsn
                <= m.partitions[in_collection((db, tid, coll), t)].last_flushed_wal_lsn;
        assert(m.partitions.contains_key((db, tid, coll, t)));
    }
    if exists|k: PartitionId| #[trigger]
        m.partitions.contains_key(k) && k.0 == db && k.1 == tid && k.2 == coll && lsn
            <= m.partitions[k].last_flushed_wal_lsn {
        let k = choose|k: PartitionId| #[trigger]
            m.partitions.contains_key(k) && k.0 == db && k.1 == tid && k.2 == coll && lsn
                <= m.partitions[k].last_flushed_wal_lsn;
        assert(in_collection((db, tid, coll), k.3) == k);
    }
}

/// The mark of a collection only rises: noting a record raises it to the record's
/// place, or leaves it where it is higher, and touches nothing else.
pub proof fn law_the_mark_only_rises(m: TsModel, coll: CollId, lsn: u64, other: CollId)
    ensures
        ({
            let after = noted(m, coll, lsn);
            &&& ingested_through(after, coll) >= lsn
            &&& ingested_through(after, coll) >= ingested_through(m, coll)
            &&& ingested_through(after, coll) == lsn || ingested_through(after, coll)
                == ingested_through(m, coll)
            &&& other != coll ==> ingested_through(after, other) == ingested_through(m, other)
            &&& after.partitions == m.partitions
            &&& after.reserved == m.reserved
        }),
        !m.ingested.contains_key(coll) ==> ingested_through(m, coll) == 0,
        m.ingested.contains_key(coll) ==> ingested_through(m, coll) == m.ingested[coll],
{
}

/// A flush of a memtable with rows adds one sealed partition, at the least time
/// that was drained, with the rows and the mark that were written, and gives the
/// memtable's reservation back. Everything else stays.
pub proof fn law_a_flush_adds_one_partition(
    m: TsModel,
    coll: CollId,
    memtable: Option<MemtableSpan>,
    written: Result<WrittenPartition, String>,
    drained: Option<(i64, i64)>,
    k: PartitionId,
    other: CollId,
)
    ensures
        ({
            let (after, failed) = flush_outcome(m, coll, memtable, written, drained);
            let due = memtable is Some && memtable->0.rows > 0;
            &&& failed is Some <==> due && (written is Err || drained is None)
            &&& !due || failed is Some ==> after == m
            &&& due && failed is None ==> {
                let (low, high) = drained->0;
                let w = written->Ok_0;
                let added = (coll.0, coll.1, coll.2, low);
                &&& after.partitions.contains_key(added)
                &&& after.partitions[added].sealed
                &&& after.partitions[added].max_ts == high
                &&& after.partitions[added].row_count == w.row_count
                &&& after.partitions[added].last_flushed_wal_lsn == w.last_flushed_wal_lsn
                &&& after.partitions[added].dir_name == "ts-"@ + (text::signed_decimal(
                    memtable->0.min_ts as int,
                ) + (seq!['_'] + text::signed_decimal(memtable->0.max_ts as int)))
                &&& k != added ==> after.partitions.contains_key(k) == m.partitions.contains_key(k)
                    && (m.partitions.contains_key(k) ==> after.partitions[k] == m.partitions[k])
                &&& !after.reserved.contains_key(coll)
                &&& other != coll ==> after.reserved.contains_key(other)
                    == m.reserved.contains_key(other) && (m.reserved.contains_key(other)
                    ==> after.reserved[other] == m.reserved[other])
                &&& after.ingested == m.ingested
            }
        }),
{
}

/// Clearing a collection takes its partitions, its mark and its reservation, and
/// nothing of any other.
pub proof fn law_clearing_takes_one_collection(
    m: TsModel,
    db: u64,
    tid: u64,
    coll: Seq<char>,
    k: PartitionId,
    c: CollId,
)
    ensures
        ({
            let after = without_collection(m, (db, tid, coll));
            &&& after.partitions.contains_key(k) <==> m.partitions.contains_key(k) && !(k.0 == db
                && k.1 == tid && k.2 == coll)
            &&& after.partitions.contains_key(k) ==> after.partitions[k] == m.partitions[k]
            &&& after.ingested.contains_key(c) <==> m.ingested.contains_key(c) && !(c.0 == db && c.1
                == tid && c.2 == coll)
            &&& after.ingested.contains_key(c) ==> after.ingested[c] == m.ingested[c]
            &&& after.reserved.contains_key(c) <==> m.reserved.contains_key(c) && !(c.0 == db && c.1
                == tid && c.2 == coll)
            &&& after.reserved.contains_key(c) ==> after.reserved[c] == m.reserved[c]
        }),
{
}

/// Where memory is governed, a memtable has what it takes up reserved exactly
/// where it holds something and the governor granted it; the reservations of other
/// memtables stay.
pub proof fn law_a_memtable_reserves_what_it_takes_up(
    m: TsModel,
    coll: CollId,
    governed: bool,
    resident: Option<usize>,
    granted: bool,
    other: CollId,
)
    ensures
        ({
            let after = recharged(m, coll, governed, resident, granted);
            &&& !governed ==> after == m
            &&& governed ==> (after.reserved.contains_key(coll) <==> granted && (
            resident matches Some(n) && n > 0))
            &&& governed && after.reserved.contains_key(coll) ==> Some(after.reserved[coll])
                == resident
            &&& other != coll ==> after.reserved.contains_key(other) == m.reserved.contains_key(
                other,
            ) && (m.reserved.contains_key(other) ==> after.reserved[other] == m.reserved[other])
            &&& after.partitions == m.partitions
            &&& after.ingested == m.ingested
        }),
{
}

} // verus!
