//! Installing the on-disk parts of a snapshot: timeseries partitions and
//! columnar engines. Neither overwrites what is there.
use crate::error::{Error, ErrorView};
use crate::maps::{CollId, MapKey, VecMap};
use crate::snapshot::keys;
use crate::text;
use crate::timeseries::state;
use crate::timeseries::state::{Partition, PartitionFacts, TsModel, TsState};
use crate::transaction::chain::CollKey;
use vstd::prelude::*;
use vstd::string::*;

verus! {

/// What a snapshot says of a partition.
#[derive(Clone, Copy, Debug, PartialEq, Eq, Structural)]
pub struct PartitionMeta {
    pub min_ts: i64,
    pub max_ts: i64,
    pub row_count: u64,
    pub last_flushed_wal_lsn: u64,
    pub sealed: bool,
}

/// What stands where a partition's directory is to go.
pub enum DirState {
    Missing,
    Empty,
    Occupied,
    /// The directory is there and cannot be listed.
    Unreadable(String),
}

/// A partition of a snapshot, with what came of decoding it, looking at its
/// directory and writing its files. What was not reached is not read.
pub struct PartitionBlob {
    pub dir_name: String,
    pub meta: Result<PartitionMeta, String>,
    pub dir: DirState,
    pub write_failed: Option<String>,
}

/// The partitions of one collection.
pub struct CollectionBlob {
    pub collection_key: String,
    pub partitions: Vec<PartitionBlob>,
}

/// What becomes of a partition.
pub enum PartitionStep {
    /// The same partition is there already.
    Skip,
    Install,
    Fail(ErrorView),
}

pub open spec fn meta_text(coll: Seq<char>, dir: Seq<char>, e: Seq<char>) -> Seq<char> {
    "restore: deserialize PartitionMeta for "@ + (coll + ("/"@ + (dir + (": "@ + e))))
}

pub open spec fn collision_text(
    coll: Seq<char>,
    min_ts: i64,
    rows: u64,
    lsn: u64,
    new_rows: u64,
    new_lsn: u64,
) -> Seq<char> {
    "restore: partition collision for collection '"@ + (coll + ("' min_ts="@ + (
    text::signed_decimal(min_ts as int) + (": existing (rows="@ + (text::decimal(rows as nat) + (
    ", lsn="@ + (text::decimal(lsn as nat) + (") differs from snapshot (rows="@ + (text::decimal(
        new_rows as nat,
    ) + (", lsn="@ + (text::decimal(new_lsn as nat)
        + "); refusing to overwrite live data"@)))))))))))
}

pub open spec fn occupied_text(coll: Seq<char>, dir: Seq<char>) -> Seq<char> {
    "restore: partition directory '"@ + (dir + ("' already exists for collection '"@ + (coll
        + "'; refusing to overwrite live data"@)))
}

/// What becomes of a partition of a collection.
pub open spec fn partition_step(m: TsModel, coll: CollId, p: PartitionBlob) -> PartitionStep {
    match p.meta {
        Err(e) => PartitionStep::Fail(
            ErrorView::Serialization {
                format: "msgpack"@,
                detail: meta_text(coll.2, p.dir_name@, e@),
            },
        ),
        Ok(meta) => {
            let id = state::in_collection(coll, meta.min_ts);
            if m.partitions.contains_key(id) {
                let have = m.partitions[id];
                if have.row_count == meta.row_count && have.last_flushed_wal_lsn
                    == meta.last_flushed_wal_lsn {
                    PartitionStep::Skip
                } else {
                    PartitionStep::Fail(
                        ErrorView::Storage {
                            engine: "timeseries"@,
                            detail: collision_text(
                                coll.2,
                                meta.min_ts,
                                have.row_count,
                                have.last_flushed_wal_lsn,
                                meta.row_count,
                                meta.last_flushed_wal_lsn,
                            ),
                        },
                    )
                }
            } else {
                match p.dir {
                    DirState::Unreadable(e) => PartitionStep::Fail(ErrorView::Io { detail: e@ }),
                    DirState::Occupied => PartitionStep::Fail(
                        ErrorView::Storage {
                            engine: "timeseries"@,
                            detail: occupied_text(coll.2, p.dir_name@),
                        },
                    ),
                    _ => match p.write_failed {
                        Some(e) => PartitionStep::Fail(ErrorView::Io { detail: e@ }),
                        None => PartitionStep::Install,
                    },
                }
            }
        },
    }
}

/// The state once a partition is installed.
pub open spec fn with_partition(m: TsModel, coll: CollId, p: PartitionBlob) -> TsModel {
    let meta = p.meta->Ok_0;
    TsModel {
        partitions: m.partitions.insert(
            state::in_collection(coll, meta.min_ts),
            PartitionFacts {
                max_ts: meta.max_ts,
                row_count: meta.row_count,
                last_flushed_wal_lsn: meta.last_flushed_wal_lsn,
                sealed: meta.sealed,
                dir_name: p.dir_name@,
            },
        ),
        ..m
    }
}

/// The state after the partitions of a collection, up to the first failure, and
/// that failure.
pub open spec fn after_partitions(m: TsModel, coll: CollId, parts: Seq<PartitionBlob>) -> (
    TsModel,
    Option<ErrorView>,
)
    decreases parts.len(),
{
    if parts.len() == 0 {
        (m, None)
    } else {
        let (before, failed) = after_partitions(m, coll, parts.drop_last());
        if failed is Some {
            (before, failed)
        } else {
            match partition_step(before, coll, parts.last()) {
                PartitionStep::Skip => (before, None),
                PartitionStep::Install => (with_partition(before, coll, parts.last()), None),
                PartitionStep::Fail(e) => (before, Some(e)),
            }
        }
    }
}

pub open spec fn after_blobs(m: TsModel, blobs: Seq<CollectionBlob>) -> (TsModel, Option<ErrorView>)
    decreases blobs.len(),
{
    if blobs.len() == 0 {
        (m, None)
    } else {
        let (before, failed) = after_blobs(m, blobs.drop_last());
        if failed is Some {
            (before, failed)
        } else {
            after_partitions(
                before,
                keys::timeseries_key(blobs.last().collection_key@),
                blobs.last().partitions@,
            )
        }
    }
}

fn meta_error(coll: &str, dir: &str, e: &str) -> (r: Error)
    ensures
        r@ == (ErrorView::Serialization { format: "msgpack"@, detail: meta_text(coll@, dir@, e@) }),
{
    let mut detail = "restore: deserialize PartitionMeta for ".to_owned();
    detail.append(coll);
    detail.append("/");
    detail.append(dir);
    detail.append(": ");
    detail.append(e);
    proof {
        assert(detail@ =~= meta_text(coll@, dir@, e@));
    }
    Error::Serialization { format: "msgpack".to_owned(), detail }
}

fn collision_error(coll: &str, have: &Partition, meta: &PartitionMeta) -> (r: Error)
    ensures
        r@ == (ErrorView::Storage {
            engine: "timeseries"@,
            detail: collision_text(
                coll@,
                meta.min_ts,
                have.row_count,
                have.last_flushed_wal_lsn,
                meta.row_count,
                meta.last_flushed_wal_lsn,
            ),
        }),
{
    let mut detail = "restore: partition collision for collection '".to_owned();
    detail.append(coll);
    detail.append("' min_ts=");
    text::push_signed(&mut detail, meta.min_ts);
    detail.append(": existing (rows=");
    text::push_decimal(&mut detail, have.row_count);
    detail.append(", lsn=");
    text::push_decimal(&mut detail, have.last_flushed_wal_lsn);
    detail.append(") differs from snapshot (rows=");
    text::push_decimal(&mut detail, meta.row_count);
    detail.append(", lsn=");
    text::push_decimal(&mut detail, meta.last_flushed_wal_lsn);
    detail.append("); refusing to overwrite live data");
    proof {
        assert(detail@ =~= collision_text(
            coll@,
            meta.min_ts,
            have.row_count,
            have.last_flushed_wal_lsn,
            meta.row_count,
            meta.last_flushed_wal_lsn,
        ));
    }
    Error::Storage { engine: "timeseries".to_owned(), detail }
}

fn occupied_error(coll: &str, dir: &str) -> (r: Error)
    ensures
        r@ == (ErrorView::Storage {
            engine: "timeseries"@,
            detail: occupied_text(coll@, dir@),
        }),
{
    let mut detail = "restore: partition directory '".to_owned();
    detail.append(dir);
    detail.append("' already exists for collection '");
    detail.append(coll);
    detail.append("'; refusing to overwrite live data");
    proof {
        assert(detail@ =~= occupied_text(coll@, dir@));
    }
    Error::Storage { engine: "timeseries".to_owned(), detail }
}

/// Whether a partition's files are to be written: not where the same partition
/// is there already.
pub fn check_partition(
    ts: &TsState,
    db: u64,
    tid: u64,
    collection: &str,
    p: &PartitionBlob,
) -> (r: Result<bool, Error>)
    ensures
        match partition_step(
            ts@,
            (db, tid, collection@),
            (PartitionBlob { write_failed: None, ..*p }),
        ) {
            PartitionStep::Skip => r == Ok::<bool, Error>(false),
            PartitionStep::Install => r == Ok::<bool, Error>(true),
            PartitionStep::Fail(e) => r is Err && r->Err_0@ == e,
        },
{
    let meta: PartitionMeta = match &p.meta {
        Ok(meta) => *meta,
        Err(e) => {
            return Err(meta_error(collection, p.dir_name.as_str(), e.as_str()));
        },
    };
    match ts.partition(db, tid, collection, meta.min_ts) {
        Some(have) => {
            if have.row_count == meta.row_count && have.last_flushed_wal_lsn
                == meta.last_flushed_wal_lsn {
                Ok(false)
            } else {
                Err(collision_error(collection, have, &meta))
            }
        },
        None => match &p.dir {
            DirState::Unreadable(e) => Err(Error::Io { detail: e.clone() }),
            DirState::Occupied => Err(occupied_error(collection, p.dir_name.as_str())),
            _ => Ok(true),
        },
    }
}

/// Install one partition.
fn restore_partition(
    ts: &mut TsState,
    db: u64,
    tid: u64,
    collection: &str,
    p: &PartitionBlob,
) -> (r: Result<(), Error>)
    ensures
        ({
            let coll = (db, tid, collection@);
            match partition_step(old(ts)@, coll, *p) {
                PartitionStep::Skip => r is Ok && final(ts)@ == old(ts)@,
                PartitionStep::Install => r is Ok && final(ts)@ == with_partition(
                    old(ts)@,
                    coll,
                    *p,
                ),
                PartitionStep::Fail(e) => r is Err && r->Err_0@ == e && final(ts)@ == old(ts)@,
            }
        }),
{
    let install = match check_partition(ts, db, tid, collection, p) {
        Err(e) => {
            return Err(e);
        },
        Ok(install) => install,
    };
    if !install {
        return Ok(());
    }
    match &p.write_failed {
        Some(e) => {
            return Err(Error::Io { detail: e.clone() });
        },
        None => {},
    }
    match &p.meta {
        Ok(meta) => {
            ts.import(
                db,
                tid,
                collection,
                meta.min_ts,
                Partition {
                    max_ts: meta.max_ts,
                    row_count: meta.row_count,
                    last_flushed_wal_lsn: meta.last_flushed_wal_lsn,
                    sealed: meta.sealed,
                    dir_name: p.dir_name.clone(),
                },
            );
        },
        Err(_) => {},
    }
    Ok(())
}

fn restore_partitions(
    ts: &mut TsState,
    db: u64,
    tid: u64,
    collection: &str,
    parts: &Vec<PartitionBlob>,
) -> (r: Result<(), Error>)
    ensures
        ({
            let (after, failed) = after_partitions(old(ts)@, (db, tid, collection@), parts@);
            final(ts)@ == after && match failed {
                None => r is Ok,
                Some(e) => r is Err && r->Err_0@ == e,
            }
        }),
{
    let ghost coll = (db, tid, collection@);
    let mut i: usize = 0;
    while i < parts.len()
        invariant
            i <= parts@.len(),
            coll == (db, tid, collection@),
            after_partitions(old(ts)@, coll, parts@.take(i as int)) == (
                ts@,
                None::<ErrorView>,
            ),
        decreases parts.len() - i,
    {
        let ghost before = ts@;
        proof {
            assert(parts@.take(i + 1).drop_last() =~= parts@.take(i as int));
            assert(parts@.take(i + 1).last() == parts@[i as int]);
        }
        match restore_partition(ts, db, tid, collection, &parts[i]) {
            Ok(()) => {},
            Err(e) => {
                proof {
                    lemma_failure_stays(old(ts)@, coll, parts@, i + 1);
                }
                return Err(e);
            },
        }
        i = i + 1;
    }
    proof {
        assert(parts@.take(parts@.len() as int) =~= parts@);
    }
    Ok(())
}

/// What follows a failure changes nothing.
proof fn lemma_failure_stays(m: TsModel, coll: CollId, parts: Seq<PartitionBlob>, n: int)
    requires
        0 <= n <= parts.len(),
        after_partitions(m, coll, parts.take(n)).1 is Some,
    ensures
        after_partitions(m, coll, parts) == after_partitions(m, coll, parts.take(n)),
    decreases parts.len() - n,
{
    if n < parts.len() {
        assert(parts.take(n + 1).drop_last() =~= parts.take(n));
        lemma_failure_stays(m, coll, parts, n + 1);
    } else {
        assert(parts.take(n) =~= parts);
    }
}

proof fn lemma_blob_failure_stays(m: TsModel, blobs: Seq<CollectionBlob>, n: int)
    requires
        0 <= n <= blobs.len(),
        after_blobs(m, blobs.take(n)).1 is Some,
    ensures
        after_blobs(m, blobs) == after_blobs(m, blobs.take(n)),
    decreases blobs.len() - n,
{
    if n < blobs.len() {
        assert(blobs.take(n + 1).drop_last() =~= blobs.take(n));
        lemma_blob_failure_stays(m, blobs, n + 1);
    } else {
        assert(blobs.take(n) =~= blobs);
    }
}

/// Install the timeseries partitions of a snapshot, up to the first that
/// cannot be installed. A partition that is there already with the same number
/// of rows and the same log position is passed over; another one at its place
/// is never overwritten.
pub fn restore_flushed_ts_segments(ts: &mut TsState, blobs: &Vec<CollectionBlob>) -> (r: Result<
    (),
    Error,
>)
    ensures
        ({
            let (after, failed) = after_blobs(old(ts)@, blobs@);
            final(ts)@ == after && match failed {
                None => r is Ok,
                Some(e) => r is Err && r->Err_0@ == e,
            }
        }),
{
    let mut i: usize = 0;
    while i < blobs.len()
        invariant
            i <= blobs@.len(),
            after_blobs(old(ts)@, blobs@.take(i as int)) == (ts@, None::<ErrorView>),
        decreases blobs.len() - i,
    {
        proof {
            assert(blobs@.take(i + 1).drop_last() =~= blobs@.take(i as int));
            assert(blobs@.take(i + 1).last() == blobs@[i as int]);
        }
        let blob = &blobs[i];
        let (db, tid, collection) = keys::parse_timeseries_snapshot_key(
            blob.collection_key.as_str(),
        );
        match restore_partitions(ts, db, tid, collection.as_str(), &blob.partitions) {
            Ok(()) => {},
            Err(e) => {
                proof {
                    lemma_blob_failure_stays(old(ts)@, blobs@, i + 1);
                }
                return Err(e);
            },
        }
        i = i + 1;
    }
    proof {
        assert(blobs@.take(blobs@.len() as int) =~= blobs@);
    }
    Ok(())
}

/// Whether every partition is registered as the snapshot has it.
pub open spec fn holds_partition(m: TsModel, coll: CollId, p: PartitionBlob) -> bool {
    p.meta is Ok && ({
        let id = state::in_collection(coll, p.meta->Ok_0.min_ts);
        m.partitions.contains_key(id) && m.partitions[id].row_count == p.meta->Ok_0.row_count
            && m.partitions[id].last_flushed_wal_lsn == p.meta->Ok_0.last_flushed_wal_lsn
    })
}

/// Every partition of one state is in the other.
pub open spec fn keeps_partitions(m: TsModel, after: TsModel) -> bool {
    forall|id: state::PartitionId| #[trigger]
        m.partitions.contains_key(id) ==> after.partitions.contains_key(id)
            && after.partitions[id] == m.partitions[id]
}

proof fn lemma_partitions_held(m: TsModel, coll: CollId, parts: Seq<PartitionBlob>)
    ensures
        keeps_partitions(m, after_partitions(m, coll, parts).0),
        after_partitions(m, coll, parts).1 is None ==> forall|i: int|
            0 <= i < parts.len() ==> holds_partition(
                after_partitions(m, coll, parts).0,
                coll,
                #[trigger] parts[i],
            ),
    decreases parts.len(),
{
    if parts.len() > 0 {
        let init = parts.drop_last();
        lemma_partitions_held(m, coll, init);
        let before = after_partitions(m, coll, init).0;
        let after = after_partitions(m, coll, parts).0;
        assert(keeps_partitions(before, after));
        if after_partitions(m, coll, parts).1 is None {
            assert forall|i: int| 0 <= i < parts.len() implies holds_partition(
                after,
                coll,
                #[trigger] parts[i],
            ) by {
                if i < init.len() {
                    assert(init[i] == parts[i]);
                    assert(holds_partition(before, coll, init[i]));
                }
            }
        }
    }
}

proof fn lemma_blobs_held(m: TsModel, blobs: Seq<CollectionBlob>)
    ensures
        keeps_partitions(m, after_blobs(m, blobs).0),
        after_blobs(m, blobs).1 is None ==> forall|b: int, i: int|
            #![trigger blobs[b].partitions@[i]]
            0 <= b < blobs.len() && 0 <= i < blobs[b].partitions@.len() ==> holds_partition(
                after_blobs(m, blobs).0,
                keys::timeseries_key(blobs[b].collection_key@),
                blobs[b].partitions@[i],
            ),
    decreases blobs.len(),
{
    if blobs.len() > 0 {
        let init = blobs.drop_last();
        lemma_blobs_held(m, init);
        let before = after_blobs(m, init).0;
        let after = after_blobs(m, blobs).0;
        let coll = keys::timeseries_key(blobs.last().collection_key@);
        lemma_partitions_held(before, coll, blobs.last().partitions@);
        if after_blobs(m, init).1 is None {
            assert(keeps_partitions(before, after));
            if after_blobs(m, blobs).1 is None {
                assert forall|b: int, i: int|
                    #![trigger blobs[b].partitions@[i]]
                    0 <= b < blobs.len() && 0 <= i
                        < blobs[b].partitions@.len() implies holds_partition(
                    after,
                    keys::timeseries_key(blobs[b].collection_key@),
                    blobs[b].partitions@[i],
                ) by {
                    if b < init.len() {
                        assert(init[b] == blobs[b]);
                        assert(holds_partition(
                            before,
                            keys::timeseries_key(init[b].collection_key@),
                            init[b].partitions@[i],
                        ));
                    }
                }
            }
        }
    }
}

proof fn lemma_held_partitions_are_skipped(m: TsModel, coll: CollId, parts: Seq<PartitionBlob>)
    requires
        forall|i: int| 0 <= i < parts.len() ==> holds_partition(m, coll, #[trigger] parts[i]),
    ensures
        after_partitions(m, coll, parts) == (m, None::<ErrorView>),
    decreases parts.len(),
{
    if parts.len() > 0 {
        let init = parts.drop_last();
        assert forall|i: int| 0 <= i < init.len() implies holds_partition(
            m,
            coll,
            #[trigger] init[i],
        ) by {
            assert(init[i] == parts[i]);
        }
        lemma_held_partitions_are_skipped(m, coll, init);
        assert(holds_partition(m, coll, parts[parts.len() - 1]));
    }
}

proof fn lemma_held_blobs_are_skipped(m: TsModel, blobs: Seq<CollectionBlob>)
    requires
        forall|b: int, i: int|
            #![trigger blobs[b].partitions@[i]]
            0 <= b < blobs.len() && 0 <= i < blobs[b].partitions@.len() ==> holds_partition(
                m,
                keys::timeseries_key(blobs[b].collection_key@),
                blobs[b].partitions@[i],
            ),
    ensures
        after_blobs(m, blobs) == (m, None::<ErrorView>),
    decreases blobs.len(),
{
    if blobs.len() > 0 {
        let init = blobs.drop_last();
        assert forall|b: int, i: int|
            #![trigger init[b].partitions@[i]]
            0 <= b < init.len() && 0 <= i < init[b].partitions@.len() implies holds_partition(
            m,
            keys::timeseries_key(init[b].collection_key@),
            init[b].partitions@[i],
        ) by {
            assert(init[b] == blobs[b]);
            assert(holds_partition(
                m,
                keys::timeseries_key(blobs[b].collection_key@),
                blobs[b].partitions@[i],
            ));
        }
        lemma_held_blobs_are_skipped(m, init);
        let last = blobs[blobs.len() - 1];
        assert forall|i: int| 0 <= i < last.partitions@.len() implies holds_partition(
            m,
            keys::timeseries_key(last.collection_key@),
            #[trigger] last.partitions@[i],
        ) by {
            assert(blobs[blobs.len() - 1].partitions@[i] == last.partitions@[i]);
        }
        lemma_held_partitions_are_skipped(
            m,
            keys::timeseries_key(last.collection_key@),
            last.partitions@,
        );
    }
}

/// Installing the partitions of a snapshot a second time changes nothing and
/// succeeds.
pub proof fn law_restoring_twice_is_restoring_once(m: TsModel, blobs: Seq<CollectionBlob>)
    requires
        after_blobs(m, blobs).1 is None,
    ensures
        after_blobs(after_blobs(m, blobs).0, blobs) == (after_blobs(m, blobs).0, None::<ErrorView>),
{
    lemma_blobs_held(m, blobs);
    lemma_held_blobs_are_skipped(after_blobs(m, blobs).0, blobs);
}

/// Whatever becomes of it, installing partitions changes none that is there.
pub proof fn law_restore_overwrites_no_partition(m: TsModel, blobs: Seq<CollectionBlob>)
    ensures
        keeps_partitions(m, after_blobs(m, blobs).0),
{
    lemma_blobs_held(m, blobs);
}

/// The columnar engines of a core, and those with flushed segments.
pub struct ColumnarState {
    engines: VecMap<CollKey, ()>,
    flushed: VecMap<CollKey, ()>,
}

#[verifier::ext_equal]
pub struct ColumnarModel {
    pub engines: Set<CollId>,
    pub flushed: Set<CollId>,
}

impl View for ColumnarState {
    type V = ColumnarModel;

    closed spec fn view(&self) -> ColumnarModel {
        ColumnarModel { engines: self.engines@.dom(), flushed: self.flushed@.dom() }
    }
}

/// The engine of one collection in a snapshot, with what came of decoding it
/// and of building the engine. An engine that was built comes with whether it
/// has flushed segments.
pub struct ColumnarBlob {
    pub collection_key: String,
    pub decode_failed: Option<String>,
    pub built: Result<bool, String>,
}

pub open spec fn live_text(what: Seq<char>, coll: CollId) -> Seq<char> {
    "restore: "@ + (what + (" already exists for collection '"@ + (coll.2 + ("' (db="@ + (
    text::decimal(coll.0 as nat) + (", tenant="@ + (text::decimal(coll.1 as nat)
        + "); refusing to overwrite live data"@)))))))
}

pub open spec fn columnar_decode_text(coll: Seq<char>, e: Seq<char>) -> Seq<char> {
    "restore: deserialize ColumnarEngineSnapshot for '"@ + (coll + ("': "@ + e))
}

pub open spec fn columnar_build_text(coll: Seq<char>, e: Seq<char>) -> Seq<char> {
    "restore: from_snapshot for collection '"@ + (coll + ("': "@ + e))
}

/// What stands against installing an engine.
pub open spec fn columnar_failure(m: ColumnarModel, b: ColumnarBlob) -> Option<ErrorView> {
    let coll = keys::timeseries_key(b.collection_key@);
    if m.engines.contains(coll) {
        Some(
            ErrorView::Storage {
                engine: "columnar"@,
                detail: live_text("columnar engine"@, coll),
            },
        )
    } else if m.flushed.contains(coll) {
        Some(
            ErrorView::Storage {
                engine: "columnar"@,
                detail: live_text("flushed segment state"@, coll),
            },
        )
    } else if b.decode_failed is Some {
        Some(
            ErrorView::Serialization {
                format: "msgpack"@,
                detail: columnar_decode_text(coll.2, b.decode_failed->0@),
            },
        )
    } else {
        match b.built {
            Err(e) => Some(
                ErrorView::Storage {
                    engine: "columnar"@,
                    detail: columnar_build_text(coll.2, e@),
                },
            ),
            Ok(_) => None,
        }
    }
}

pub open spec fn with_engine(m: ColumnarModel, b: ColumnarBlob) -> ColumnarModel {
    let coll = keys::timeseries_key(b.collection_key@);
    ColumnarModel {
        engines: m.engines.insert(coll),
        flushed: if b.built == Ok::<bool, String>(true) {
            m.flushed.insert(coll)
        } else {
            m.flushed
        },
    }
}

/// The state after the engines, up to the first that cannot be installed, and
/// its failure.
pub open spec fn after_engines(m: ColumnarModel, blobs: Seq<ColumnarBlob>) -> (
    ColumnarModel,
    Option<ErrorView>,
)
    decreases blobs.len(),
{
    if blobs.len() == 0 {
        (m, None)
    } else {
        let (before, failed) = after_engines(m, blobs.drop_last());
        if failed is Some {
            (before, failed)
        } else {
            match columnar_failure(before, blobs.last()) {
                Some(e) => (before, Some(e)),
                None => (with_engine(before, blobs.last()), None),
            }
        }
    }
}

proof fn lemma_engine_failure_stays(m: ColumnarModel, blobs: Seq<ColumnarBlob>, n: int)
    requires
        0 <= n <= blobs.len(),
        after_engines(m, blobs.take(n)).1 is Some,
    ensures
        after_engines(m, blobs) == after_engines(m, blobs.take(n)),
    decreases blobs.len() - n,
{
    if n < blobs.len() {
        assert(blobs.take(n + 1).drop_last() =~= blobs.take(n));
        lemma_engine_failure_stays(m, blobs, n + 1);
    } else {
        assert(blobs.take(n) =~= blobs);
    }
}

fn live_error(what: &str, db: u64, tid: u64, coll: &str) -> (r: Error)
    ensures
        r@ == (ErrorView::Storage {
            engine: "columnar"@,
            detail: live_text(what@, (db, tid, coll@)),
        }),
{
    let mut detail = "restore: ".to_owned();
    detail.append(what);
    detail.append(" already exists for collection '");
    detail.append(coll);
    detail.append("' (db=");
    text::push_decimal(&mut detail, db);
    detail.append(", tenant=");
    text::push_decimal(&mut detail, tid);
    detail.append("); refusing to overwrite live data");
    proof {
        assert(detail@ =~= live_text(what@, (db, tid, coll@)));
    }
    Error::Storage { engine: "columnar".to_owned(), detail }
}

fn quoted_text(head: &str, coll: &str, e: &str) -> (r: String)
    ensures
        r@ == head@ + (coll@ + ("': "@ + e@)),
{
    let mut detail = head.to_owned();
    detail.append(coll);
    detail.append("': ");
    detail.append(e);
    proof {
        assert(detail@ =~= head@ + (coll@ + ("': "@ + e@)));
    }
    detail
}

impl ColumnarState {
    pub fn new() -> (r: Self)
        ensures
            r@ == (ColumnarModel { engines: Set::empty(), flushed: Set::empty() }),
    {
        let r = ColumnarState { engines: VecMap::new(), flushed: VecMap::new() };
        proof {
            assert(r@.engines =~= Set::empty());
            assert(r@.flushed =~= Set::empty());
        }
        r
    }

    /// Forget a collection.
    pub fn clear_collection(&mut self, db: u64, tid: u64, coll: &str)
        ensures
            final(self)@ == (ColumnarModel {
                engines: old(self)@.engines.remove((db, tid, coll@)),
                flushed: old(self)@.flushed.remove((db, tid, coll@)),
            }),
    {
        self.engines.remove(&CollKey::at(db, tid, coll));
        self.flushed.remove(&CollKey::at(db, tid, coll));
        proof {
            assert(self@.engines =~= old(self)@.engines.remove((db, tid, coll@)));
            assert(self@.flushed =~= old(self)@.flushed.remove((db, tid, coll@)));
        }
    }

    fn restore_engine(&mut self, b: &ColumnarBlob) -> (r: Result<(), Error>)
        ensures
            match columnar_failure(old(self)@, *b) {
                Some(e) => r is Err && r->Err_0@ == e && final(self)@ == old(self)@,
                None => r is Ok && final(self)@ == with_engine(old(self)@, *b),
            },
    {
        let (db, tid, coll) = keys::parse_timeseries_snapshot_key(b.collection_key.as_str());
        let key = CollKey::at(db, tid, coll.as_str());
        if self.engines.contains(&key) {
            return Err(live_error("columnar engine", db, tid, coll.as_str()));
        }
        if self.flushed.contains(&key) {
            return Err(live_error("flushed segment state", db, tid, coll.as_str()));
        }
        match &b.decode_failed {
            Some(e) => {
                return Err(
                    Error::Serialization {
                        format: "msgpack".to_owned(),
                        detail: quoted_text(
                            "restore: deserialize ColumnarEngineSnapshot for '",
                            coll.as_str(),
                            e.as_str(),
                        ),
                    },
                );
            },
            None => {},
        }
        let has_segments = match &b.built {
            Ok(has_segments) => *has_segments,
            Err(e) => {
                return Err(
                    Error::Storage {
                        engine: "columnar".to_owned(),
                        detail: quoted_text(
                            "restore: from_snapshot for collection '",
                            coll.as_str(),
                            e.as_str(),
                        ),
                    },
                );
            },
        };
        self.engines.insert(key, ());
        if has_segments {
            self.flushed.insert(CollKey::at(db, tid, coll.as_str()), ());
        }
        proof {
            assert(self@ =~= with_engine(old(self)@, *b));
        }
        Ok(())
    }

    /// Install the columnar engines of a snapshot, up to the first that cannot
    /// be installed. An engine or flushed segments that are there already are
    /// never overwritten.
    pub fn restore_columnar_engines(&mut self, entries: &Vec<ColumnarBlob>) -> (r: Result<
        (),
        Error,
    >)
        ensures
            ({
                let (after, failed) = after_engines(old(self)@, entries@);
                final(self)@ == after && match failed {
                    None => r is Ok,
                    Some(e) => r is Err && r->Err_0@ == e,
                }
            }),
    {
        let mut i: usize = 0;
        while i < entries.len()
            invariant
                i <= entries@.len(),
                after_engines(old(self)@, entries@.take(i as int)) == (self@, None::<ErrorView>),
            decreases entries.len() - i,
        {
            proof {
                assert(entries@.take(i + 1).drop_last() =~= entries@.take(i as int));
                assert(entries@.take(i + 1).last() == entries@[i as int]);
            }
            match self.restore_engine(&entries[i]) {
                Ok(()) => {},
                Err(e) => {
                    proof {
                        lemma_engine_failure_stays(old(self)@, entries@, i + 1);
                    }
                    return Err(e);
                },
            }
            i = i + 1;
        }
        proof {
            assert(entries@.take(entries@.len() as int) =~= entries@);
        }
        Ok(())
    }
}

/// A restore that succeeds found none of its collections live, and leaves every
/// one of them with an engine.
pub proof fn law_restore_overwrites_no_engine(m: ColumnarModel, blobs: Seq<ColumnarBlob>)
    requires
        after_engines(m, blobs).1 is None,
    ensures
        forall|i: int|
            0 <= i < blobs.len() ==> {
                let coll = keys::timeseries_key((#[trigger] blobs[i]).collection_key@);
                !m.engines.contains(coll) && !m.flushed.contains(coll) && after_engines(
                    m,
                    blobs,
                ).0.engines.contains(coll)
            },
        m.engines.subset_of(after_engines(m, blobs).0.engines),
        m.flushed.subset_of(after_engines(m, blobs).0.flushed),
    decreases blobs.len(),
{
    if blobs.len() > 0 {
        let init = blobs.drop_last();
        law_restore_overwrites_no_engine(m, init);
        assert forall|i: int| 0 <= i < blobs.len() implies {
            let coll = keys::timeseries_key((#[trigger] blobs[i]).collection_key@);
            !m.engines.contains(coll) && !m.flushed.contains(coll) && after_engines(
                m,
                blobs,
            ).0.engines.contains(coll)
        } by {
            if i < init.len() {
                assert(init[i] == blobs[i]);
            }
        }
    }
}

/// A partition is installed exactly where its description decodes, none of its start
/// is there, its directory is free and its files were written; it is passed over
/// exactly where the same one is there already, by rows and mark. Anything else
/// fails the restore.
pub proof fn law_when_a_partition_is_installed(
    m: TsModel,
    db: u64,
    tid: u64,
    coll: Seq<char>,
    p: PartitionBlob,
)
    ensures
        ({
            let step = partition_step(m, (db, tid, coll), p);
            let at = (db, tid, coll, p.meta->Ok_0.min_ts);
            let there = m.partitions.contains_key(at);
            let same = m.partitions[at].row_count == p.meta->Ok_0.row_count
                && m.partitions[at].last_flushed_wal_lsn == p.meta->Ok_0.last_flushed_wal_lsn;
            &&& step is Install <==> p.meta is Ok && !there && (p.dir is Missing || p.dir is Empty)
                && p.write_failed is None
            &&& step is Skip <==> p.meta is Ok && there && same
            &&& p.meta is Ok && there && !same ==> (step matches PartitionStep::Fail(e)
                && e is Storage)
            &&& p.meta is Ok && !there && p.dir is Occupied ==> (step matches PartitionStep::Fail(e)
                && e is Storage)
            &&& p.meta is Ok && !there && p.dir is Unreadable ==> (
            step matches PartitionStep::Fail(e) && e is Io)
            &&& p.meta is Err ==> (step matches PartitionStep::Fail(e) && e is Serialization)
        }),
{
}

/// An installed partition is described as it was captured, under its own start; no
/// other partition, mark or reservation changes.
pub proof fn law_a_partition_is_installed_as_captured(
    m: TsModel,
    db: u64,
    tid: u64,
    coll: Seq<char>,
    p: PartitionBlob,
    other: state::PartitionId,
)
    requires
        p.meta is Ok,
    ensures
        ({
            let after = with_partition(m, (db, tid, coll), p);
            let meta = p.meta->Ok_0;
            let at = (db, tid, coll, meta.min_ts);
            &&& after.partitions.contains_key(at)
            &&& after.partitions[at].max_ts == meta.max_ts
            &&& after.partitions[at].row_count == meta.row_count
            &&& after.partitions[at].last_flushed_wal_lsn == meta.last_flushed_wal_lsn
            &&& after.partitions[at].sealed == meta.sealed
            &&& after.partitions[at].dir_name == p.dir_name@
            &&& other != at ==> after.partitions.contains_key(other) == m.partitions.contains_key(
                other,
            ) && (m.partitions.contains_key(other) ==> after.partitions[other]
                == m.partitions[other])
            &&& after.ingested == m.ingested
            &&& after.reserved == m.reserved
        }),
{
}

/// A restore takes its partitions one by one and stops at the first that fails,
/// keeping what it installed before.
pub proof fn law_a_restore_stops_at_the_first_failure(
    m: TsModel,
    coll: CollId,
    parts: Seq<PartitionBlob>,
    p: PartitionBlob,
)
    ensures
        ({
            let (before, stopped) = after_partitions(m, coll, parts);
            let (after, failed) = after_partitions(m, coll, parts.push(p));
            let step = partition_step(before, coll, p);
            &&& stopped is Some ==> after == before && failed == stopped
            &&& stopped is None && step is Skip ==> after == before && failed is None
            &&& stopped is None && step is Install ==> after == with_partition(before, coll, p)
                && failed is None
            &&& stopped is None ==> (step matches PartitionStep::Fail(e) ==> after == before
                && failed == Some(e))
        }),
        after_partitions(m, coll, Seq::<PartitionBlob>::empty()) == (m, None::<ErrorView>),
{
    assert(parts.push(p).drop_last() =~= parts);
}

/// The collections of a restore are taken one by one too, each under the key that
/// it was captured with.
pub proof fn law_collections_are_restored_in_order(
    m: TsModel,
    blobs: Seq<CollectionBlob>,
    b: CollectionBlob,
)
    ensures
        ({
            let (before, stopped) = after_blobs(m, blobs);
            let after = after_blobs(m, blobs.push(b));
            &&& stopped is Some ==> after == (before, stopped)
            &&& stopped is None ==> after == after_partitions(
                before,
                keys::timeseries_key(b.collection_key@),
                b.partitions@,
            )
        }),
        after_blobs(m, Seq::<CollectionBlob>::empty()) == (m, None::<ErrorView>),
{
    assert(blobs.push(b).drop_last() =~= blobs);
}

/// An engine is restored exactly where nothing of its collection is live and its
/// snapshot decodes and builds; then the collection has an engine, and flushed
/// segments where the snapshot had any.
pub proof fn law_when_an_engine_is_restored(
    m: ColumnarModel,
    blobs: Seq<ColumnarBlob>,
    b: ColumnarBlob,
    other: CollId,
)
    ensures
        ({
            let (before, stopped) = after_engines(m, blobs);
            let (after, failed) = after_engines(m, blobs.push(b));
            let coll = keys::timeseries_key(b.collection_key@);
            let takes = !before.engines.contains(coll) && !before.flushed.contains(coll)
                && b.decode_failed is None && b.built is Ok;
            &&& stopped is Some ==> after == before && failed == stopped
            &&& stopped is None ==> (failed is None <==> takes)
            &&& stopped is None && !takes ==> after == before
            &&& stopped is None && takes ==> {
                &&& after.engines.contains(coll)
                &&& after.flushed.contains(coll) <==> (b.built matches Ok(flushed) && flushed)
                &&& other != coll ==> after.engines.contains(other) == before.engines.contains(
                    other,
                ) && after.flushed.contains(other) == before.flushed.contains(other)
            }
        }),
{
    assert(blobs.push(b).drop_last() =~= blobs);
}

} // verus!
