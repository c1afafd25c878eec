//! The record of a committing transaction: its plans say which collections it
//! wrote, and the overlay what it wrote there. Nothing stored is touched.
//!
//! An engine whose writes cannot be recorded is refused rather than left out:
//! what is not in the record would be lost.
use crate::error::{Error, ErrorView};
use crate::ids::{DatabaseId, TenantId};
use crate::maps;
use crate::maps::{MapKey, TextKey, VecMap};
use crate::overlay::staged::TxnOverlay;
use crate::sorting;
use crate::sorting::Named;
use crate::transaction::plan::{KvOp, PhysicalPlan};
use crate::transaction::resolve::kv;
use crate::transaction::resolve::kv::Resolved;
use crate::transaction::resolve::record;
use crate::transaction::resolve::record::{RedoRecord, RedoSubRecord};
use vstd::prelude::*;
use vstd::string::*;

verus! {

/// The collections that an operation writes, or why it cannot be recorded.
pub open spec fn kv_collections(op: KvOp) -> Result<Set<Seq<char>>, ErrorView> {
    match op {
        KvOp::Put { collection, .. } => Ok(set![collection@]),
        KvOp::Insert { collection, .. } => Ok(set![collection@]),
        KvOp::InsertIfAbsent { collection, .. } => Ok(set![collection@]),
        KvOp::InsertOnConflictUpdate { collection, .. } => Ok(set![collection@]),
        KvOp::Delete { collection, .. } => Ok(set![collection@]),
        KvOp::BatchPut { collection } => Ok(set![collection@]),
        KvOp::Incr { collection } => Ok(set![collection@]),
        KvOp::IncrFloat { collection } => Ok(set![collection@]),
        KvOp::Cas { collection } => Ok(set![collection@]),
        KvOp::GetSet { collection } => Ok(set![collection@]),
        KvOp::FieldSet { collection } => Ok(set![collection@]),
        KvOp::Transfer { collection } => Ok(set![collection@]),
        KvOp::TransferItem { source_collection, dest_collection } => Ok(
            set![source_collection@, dest_collection@],
        ),
        KvOp::Get | KvOp::BatchGet | KvOp::Scan | KvOp::FieldGet | KvOp::GetTtl
        | KvOp::MaterializeScan | KvOp::SortedIndexRank | KvOp::SortedIndexTopK
        | KvOp::SortedIndexRange | KvOp::SortedIndexCount | KvOp::SortedIndexScore => Ok(
            Set::empty(),
        ),
        KvOp::Expire | KvOp::Persist => Err(
            ErrorView::PlanError {
                detail: "kv EXPIRE/PERSIST is not supported in transaction resolve"@,
            },
        ),
        KvOp::RegisterIndex | KvOp::DropIndex | KvOp::RegisterSortedIndex | KvOp::DropSortedIndex
        | KvOp::Truncate => Err(
            ErrorView::PlanError {
                detail: "kv index/DDL/truncate op is not supported in transaction resolve"@,
            },
        ),
    }
}

fn add_collection(collections: &mut VecMap<TextKey, ()>, collection: &String)
    ensures
        final(collections)@.dom() == old(collections)@.dom().insert(collection@),
{
    collections.insert(TextKey(collection.clone()), ());
    proof {
        assert(collections@.dom() =~= old(collections)@.dom().insert(collection@));
    }
}

/// Collect the collections that an operation writes.
pub fn classify_kv_op(op: &KvOp, collections: &mut VecMap<TextKey, ()>) -> (r: Result<(), Error>)
    ensures
        match kv_collections(*op) {
            Ok(s) => r is Ok && final(collections)@.dom() == old(collections)@.dom().union(s),
            Err(e) => r is Err && r->Err_0@ == e && final(collections)@ == old(collections)@,
        },
{
    let ghost before = collections@.dom();
    match op {
        KvOp::Put { collection, .. } | KvOp::Insert { collection, .. }
        | KvOp::InsertIfAbsent { collection, .. } | KvOp::InsertOnConflictUpdate {
            collection,
            ..
        } | KvOp::Delete { collection, .. } | KvOp::BatchPut { collection } | KvOp::Incr {
            collection,
        } | KvOp::IncrFloat { collection } | KvOp::Cas { collection } | KvOp::GetSet { collection }
        | KvOp::FieldSet { collection } | KvOp::Transfer { collection } => {
            add_collection(collections, collection);
            proof {
                assert(collections@.dom() =~= before.union(set![collection@]));
            }
            Ok(())
        },
        KvOp::TransferItem { source_collection, dest_collection } => {
            add_collection(collections, source_collection);
            add_collection(collections, dest_collection);
            proof {
                assert(collections@.dom() =~= before.union(
                    set![source_collection@, dest_collection@],
                ));
            }
            Ok(())
        },
        KvOp::Get | KvOp::BatchGet | KvOp::Scan | KvOp::FieldGet | KvOp::GetTtl
        | KvOp::MaterializeScan | KvOp::SortedIndexRank | KvOp::SortedIndexTopK
        | KvOp::SortedIndexRange | KvOp::SortedIndexCount | KvOp::SortedIndexScore => {
            proof {
                assert(before =~= before.union(Set::empty()));
            }
            Ok(())
        },
        KvOp::Expire | KvOp::Persist => Err(
            Error::PlanError {
                detail: "kv EXPIRE/PERSIST is not supported in transaction resolve".to_owned(),
            },
        ),
        KvOp::RegisterIndex | KvOp::DropIndex | KvOp::RegisterSortedIndex | KvOp::DropSortedIndex
        | KvOp::Truncate => Err(
            Error::PlanError {
                detail: "kv index/DDL/truncate op is not supported in transaction resolve".to_owned(),
            },
        ),
    }
}

pub open spec fn unsupported(engine: Seq<char>) -> ErrorView {
    ErrorView::PlanError {
        detail: engine + " writes are not yet supported in transaction resolve"@,
    }
}

/// The error of an engine whose writes cannot be recorded.
pub fn unsupported_engine(engine: &str) -> (r: Error)
    ensures
        r@ == unsupported(engine@),
{
    let mut detail = engine.to_owned();
    detail.append(" writes are not yet supported in transaction resolve");
    Error::PlanError { detail }
}

/// The key-value collections that a plan writes, or why it cannot be recorded.
pub open spec fn plan_collections(plan: PhysicalPlan) -> Result<Set<Seq<char>>, ErrorView> {
    match plan {
        PhysicalPlan::Kv(op) => kv_collections(op),
        PhysicalPlan::Crdt | PhysicalPlan::Text | PhysicalPlan::Query | PhysicalPlan::Meta => Ok(
            Set::empty(),
        ),
        PhysicalPlan::Document(_) => Err(unsupported("document"@)),
        PhysicalPlan::Graph(_) => Err(unsupported("graph"@)),
        PhysicalPlan::Vector(_) => Err(unsupported("vector"@)),
        PhysicalPlan::Array => Err(unsupported("array"@)),
        PhysicalPlan::Columnar(_) => Err(unsupported("columnar"@)),
        PhysicalPlan::Timeseries => Err(unsupported("timeseries"@)),
        PhysicalPlan::Spatial(_) => Err(unsupported("spatial"@)),
        PhysicalPlan::ClusterArray => Err(
            ErrorView::Internal {
                detail: "cluster-array op reached Data Plane transaction resolve"@,
            },
        ),
    }
}

/// The key-value collections that plans write, or what the first plan that cannot
/// be recorded is refused with.
pub open spec fn written_collections(plans: Seq<PhysicalPlan>) -> Result<Set<Seq<char>>, ErrorView>
    decreases plans.len(),
{
    if plans.len() == 0 {
        Ok(Set::empty())
    } else {
        match written_collections(plans.drop_last()) {
            Err(e) => Err(e),
            Ok(before) => match plan_collections(plans.last()) {
                Err(e) => Err(e),
                Ok(s) => Ok(before.union(s)),
            },
        }
    }
}

proof fn lemma_refusal_stays(plans: Seq<PhysicalPlan>, i: int)
    requires
        0 <= i <= plans.len(),
        written_collections(plans.take(i)) is Err,
    ensures
        written_collections(plans) == written_collections(plans.take(i)),
    decreases plans.len(),
{
    if i == plans.len() {
        assert(plans.take(i) =~= plans);
    } else {
        assert(plans.drop_last().take(i) =~= plans.take(i));
        lemma_refusal_stays(plans.drop_last(), i);
    }
}

fn classify_plan(plan: &PhysicalPlan, collections: &mut VecMap<TextKey, ()>) -> (r: Result<
    (),
    Error,
>)
    ensures
        match plan_collections(*plan) {
            Ok(s) => r is Ok && final(collections)@.dom() == old(collections)@.dom().union(s),
            Err(e) => r is Err && r->Err_0@ == e,
        },
{
    proof {
        assert(collections@.dom() =~= collections@.dom().union(Set::empty()));
    }
    match plan {
        PhysicalPlan::Kv(op) => classify_kv_op(op, collections),
        PhysicalPlan::Crdt | PhysicalPlan::Text | PhysicalPlan::Query | PhysicalPlan::Meta => Ok(
            (),
        ),
        PhysicalPlan::Document(_) => Err(unsupported_engine("document")),
        PhysicalPlan::Graph(_) => Err(unsupported_engine("graph")),
        PhysicalPlan::Vector(_) => Err(unsupported_engine("vector")),
        PhysicalPlan::Array => Err(unsupported_engine("array")),
        PhysicalPlan::Columnar(_) => Err(unsupported_engine("columnar")),
        PhysicalPlan::Timeseries => Err(unsupported_engine("timeseries")),
        PhysicalPlan::Spatial(_) => Err(unsupported_engine("spatial")),
        PhysicalPlan::ClusterArray => Err(
            Error::Internal {
                detail: "cluster-array op reached Data Plane transaction resolve".to_owned(),
            },
        ),
    }
}

/// Whether a list holds a set of names in ascending order.
pub open spec fn is_name_order(l: Seq<(Seq<char>, ())>, names: Set<Seq<char>>) -> bool {
    &&& sorting::ascends(l, sorting::text_order())
    &&& forall|x: (Seq<char>, ())| #[trigger] l.contains(x) <==> names.contains(x.0)
}

/// The names of a set in ascending order.
pub open spec fn sorted_names(names: Set<Seq<char>>) -> Seq<(Seq<char>, ())> {
    choose|l: Seq<(Seq<char>, ())>| is_name_order(l, names)
}

/// There is one such order.
pub proof fn lemma_names_sorted(l: Seq<(Seq<char>, ())>, names: Set<Seq<char>>)
    requires
        is_name_order(l, names),
    ensures
        l == sorted_names(names),
{
    let m = sorted_names(names);
    assert(is_name_order(m, names));
    assert forall|x: (Seq<char>, ())| #[trigger] l.contains(x) <==> m.contains(x) by {}
    sorting::lemma_text_order();
    sorting::lemma_ascending_is_unique(l, m, sorting::text_order());
}

fn sort_collections(collections: VecMap<TextKey, ()>) -> (r: Vec<Named<()>>)
    ensures
        sorting::named_views(r@) == sorted_names(collections@.dom()),
        is_name_order(sorted_names(collections@.dom()), collections@.dom()),
{
    let ghost names = collections@.dom();
    let entries = collections.into_entries();
    let ghost e = entries@;
    let mut named: Vec<Named<()>> = Vec::new();
    for x in it: entries.into_iter()
        invariant
            it.seq() == e,
            named@.len() == it.index(),
            forall|j: int| 0 <= j < named@.len() ==> (#[trigger] named@[j]).name@ == e[j].0.key(),
    {
        named.push(Named { name: x.0.0, item: () });
    }
    proof {
        assert forall|i: int, j: int| 0 <= i < j < named@.len() implies (#[trigger] named@[i]).name@
            != (#[trigger] named@[j]).name@ by {
            assert(e[i].0.key() != e[j].0.key());
        }
    }
    let ghost before = sorting::named_views(named@);
    let r = sorting::sort_by_name(named);
    proof {
        let l = sorting::named_views(r@);
        assert forall|x: (Seq<char>, ())| #[trigger] l.contains(x) <==> names.contains(x.0) by {
            if l.contains(x) {
                assert(before.contains(x));
                let i = choose|i: int| 0 <= i < before.len() && before[i] == x;
                assert(e[i].0.key() == x.0);
                maps::lemma_entry_in_map(e, i);
            }
            if names.contains(x.0) {
                maps::lemma_map_has_entry(e, x.0);
                let i = maps::position(e, x.0);
                assert(before[i] == x);
                assert(before.contains(x));
            }
        }
        lemma_names_sorted(l, names);
    }
    r
}

/// A record with the rows of collections, in turn.
pub open spec fn with_collections(
    before: Resolved,
    o: TxnOverlay,
    database_id: u64,
    tid: u64,
    collections: Seq<(Seq<char>, ())>,
) -> Resolved
    decreases collections.len(),
{
    if collections.len() == 0 {
        before
    } else {
        let place = (database_id, tid, collections.last().0);
        kv::with_rows(
            with_collections(before, o, database_id, tid, collections.drop_last()),
            o,
            place,
            kv::sorted_ids(o.ids(), place),
        )
    }
}

/// A record that has failed stays as it is.
proof fn lemma_failed_stays(
    before: Resolved,
    o: TxnOverlay,
    place: kv::Place,
    ids: Seq<(Seq<char>, u32)>,
)
    requires
        before.fail is Some,
    ensures
        kv::with_rows(before, o, place, ids) == before,
    decreases ids.len(),
{
    if ids.len() > 0 {
        lemma_failed_stays(before, o, place, ids.drop_last());
    }
}

proof fn lemma_failed_collections_stay(
    before: Resolved,
    o: TxnOverlay,
    database_id: u64,
    tid: u64,
    collections: Seq<(Seq<char>, ())>,
    i: int,
)
    requires
        0 <= i <= collections.len(),
        with_collections(before, o, database_id, tid, collections.take(i)).fail is Some,
    ensures
        with_collections(before, o, database_id, tid, collections) == with_collections(
            before,
            o,
            database_id,
            tid,
            collections.take(i),
        ),
    decreases collections.len(),
{
    if i == collections.len() {
        assert(collections.take(i) =~= collections);
    } else {
        assert(collections.drop_last().take(i) =~= collections.take(i));
        lemma_failed_collections_stay(before, o, database_id, tid, collections.drop_last(), i);
        let place = (database_id, tid, collections.last().0);
        lemma_failed_stays(
            with_collections(before, o, database_id, tid, collections.drop_last()),
            o,
            place,
            kv::sorted_ids(o.ids(), place),
        );
    }
}

/// A record without writes.
pub open spec fn nothing() -> Resolved {
    Resolved { ops: Seq::empty(), rows: Seq::empty(), fail: None }
}

/// What a transaction that wrote `names` resolves to.
pub open spec fn resolved(
    overlay: Option<TxnOverlay>,
    database_id: u64,
    tid: u64,
    names: Set<Seq<char>>,
) -> Resolved {
    match overlay {
        None => nothing(),
        Some(o) => with_collections(nothing(), o, database_id, tid, sorted_names(names)),
    }
}

/// An overlay as a value.
pub open spec fn overlay_value(overlay: Option<&TxnOverlay>) -> Option<TxnOverlay> {
    match overlay {
        Some(o) => Some(*o),
        None => None,
    }
}

/// What a transaction is answered with when it is resolved.
pub open spec fn resolves_to(
    overlay: Option<TxnOverlay>,
    database_id: u64,
    tid: u64,
    plans: Seq<PhysicalPlan>,
    r: Result<Seq<record::OpView>, ErrorView>,
) -> bool {
    match written_collections(plans) {
        Err(e) => r == Err::<Seq<record::OpView>, ErrorView>(e),
        Ok(names) => {
            let after = resolved(overlay, database_id, tid, names);
            match after.fail {
                Some(e) => r == Err::<Seq<record::OpView>, ErrorView>(e),
                None => r == Ok::<Seq<record::OpView>, ErrorView>(after.ops) && (
                overlay matches Some(o) ==> kv::all_read(after.ops, o, after.rows)),
            }
        },
    }
}

/// The writes of a transaction, in a fixed order: collections ascend by name, and
/// rows within a collection by their key's text.
pub fn resolve_txn_ops(
    overlay: Option<&TxnOverlay>,
    database_id: u64,
    tid: u64,
    plans: &Vec<PhysicalPlan>,
) -> (r: Result<Vec<RedoSubRecord>, Error>)
    ensures
        resolves_to(
            overlay_value(overlay),
            database_id,
            tid,
            plans@,
            match r {
                Ok(ops) => Ok(record::op_views(ops@)),
                Err(e) => Err(e@),
            },
        ),
{
    let mut collections: VecMap<TextKey, ()> = VecMap::new();
    let mut i: usize = 0;
    proof {
        assert(plans@.take(0) =~= Seq::empty());
        assert(collections@.dom() =~= Set::empty());
    }
    while i < plans.len()
        invariant
            i <= plans@.len(),
            written_collections(plans@.take(i as int)) == Ok::<Set<Seq<char>>, ErrorView>(
                collections@.dom(),
            ),
        decreases plans.len() - i,
    {
        proof {
            assert(plans@.take(i + 1).drop_last() =~= plans@.take(i as int));
            assert(plans@.take(i + 1).last() == plans@[i as int]);
        }
        match classify_plan(&plans[i], &mut collections) {
            Ok(_) => {},
            Err(e) => {
                proof {
                    lemma_refusal_stays(plans@, i + 1);
                }
                return Err(e);
            },
        }
        i = i + 1;
    }
    proof {
        assert(plans@.take(plans@.len() as int) =~= plans@);
    }
    let ghost names = collections@.dom();
    let mut ops: Vec<RedoSubRecord> = Vec::new();
    proof {
        assert(record::op_views(ops@) =~= Seq::empty());
    }
    match overlay {
        None => {},
        Some(o) => {
            let sorted = sort_collections(collections);
            let ghost all = sorting::named_views(sorted@);
            let ghost mut rows: Seq<kv::RowName> = Seq::empty();
            let mut j: usize = 0;
            proof {
                assert(all.take(0) =~= Seq::empty());
            }
            while j < sorted.len()
                invariant
                    j <= sorted@.len(),
                    all == sorting::named_views(sorted@),
                    all == sorted_names(names),
                    written_collections(plans@) == Ok::<Set<Seq<char>>, ErrorView>(names),
                    overlay == Some(o),
                    with_collections(nothing(), *o, database_id, tid, all.take(j as int)) == (
                    Resolved { ops: record::op_views(ops@), rows, fail: None }),
                    kv::all_read(record::op_views(ops@), *o, rows),
                decreases sorted.len() - j,
            {
                proof {
                    assert(all.take(j + 1).drop_last() =~= all.take(j as int));
                    assert(all.take(j + 1).last() == all[j as int]);
                }
                let coll_key = (DatabaseId(database_id), TenantId(tid), sorted[j].name.clone());
                let ghost after = with_collections(
                    nothing(),
                    *o,
                    database_id,
                    tid,
                    all.take(j + 1),
                );
                match kv::serialize_kv_collection(o, &coll_key, &mut ops, Ghost(rows)) {
                    Ok(_) => {},
                    Err(e) => {
                        proof {
                            lemma_failed_collections_stay(
                                nothing(),
                                *o,
                                database_id,
                                tid,
                                all,
                                j + 1,
                            );
                        }
                        return Err(e);
                    },
                }
                proof {
                    rows = after.rows;
                }
                j = j + 1;
            }
            proof {
                assert(all.take(all.len() as int) =~= all);
            }
        },
    }
    Ok(ops)
}

/// Resolve a committing transaction into the record that a replay repeats.
pub fn execute_resolve_txn(
    overlay: Option<&TxnOverlay>,
    database_id: u64,
    tid: u64,
    plans: &Vec<PhysicalPlan>,
) -> (r: Result<RedoRecord, Error>)
    ensures
        resolves_to(
            overlay_value(overlay),
            database_id,
            tid,
            plans@,
            match r {
                Ok(record) => Ok(record::op_views(record.ops@)),
                Err(e) => Err(e@),
            },
        ),
        r matches Ok(record) ==> record.version == 1 && record.calvin_stamp is None,
{
    match resolve_txn_ops(overlay, database_id, tid, plans) {
        Ok(ops) => Ok(RedoRecord { version: 1, ops, calvin_stamp: None }),
        Err(e) => Err(e),
    }
}

/// Two nodes that resolve the same transaction come to the same record.
pub proof fn law_a_transaction_resolves_alike(
    a: TxnOverlay,
    b: TxnOverlay,
    database_id: u64,
    tid: u64,
    collections: Seq<(Seq<char>, ())>,
    start: Resolved,
)
    requires
        a.rows() == b.rows(),
        a.ids() == b.ids(),
        a.ttls() == b.ttls(),
    ensures
        with_collections(start, a, database_id, tid, collections) == with_collections(
            start,
            b,
            database_id,
            tid,
            collections,
        ),
    decreases collections.len(),
{
    if collections.len() > 0 {
        law_a_transaction_resolves_alike(
            a,
            b,
            database_id,
            tid,
            collections.drop_last(),
            start,
        );
        let place = (database_id, tid, collections.last().0);
        kv::law_a_collection_resolves_alike(
            a,
            b,
            place,
            with_collections(start, a, database_id, tid, collections.drop_last()),
            kv::sorted_ids(a.ids(), place),
        );
    }
}

/// A transaction whose plans only read has nothing to record.
pub proof fn law_a_reading_transaction_records_nothing(
    plans: Seq<PhysicalPlan>,
    o: TxnOverlay,
    database_id: u64,
    tid: u64,
)
    requires
        forall|i: int|
            0 <= i < plans.len() ==> plan_collections(#[trigger] plans[i]) == Ok::<
                Set<Seq<char>>,
                ErrorView,
            >(Set::empty()),
    ensures
        written_collections(plans) == Ok::<Set<Seq<char>>, ErrorView>(Set::empty()),
        resolved(Some(o), database_id, tid, Set::empty()) == nothing(),
    decreases plans.len(),
{
    if plans.len() > 0 {
        law_a_reading_transaction_records_nothing(plans.drop_last(), o, database_id, tid);
        assert(plan_collections(plans[plans.len() - 1]) == Ok::<Set<Seq<char>>, ErrorView>(
            Set::empty(),
        ));
        assert(Set::<Seq<char>>::empty().union(Set::empty()) =~= Set::<Seq<char>>::empty());
    }
    let l: Seq<(Seq<char>, ())> = Seq::empty();
    assert(is_name_order(l, Set::empty()));
    lemma_names_sorted(l, Set::empty());
}

/// The collections of a transaction are those that its plans write, and it can be
/// resolved exactly where each of its plans can.
pub proof fn law_a_transaction_writes_what_its_plans_write(
    plans: Seq<PhysicalPlan>,
    collection: Seq<char>,
)
    ensures
        written_collections(plans) is Ok <==> forall|i: int|
            0 <= i < plans.len() ==> plan_collections(#[trigger] plans[i]) is Ok,
        written_collections(plans) matches Ok(names) ==> (names.contains(collection) <==> exists|
            i: int,
        |
            0 <= i < plans.len() && plan_collections(#[trigger] plans[i]) is Ok
                && plan_collections(plans[i])->Ok_0.contains(collection)),
        written_collections(plans) matches Err(e) ==> exists|i: int|
            0 <= i < plans.len() && plan_collections(#[trigger] plans[i]) == Err::<
                Set<Seq<char>>,
                ErrorView,
            >(e) && forall|j: int| 0 <= j < i ==> plan_collections(#[trigger] plans[j]) is Ok,
    decreases plans.len(),
{
    if plans.len() > 0 {
        let short = plans.drop_last();
        let n = plans.len() - 1;
        law_a_transaction_writes_what_its_plans_write(short, collection);
        assert forall|i: int| 0 <= i < n implies short[i] == plans[i] by {}
        match written_collections(short) {
            Err(e) => {
                let i = choose|i: int|
                    0 <= i < short.len() && plan_collections(#[trigger] short[i]) == Err::<
                        Set<Seq<char>>,
                        ErrorView,
                    >(e) && forall|j: int|
                        0 <= j < i ==> plan_collections(#[trigger] short[j]) is Ok;
                assert(plan_collections(plans[i]) == Err::<Set<Seq<char>>, ErrorView>(e));
                assert forall|j: int| 0 <= j < i implies plan_collections(
                    #[trigger] plans[j],
                ) is Ok by {
                    assert(plan_collections(short[j]) is Ok);
                }
            },
            Ok(before) => {
                assert forall|i: int| 0 <= i < n implies plan_collections(
                    #[trigger] plans[i],
                ) is Ok by {
                    assert(plan_collections(short[i]) is Ok);
                }
                assert(plan_collections(plans[n]) == plan_collections(plans.last()));
                if before.contains(collection) {
                    let i = choose|i: int|
                        0 <= i < short.len() && plan_collections(#[trigger] short[i]) is Ok
                            && plan_collections(short[i])->Ok_0.contains(collection);
                    assert(plan_collections(plans[i])->Ok_0.contains(collection));
                }
                if exists|i: int|
                    0 <= i < plans.len() && plan_collections(#[trigger] plans[i]) is Ok
                        && plan_collections(plans[i])->Ok_0.contains(collection) {
                    let i = choose|i: int|
                        0 <= i < plans.len() && plan_collections(#[trigger] plans[i]) is Ok
                            && plan_collections(plans[i])->Ok_0.contains(collection);
                    if i < n {
                        assert(plan_collections(short[i])->Ok_0.contains(collection));
                    }
                }
            },
        }
    }
}

/// A key-value operation writes the collections that it names; one that only reads
/// writes none; expiries and definitions cannot be resolved.
pub proof fn law_what_a_key_value_operation_writes(op: KvOp)
    ensures
        kv_collections(op) is Err <==> op is Expire || op is Persist || op is RegisterIndex
            || op is DropIndex || op is RegisterSortedIndex || op is DropSortedIndex
            || op is Truncate,
        kv_collections(op) == Ok::<Set<Seq<char>>, ErrorView>(Set::empty()) <==> op is Get
            || op is BatchGet || op is Scan || op is FieldGet || op is GetTtl
            || op is MaterializeScan || op is SortedIndexRank || op is SortedIndexTopK
            || op is SortedIndexRange || op is SortedIndexCount || op is SortedIndexScore,
        op matches KvOp::Put { collection, .. } ==> kv_collections(op)->Ok_0.contains(collection@),
        op matches KvOp::Insert { collection, .. } ==> kv_collections(op)->Ok_0.contains(
            collection@,
        ),
        op matches KvOp::InsertIfAbsent { collection, .. } ==> kv_collections(op)->Ok_0.contains(
            collection@,
        ),
        op matches KvOp::InsertOnConflictUpdate { collection, .. } ==> kv_collections(
            op,
        )->Ok_0.contains(collection@),
        op matches KvOp::Delete { collection, .. } ==> kv_collections(op)->Ok_0.contains(
            collection@,
        ),
        op matches KvOp::BatchPut { collection } ==> kv_collections(op)->Ok_0.contains(collection@),
        op matches KvOp::Incr { collection } ==> kv_collections(op)->Ok_0.contains(collection@),
        op matches KvOp::IncrFloat { collection } ==> kv_collections(op)->Ok_0.contains(
            collection@,
        ),
        op matches KvOp::Cas { collection } ==> kv_collections(op)->Ok_0.contains(collection@),
        op matches KvOp::GetSet { collection } ==> kv_collections(op)->Ok_0.contains(collection@),
        op matches KvOp::FieldSet { collection } ==> kv_collections(op)->Ok_0.contains(collection@),
        op matches KvOp::Transfer { collection } ==> kv_collections(op)->Ok_0.contains(collection@),
        op matches KvOp::TransferItem { source_collection, dest_collection } ==> kv_collections(
            op,
        )->Ok_0.contains(source_collection@) && kv_collections(op)->Ok_0.contains(
            dest_collection@,
        ),
{
    if kv_collections(op) is Ok {
        let s = kv_collections(op)->Ok_0;
        assert(forall|c: Seq<char>| !Set::<Seq<char>>::empty().contains(c));
        match op {
            KvOp::Put { collection, .. } => assert(s.contains(collection@)),
            KvOp::Insert { collection, .. } => assert(s.contains(collection@)),
            KvOp::InsertIfAbsent { collection, .. } => assert(s.contains(collection@)),
            KvOp::InsertOnConflictUpdate { collection, .. } => assert(s.contains(collection@)),
            KvOp::Delete { collection, .. } => assert(s.contains(collection@)),
            KvOp::BatchPut { collection } => assert(s.contains(collection@)),
            KvOp::Incr { collection } => assert(s.contains(collection@)),
            KvOp::IncrFloat { collection } => assert(s.contains(collection@)),
            KvOp::Cas { collection } => assert(s.contains(collection@)),
            KvOp::GetSet { collection } => assert(s.contains(collection@)),
            KvOp::FieldSet { collection } => assert(s.contains(collection@)),
            KvOp::Transfer { collection } => assert(s.contains(collection@)),
            KvOp::TransferItem { source_collection, .. } => assert(s.contains(
                source_collection@,
            )),
            _ => {},
        }
    }
}

/// Only key-value writes are resolved here; the writes of every other engine that
/// has rows are refused, and plans without rows write nothing.
pub proof fn law_only_key_value_writes_are_resolved(plan: PhysicalPlan)
    ensures
        plan matches PhysicalPlan::Kv(op) ==> plan_collections(plan) == kv_collections(op),
        plan is Crdt || plan is Text || plan is Query || plan is Meta ==> plan_collections(plan)
            == Ok::<Set<Seq<char>>, ErrorView>(Set::empty()),
        plan is Document || plan is Graph || plan is Vector || plan is Array || plan is Columnar
            || plan is Timeseries || plan is Spatial ==> (plan_collections(plan) matches Err(e)
            && e is PlanError),
        plan is ClusterArray ==> (plan_collections(plan) matches Err(e) && e is Internal),
{
}

proof fn lemma_rows_are_kept(
    start: Resolved,
    o: TxnOverlay,
    database_id: u64,
    tid: u64,
    collections: Seq<(Seq<char>, ())>,
    i: int,
    name: kv::RowName,
)
    requires
        0 <= i < collections.len(),
        with_collections(start, o, database_id, tid, collections).fail is None,
        kv::sorted_ids(o.ids(), (database_id, tid, collections[i].0)).contains((name.1, name.2)),
        name.0 == (database_id, tid, collections[i].0),
        o.rows().contains_key((name.0, name.2)),
    ensures
        with_collections(start, o, database_id, tid, collections).rows.contains(name),
    decreases collections.len(),
{
    let short = collections.drop_last();
    let place = (database_id, tid, collections.last().0);
    let before = with_collections(start, o, database_id, tid, short);
    let ids = kv::sorted_ids(o.ids(), place);
    let after = kv::with_rows(before, o, place, ids);
    kv::law_every_staged_row_is_recorded(before, o, place, ids);
    let pred = |x: (Seq<char>, u32)| o.rows().contains_key((place, x.1));
    let to = |x: (Seq<char>, u32)| (place, x.0, x.1);
    let kept = ids.filter(pred);
    if i < short.len() {
        assert(short[i] == collections[i]);
        lemma_rows_are_kept(start, o, database_id, tid, short, i, name);
        let k = choose|k: int| 0 <= k < before.rows.len() && before.rows[k] == name;
        assert(after.rows[k] == name);
    } else {
        let q = choose|q: int| 0 <= q < ids.len() && ids[q] == (name.1, name.2);
        assert(pred(ids[q]));
        ids.lemma_filter_contains(pred, q);
        let k = choose|k: int| 0 <= k < kept.len() && kept[k] == ids[q];
        assert(kept.map_values(to)[k] == name);
        assert(after.rows[before.rows.len() + k] == name);
    }
}

/// A transaction that resolves records every row that it staged in every
/// collection that its plans write.
pub proof fn law_every_written_row_is_recorded(
    o: TxnOverlay,
    database_id: u64,
    tid: u64,
    names: Set<Seq<char>>,
    collection: Seq<char>,
    id: Seq<char>,
)
    requires
        is_name_order(sorted_names(names), names),
        kv::is_id_order(
            kv::sorted_ids(o.ids(), (database_id, tid, collection)),
            o.ids(),
            (database_id, tid, collection),
        ),
        resolved(Some(o), database_id, tid, names).fail is None,
        names.contains(collection),
        o.ids().contains_key(((database_id, tid, collection), id)),
        o.rows().contains_key(
            (
                (database_id, tid, collection),
                o.ids()[((database_id, tid, collection), id)],
            ),
        ),
    ensures
        resolved(Some(o), database_id, tid, names).rows.contains(
            (
                (database_id, tid, collection),
                id,
                o.ids()[((database_id, tid, collection), id)],
            ),
        ),
{
    let l = sorted_names(names);
    let place = (database_id, tid, collection);
    assert(l.contains((collection, ())));
    let i = choose|i: int| 0 <= i < l.len() && l[i] == (collection, ());
    lemma_rows_are_kept(nothing(), o, database_id, tid, l, i, (place, id, o.ids()[(place, id)]));
}

/// A commit is resolved only where every plan names what it writes; the failure
/// of a plan, or of a row, is the answer.
pub proof fn law_when_a_commit_is_resolved(
    overlay: Option<TxnOverlay>,
    database_id: u64,
    tid: u64,
    plans: Seq<PhysicalPlan>,
    r: Result<Seq<record::OpView>, ErrorView>,
)
    requires
        resolves_to(overlay, database_id, tid, plans, r),
    ensures
        written_collections(plans) matches Err(e) ==> r == Err::<Seq<record::OpView>, ErrorView>(e),
        written_collections(plans) matches Ok(names) ==> (r is Ok <==> resolved(
            overlay,
            database_id,
            tid,
            names,
        ).fail is None),
        r matches Ok(ops) ==> written_collections(plans) is Ok && ops == resolved(
            overlay,
            database_id,
            tid,
            written_collections(plans)->Ok_0,
        ).ops,
{
}


} // verus!
