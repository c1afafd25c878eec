//! The key-value rows of a transaction's record.
//!
//! A staged value is logged as a put, with its expiry where one is staged, and a
//! staged deletion as a delete of the key. Rows come in the order of their keys'
//! texts, so that the same staged rows always give the same record.
use crate::codec;
use crate::error::{Error, ErrorView};
use crate::hex;
use crate::ids::{DatabaseId, TenantId};
use crate::overlay::staged;
use crate::overlay::staged::{Staged, StagedTtl, TxnOverlay};
use crate::replay::kv as replay_kv;
use crate::sorting;
use crate::sorting::Named;
use crate::transaction::resolve::record;
use crate::transaction::resolve::record::RedoSubRecord;
use crate::transaction::stage_kv;
use crate::wal;
use crate::wal::{RecordType, TombstoneSet, WalRecord};
use vstd::prelude::*;
use vstd::string::*;

verus! {

/// A collection of a tenant.
pub type Place = (u64, u64, Seq<char>);

/// The surrogate that each staged document id leads to.
pub type IdMap = Map<(Place, Seq<char>), u32>;

/// Whether a list holds the staged document ids of a collection in ascending
/// order.
pub open spec fn is_id_order(l: Seq<(Seq<char>, u32)>, ids: IdMap, place: Place) -> bool {
    staged::lists_ids(l, ids, place) && sorting::ascends(l, sorting::text_order())
}

/// The staged document ids of a collection in ascending order.
pub open spec fn sorted_ids(ids: IdMap, place: Place) -> Seq<(Seq<char>, u32)> {
    choose|l: Seq<(Seq<char>, u32)>| is_id_order(l, ids, place)
}

/// There is one such order.
pub proof fn lemma_id_order(l: Seq<(Seq<char>, u32)>, ids: IdMap, place: Place)
    requires
        is_id_order(l, ids, place),
    ensures
        l == sorted_ids(ids, place),
{
    let m = sorted_ids(ids, place);
    assert(is_id_order(m, ids, place));
    assert forall|x: (Seq<char>, u32)| #[trigger] l.contains(x) <==> m.contains(x) by {
        if l.contains(x) {
            let i = choose|i: int| 0 <= i < l.len() && l[i] == x;
            assert(ids.contains_key((place, l[i].0)));
        }
        if m.contains(x) {
            let i = choose|i: int| 0 <= i < m.len() && m[i] == x;
            assert(ids.contains_key((place, m[i].0)));
        }
    }
    sorting::lemma_text_order();
    sorting::lemma_ascending_is_unique(l, m, sorting::text_order());
}

/// The staged document ids of a collection in ascending order.
pub fn sorted_doc_ids(o: &TxnOverlay, coll_key: &(DatabaseId, TenantId, String)) -> (r: Vec<
    Named<u32>,
>)
    ensures
        sorting::named_views(r@) == sorted_ids(o.ids(), staged::coll_id(*coll_key)),
        is_id_order(
            sorted_ids(o.ids(), staged::coll_id(*coll_key)),
            o.ids(),
            staged::coll_id(*coll_key),
        ),
{
    let ghost place = staged::coll_id(*coll_key);
    let ids = o.doc_ids_for_collection(coll_key);
    let ghost listed = staged::id_views(ids@);
    let mut named: Vec<Named<u32>> = Vec::new();
    let ghost all = ids@;
    for id in it: ids.into_iter()
        invariant
            it.seq() == all,
            named@.len() == it.index(),
            forall|j: int|
                0 <= j < named@.len() ==> (#[trigger] named@[j]).name@ == all[j].0@
                    && named@[j].item == all[j].1,
    {
        named.push(Named { name: id.0, item: id.1 });
    }
    proof {
        assert(sorting::named_views(named@) =~= listed);
        assert forall|i: int, j: int| 0 <= i < j < named@.len() implies (#[trigger] named@[i]).name@
            != (#[trigger] named@[j]).name@ by {
            assert(listed[i].0 != listed[j].0);
        }
    }
    let r = sorting::sort_by_name(named);
    proof {
        let l = sorting::named_views(r@);
        assert forall|i: int| 0 <= i < l.len() implies o.ids().contains_key(
            (place, (#[trigger] l[i]).0),
        ) && o.ids()[(place, l[i].0)] == l[i].1 by {
            assert(l.contains(l[i]));
            assert(listed.contains(l[i]));
            let k = choose|k: int| 0 <= k < listed.len() && listed[k] == l[i];
            assert(o.ids().contains_key((place, listed[k].0)));
        }
        assert forall|d: Seq<char>| #[trigger] o.ids().contains_key((place, d)) implies l.contains(
            (d, o.ids()[(place, d)]),
        ) by {
            assert(listed.contains((d, o.ids()[(place, d)])));
        }
        lemma_id_order(l, o.ids(), place);
    }
    r
}

/// What a staged row contributes.
pub enum RowRedo {
    /// The row has a staged expiry alone.
    Nothing,
    Op(record::OpView),
    Fail(ErrorView),
}

pub open spec fn encoded(t: RecordType, bytes: Result<Seq<u8>, Seq<char>>) -> RowRedo {
    match bytes {
        Ok(b) => RowRedo::Op((t, b)),
        Err(e) => RowRedo::Fail(
            ErrorView::Serialization { format: "msgpack"@, detail: "kv resolve: "@ + e },
        ),
    }
}

/// The staged expiry of a row, where it has one.
pub open spec fn expiry_of(o: TxnOverlay, row: (Place, u32)) -> Option<u64> {
    if o.ttls().contains_key(row) {
        match o.ttls()[row] {
            StagedTtl::ExpireAt(at) => Some(at),
            StagedTtl::Persist => None,
        }
    } else {
        None
    }
}

pub open spec fn row_redo(o: TxnOverlay, place: Place, id: Seq<char>, surrogate: u32) -> RowRedo {
    let row = (place, surrogate);
    match hex::unhex(id) {
        None => RowRedo::Fail(
            ErrorView::Internal { detail: "kv resolve: malformed overlay doc-id '"@ + (id + "'"@) },
        ),
        Some(key) => if !o.rows().contains_key(row) {
            RowRedo::Nothing
        } else {
            match o.rows()[row] {
                Staged::Put(body) => match expiry_of(o, row) {
                    Some(at) => encoded(
                        RecordType::Put,
                        codec::kv_put_expiring_encoding_of("kv_put"@, place.2, key, body@, 0, at),
                    ),
                    None => encoded(
                        RecordType::Put,
                        codec::kv_put_encoding_of("kv_put"@, place.2, key, body@, 0),
                    ),
                },
                Staged::Tombstone => encoded(
                    RecordType::Delete,
                    codec::kv_delete_encoding_of("kv_delete"@, place.2, seq![key]),
                ),
            }
        },
    }
}

/// A staged row that a record's write stands for.
pub type RowName = (Place, Seq<char>, u32);

/// A record in the making.
#[verifier::ext_equal]
pub struct Resolved {
    pub ops: Seq<record::OpView>,
    /// The rows that the writes stand for.
    pub rows: Seq<RowName>,
    /// What stopped it.
    pub fail: Option<ErrorView>,
}

/// A record with one more row.
pub open spec fn with_row(before: Resolved, o: TxnOverlay, name: RowName) -> Resolved {
    if before.fail is Some {
        before
    } else {
        match row_redo(o, name.0, name.1, name.2) {
            RowRedo::Nothing => before,
            RowRedo::Op(op) => Resolved {
                ops: before.ops.push(op),
                rows: before.rows.push(name),
                fail: None,
            },
            RowRedo::Fail(e) => Resolved { fail: Some(e), ..before },
        }
    }
}

/// A record with the rows of a collection, in turn.
pub open spec fn with_rows(
    before: Resolved,
    o: TxnOverlay,
    place: Place,
    ids: Seq<(Seq<char>, u32)>,
) -> Resolved
    decreases ids.len(),
{
    if ids.len() == 0 {
        before
    } else {
        with_row(
            with_rows(before, o, place, ids.drop_last()),
            o,
            (place, ids.last().0, ids.last().1),
        )
    }
}

/// Once a record has failed, nothing is added to it.
pub proof fn lemma_failure_stays(
    before: Resolved,
    o: TxnOverlay,
    place: Place,
    ids: Seq<(Seq<char>, u32)>,
    i: int,
)
    requires
        0 <= i <= ids.len(),
        with_rows(before, o, place, ids.take(i)).fail is Some,
    ensures
        with_rows(before, o, place, ids) == with_rows(before, o, place, ids.take(i)),
    decreases ids.len(),
{
    if i == ids.len() {
        assert(ids.take(i) =~= ids);
    } else {
        assert(ids.drop_last().take(i) =~= ids.take(i));
        lemma_failure_stays(before, o, place, ids.drop_last(), i);
    }
}

/// Whether a row's lengths can be written.
pub open spec fn row_fits(o: TxnOverlay, name: RowName) -> bool {
    &&& hex::unhex(name.1) is Some
    &&& o.rows().contains_key((name.0, name.2))
    &&& match o.rows()[(name.0, name.2)] {
        Staged::Put(body) => codec::entry_fits(name.0.2, hex::unhex(name.1)->0, body@),
        Staged::Tombstone => codec::text_fits(name.0.2) && hex::unhex(name.1)->0.len() <= u32::MAX,
    }
}

/// Whether a write reads back as the row that it stands for.
pub open spec fn reads_as(op: record::OpView, o: TxnOverlay, name: RowName) -> bool {
    let key = hex::unhex(name.1)->0;
    let row = (name.0, name.2);
    &&& hex::unhex(name.1) is Some
    &&& o.rows().contains_key(row)
    &&& match o.rows()[row] {
        Staged::Put(body) => op.0 == RecordType::Put && match expiry_of(o, row) {
            Some(at) => codec::kv_put_expiring_of(op.1) == Some(
                ("kv_put"@, name.0.2, key, body@, 0u64, at),
            ),
            None => codec::kv_put_expiring_of(op.1) is None && codec::kv_put_of(op.1) == Some(
                ("kv_put"@, name.0.2, key, body@, 0u64),
            ),
        },
        Staged::Tombstone => op.0 == RecordType::Delete && codec::kv_delete_of(op.1) == Some(
            ("kv_delete"@, name.0.2, seq![key]),
        ),
    }
}

/// Whether every write reads back as the row that it stands for, where the
/// row's lengths can be written.
pub open spec fn all_read(ops: Seq<record::OpView>, o: TxnOverlay, rows: Seq<RowName>) -> bool {
    ops.len() == rows.len() && forall|i: int|
        0 <= i < ops.len() && row_fits(o, #[trigger] rows[i]) ==> reads_as(ops[i], o, rows[i])
}

/// The write of a row, or what fails.
fn row_op(o: &TxnOverlay, coll_key: &(DatabaseId, TenantId, String), id: &String, surrogate: u32) -> (r:
    Result<Option<RedoSubRecord>, Error>)
    ensures
        match row_redo(*o, staged::coll_id(*coll_key), id@, surrogate) {
            RowRedo::Nothing => r is Ok && r->Ok_0 is None,
            RowRedo::Op(op) => r is Ok && r->Ok_0 is Some && record::op_view(r->Ok_0->0) == op && (
            row_fits(*o, (staged::coll_id(*coll_key), id@, surrogate)) ==> reads_as(
                op,
                *o,
                (staged::coll_id(*coll_key), id@, surrogate),
            )),
            RowRedo::Fail(e) => r is Err && r->Err_0@ == e,
        },
{
    let key = match stage_kv::unhex_key(id.as_str()) {
        Some(key) => key,
        None => {
            let mut detail = "kv resolve: malformed overlay doc-id '".to_owned();
            detail.append(id.as_str());
            detail.append("'");
            proof {
                assert(detail@ =~= "kv resolve: malformed overlay doc-id '"@ + (id@ + "'"@));
            }
            return Err(Error::Internal { detail });
        },
    };
    proof {
        reveal_strlit("kv_put");
        reveal_strlit("kv_delete");
        codec::lemma_text_size("kv_put"@);
        codec::lemma_text_size("kv_delete"@);
    }
    let (record_type, bytes) = match o.get(coll_key, surrogate) {
        None => {
            return Ok(None);
        },
        Some(Staged::Put(body)) => {
            let expiry: Option<u64> = match o.ttl_of(coll_key, surrogate) {
                Some(StagedTtl::ExpireAt(at)) => Some(at),
                Some(StagedTtl::Persist) => None,
                None => None,
            };
            let bytes = match expiry {
                Some(at) => codec::encode_kv_put_expiring(
                    "kv_put",
                    coll_key.2.as_str(),
                    &key,
                    body,
                    0,
                    at,
                ),
                None => codec::encode_kv_put("kv_put", coll_key.2.as_str(), &key, body, 0),
            };
            (RecordType::Put, bytes)
        },
        Some(Staged::Tombstone) => {
            let ghost k = key@;
            let mut keys: Vec<Vec<u8>> = Vec::new();
            keys.push(key);
            proof {
                assert(codec::key_views(keys@) =~= seq![k]);
            }
            (RecordType::Delete, codec::encode_kv_delete("kv_delete", coll_key.2.as_str(), &keys))
        },
    };
    match bytes {
        Ok(payload) => Ok(Some(RedoSubRecord { record_type, payload })),
        Err(e) => {
            let mut detail = "kv resolve: ".to_owned();
            detail.append(e.as_str());
            Err(Error::Serialization { format: "msgpack".to_owned(), detail })
        },
    }
}

/// Append the writes of a collection's staged rows, in ascending order of their
/// document ids.
pub(crate) fn serialize_kv_collection(
    o: &TxnOverlay,
    coll_key: &(DatabaseId, TenantId, String),
    ops: &mut Vec<RedoSubRecord>,
    Ghost(rows): Ghost<Seq<RowName>>,
) -> (r: Result<(), Error>)
    requires
        all_read(record::op_views(old(ops)@), *o, rows),
    ensures
        ({
            let place = staged::coll_id(*coll_key);
            let after = with_rows(
                Resolved { ops: record::op_views(old(ops)@), rows, fail: None },
                *o,
                place,
                sorted_ids(o.ids(), place),
            );
            &&& record::op_views(final(ops)@) == after.ops
            &&& all_read(after.ops, *o, after.rows)
            &&& match after.fail {
                None => r is Ok,
                Some(e) => r is Err && r->Err_0@ == e,
            }
        }),
{
    let ghost place = staged::coll_id(*coll_key);
    let ghost start = Resolved { ops: record::op_views(ops@), rows, fail: None };
    let ids = sorted_doc_ids(o, coll_key);
    let ghost all = sorting::named_views(ids@);
    let ghost mut named = rows;
    let mut i: usize = 0;
    proof {
        assert(all.take(0) =~= Seq::empty());
    }
    while i < ids.len()
        invariant
            i <= ids@.len(),
            all == sorting::named_views(ids@),
            all == sorted_ids(o.ids(), place),
            place == staged::coll_id(*coll_key),
            start == (Resolved { ops: record::op_views(old(ops)@), rows, fail: None }),
            with_rows(start, *o, place, all.take(i as int)) == (Resolved {
                ops: record::op_views(ops@),
                rows: named,
                fail: None,
            }),
            all_read(record::op_views(ops@), *o, named),
        decreases ids.len() - i,
    {
        let ghost before = Resolved { ops: record::op_views(ops@), rows: named, fail: None };
        let ghost name: RowName = (place, all[i as int].0, all[i as int].1);
        proof {
            assert(all.take(i + 1).drop_last() =~= all.take(i as int));
            assert(all.take(i + 1).last() == all[i as int]);
            assert(with_rows(start, *o, place, all.take(i + 1)) == with_row(before, *o, name));
        }
        match row_op(o, coll_key, &ids[i].name, ids[i].item) {
            Err(e) => {
                proof {
                    lemma_failure_stays(start, *o, place, all, i + 1);
                }
                return Err(e);
            },
            Ok(None) => {},
            Ok(Some(op)) => {
                ops.push(op);
                proof {
                    named = named.push(name);
                    assert(record::op_views(ops@) =~= before.ops.push(record::op_view(op)));
                    assert forall|j: int|
                        0 <= j < record::op_views(ops@).len() && row_fits(
                            *o,
                            #[trigger] named[j],
                        ) implies reads_as(record::op_views(ops@)[j], *o, named[j]) by {
                        if j < before.rows.len() {
                            assert(named[j] == before.rows[j]);
                            assert(record::op_views(ops@)[j] == before.ops[j]);
                        }
                    }
                }
            },
        }
        i = i + 1;
    }
    proof {
        assert(all.take(all.len() as int) =~= all);
    }
    Ok(())
}

/// Replaying a resolved write repeats the staged one: a put stores the staged
/// value with the staged expiry, a delete deletes the key.
pub proof fn law_a_resolved_row_replays(
    op: record::OpView,
    o: TxnOverlay,
    name: RowName,
    r: WalRecord,
    core_id: usize,
    num_cores: usize,
    tombstones: TombstoneSet,
)
    requires
        reads_as(op, o, name),
        r.record_type == op.0,
        r.payload@ == op.1,
        wal::target_core(r.vshard_id, num_cores) == core_id,
        !tombstones.covers(r.tenant_id, name.0.2, r.lsn),
    ensures
        replay_kv::kv_step(core_id, r, num_cores, tombstones) == (match o.rows()[(name.0, name.2)] {
            Staged::Put(body) => replay_kv::KvStep::Put {
                database_id: r.database_id,
                tenant_id: r.tenant_id,
                collection: name.0.2,
                key: hex::unhex(name.1)->0,
                value: body@,
                ttl_ms: 0,
                expire_at_ms: expiry_of(o, (name.0, name.2)),
            },
            Staged::Tombstone => replay_kv::KvStep::Delete {
                database_id: r.database_id,
                tenant_id: r.tenant_id,
                collection: name.0.2,
                keys: seq![hex::unhex(name.1)->0],
            },
        }),
{
}

/// A transaction resolves to the same writes wherever it is resolved: two
/// overlays that hold the same give the same record.
pub proof fn law_a_collection_resolves_alike(
    a: TxnOverlay,
    b: TxnOverlay,
    place: Place,
    start: Resolved,
    ids: Seq<(Seq<char>, u32)>,
)
    requires
        a.rows() == b.rows(),
        a.ids() == b.ids(),
        a.ttls() == b.ttls(),
    ensures
        sorted_ids(a.ids(), place) == sorted_ids(b.ids(), place),
        with_rows(start, a, place, ids) == with_rows(start, b, place, ids),
    decreases ids.len(),
{
    if ids.len() > 0 {
        law_a_collection_resolves_alike(a, b, place, start, ids.drop_last());
    }
}

/// A staged put is recorded as a put of its key, collection and body, with the
/// instant at which it expires where one is staged; a deleted row is recorded as a
/// delete of its key; a row that only has an expiry is not recorded, and a
/// document id that is no key fails.
pub proof fn law_a_row_is_recorded_as_it_is_staged(
    o: TxnOverlay,
    place: Place,
    id: Seq<char>,
    surrogate: u32,
)
    ensures
        ({
            let redo = row_redo(o, place, id, surrogate);
            let row = (place, surrogate);
            let staged = o.rows().contains_key(row);
            &&& redo is Nothing <==> hex::unhex(id) is Some && !staged
            &&& hex::unhex(id) is None ==> redo == RowRedo::Fail(
                ErrorView::Internal {
                    detail: "kv resolve: malformed overlay doc-id '"@ + (id + "'"@),
                },
            )
            &&& redo matches RowRedo::Op((t, bytes)) ==> {
                let key = hex::unhex(id)->0;
                &&& staged
                &&& t == RecordType::Put <==> o.rows()[row] is Put
                &&& t == RecordType::Delete <==> o.rows()[row] is Tombstone
                &&& o.rows()[row] is Tombstone ==> codec::kv_delete_encoding_of(
                    "kv_delete"@,
                    place.2,
                    seq![key],
                ) == Ok::<Seq<u8>, Seq<char>>(bytes)
                &&& o.rows()[row] matches Staged::Put(body) ==> if o.ttls().contains_key(row)
                    && o.ttls()[row] is ExpireAt {
                    codec::kv_put_expiring_encoding_of(
                        "kv_put"@,
                        place.2,
                        key,
                        body@,
                        0,
                        o.ttls()[row]->ExpireAt_0,
                    ) == Ok::<Seq<u8>, Seq<char>>(bytes)
                } else {
                    codec::kv_put_encoding_of("kv_put"@, place.2, key, body@, 0) == Ok::<
                        Seq<u8>,
                        Seq<char>,
                    >(bytes)
                }
            }
        }),
{
}

/// Resolving a collection that does not fail records every id that has a staged
/// row, in the order of the ids, behind what was recorded before, one write each.
pub proof fn law_every_staged_row_is_recorded(
    before: Resolved,
    o: TxnOverlay,
    place: Place,
    ids: Seq<(Seq<char>, u32)>,
)
    requires
        with_rows(before, o, place, ids).fail is None,
    ensures
        ({
            let after = with_rows(before, o, place, ids);
            let kept = ids.filter(|x: (Seq<char>, u32)| o.rows().contains_key((place, x.1)));
            &&& before.fail is None
            &&& after.rows == before.rows + kept.map_values(
                |x: (Seq<char>, u32)| (place, x.0, x.1),
            )
            &&& after.ops.len() == before.ops.len() + kept.len()
            &&& after.ops.take(before.ops.len() as int) == before.ops
        }),
    decreases ids.len(),
{
    reveal(Seq::filter);
    let pred = |x: (Seq<char>, u32)| o.rows().contains_key((place, x.1));
    let name = |x: (Seq<char>, u32)| (place, x.0, x.1);
    let after = with_rows(before, o, place, ids);
    if ids.len() > 0 {
        let short = ids.drop_last();
        let x = ids.last();
        law_every_staged_row_is_recorded(before, o, place, short);
        let kept = short.filter(pred);
        if pred(x) {
            assert(kept.push(x).map_values(name) =~= kept.map_values(name).push(
                (place, x.0, x.1),
            ));
            assert(before.rows + kept.push(x).map_values(name) =~= (before.rows + kept.map_values(
                name,
            )).push((place, x.0, x.1)));
        }
        assert(after.ops.take(before.ops.len() as int) =~= with_rows(
            before,
            o,
            place,
            short,
        ).ops.take(before.ops.len() as int));
    } else {
        assert(ids.filter(pred).map_values(name) =~= Seq::<RowName>::empty());
        assert(after.rows =~= before.rows + ids.filter(pred).map_values(name));
        assert(after.ops.take(before.ops.len() as int) =~= before.ops);
    }
}

} // verus!
