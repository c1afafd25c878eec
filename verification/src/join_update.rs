//! `UPDATE ... FROM`: which rows of the target a join matches, and what each
//! becomes. Nothing is written here.
use crate::error::{Error, ErrorView};
use crate::hex;
use crate::maps;
use crate::maps::{MapKey, TextKey, VecMap};
use crate::text;
use vstd::prelude::*;
use vstd::string::*;

verus! {

/// The fields of a document, each value as its JSON text.
pub type Fields = VecMap<TextKey, String>;

pub open spec fn field_texts(f: Fields) -> Map<Seq<char>, Seq<char>> {
    f@.map_values(|s: String| s@)
}

/// A document: its fields, or none where it is no object.
pub type Document = Option<Fields>;

pub open spec fn document_texts(d: Document) -> Option<Map<Seq<char>, Seq<char>>> {
    match d {
        Some(f) => Some(field_texts(f)),
        None => None,
    }
}

/// A row of the target.
pub struct TargetRow {
    pub doc_id: String,
    /// None where the row is gone, or is not readable.
    pub doc: Option<TargetDoc>,
}

/// A readable row of the target.
pub struct TargetDoc {
    pub fields: Document,
    /// The text of the field that is joined on, where it has it.
    pub join_text: Option<String>,
}

/// A row that the join matches, with what it becomes.
pub struct ResolvedUpdateRow {
    pub doc_id: String,
    /// The surrogate that its key names.
    pub surrogate: Option<u32>,
    pub body: Vec<u8>,
    pub doc: Document,
}

/// The name of a source field where it is used.
pub open spec fn qualified(alias: Seq<char>, field: Seq<char>) -> Seq<char> {
    alias + (seq!['.'] + field)
}

/// The fields of listed entries, under their qualified names.
pub open spec fn with_source(
    target: Map<Seq<char>, Seq<char>>,
    alias: Seq<char>,
    source: Seq<(TextKey, String)>,
) -> Map<Seq<char>, Seq<char>>
    decreases source.len(),
{
    if source.len() == 0 {
        target
    } else {
        with_source(target, alias, source.drop_last()).insert(
            qualified(alias, source.last().0.key()),
            source.last().1@,
        )
    }
}

fn copy_fields(f: &Fields) -> (r: Fields)
    ensures
        field_texts(r) == field_texts(*f),
{
    let mut r: Fields = VecMap::new();
    let mut i: usize = 0;
    proof {
        use_type_invariant(f);
        f.lemma_listed();
        assert(field_texts(r) =~= field_texts_of(f.listed().take(0)));
    }
    while i < f.len()
        invariant
            i <= f.listed().len(),
            maps::keys_unique(f.listed()),
            field_texts(r) == field_texts_of(f.listed().take(i as int)),
        decreases f.listed().len() - i,
    {
        proof {
            assert(f.listed().take(i + 1).drop_last() =~= f.listed().take(i as int));
        }
        let e = f.entry(i);
        let ghost before = field_texts(r);
        r.insert(TextKey(e.0.0.clone()), e.1.clone());
        proof {
            assert(field_texts(r) =~= before.insert(e.0.key(), e.1@));
        }
        i = i + 1;
    }
    proof {
        assert(f.listed().take(f.listed().len() as int) =~= f.listed());
        lemma_field_texts(f.listed());
        assert(field_texts(r) =~= field_texts(*f));
    }
    r
}

/// The fields of listed entries.
pub open spec fn field_texts_of(e: Seq<(TextKey, String)>) -> Map<Seq<char>, Seq<char>>
    decreases e.len(),
{
    if e.len() == 0 {
        Map::empty()
    } else {
        field_texts_of(e.drop_last()).insert(e.last().0.key(), e.last().1@)
    }
}

proof fn lemma_field_texts(e: Seq<(TextKey, String)>)
    requires
        maps::keys_unique(e),
    ensures
        field_texts_of(e) == maps::as_map(e).map_values(|s: String| s@),
    decreases e.len(),
{
    let m = maps::as_map(e).map_values(|s: String| s@);
    if e.len() == 0 {
        assert(maps::as_map(e) =~= Map::empty());
        assert(field_texts_of(e) =~= m);
    } else {
        let e0 = e.drop_last();
        let (k, v) = e.last();
        assert(maps::keys_unique(e0)) by {
            assert forall|i: int, j: int| 0 <= i < j < e0.len() implies #[trigger] e0[i].0.key()
                != #[trigger] e0[j].0.key() by {
                assert(e[i].0.key() != e[j].0.key());
            }
        }
        lemma_field_texts(e0);
        if maps::as_map(e0).contains_key(k.key()) {
            maps::lemma_map_has_entry(e0, k.key());
            let p = maps::position(e0, k.key());
            assert(e[p].0.key() != e[e.len() - 1].0.key());
        }
        maps::lemma_push_entry(e0, k, v);
        assert(e =~= e0.push((k, v)));
        assert(field_texts_of(e) =~= m);
    }
}

/// The document that assignments are evaluated against: the target's fields under
/// their names, and the source's under qualified names.
pub open spec fn merged_document(target: Document, alias: Seq<char>, source: Document) -> Option<
    Map<Seq<char>, Seq<char>>,
> {
    match (target, source) {
        (Some(t), Some(s)) => Some(with_source(field_texts(t), alias, s.listed())),
        (Some(t), None) => Some(field_texts(t)),
        (None, _) => None,
    }
}

/// Merge the source's fields into the target's.
pub fn merge_documents(target: &Document, alias: &str, source: &Document) -> (r: Document)
    ensures
        document_texts(r) == merged_document(*target, alias@, *source),
{
    let t = match target {
        Some(t) => t,
        None => {
            return None;
        },
    };
    let mut merged = copy_fields(t);
    match source {
        None => {},
        Some(s) => {
            let mut i: usize = 0;
            proof {
                assert(s.listed().take(0) =~= Seq::empty());
            }
            while i < s.len()
                invariant
                    i <= s.listed().len(),
                    field_texts(merged) == with_source(
                        field_texts(*t),
                        alias@,
                        s.listed().take(i as int),
                    ),
                decreases s.listed().len() - i,
            {
                proof {
                    assert(s.listed().take(i + 1).drop_last() =~= s.listed().take(i as int));
                }
                let e = s.entry(i);
                let ghost before = field_texts(merged);
                let mut name = alias.to_owned();
                name.push('.');
                name.append(e.0.0.as_str());
                proof {
                    assert(name@ =~= qualified(alias@, e.0.key()));
                }
                merged.insert(TextKey(name), e.1.clone());
                proof {
                    assert(field_texts(merged) =~= before.insert(
                        qualified(alias@, e.0.key()),
                        e.1@,
                    ));
                }
                i = i + 1;
            }
            proof {
                assert(s.listed().take(s.listed().len() as int) =~= s.listed());
            }
        },
    }
    Some(merged)
}

/// The fields after assignments, in turn. A literal that is not readable assigns
/// nothing.
pub open spec fn assigned(
    fields: Map<Seq<char>, Seq<char>>,
    updates: Seq<(String, Option<String>)>,
) -> Map<Seq<char>, Seq<char>>
    decreases updates.len(),
{
    if updates.len() == 0 {
        fields
    } else {
        let before = assigned(fields, updates.drop_last());
        match updates.last().1 {
            Some(v) => before.insert(updates.last().0@, v@),
            None => before,
        }
    }
}

/// Of all assignments to a field that have a value the last one counts.
pub proof fn law_the_last_assignment_counts(
    fields: Map<Seq<char>, Seq<char>>,
    updates: Seq<(String, Option<String>)>,
    i: int,
)
    requires
        0 <= i < updates.len(),
        updates[i].1 is Some,
        forall|j: int|
            i < j < updates.len() && (#[trigger] updates[j]).0@ == updates[i].0@
                ==> updates[j].1 is None,
    ensures
        assigned(fields, updates).contains_key(updates[i].0@),
        assigned(fields, updates)[updates[i].0@] == updates[i].1->0@,
    decreases updates.len(),
{
    if i < updates.len() - 1 {
        let init = updates.drop_last();
        assert forall|j: int|
            i < j < init.len() && (#[trigger] init[j]).0@ == init[i].0@ implies init[j].1 is None by {
            assert(updates[j] == init[j]);
        }
        law_the_last_assignment_counts(fields, init, i);
        assert(init[i] == updates[i]);
        assert(updates[updates.len() - 1] == updates.last());
    }
}

/// A field that no assignment gives a value stays as it was, or stays away.
pub proof fn law_other_fields_stay(
    fields: Map<Seq<char>, Seq<char>>,
    updates: Seq<(String, Option<String>)>,
    name: Seq<char>,
)
    requires
        forall|j: int|
            0 <= j < updates.len() && (#[trigger] updates[j]).0@ == name ==> updates[j].1 is None,
    ensures
        assigned(fields, updates).contains_key(name) == fields.contains_key(name),
        fields.contains_key(name) ==> assigned(fields, updates)[name] == fields[name],
    decreases updates.len(),
{
    if updates.len() > 0 {
        let init = updates.drop_last();
        assert forall|j: int|
            0 <= j < init.len() && (#[trigger] init[j]).0@ == name implies init[j].1 is None by {
            assert(updates[j] == init[j]);
        }
        law_other_fields_stay(fields, init, name);
        assert(updates[updates.len() - 1] == updates.last());
    }
}

/// Assign values to the fields of a document. A document that is no object stays
/// as it is.
pub fn apply_assignments(target: &Document, updates: Vec<(String, Option<String>)>) -> (r: Document)
    ensures
        document_texts(r) == (match *target {
            Some(t) => Some(assigned(field_texts(t), updates@)),
            None => None,
        }),
        *target is Some <==> r is Some,
        *target is Some ==> forall|i: int|
            #![trigger updates@[i]]
            0 <= i < updates@.len() && updates@[i].1 is Some && (forall|j: int|
                i < j < updates@.len() && (#[trigger] updates@[j]).0@ == updates@[i].0@
                    ==> updates@[j].1 is None) ==> {
                &&& field_texts(r->0).contains_key(updates@[i].0@)
                &&& field_texts(r->0)[updates@[i].0@] == updates@[i].1->0@
            },
        *target is Some ==> forall|name: Seq<char>|
            #![trigger field_texts(r->0).contains_key(name)]
            (forall|j: int|
                0 <= j < updates@.len() && (#[trigger] updates@[j]).0@ == name
                    ==> updates@[j].1 is None) ==> {
                &&& field_texts(r->0).contains_key(name) == field_texts(target->0).contains_key(
                    name,
                )
                &&& field_texts(target->0).contains_key(name) ==> field_texts(r->0)[name]
                    == field_texts(target->0)[name]
            },
{
    let t = match target {
        Some(t) => t,
        None => {
            return None;
        },
    };
    let mut fields = copy_fields(t);
    let ghost all = updates@;
    proof {
        assert(all.take(0) =~= Seq::empty());
    }
    for u in it: updates.into_iter()
        invariant
            it.seq() == all,
            field_texts(fields) == assigned(field_texts(*t), all.take(it.index() as int)),
    {
        proof {
            assert(all.take(it.index() + 1).drop_last() =~= all.take(it.index() as int));
            assert(all.take(it.index() + 1).last() == u);
        }
        let ghost before = field_texts(fields);
        match u.1 {
            Some(v) => {
                let ghost value = v@;
                let ghost name = u.0@;
                fields.insert(TextKey(u.0), v);
                proof {
                    assert(field_texts(fields) =~= before.insert(name, value));
                }
            },
            None => {},
        }
    }
    proof {
        assert(all.take(all.len() as int) =~= all);
        assert forall|i: int|
            #![trigger all[i]]
            0 <= i < all.len() && all[i].1 is Some && (forall|j: int|
                i < j < all.len() && (#[trigger] all[j]).0@ == all[i].0@
                    ==> all[j].1 is None) implies {
            &&& field_texts(fields).contains_key(all[i].0@)
            &&& field_texts(fields)[all[i].0@] == all[i].1->0@
        } by {
            law_the_last_assignment_counts(field_texts(*t), all, i);
        }
        assert forall|name: Seq<char>|
            #![trigger field_texts(fields).contains_key(name)]
            (forall|j: int|
                0 <= j < all.len() && (#[trigger] all[j]).0@ == name
                    ==> all[j].1 is None) implies {
            &&& field_texts(fields).contains_key(name) == field_texts(*t).contains_key(name)
            &&& field_texts(*t).contains_key(name) ==> field_texts(fields)[name] == field_texts(
                *t,
            )[name]
        } by {
            law_other_fields_stay(field_texts(*t), all, name);
        }
    }
    Some(fields)
}

/// What a resolved document is encoded to; none where it cannot be, or where a
/// generated column fails.
pub struct Encoded {
    pub doc: Document,
    pub body: Vec<u8>,
}

/// The text that a row is joined on: empty where it lacks the field.
pub open spec fn join_key(d: TargetDoc) -> Seq<char> {
    match d.join_text {
        Some(t) => t@,
        None => Seq::empty(),
    }
}

/// Whether assignments are to these fields, in order, each with what the
/// evaluation of its expression on a merged document gave.
pub open spec fn are_evaluated<F: Fn(&Document, usize) -> Option<String>>(
    assignments: Seq<(String, Option<String>)>,
    fields: Seq<String>,
    merged: Document,
    evaluate: F,
) -> bool {
    &&& assignments.len() == fields.len()
    &&& forall|i: int|
        0 <= i < fields.len() ==> (#[trigger] assignments[i]).0@ == fields[i]@
            && evaluate.ensures((&merged, i as usize), assignments[i].1)
}

/// Whether `r` may come of a row: nothing where the row is not readable, no
/// source row has its key, or it cannot be encoded; else the row with the
/// assigned fields, encoded.
pub open spec fn may_resolve<
    F: Fn(&Document, usize) -> Option<String>,
    G: Fn(&Document) -> Option<Encoded>,
>(
    row: TargetRow,
    sources: Map<Seq<char>, Document>,
    alias: Seq<char>,
    updates: Seq<String>,
    evaluate: F,
    encode: G,
    r: Option<ResolvedUpdateRow>,
) -> bool {
    match row.doc {
        None => r is None,
        Some(d) => if !sources.contains_key(join_key(d)) {
            r is None
        } else {
            exists|merged: Document, assignments: Seq<(String, Option<String>)>, after: Document, out: Option<Encoded>|
                #![trigger are_evaluated(assignments, updates, merged, evaluate), encode.ensures((&after,), out)]
                {
                    &&& document_texts(merged) == merged_document(
                        d.fields,
                        alias,
                        sources[join_key(d)],
                    )
                    &&& are_evaluated(assignments, updates, merged, evaluate)
                    &&& document_texts(after) == (match d.fields {
                        Some(t) => Some(assigned(field_texts(t), assignments)),
                        None => None,
                    })
                    &&& encode.ensures((&after,), out)
                    &&& match out {
                        None => r is None,
                        Some(x) => r matches Some(y) && y.doc_id@ == row.doc_id@ && y.surrogate
                            == hex::parsed_hex_u32(row.doc_id@) && y.body@ == x.body@ && y.doc
                            == x.doc,
                    }
                }
        },
    }
}

/// The rows among outcomes, in order.
pub open spec fn present(outcomes: Seq<Option<ResolvedUpdateRow>>) -> Seq<ResolvedUpdateRow>
    decreases outcomes.len(),
{
    if outcomes.len() == 0 {
        Seq::empty()
    } else {
        match outcomes.last() {
            Some(r) => present(outcomes.drop_last()).push(r),
            None => present(outcomes.drop_last()),
        }
    }
}

/// Whether `r` may come of the rows of a target: each row comes to what it may
/// come to, and the matched ones keep their order.
pub open spec fn may_collect<
    F: Fn(&Document, usize) -> Option<String>,
    G: Fn(&Document) -> Option<Encoded>,
>(
    rows: Seq<TargetRow>,
    sources: Map<Seq<char>, Document>,
    alias: Seq<char>,
    updates: Seq<String>,
    evaluate: F,
    encode: G,
    r: Seq<ResolvedUpdateRow>,
) -> bool {
    exists|outcomes: Seq<Option<ResolvedUpdateRow>>|
        outcomes.len() == rows.len() && r == #[trigger] present(outcomes) && forall|i: int|
            0 <= i < rows.len() ==> may_resolve(
                #[trigger] rows[i],
                sources,
                alias,
                updates,
                evaluate,
                encode,
                outcomes[i],
            )
}

/// Evaluate the assignments to some fields on a merged document.
fn evaluate_all<F: Fn(&Document, usize) -> Option<String>>(
    fields: &Vec<String>,
    merged: &Document,
    evaluate: &F,
) -> (r: Vec<(String, Option<String>)>)
    requires
        forall|d: &Document, i: usize| #[trigger] evaluate.requires((d, i)),
    ensures
        are_evaluated(r@, fields@, *merged, *evaluate),
{
    let mut out: Vec<(String, Option<String>)> = Vec::new();
    let mut i: usize = 0;
    while i < fields.len()
        invariant
            i <= fields@.len(),
            forall|d: &Document, i: usize| #[trigger] evaluate.requires((d, i)),
            out@.len() == i,
            forall|j: int|
                0 <= j < i ==> (#[trigger] out@[j]).0@ == fields@[j]@ && evaluate.ensures(
                    (merged, j as usize),
                    out@[j].1,
                ),
        decreases fields.len() - i,
    {
        let value = evaluate(merged, i);
        out.push((fields[i].clone(), value));
        i = i + 1;
    }
    out
}

fn resolve_row<
    F: Fn(&Document, usize) -> Option<String>,
    G: Fn(&Document) -> Option<Encoded>,
>(
    row: &TargetRow,
    sources: &VecMap<TextKey, Document>,
    alias: &str,
    updates: &Vec<String>,
    evaluate: &F,
    encode: &G,
) -> (r: Option<ResolvedUpdateRow>)
    requires
        forall|d: &Document, i: usize| #[trigger] evaluate.requires((d, i)),
        forall|d: &Document| #[trigger] encode.requires((d,)),
    ensures
        may_resolve(*row, sources@, alias@, updates@, *evaluate, *encode, r),
{
    let d = match &row.doc {
        None => {
            return None;
        },
        Some(d) => d,
    };
    let key = match &d.join_text {
        Some(t) => TextKey(t.clone()),
        None => TextKey(String::new()),
    };
    proof {
        assert(key.key() =~= join_key(*d));
    }
    let source = match sources.get(&key) {
        None => {
            return None;
        },
        Some(s) => s,
    };
    let merged = merge_documents(&d.fields, alias, source);
    let assignments = evaluate_all(updates, &merged, evaluate);
    let ghost evaluated = assignments@;
    let after = apply_assignments(&d.fields, assignments);
    let out = encode(&after);
    let ghost encoded = out;
    let r = match out {
        None => None,
        Some(x) => {
            let surrogate: Option<u32> = match hex::doc_id_to_surrogate(row.doc_id.as_str()) {
                Some(s) => Some(s.0),
                None => None,
            };
            Some(
                ResolvedUpdateRow {
                    doc_id: row.doc_id.clone(),
                    surrogate,
                    body: x.body,
                    doc: x.doc,
                },
            )
        },
    };
    proof {
        assert(are_evaluated(evaluated, updates@, merged, *evaluate));
        assert(encode.ensures((&after,), encoded));
    }
    r
}

/// Resolve every row of the target that the join matches, in their order.
/// `updates` names the fields that are assigned, in order; `evaluate` gives the
/// value of an assignment on a merged document, none where it has none; `encode`
/// recomputes the generated columns and encodes.
pub fn collect_update_from_join_rows<
    F: Fn(&Document, usize) -> Option<String>,
    G: Fn(&Document) -> Option<Encoded>,
>(
    rows: &Vec<TargetRow>,
    sources: &VecMap<TextKey, Document>,
    alias: &str,
    updates: &Vec<String>,
    evaluate: F,
    encode: G,
) -> (r: Vec<ResolvedUpdateRow>)
    requires
        forall|d: &Document, i: usize| #[trigger] evaluate.requires((d, i)),
        forall|d: &Document| #[trigger] encode.requires((d,)),
    ensures
        may_collect(rows@, sources@, alias@, updates@, evaluate, encode, r@),
{
    let mut out: Vec<ResolvedUpdateRow> = Vec::new();
    let ghost mut outcomes: Seq<Option<ResolvedUpdateRow>> = Seq::empty();
    let mut i: usize = 0;
    while i < rows.len()
        invariant
            i <= rows@.len(),
            forall|d: &Document, i: usize| #[trigger] evaluate.requires((d, i)),
            forall|d: &Document| #[trigger] encode.requires((d,)),
            outcomes.len() == i,
            out@ == present(outcomes),
            forall|j: int|
                0 <= j < i ==> may_resolve(
                    #[trigger] rows@[j],
                    sources@,
                    alias@,
                    updates@,
                    evaluate,
                    encode,
                    outcomes[j],
                ),
        decreases rows.len() - i,
    {
        let resolved = resolve_row(&rows[i], sources, alias, updates, &evaluate, &encode);
        let ghost before = outcomes;
        proof {
            outcomes = outcomes.push(resolved);
            assert(outcomes.drop_last() =~= before);
            assert forall|j: int| 0 <= j < i + 1 implies may_resolve(
                #[trigger] rows@[j],
                sources@,
                alias@,
                updates@,
                evaluate,
                encode,
                outcomes[j],
            ) by {
                if j < i {
                    assert(outcomes[j] == before[j]);
                }
            }
        }
        match resolved {
            Some(r) => {
                out.push(r);
            },
            None => {},
        }
        i = i + 1;
    }
    out
}

/// A stored entry of a scan: its key, and whether its row passes the filters.
pub struct ScannedEntry {
    pub key: String,
    pub matches: bool,
}

/// What is left of a text behind a prefix.
pub open spec fn behind(s: Seq<char>, prefix: Seq<char>) -> Option<Seq<char>> {
    if text::begins_with(s, prefix) {
        Some(s.subrange(prefix.len() as int, s.len() as int))
    } else {
        None
    }
}

/// The document ids of the entries that pass, in order.
pub open spec fn passing_ids(prefix: Seq<char>, entries: Seq<ScannedEntry>) -> Seq<Seq<char>>
    decreases entries.len(),
{
    if entries.len() == 0 {
        Seq::empty()
    } else {
        let before = passing_ids(prefix, entries.drop_last());
        let e = entries.last();
        if e.matches && behind(e.key@, prefix) is Some {
            before.push(behind(e.key@, prefix)->0)
        } else {
            before
        }
    }
}

/// Why a scan of the target failed.
pub enum ScanFailure {
    ReadTxn(String),
    OpenTable(String),
}

pub open spec fn scan_error(f: ScanFailure) -> ErrorView {
    ErrorView::Storage {
        engine: "sparse"@,
        detail: match f {
            ScanFailure::ReadTxn(e) => "read txn: "@ + e@,
            ScanFailure::OpenTable(e) => "open table: "@ + e@,
        },
    }
}

/// The document ids of the target's rows that pass its filters. `prefix` is the
/// part of a key that names the collection.
pub fn scan_target_doc_ids(
    prefix: &str,
    entries: Result<&Vec<ScannedEntry>, ScanFailure>,
) -> (r: Result<Vec<String>, Error>)
    ensures
        match entries {
            Err(f) => r is Err && r->Err_0@ == scan_error(f),
            Ok(list) => r is Ok && text::text_views(r->Ok_0@) == passing_ids(prefix@, list@),
        },
{
    let list = match entries {
        Err(f) => {
            let detail = match f {
                ScanFailure::ReadTxn(e) => {
                    let mut detail = "read txn: ".to_owned();
                    detail.append(e.as_str());
                    detail
                },
                ScanFailure::OpenTable(e) => {
                    let mut detail = "open table: ".to_owned();
                    detail.append(e.as_str());
                    detail
                },
            };
            return Err(Error::Storage { engine: "sparse".to_owned(), detail });
        },
        Ok(list) => list,
    };
    let head = text::to_chars(prefix);
    let mut ids: Vec<String> = Vec::new();
    let mut i: usize = 0;
    proof {
        assert(list@.take(0) =~= Seq::empty());
        assert(text::text_views(ids@) =~= Seq::empty());
    }
    while i < list.len()
        invariant
            i <= list@.len(),
            head@ == prefix@,
            text::text_views(ids@) == passing_ids(prefix@, list@.take(i as int)),
        decreases list.len() - i,
    {
        proof {
            assert(list@.take(i + 1).drop_last() =~= list@.take(i as int));
        }
        let e = &list[i];
        if e.matches {
            let key = text::to_chars(e.key.as_str());
            if text::has_prefix(&key, &head) {
                let ghost before = ids@;
                let id = text::from_chars(&key, head.len(), key.len());
                ids.push(id);
                proof {
                    assert(text::text_views(ids@) =~= text::text_views(before).push(id@));
                }
            }
        }
        i = i + 1;
    }
    proof {
        assert(list@.take(list@.len() as int) =~= list@);
    }
    Ok(ids)
}

/// A row whose join key no source row has is left as it is.
pub proof fn law_an_unmatched_row_is_left_alone<
    F: Fn(&Document, usize) -> Option<String>,
    G: Fn(&Document) -> Option<Encoded>,
>(
    row: TargetRow,
    sources: Map<Seq<char>, Document>,
    alias: Seq<char>,
    updates: Seq<String>,
    evaluate: F,
    encode: G,
    r: Option<ResolvedUpdateRow>,
)
    requires
        may_resolve(row, sources, alias, updates, evaluate, encode, r),
        row.doc matches Some(d) ==> !sources.contains_key(join_key(d)),
    ensures
        r is None,
{
}

/// A merged document shows the target's own fields, unless a source field's
/// qualified name hides one.
pub proof fn law_a_merged_document_keeps_the_target(
    target: Map<Seq<char>, Seq<char>>,
    alias: Seq<char>,
    source: Seq<(TextKey, String)>,
    name: Seq<char>,
)
    requires
        forall|i: int|
            0 <= i < source.len() ==> qualified(alias, (#[trigger] source[i]).0.key()) != name,
    ensures
        with_source(target, alias, source).contains_key(name) == target.contains_key(name),
        target.contains_key(name) ==> with_source(target, alias, source)[name] == target[name],
    decreases source.len(),
{
    if source.len() > 0 {
        let init = source.drop_last();
        assert forall|i: int| 0 <= i < init.len() implies qualified(
            alias,
            (#[trigger] init[i]).0.key(),
        ) != name by {
            assert(init[i] == source[i]);
        }
        law_a_merged_document_keeps_the_target(target, alias, init, name);
        assert(qualified(alias, source[source.len() - 1].0.key()) != name);
    }
}

/// A merged document shows each field of the source behind the alias and a dot,
/// with the value that the source lists last for it.
pub proof fn law_a_merged_document_shows_the_source(
    target: Map<Seq<char>, Seq<char>>,
    alias: Seq<char>,
    source: Seq<(TextKey, String)>,
    i: int,
)
    requires
        0 <= i < source.len(),
        forall|j: int|
            i < j < source.len() ==> (#[trigger] source[j]).0.key() != source[i].0.key(),
    ensures
        ({
            let name = alias + (seq!['.'] + source[i].0.key());
            &&& with_source(target, alias, source).contains_key(name)
            &&& with_source(target, alias, source)[name] == source[i].1@
        }),
    decreases source.len(),
{
    let short = source.drop_last();
    if i < source.len() - 1 {
        assert(source[source.len() - 1] == source.last());
        assert forall|j: int| i < j < short.len() implies (#[trigger] short[j]).0.key()
            != short[i].0.key() by {
            assert(source[j].0.key() != source[i].0.key());
        }
        law_a_merged_document_shows_the_source(target, alias, short, i);
        let a = qualified(alias, source[i].0.key());
        let b = qualified(alias, source.last().0.key());
        if a == b {
            let n = alias.len() as int + 1;
            assert(a.skip(n) =~= source[i].0.key());
            assert(b.skip(n) =~= source.last().0.key());
        }
    }
}

/// The rows that are resolved are those that have an outcome, in their order.
pub proof fn law_every_outcome_is_collected(
    outcomes: Seq<Option<ResolvedUpdateRow>>,
    x: Option<ResolvedUpdateRow>,
)
    ensures
        x matches Some(r) ==> present(outcomes.push(x)) == present(outcomes).push(r),
        x is None ==> present(outcomes.push(x)) == present(outcomes),
        present(Seq::<Option<ResolvedUpdateRow>>::empty()).len() == 0,
        present(outcomes).len() == outcomes.filter(|o: Option<ResolvedUpdateRow>| o is Some).len(),
    decreases outcomes.len(),
{
    reveal(Seq::filter);
    assert(outcomes.push(x).drop_last() =~= outcomes);
    if outcomes.len() > 0 {
        law_every_outcome_is_collected(outcomes.drop_last(), x);
    }
}

/// A row is resolved only where it is readable and the source has a row for the
/// text that it is joined on; then under its own id and the surrogate that the id
/// names.
pub proof fn law_a_resolved_row_had_a_match<
    F: Fn(&Document, usize) -> Option<String>,
    G: Fn(&Document) -> Option<Encoded>,
>(
    row: TargetRow,
    sources: Map<Seq<char>, Document>,
    alias: Seq<char>,
    updates: Seq<String>,
    evaluate: F,
    encode: G,
    r: Option<ResolvedUpdateRow>,
)
    requires
        may_resolve(row, sources, alias, updates, evaluate, encode, r),
    ensures
        r matches Some(y) ==> {
            &&& y.doc_id@ == row.doc_id@
            &&& y.surrogate == hex::parsed_hex_u32(row.doc_id@)
            &&& row.doc is Some
            &&& match row.doc->0.join_text {
                Some(t) => sources.contains_key(t@),
                None => sources.contains_key(Seq::empty()),
            }
        },
{
}

/// The ids of a scan are what follows the prefix in the keys of the entries that
/// pass, in their order; an entry that does not pass or has another prefix has none.
pub proof fn law_a_passing_entry_gives_its_id(
    prefix: Seq<char>,
    entries: Seq<ScannedEntry>,
    e: ScannedEntry,
    id: Seq<char>,
)
    ensures
        e.matches && e.key@ == prefix + id ==> passing_ids(prefix, entries.push(e)) == passing_ids(
            prefix,
            entries,
        ).push(id),
        !e.matches ==> passing_ids(prefix, entries.push(e)) == passing_ids(prefix, entries),
        (forall|x: Seq<char>| e.key@ != #[trigger] (prefix + x)) ==> passing_ids(
            prefix,
            entries.push(e),
        ) == passing_ids(prefix, entries),
        passing_ids(prefix, Seq::<ScannedEntry>::empty()).len() == 0,
{
    assert(entries.push(e).drop_last() =~= entries);
    if e.key@ == prefix + id {
        assert(e.key@.take(prefix.len() as int) =~= prefix);
        assert(e.key@.subrange(prefix.len() as int, e.key@.len() as int) =~= id);
    }
    if text::begins_with(e.key@, prefix) {
        assert(e.key@ =~= prefix + e.key@.subrange(prefix.len() as int, e.key@.len() as int));
    }
}

/// Every collected row is the resolution of a target row.
pub proof fn law_collected_rows_are_resolved_rows<
    F: Fn(&Document, usize) -> Option<String>,
    G: Fn(&Document) -> Option<Encoded>,
>(
    rows: Seq<TargetRow>,
    sources: Map<Seq<char>, Document>,
    alias: Seq<char>,
    updates: Seq<String>,
    evaluate: F,
    encode: G,
    r: Seq<ResolvedUpdateRow>,
    k: int,
)
    requires
        may_collect(rows, sources, alias, updates, evaluate, encode, r),
        0 <= k < r.len(),
    ensures
        r.len() <= rows.len(),
        exists|i: int|
            0 <= i < rows.len() && may_resolve(
                #[trigger] rows[i],
                sources,
                alias,
                updates,
                evaluate,
                encode,
                Some(r[k]),
            ),
{
    let outcomes = choose|outcomes: Seq<Option<ResolvedUpdateRow>>|
        outcomes.len() == rows.len() && r == #[trigger] present(outcomes) && forall|i: int|
            0 <= i < rows.len() ==> may_resolve(
                #[trigger] rows[i],
                sources,
                alias,
                updates,
                evaluate,
                encode,
                outcomes[i],
            );
    let i = lemma_present_from(outcomes, k);
    assert(may_resolve(rows[i], sources, alias, updates, evaluate, encode, outcomes[i]));
}

proof fn lemma_present_from(outcomes: Seq<Option<ResolvedUpdateRow>>, k: int) -> (i: int)
    requires
        0 <= k < present(outcomes).len(),
    ensures
        present(outcomes).len() <= outcomes.len(),
        0 <= i < outcomes.len(),
        outcomes[i] == Some(present(outcomes)[k]),
    decreases outcomes.len(),
{
    let init = outcomes.drop_last();
    lemma_present_len(outcomes);
    if k < present(init).len() {
        let i = lemma_present_from(init, k);
        assert(init[i] == outcomes[i]);
        i
    } else {
        outcomes.len() - 1
    }
}

proof fn lemma_present_len(outcomes: Seq<Option<ResolvedUpdateRow>>)
    ensures
        present(outcomes).len() <= outcomes.len(),
    decreases outcomes.len(),
{
    if outcomes.len() > 0 {
        lemma_present_len(outcomes.drop_last());
    }
}


} // verus!
