//! Row-level security of timeseries ingest: a batch is decided as a whole,
//! against the rows that it will be stored as, before anything is written.
use crate::error::{Error, ErrorView};
use crate::maps::{MapKey, TextKey, VecMap};
use crate::timeseries::line_protocol;
use crate::timeseries::line_protocol::{FieldValue, FieldView, IlpLine, LineView};
use crate::timeseries::normalize;
use vstd::prelude::*;
use vstd::string::*;

verus! {

/// A value of a row as a policy sees it.
#[derive(Debug)]
pub enum ImageValue {
    Text(String),
    Int(i64),
    /// A float, as the text that it was given as.
    Float(String),
    /// A whole number beyond the signed range; it counts as a float.
    Wide(u64),
    Bool(bool),
}

pub enum ImageView {
    Text(Seq<char>),
    Int(i64),
    Float(Seq<char>),
    Wide(u64),
    Bool(bool),
}

impl View for ImageValue {
    type V = ImageView;

    open spec fn view(&self) -> ImageView {
        match *self {
            ImageValue::Text(t) => ImageView::Text(t@),
            ImageValue::Int(n) => ImageView::Int(n),
            ImageValue::Float(t) => ImageView::Float(t@),
            ImageValue::Wide(n) => ImageView::Wide(n),
            ImageValue::Bool(b) => ImageView::Bool(b),
        }
    }
}

/// The row that a line is stored as.
pub struct RowImage {
    columns: VecMap<TextKey, ImageValue>,
}

impl View for RowImage {
    type V = Map<Seq<char>, ImageView>;

    closed spec fn view(&self) -> Map<Seq<char>, ImageView> {
        self.columns@.map_values(|v: ImageValue| v@)
    }
}

impl RowImage {
    fn new() -> (r: Self)
        ensures
            r@ == Map::<Seq<char>, ImageView>::empty(),
    {
        let r = RowImage { columns: VecMap::new() };
        proof {
            assert(r@ =~= Map::<Seq<char>, ImageView>::empty());
        }
        r
    }

    fn set(&mut self, column: &str, v: ImageValue)
        ensures
            final(self)@ == old(self)@.insert(column@, v@),
    {
        self.columns.insert(TextKey(column.to_owned()), v);
        proof {
            assert(self@ =~= old(self)@.insert(column@, v@));
        }
    }

    /// The value of a column.
    pub fn get(&self, column: &str) -> (r: Option<&ImageValue>)
        ensures
            match r {
                Some(v) => self@.contains_key(column@) && v@ == self@[column@],
                None => !self@.contains_key(column@),
            },
    {
        self.columns.get(&TextKey(column.to_owned()))
    }
}

/// A field's value: an unsigned number beyond the signed range widens rather
/// than wrapping negative.
pub open spec fn field_image(v: FieldView) -> ImageView {
    match v {
        FieldView::Float(t) => ImageView::Float(t),
        FieldView::Int(n) => ImageView::Int(n),
        FieldView::UInt(n) => if n <= i64::MAX {
            ImageView::Int(n as i64)
        } else {
            ImageView::Wide(n)
        },
        FieldView::Str(t) => ImageView::Text(t),
        FieldView::Bool(b) => ImageView::Bool(b),
    }
}

pub fn field_value(v: &FieldValue) -> (r: ImageValue)
    ensures
        r@ == field_image(v@),
{
    match v {
        FieldValue::Float(t) => ImageValue::Float(t.clone()),
        FieldValue::Int(n) => ImageValue::Int(*n),
        FieldValue::UInt(n) => if *n <= 0x7fff_ffff_ffff_ffff {
            ImageValue::Int(*n as i64)
        } else {
            ImageValue::Wide(*n)
        },
        FieldValue::Str(t) => ImageValue::Text(t.clone()),
        FieldValue::Bool(b) => ImageValue::Bool(*b),
    }
}

pub open spec fn with_tags(m: Map<Seq<char>, ImageView>, tags: line_protocol::TagsView) -> Map<
    Seq<char>,
    ImageView,
>
    decreases tags.len(),
{
    if tags.len() == 0 {
        m
    } else {
        with_tags(m, tags.drop_last()).insert(tags.last().0, ImageView::Text(tags.last().1))
    }
}

pub open spec fn with_fields(m: Map<Seq<char>, ImageView>, fields: line_protocol::FieldsView) -> Map<
    Seq<char>,
    ImageView,
>
    decreases fields.len(),
{
    if fields.len() == 0 {
        m
    } else {
        with_fields(m, fields.drop_last()).insert(fields.last().0, field_image(fields.last().1))
    }
}

/// Nanoseconds in milliseconds, rounded toward zero.
pub open spec fn to_millis(ns: i64) -> int {
    if ns >= 0 {
        ns as int / 1_000_000
    } else {
        -((-(ns as int)) / 1_000_000)
    }
}

fn millis_of(ns: i64) -> (r: i64)
    ensures
        r == to_millis(ns),
{
    if ns >= 0 {
        ns / 1_000_000
    } else {
        let magnitude: u64 = (-(ns + 1)) as u64 + 1;
        -((magnitude / 1_000_000) as i64)
    }
}

/// The time that a line is stored with.
pub open spec fn stored_millis(line: LineView, default_timestamp_ms: i64) -> i64 {
    match line.timestamp_ns {
        Some(ns) => to_millis(ns) as i64,
        None => default_timestamp_ms,
    }
}

/// The row that a line is stored as: its tags, its fields and, over any field
/// of that name, its time in the declared time column.
pub open spec fn image_of(
    line: LineView,
    time_key: Option<Seq<char>>,
    default_timestamp_ms: i64,
) -> Map<Seq<char>, ImageView> {
    let columns = with_fields(with_tags(Map::empty(), line.tags), line.fields);
    match time_key {
        Some(key) => columns.insert(
            key,
            ImageView::Int(stored_millis(line, default_timestamp_ms)),
        ),
        None => columns,
    }
}

pub fn line_image(line: &IlpLine, time_key: Option<&str>, default_timestamp_ms: i64) -> (r: RowImage)
    ensures
        r@ == image_of(line@, normalize::key_view(time_key), default_timestamp_ms),
{
    let mut image = RowImage::new();
    let ghost tags = line@.tags;
    let ghost fields = line@.fields;
    let mut i: usize = 0;
    while i < line.tags.len()
        invariant
            i <= line.tags@.len(),
            tags == line_protocol::tag_views(line.tags@),
            image@ == with_tags(Map::empty(), tags.take(i as int)),
        decreases line.tags.len() - i,
    {
        proof {
            assert(tags.take(i + 1).drop_last() =~= tags.take(i as int));
            assert(tags.take(i + 1).last() == (line.tags@[i as int].0@, line.tags@[i as int].1@));
        }
        image.set(line.tags[i].0.as_str(), ImageValue::Text(line.tags[i].1.clone()));
        i = i + 1;
    }
    proof {
        assert(tags.take(tags.len() as int) =~= tags);
    }
    let ghost tagged = image@;
    let mut j: usize = 0;
    while j < line.fields.len()
        invariant
            j <= line.fields@.len(),
            fields == line_protocol::field_views(line.fields@),
            image@ == with_fields(tagged, fields.take(j as int)),
        decreases line.fields.len() - j,
    {
        proof {
            assert(fields.take(j + 1).drop_last() =~= fields.take(j as int));
            assert(fields.take(j + 1).last() == (
                line.fields@[j as int].0@,
                line.fields@[j as int].1@,
            ));
        }
        image.set(line.fields[j].0.as_str(), field_value(&line.fields[j].1));
        j = j + 1;
    }
    proof {
        assert(fields.take(fields.len() as int) =~= fields);
    }
    match time_key {
        Some(key) => {
            let ts_ms: i64 = match line.timestamp_ns {
                Some(ns) => millis_of(ns),
                None => default_timestamp_ms,
            };
            image.set(key, ImageValue::Int(ts_ms));
        },
        None => {},
    }
    image
}

/// A policy takes every row and admits of rows with the same columns all or none.
pub open spec fn decides<F: Fn(&RowImage) -> Option<bool>>(policy: F) -> bool {
    &&& forall|a: &RowImage| #[trigger] policy.requires((a,))
    &&& forall|a: &RowImage, b: &RowImage, answer: Option<bool>|
        #![trigger policy.ensures((a,), Some(true)), policy.ensures((b,), answer)]
        a@ == b@ && policy.ensures((a,), Some(true)) && policy.ensures((b,), answer) ==> answer
            == Some(true)
}

/// Whether a policy admits a row with these columns. One that has no answer, its
/// check not being readable, does not.
pub open spec fn admits<F: Fn(&RowImage) -> Option<bool>>(
    policy: F,
    image: Map<Seq<char>, ImageView>,
) -> bool {
    exists|a: &RowImage| a@ == image && #[trigger] policy.ensures((a,), Some(true))
}

/// Whether a batch is admitted: without a check always, else if the policy
/// admits the row of every line.
pub open spec fn batch_admitted<F: Fn(&RowImage) -> Option<bool>>(
    rls_write_check: Seq<u8>,
    lines: Seq<IlpLine>,
    time_key: Option<Seq<char>>,
    default_timestamp_ms: i64,
    policy: F,
) -> bool {
    rls_write_check.len() == 0 || forall|i: int|
        0 <= i < lines.len() ==> admits(
            policy,
            image_of((#[trigger] lines[i])@, time_key, default_timestamp_ms),
        )
}

/// Decide a batch against the policy that `rls_write_check` stands for. One
/// line that is not admitted refuses the whole batch; so does a check that cannot
/// be read.
pub fn admit_ilp_lines<F: Fn(&RowImage) -> Option<bool>>(
    rls_write_check: &[u8],
    lines: &Vec<IlpLine>,
    time_key: Option<&str>,
    default_timestamp_ms: i64,
    collection: &str,
    policy: F,
) -> (r: Result<(), Error>)
    requires
        decides(policy),
    ensures
        if batch_admitted(
            rls_write_check@,
            lines@,
            normalize::key_view(time_key),
            default_timestamp_ms,
            policy,
        ) {
            r is Ok
        } else {
            r is Err && r->Err_0@ == (ErrorView::RejectedAuthz { resource: collection@ })
        },
{
    if rls_write_check.len() == 0 {
        return Ok(());
    }
    let mut i: usize = 0;
    while i < lines.len()
        invariant
            i <= lines@.len(),
            rls_write_check@.len() > 0,
            decides(policy),
            forall|j: int|
                0 <= j < i ==> admits(
                    policy,
                    image_of(
                        (#[trigger] lines@[j])@,
                        normalize::key_view(time_key),
                        default_timestamp_ms,
                    ),
                ),
        decreases lines.len() - i,
    {
        let image = line_image(&lines[i], time_key, default_timestamp_ms);
        let answer = policy(&image);
        let admitted = match answer {
            Some(yes) => yes,
            None => false,
        };
        if !admitted {
            proof {
                assert(policy.ensures((&image,), answer));
                assert(!admits(
                    policy,
                    image_of(
                        lines@[i as int]@,
                        normalize::key_view(time_key),
                        default_timestamp_ms,
                    ),
                ));
            }
            return Err(Error::RejectedAuthz { resource: collection.to_owned() });
        }
        proof {
            assert(policy.ensures((&image,), Some(true)));
        }
        i = i + 1;
    }
    Ok(())
}

/// The declared time column holds the time that the line is stored with,
/// whatever fields the line has.
pub proof fn law_the_time_column_holds_the_time(
    line: LineView,
    key: Seq<char>,
    default_timestamp_ms: i64,
)
    ensures
        image_of(line, Some(key), default_timestamp_ms).contains_key(key),
        image_of(line, Some(key), default_timestamp_ms)[key] == ImageView::Int(
            stored_millis(line, default_timestamp_ms),
        ),
{
}

/// An instant in milliseconds is that in nanoseconds with what is below a
/// millisecond cut off, towards the epoch on both sides of it.
pub proof fn law_what_is_below_a_millisecond_is_cut_off(ns: i64)
    ensures
        ns >= 0 ==> to_millis(ns) >= 0 && to_millis(ns) * 1_000_000 <= ns < (to_millis(ns) + 1)
            * 1_000_000,
        ns < 0 ==> to_millis(ns) <= 0 && (to_millis(ns) - 1) * 1_000_000 < ns <= to_millis(ns)
            * 1_000_000,
{
}

/// A column of an image has the value of the last field of that name; where there is
/// no such field, that of the last tag; and there is none where there is neither.
pub proof fn law_fields_come_before_tags(
    tags: line_protocol::TagsView,
    fields: line_protocol::FieldsView,
    name: Seq<char>,
)
    ensures
        ({
            let image = with_fields(with_tags(Map::empty(), tags), fields);
            &&& image.contains_key(name) <==> (exists|i: int|
                0 <= i < fields.len() && (#[trigger] fields[i]).0 == name) || (exists|i: int|
                0 <= i < tags.len() && (#[trigger] tags[i]).0 == name)
        }),
    decreases tags.len() + fields.len(),
{
    if fields.len() > 0 {
        let short = fields.drop_last();
        let n = fields.len() - 1;
        law_fields_come_before_tags(tags, short, name);
        if fields[n].0 == name {
        } else if exists|i: int| 0 <= i < fields.len() && (#[trigger] fields[i]).0 == name {
            let i = choose|i: int| 0 <= i < fields.len() && (#[trigger] fields[i]).0 == name;
            assert(short[i].0 == name);
        } else if exists|i: int| 0 <= i < short.len() && (#[trigger] short[i]).0 == name {
            let i = choose|i: int| 0 <= i < short.len() && (#[trigger] short[i]).0 == name;
            assert(fields[i].0 == name);
        }
    } else if tags.len() > 0 {
        let short = tags.drop_last();
        let n = tags.len() - 1;
        law_fields_come_before_tags(short, fields, name);
        if tags[n].0 == name {
        } else if exists|i: int| 0 <= i < tags.len() && (#[trigger] tags[i]).0 == name {
            let i = choose|i: int| 0 <= i < tags.len() && (#[trigger] tags[i]).0 == name;
            assert(short[i].0 == name);
        } else if exists|i: int| 0 <= i < short.len() && (#[trigger] short[i]).0 == name {
            let i = choose|i: int| 0 <= i < short.len() && (#[trigger] short[i]).0 == name;
            assert(tags[i].0 == name);
        }
    }
}

/// The last field of a name gives its column: a whole number as an integer where it
/// is one, a float and a text as they are, a truth value as itself.
pub proof fn law_the_last_field_gives_its_column(
    m: Map<Seq<char>, ImageView>,
    fields: line_protocol::FieldsView,
    i: int,
)
    requires
        0 <= i < fields.len(),
        forall|j: int| i < j < fields.len() ==> (#[trigger] fields[j]).0 != fields[i].0,
    ensures
        ({
            let got = with_fields(m, fields)[fields[i].0];
            match fields[i].1 {
                FieldView::Float(t) => got == ImageView::Float(t),
                FieldView::Int(n) => got == ImageView::Int(n),
                FieldView::UInt(n) => if n <= i64::MAX {
                    got matches ImageView::Int(k) && k == n
                } else {
                    got == ImageView::Wide(n)
                },
                FieldView::Str(t) => got == ImageView::Text(t),
                FieldView::Bool(b) => got == ImageView::Bool(b),
            }
        }),
    decreases fields.len(),
{
    let n = fields.len() - 1;
    if i < n {
        let short = fields.drop_last();
        assert(fields[n].0 != fields[i].0);
        assert forall|j: int| i < j < short.len() implies (#[trigger] short[j]).0 != short[i].0 by {
            assert(fields[j].0 != fields[i].0);
        }
        law_the_last_field_gives_its_column(m, short, i);
    }
}

/// The last tag of a name gives its column as a text, where no field has that name.
pub proof fn law_the_last_tag_gives_its_column(
    tags: line_protocol::TagsView,
    fields: line_protocol::FieldsView,
    i: int,
)
    requires
        0 <= i < tags.len(),
        forall|j: int| i < j < tags.len() ==> (#[trigger] tags[j]).0 != tags[i].0,
        forall|j: int| 0 <= j < fields.len() ==> (#[trigger] fields[j]).0 != tags[i].0,
    ensures
        with_fields(with_tags(Map::empty(), tags), fields)[tags[i].0] == ImageView::Text(tags[i].1),
    decreases tags.len() + fields.len(),
{
    let n = tags.len() - 1;
    if fields.len() > 0 {
        let short = fields.drop_last();
        assert(fields[fields.len() - 1].0 != tags[i].0);
        assert forall|j: int| 0 <= j < short.len() implies (#[trigger] short[j]).0 != tags[i].0 by {
            assert(fields[j].0 != tags[i].0);
        }
        law_the_last_tag_gives_its_column(tags, short, i);
    } else if i < n {
        let short = tags.drop_last();
        assert(tags[n].0 != tags[i].0);
        assert forall|j: int| i < j < short.len() implies (#[trigger] short[j]).0 != short[i].0 by {
            assert(tags[j].0 != tags[i].0);
        }
        law_the_last_tag_gives_its_column(short, fields, i);
    }
}

/// A policy sees a line as its columns, with the declared time column in
/// milliseconds: that of the line, or the default where the line has none. Columns
/// of another name are those of the tags and fields.
pub proof fn law_a_policy_sees_the_columns(
    line: LineView,
    time_key: Option<Seq<char>>,
    default_timestamp_ms: i64,
    name: Seq<char>,
)
    requires
        time_key != Some(name),
    ensures
        ({
            let image = image_of(line, time_key, default_timestamp_ms);
            let columns = with_fields(with_tags(Map::empty(), line.tags), line.fields);
            &&& image.contains_key(name) == columns.contains_key(name)
            &&& columns.contains_key(name) ==> image[name] == columns[name]
        }),
        line.timestamp_ns is None ==> stored_millis(line, default_timestamp_ms)
            == default_timestamp_ms,
        line.timestamp_ns matches Some(ns) ==> stored_millis(line, default_timestamp_ms)
            == to_millis(ns),
{
}

/// A batch is taken where no check is set, where it is empty, or where the
/// policy admits each row as its image shows it; one refused row refuses all.
pub proof fn law_one_refused_row_refuses_the_batch<F: Fn(&RowImage) -> Option<bool>>(
    rls_write_check: Seq<u8>,
    lines: Seq<IlpLine>,
    time_key: Option<Seq<char>>,
    default_timestamp_ms: i64,
    policy: F,
    i: int,
)
    ensures
        rls_write_check.len() == 0 || lines.len() == 0 ==> batch_admitted(
            rls_write_check,
            lines,
            time_key,
            default_timestamp_ms,
            policy,
        ),
        rls_write_check.len() > 0 && 0 <= i < lines.len() && !admits(
            policy,
            image_of(lines[i]@, time_key, default_timestamp_ms),
        ) ==> !batch_admitted(rls_write_check, lines, time_key, default_timestamp_ms, policy),
        rls_write_check.len() > 0 && lines.len() == 1 ==> batch_admitted(
            rls_write_check,
            lines,
            time_key,
            default_timestamp_ms,
            policy,
        ) == admits(policy, image_of(lines[0]@, time_key, default_timestamp_ms)),
{
}


} // verus!
