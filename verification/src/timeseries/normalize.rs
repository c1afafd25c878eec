//! Rewriting ingest payloads into line protocol.
//!
//! This is where submitted values become the values that are stored: the time
//! column moves into the line's timestamp, and text that reads as a number
//! becomes a number.
use crate::text;
use crate::timeseries::line_protocol;
use crate::timeseries::line_protocol::IlpError;
use chrono::{DateTime, NaiveDateTime, TimeZone, Utc};
use sonic_rs::{JsonContainerTrait, JsonValueTrait};
use vstd::prelude::*;
use vstd::string::*;

verus! {

/// Nanoseconds per millisecond: lines carry nanoseconds, rows milliseconds.
pub const NANOS_PER_MILLI: i64 = 1_000_000;

/// The code of a letter, upper-case ASCII letters as their lower-case ones.
pub open spec fn folded(c: char) -> int {
    if 0x41 <= c as int <= 0x5A {
        c as int + 0x20
    } else {
        c as int
    }
}

/// Whether two texts differ at most in the case of ASCII letters.
pub open spec fn same_ignoring_case(a: Seq<char>, b: Seq<char>) -> bool {
    a.len() == b.len() && forall|i: int| 0 <= i < a.len() ==> folded(#[trigger] a[i]) == folded(b[i])
}

fn fold(c: char) -> (r: u32)
    ensures
        r == folded(c),
{
    let n: u32 = text::code_of(c);
    if 0x41 <= n && n <= 0x5A {
        n + 0x20
    } else {
        n
    }
}

fn equals_ignoring_case(a: &str, b: &str) -> (r: bool)
    ensures
        r == same_ignoring_case(a@, b@),
{
    let x = text::to_chars(a);
    let y = text::to_chars(b);
    if x.len() != y.len() {
        return false;
    }
    let mut i: usize = 0;
    while i < x.len()
        invariant
            x@ == a@,
            y@ == b@,
            x@.len() == y@.len(),
            i <= x@.len(),
            forall|j: int| 0 <= j < i ==> folded(#[trigger] x@[j]) == folded(y@[j]),
        decreases x.len() - i,
    {
        if fold(x[i]) != fold(y[i]) {
            proof {
                assert(folded(a@[i as int]) != folded(b@[i as int]));
            }
            return false;
        }
        i = i + 1;
    }
    true
}

/// Whether a column is the time column: the declared one, or, where none is
/// declared, one with a customary name.
pub open spec fn is_time(column: Seq<char>, declared: Option<Seq<char>>) -> bool {
    match declared {
        Some(time_key) => same_ignoring_case(column, time_key),
        None => same_ignoring_case(column, "ts"@) || same_ignoring_case(column, "timestamp"@)
            || same_ignoring_case(column, "time"@),
    }
}

pub open spec fn key_view(k: Option<&str>) -> Option<Seq<char>> {
    match k {
        Some(t) => Some(t@),
        None => None,
    }
}

pub fn is_time_column(column: &str, declared: Option<&str>) -> (r: bool)
    ensures
        r == is_time(column@, key_view(declared)),
{
    match declared {
        Some(time_key) => equals_ignoring_case(column, time_key),
        None => equals_ignoring_case(column, "ts") || equals_ignoring_case(column, "timestamp")
            || equals_ignoring_case(column, "time"),
    }
}

/// The nanoseconds since the epoch of the instant that
/// `chrono::DateTime::parse_from_rfc3339` reads; none within where they do not
/// fit, none at all where the text does not parse.
pub uninterp spec fn rfc3339_nanos_of(s: Seq<char>) -> Option<Option<i64>>;

/// `chrono::DateTime::parse_from_rfc3339`, with `timestamp_nanos_opt` of what
/// it reads. A text that does not parse is `None`.
#[verifier::external_body]
fn rfc3339_nanos(s: &str) -> (r: Option<Option<i64>>)
    ensures
        r == rfc3339_nanos_of(s@),
{
    DateTime::parse_from_rfc3339(s).ok().map(|t| t.timestamp_nanos_opt())
}

/// The same of the date and time without an offset that
/// `chrono::NaiveDateTime::parse_from_str` reads by a format, taken as UTC.
pub uninterp spec fn naive_nanos_of(s: Seq<char>, format: Seq<char>) -> Option<Option<i64>>;

/// `chrono::NaiveDateTime::parse_from_str`, with `timestamp_nanos_opt` of what
/// it reads, taken as UTC. A text that does not parse is `None`.
#[verifier::external_body]
fn naive_nanos(s: &str, format: &str) -> (r: Option<Option<i64>>)
    ensures
        r == naive_nanos_of(s@, format@),
{
    NaiveDateTime::parse_from_str(s, format).ok().map(|t| {
        Utc.from_utc_datetime(&t).timestamp_nanos_opt()
    })
}

/// What the first of several readings that succeeded gave.
pub open spec fn first_reading(readings: Seq<Option<Option<i64>>>) -> Option<i64>
    decreases readings.len(),
{
    if readings.len() == 0 {
        None
    } else {
        match readings[0] {
            Some(nanos) => nanos,
            None => first_reading(readings.subrange(1, readings.len() as int)),
        }
    }
}

/// The nanoseconds since the epoch of a date and time: with an offset, or by
/// one of four formats without one.
pub open spec fn instant_of(s: Seq<char>) -> Option<i64> {
    match rfc3339_nanos_of(s) {
        Some(nanos) => nanos,
        None => match naive_nanos_of(s, "%Y-%m-%d %H:%M:%S%.f"@) {
            Some(nanos) => nanos,
            None => match naive_nanos_of(s, "%Y-%m-%d %H:%M:%S"@) {
                Some(nanos) => nanos,
                None => match naive_nanos_of(s, "%Y-%m-%dT%H:%M:%S%.f"@) {
                    Some(nanos) => nanos,
                    None => match naive_nanos_of(s, "%Y-%m-%dT%H:%M:%S"@) {
                        Some(nanos) => nanos,
                        None => None,
                    },
                },
            },
        },
    }
}

/// What the first reading that succeeded gave.
pub fn pick_reading(readings: &Vec<Option<Option<i64>>>) -> (r: Option<i64>)
    ensures
        r == first_reading(readings@),
{
    let mut i: usize = 0;
    proof {
        assert(readings@.subrange(0, readings@.len() as int) =~= readings@);
    }
    while i < readings.len()
        invariant
            i <= readings@.len(),
            first_reading(readings@) == first_reading(
                readings@.subrange(i as int, readings@.len() as int),
            ),
        decreases readings.len() - i,
    {
        let ghost rest = readings@.subrange(i as int, readings@.len() as int);
        proof {
            assert(rest[0] == readings@[i as int]);
            assert(rest.subrange(1, rest.len() as int) =~= readings@.subrange(
                i + 1,
                readings@.len() as int,
            ));
        }
        match readings[i] {
            Some(nanos) => {
                return nanos;
            },
            None => {},
        }
        i = i + 1;
    }
    None
}

/// Nanoseconds since the epoch of a date and time given as text.
pub fn parse_ts_string_to_nanos(s: &str) -> (r: Option<i64>)
    ensures
        r == instant_of(s@),
{
    let mut readings: Vec<Option<Option<i64>>> = Vec::new();
    readings.push(rfc3339_nanos(s));
    readings.push(naive_nanos(s, "%Y-%m-%d %H:%M:%S%.f"));
    readings.push(naive_nanos(s, "%Y-%m-%d %H:%M:%S"));
    readings.push(naive_nanos(s, "%Y-%m-%dT%H:%M:%S%.f"));
    readings.push(naive_nanos(s, "%Y-%m-%dT%H:%M:%S"));
    proof {
        let v = readings@;
        reveal_with_fuel(first_reading, 6);
        assert(v.subrange(1, 5)[0] == v[1]);
        assert(v.subrange(1, 5).subrange(1, 4) =~= v.subrange(2, 5));
        assert(v.subrange(2, 5)[0] == v[2]);
        assert(v.subrange(2, 5).subrange(1, 3) =~= v.subrange(3, 5));
        assert(v.subrange(3, 5)[0] == v[3]);
        assert(v.subrange(3, 5).subrange(1, 2) =~= v.subrange(4, 5));
        assert(v.subrange(4, 5)[0] == v[4]);
        assert(v.subrange(4, 5).subrange(1, 1) =~= Seq::empty());
        assert(first_reading(v) == instant_of(s@));
    }
    pick_reading(&readings)
}

/// A line, ended by a line break; nothing for a row without fields.
pub open spec fn rendered_line(
    measurement: Seq<char>,
    fields: Seq<Seq<char>>,
    timestamp_ns: Option<i64>,
) -> Seq<char> {
    if fields.len() == 0 {
        Seq::empty()
    } else {
        let stamp = match timestamp_ns {
            Some(n) => seq![' '] + text::signed_decimal(n as int),
            None => Seq::empty(),
        };
        measurement + (seq![' '] + (text::joined_with(fields, ',') + (stamp + seq!['\n'])))
    }
}

/// Append a line.
pub fn push_line(buf: &mut String, measurement: &str, fields: &Vec<String>, timestamp_ns: Option<i64>)
    ensures
        final(buf)@ == old(buf)@ + rendered_line(
            measurement@,
            text::text_views(fields@),
            timestamp_ns,
        ),
{
    if fields.len() == 0 {
        proof {
            assert(buf@ =~= old(buf)@ + rendered_line(
                measurement@,
                text::text_views(fields@),
                timestamp_ns,
            ));
        }
        return;
    }
    buf.append(measurement);
    buf.push(' ');
    let ghost views = text::text_views(fields@);
    text::push_joined(buf, fields, ',');
    match timestamp_ns {
        Some(ts) => {
            buf.push(' ');
            text::push_signed(buf, ts);
        },
        None => {},
    }
    buf.push('\n');
    proof {
        assert(buf@ =~= old(buf)@ + rendered_line(measurement@, views, timestamp_ns));
    }
}

/// A value of a decoded row. A float comes as the text it is written as and as
/// its whole part; text comes with how it is written as a finite float, if it
/// reads as one.
pub enum IngestValue {
    Float { text: String, whole: i64 },
    Int(i64),
    Str { text: String, float: Option<String> },
    Bool(bool),
    /// A value that a line cannot hold.
    Other,
}

pub enum ValueView {
    Float { text: Seq<char>, whole: i64 },
    Int(i64),
    Str { text: Seq<char>, float: Option<Seq<char>> },
    Bool(bool),
    Other,
}

pub open spec fn optional_view(t: Option<String>) -> Option<Seq<char>> {
    match t {
        Some(t) => Some(t@),
        None => None,
    }
}

impl View for IngestValue {
    type V = ValueView;

    open spec fn view(&self) -> ValueView {
        match *self {
            IngestValue::Float { text, whole } => ValueView::Float { text: text@, whole },
            IngestValue::Int(n) => ValueView::Int(n),
            IngestValue::Str { text, float } => ValueView::Str {
                text: text@,
                float: optional_view(float),
            },
            IngestValue::Bool(b) => ValueView::Bool(b),
            IngestValue::Other => ValueView::Other,
        }
    }
}

pub type RowView = Seq<(Seq<char>, ValueView)>;

pub open spec fn row_view(row: Seq<(String, IngestValue)>) -> RowView {
    row.map_values(|e: (String, IngestValue)| (e.0@, e.1@))
}

/// Text with a backslash before each quote.
pub open spec fn quotes_escaped(s: Seq<char>) -> Seq<char>
    decreases s.len(),
{
    if s.len() == 0 {
        Seq::empty()
    } else if s.last() == '"' {
        quotes_escaped(s.drop_last()) + seq!['\\', '"']
    } else {
        quotes_escaped(s.drop_last()).push(s.last())
    }
}

fn push_escaped(buf: &mut String, s: &str)
    ensures
        final(buf)@ == old(buf)@ + quotes_escaped(s@),
{
    let chars = text::to_chars(s);
    let mut i: usize = 0;
    proof {
        assert(buf@ =~= old(buf)@ + quotes_escaped(chars@.take(0)));
    }
    while i < chars.len()
        invariant
            chars@ == s@,
            i <= chars@.len(),
            buf@ == old(buf)@ + quotes_escaped(chars@.take(i as int)),
        decreases chars.len() - i,
    {
        proof {
            assert(chars@.take(i + 1).drop_last() =~= chars@.take(i as int));
            assert(chars@.take(i + 1).last() == chars@[i as int]);
        }
        let c: char = chars[i];
        if c == '"' {
            buf.push('\\');
        }
        buf.push(c);
        proof {
            assert(buf@ =~= old(buf)@ + quotes_escaped(chars@.take(i + 1)));
        }
        i = i + 1;
    }
    proof {
        assert(chars@.take(chars@.len() as int) =~= chars@);
    }
}

pub open spec fn flag_text(b: bool) -> Seq<char> {
    if b {
        "true"@
    } else {
        "false"@
    }
}

pub open spec fn int_field(n: i64) -> Seq<char> {
    text::signed_decimal(n as int).push('i')
}

pub open spec fn quoted_field(t: Seq<char>) -> Seq<char> {
    seq!['"'] + (quotes_escaped(t) + seq!['"'])
}

/// How a value is written in a line. Text that reads as a number is written as
/// that number: decimal literals arrive as text.
pub open spec fn written_value(v: ValueView) -> Option<Seq<char>> {
    match v {
        ValueView::Float { text, .. } => Some(text),
        ValueView::Int(n) => Some(int_field(n)),
        ValueView::Str { text, float } => match text::parsed_i64(text) {
            Some(n) => Some(int_field(n)),
            None => match float {
                Some(f) => Some(f),
                None => Some(quoted_field(text)),
            },
        },
        ValueView::Bool(b) => Some(flag_text(b)),
        ValueView::Other => None,
    }
}

/// The fields of a row, without its time columns and what a line cannot hold.
pub open spec fn row_fields(row: RowView, time_key: Option<Seq<char>>) -> Seq<Seq<char>>
    decreases row.len(),
{
    if row.len() == 0 {
        Seq::empty()
    } else {
        let init = row_fields(row.drop_last(), time_key);
        let (name, v) = row.last();
        if is_time(name, time_key) {
            init
        } else {
            match written_value(v) {
                Some(t) => init.push(name + (seq!['='] + t)),
                None => init,
            }
        }
    }
}

/// The timestamp of a row: that of its last time column that has one to give.
pub open spec fn row_timestamp(row: RowView, time_key: Option<Seq<char>>) -> Option<i64>
    decreases row.len(),
{
    if row.len() == 0 {
        None
    } else {
        let init = row_timestamp(row.drop_last(), time_key);
        let (name, v) = row.last();
        if is_time(name, time_key) {
            match v {
                ValueView::Str { text, .. } => instant_of(text),
                ValueView::Int(n) => Some((n * NANOS_PER_MILLI) as i64),
                ValueView::Float { whole, .. } => Some((whole * NANOS_PER_MILLI) as i64),
                _ => init,
            }
        } else {
            init
        }
    }
}

/// Whether milliseconds, in nanoseconds, fit.
pub open spec fn millis_fit(n: i64) -> bool {
    i64::MIN <= n * NANOS_PER_MILLI <= i64::MAX
}

/// Whether the times of a row, in nanoseconds, fit.
pub open spec fn times_fit(row: RowView, time_key: Option<Seq<char>>) -> bool {
    forall|i: int|
        0 <= i < row.len() && is_time((#[trigger] row[i]).0, time_key) ==> match row[i].1 {
            ValueView::Int(n) => millis_fit(n),
            ValueView::Float { whole, .. } => millis_fit(whole),
            _ => true,
        }
}

fn field_text(name: &str, v: &IngestValue) -> (r: Option<String>)
    ensures
        match written_value(v@) {
            Some(t) => r is Some && r->0@ == name@ + (seq!['='] + t),
            None => r is None,
        },
{
    let mut out = name.to_owned();
    out.push('=');
    let ghost head = out@;
    match v {
        IngestValue::Float { text, .. } => {
            out.append(text.as_str());
        },
        IngestValue::Int(n) => {
            text::push_signed(&mut out, *n);
            out.push('i');
        },
        IngestValue::Str { text: t, float } => {
            let chars = text::to_chars(t.as_str());
            match text::parse_i64(&chars) {
                Some(n) => {
                    text::push_signed(&mut out, n);
                    out.push('i');
                },
                None => match float {
                    Some(f) => {
                        out.append(f.as_str());
                    },
                    None => {
                        out.push('"');
                        push_escaped(&mut out, t.as_str());
                        out.push('"');
                    },
                },
            }
        },
        IngestValue::Bool(b) => {
            out.append(if *b {
                "true"
            } else {
                "false"
            });
        },
        IngestValue::Other => {
            return None;
        },
    }
    proof {
        assert(out@ =~= name@ + (seq!['='] + written_value(v@)->0));
    }
    Some(out)
}

/// The fields and the timestamp of a row.
fn read_row(row: &Vec<(String, IngestValue)>, time_key: Option<&str>) -> (r: (
    Vec<String>,
    Option<i64>,
))
    requires
        times_fit(row_view(row@), key_view(time_key)),
    ensures
        text::text_views(r.0@) == row_fields(row_view(row@), key_view(time_key)),
        r.1 == row_timestamp(row_view(row@), key_view(time_key)),
{
    let ghost view = row_view(row@);
    let ghost key = key_view(time_key);
    let mut fields: Vec<String> = Vec::new();
    let mut timestamp_ns: Option<i64> = None;
    let mut i: usize = 0;
    proof {
        assert(text::text_views(fields@) =~= row_fields(view.take(0), key));
    }
    while i < row.len()
        invariant
            i <= row@.len(),
            view == row_view(row@),
            key == key_view(time_key),
            times_fit(view, key),
            text::text_views(fields@) == row_fields(view.take(i as int), key),
            timestamp_ns == row_timestamp(view.take(i as int), key),
        decreases row.len() - i,
    {
        let ghost before = fields@;
        let (name, v) = &row[i];
        proof {
            assert(view.take(i + 1).drop_last() =~= view.take(i as int));
            assert(view.take(i + 1).last() == (name@, v@));
            assert(view[i as int] == (name@, v@));
        }
        if is_time_column(name.as_str(), time_key) {
            match v {
                IngestValue::Str { text: t, .. } => {
                    timestamp_ns = parse_ts_string_to_nanos(t.as_str());
                },
                IngestValue::Int(n) => {
                    timestamp_ns = Some(*n * NANOS_PER_MILLI);
                },
                IngestValue::Float { whole, .. } => {
                    timestamp_ns = Some(*whole * NANOS_PER_MILLI);
                },
                _ => {},
            }
        } else {
            match field_text(name.as_str(), v) {
                Some(f) => {
                    fields.push(f);
                    proof {
                        assert(text::text_views(fields@) =~= text::text_views(before).push(f@));
                    }
                },
                None => {},
            }
        }
        i = i + 1;
    }
    proof {
        assert(view.take(view.len() as int) =~= view);
    }
    (fields, timestamp_ns)
}

/// The lines of rows.
pub open spec fn rows_text(
    rows: Seq<Vec<(String, IngestValue)>>,
    measurement: Seq<char>,
    time_key: Option<Seq<char>>,
) -> Seq<char>
    decreases rows.len(),
{
    if rows.len() == 0 {
        Seq::empty()
    } else {
        rows_text(rows.drop_last(), measurement, time_key) + rendered_line(
            measurement,
            row_fields(row_view(rows.last()@), time_key),
            row_timestamp(row_view(rows.last()@), time_key),
        )
    }
}

/// Write decoded rows as lines.
pub fn msgpack_rows_to_ilp(
    rows: &Vec<Vec<(String, IngestValue)>>,
    measurement: &str,
    time_key: Option<&str>,
) -> (r: String)
    requires
        forall|i: int|
            0 <= i < rows@.len() ==> times_fit(row_view((#[trigger] rows@[i])@), key_view(time_key)),
    ensures
        r@ == rows_text(rows@, measurement@, key_view(time_key)),
{
    let mut buf = String::new();
    let mut i: usize = 0;
    while i < rows.len()
        invariant
            i <= rows@.len(),
            forall|j: int|
                0 <= j < rows@.len() ==> times_fit(
                    row_view((#[trigger] rows@[j])@),
                    key_view(time_key),
                ),
            buf@ == rows_text(rows@.take(i as int), measurement@, key_view(time_key)),
        decreases rows.len() - i,
    {
        proof {
            assert(rows@.take(i + 1).drop_last() =~= rows@.take(i as int));
            assert(rows@.take(i + 1).last() == rows@[i as int]);
        }
        let (fields, timestamp_ns) = read_row(&rows[i], time_key);
        push_line(&mut buf, measurement, &fields, timestamp_ns);
        i = i + 1;
    }
    proof {
        assert(rows@.take(rows@.len() as int) =~= rows@);
    }
    buf
}

/// What a JSON value gives as text, as an integer, as a float and as a flag. A
/// float comes as the text it is written as and as its whole part.
pub struct JsonScalar {
    pub text: Option<String>,
    pub int: Option<i64>,
    pub float: Option<(String, i64)>,
    pub flag: Option<bool>,
}

/// The same as mathematical values.
pub type ScalarView = (Option<Seq<char>>, Option<i64>, Option<(Seq<char>, i64)>, Option<bool>);

impl View for JsonScalar {
    type V = ScalarView;

    open spec fn view(&self) -> ScalarView {
        (
            optional_view(self.text),
            self.int,
            match self.float {
                Some((t, whole)) => Some((t@, whole)),
                None => None,
            },
            self.flag,
        )
    }
}

/// The members of a JSON object; none for a row that is no object.
pub type JsonRowView = Option<Seq<(Seq<char>, ScalarView)>>;

pub open spec fn json_row_view(row: Option<Vec<(String, JsonScalar)>>) -> JsonRowView {
    match row {
        Some(members) => Some(members@.map_values(|e: (String, JsonScalar)| (e.0@, e.1@))),
        None => None,
    }
}

pub open spec fn json_row_views(rows: Seq<Option<Vec<(String, JsonScalar)>>>) -> Seq<JsonRowView> {
    rows.map_values(|r: Option<Vec<(String, JsonScalar)>>| json_row_view(r))
}

/// How far a JSON text has been scanned for its nesting.
#[derive(Clone, Copy, Debug, PartialEq, Eq, Structural)]
pub struct Scan {
    /// How many arrays and objects are open.
    pub open: usize,
    /// How many were open at most.
    pub deepest: usize,
    /// Whether a string is open, and whether the next byte is escaped in it.
    pub quoted: bool,
    pub escaped: bool,
}

/// The scan behind one more byte.
pub open spec fn scan_step(s: Scan, b: u8) -> Scan {
    if s.quoted {
        Scan {
            quoted: s.escaped || b != 0x22,
            escaped: !s.escaped && b == 0x5C,
            ..s
        }
    } else if b == 0x22 {
        Scan { quoted: true, ..s }
    } else if b == 0x5B || b == 0x7B {
        let open = (s.open + 1) as usize;
        Scan {
            open,
            deepest: if open > s.deepest {
                open
            } else {
                s.deepest
            },
            ..s
        }
    } else if (b == 0x5D || b == 0x7D) && s.open > 0 {
        Scan { open: (s.open - 1) as usize, ..s }
    } else {
        s
    }
}

pub open spec fn scanned(b: Seq<u8>) -> Scan
    decreases b.len(),
{
    if b.len() == 0 {
        Scan { open: 0, deepest: 0, quoted: false, escaped: false }
    } else {
        scan_step(scanned(b.drop_last()), b.last())
    }
}

/// How many arrays and objects a JSON text opens within each other at most,
/// brackets in strings aside.
pub open spec fn nesting(b: Seq<u8>) -> usize {
    scanned(b).deepest
}

/// How deep a payload may be nested. The parser has no limit of its own and takes
/// a stack frame for each level: in an unoptimised build this many levels fit in
/// the two mebibytes that a thread has by default, and twice as many do not. A row
/// needs two levels; what lies deeper is never written to a line.
pub const MAX_NESTING: usize = 32;

proof fn lemma_scan_bounds(b: Seq<u8>)
    requires
        b.len() <= usize::MAX,
    ensures
        scanned(b).open <= scanned(b).deepest <= b.len(),
    decreases b.len(),
{
    if b.len() > 0 {
        lemma_scan_bounds(b.drop_last());
    }
}

/// How deep a JSON text is nested.
pub fn json_nesting(b: &[u8]) -> (r: usize)
    ensures
        r == nesting(b@),
{
    let mut s = Scan { open: 0, deepest: 0, quoted: false, escaped: false };
    let mut i: usize = 0;
    let n: usize = b.len();
    while i < n
        invariant
            n == b@.len(),
            i <= n,
            s == scanned(b@.take(i as int)),
        decreases n - i,
    {
        let x: u8 = b[i];
        proof {
            assert(b@.take(i + 1).drop_last() =~= b@.take(i as int));
            assert(b@.take(i + 1).last() == x);
            lemma_scan_bounds(b@.take(i as int));
        }
        if s.quoted {
            let closes = !s.escaped && x == 0x22;
            s.escaped = !s.escaped && x == 0x5C;
            s.quoted = !closes;
        } else if x == 0x22 {
            s.quoted = true;
        } else if x == 0x5B || x == 0x7B {
            s.open = s.open + 1;
            if s.open > s.deepest {
                s.deepest = s.open;
            }
        } else if (x == 0x5D || x == 0x7D) && s.open > 0 {
            s.open = s.open - 1;
        }
        i = i + 1;
    }
    proof {
        assert(b@.take(b@.len() as int) =~= b@);
    }
    s.deepest
}

/// The rows of the array that `sonic_rs::from_slice` reads, or what it fails
/// with.
pub uninterp spec fn json_rows_of(b: Seq<u8>) -> Result<
    Seq<Option<Seq<(Seq<char>, (Option<Seq<char>>, Option<i64>, Option<(Seq<char>, i64)>, Option<bool>))>>>,
    Seq<char>,
>;

/// `sonic_rs::from_slice` into an array, with what `as_object`, `as_str`,
/// `as_i64`, `as_f64` and `as_bool` give for its rows and their members, and
/// the error's text where the bytes do not parse. It calls itself for each
/// array or object within another, so only bytes of a bounded nesting are given
/// to it.
#[verifier::external_body]
fn json_rows(b: &[u8]) -> (r: Result<Vec<Option<Vec<(String, JsonScalar)>>>, String>)
    requires
        nesting(b@) <= MAX_NESTING,
    ensures
        match r {
            Ok(rows) => json_rows_of(b@) == Ok::<Seq<JsonRowView>, Seq<char>>(
                json_row_views(rows@),
            ),
            Err(e) => json_rows_of(b@) == Err::<Seq<JsonRowView>, Seq<char>>(e@),
        },
{
    let rows: sonic_rs::Array = sonic_rs::from_slice(b).map_err(|e| format!("{e}"))?;
    let row = |o: &sonic_rs::Object| -> Vec<(String, JsonScalar)> {
        o.iter().map(|(k, v)| {
            let text = v.as_str().map(String::from);
            let float = v.as_f64().map(|f| (f.to_string(), f as i64));
            (String::from(k), JsonScalar { text, int: v.as_i64(), float, flag: v.as_bool() })
        }).collect()
    };
    Ok(rows.iter().map(|r| r.as_object().map(row)).collect())
}

/// How a JSON value is written in a line: a number as a float, before text and
/// flags.
pub open spec fn written_scalar(v: ScalarView) -> Option<Seq<char>> {
    match v.2 {
        Some((t, _)) => Some(t),
        None => match v.1 {
            Some(n) => Some(int_field(n)),
            None => match v.0 {
                Some(t) => Some(quoted_field(t)),
                None => match v.3 {
                    Some(b) => Some(flag_text(b)),
                    None => None,
                },
            },
        },
    }
}

pub open spec fn json_fields(row: Seq<(Seq<char>, ScalarView)>, time_key: Option<Seq<char>>) -> Seq<
    Seq<char>,
>
    decreases row.len(),
{
    if row.len() == 0 {
        Seq::empty()
    } else {
        let init = json_fields(row.drop_last(), time_key);
        let (name, v) = row.last();
        if is_time(name, time_key) {
            init
        } else {
            match written_scalar(v) {
                Some(t) => init.push(name + (seq!['='] + t)),
                None => init,
            }
        }
    }
}

pub open spec fn json_timestamp(
    row: Seq<(Seq<char>, ScalarView)>,
    time_key: Option<Seq<char>>,
) -> Option<i64>
    decreases row.len(),
{
    if row.len() == 0 {
        None
    } else {
        let init = json_timestamp(row.drop_last(), time_key);
        let (name, v) = row.last();
        if is_time(name, time_key) {
            match v.0 {
                Some(t) => instant_of(t),
                None => match v.1 {
                    Some(n) => Some((n * NANOS_PER_MILLI) as i64),
                    None => match v.2 {
                        Some((_, whole)) => Some((whole * NANOS_PER_MILLI) as i64),
                        None => init,
                    },
                },
            }
        } else {
            init
        }
    }
}

/// Whether the times of a row, in nanoseconds, fit.
pub open spec fn json_times_fit(
    row: Seq<(Seq<char>, ScalarView)>,
    time_key: Option<Seq<char>>,
) -> bool {
    forall|i: int|
        0 <= i < row.len() && is_time((#[trigger] row[i]).0, time_key) && row[i].1.0 is None
            ==> match row[i].1.1 {
            Some(n) => millis_fit(n),
            None => match row[i].1.2 {
                Some((_, whole)) => millis_fit(whole),
                None => true,
            },
        }
}

/// Whether the times of all rows fit.
pub open spec fn all_json_times_fit(rows: Seq<JsonRowView>, time_key: Option<Seq<char>>) -> bool {
    forall|i: int|
        0 <= i < rows.len() ==> match #[trigger] rows[i] {
            Some(row) => json_times_fit(row, time_key),
            None => true,
        }
}

/// The lines of JSON rows; a row that is no object has none.
pub open spec fn json_text(
    rows: Seq<JsonRowView>,
    measurement: Seq<char>,
    time_key: Option<Seq<char>>,
) -> Seq<char>
    decreases rows.len(),
{
    if rows.len() == 0 {
        Seq::empty()
    } else {
        let init = json_text(rows.drop_last(), measurement, time_key);
        match rows.last() {
            Some(row) => init + rendered_line(
                measurement,
                json_fields(row, time_key),
                json_timestamp(row, time_key),
            ),
            None => init,
        }
    }
}

fn scalar_text(name: &str, v: &JsonScalar) -> (r: Option<String>)
    ensures
        match written_scalar(v@) {
            Some(t) => r is Some && r->0@ == name@ + (seq!['='] + t),
            None => r is None,
        },
{
    let mut out = name.to_owned();
    out.push('=');
    match &v.float {
        Some((t, _)) => {
            out.append(t.as_str());
        },
        None => match v.int {
            Some(n) => {
                text::push_signed(&mut out, n);
                out.push('i');
            },
            None => match &v.text {
                Some(t) => {
                    out.push('"');
                    push_escaped(&mut out, t.as_str());
                    out.push('"');
                },
                None => match v.flag {
                    Some(b) => {
                        out.append(if b {
                            "true"
                        } else {
                            "false"
                        });
                    },
                    None => {
                        return None;
                    },
                },
            },
        },
    }
    proof {
        assert(out@ =~= name@ + (seq!['='] + written_scalar(v@)->0));
    }
    Some(out)
}

fn read_json_row(members: &Vec<(String, JsonScalar)>, time_key: Option<&str>) -> (r: (
    Vec<String>,
    Option<i64>,
))
    requires
        json_times_fit(json_row_view(Some(*members))->0, key_view(time_key)),
    ensures
        text::text_views(r.0@) == json_fields(json_row_view(Some(*members))->0, key_view(time_key)),
        r.1 == json_timestamp(json_row_view(Some(*members))->0, key_view(time_key)),
{
    let ghost view = json_row_view(Some(*members))->0;
    let ghost key = key_view(time_key);
    let mut fields: Vec<String> = Vec::new();
    let mut timestamp_ns: Option<i64> = None;
    let mut i: usize = 0;
    proof {
        assert(text::text_views(fields@) =~= json_fields(view.take(0), key));
    }
    while i < members.len()
        invariant
            i <= members@.len(),
            view == json_row_view(Some(*members))->0,
            key == key_view(time_key),
            json_times_fit(view, key),
            text::text_views(fields@) == json_fields(view.take(i as int), key),
            timestamp_ns == json_timestamp(view.take(i as int), key),
        decreases members.len() - i,
    {
        let ghost before = fields@;
        let (name, v) = &members[i];
        proof {
            assert(view.take(i + 1).drop_last() =~= view.take(i as int));
            assert(view.take(i + 1).last() == (name@, v@));
            assert(view[i as int] == (name@, v@));
        }
        if is_time_column(name.as_str(), time_key) {
            match &v.text {
                Some(t) => {
                    timestamp_ns = parse_ts_string_to_nanos(t.as_str());
                },
                None => match v.int {
                    Some(n) => {
                        timestamp_ns = Some(n * NANOS_PER_MILLI);
                    },
                    None => match &v.float {
                        Some((_, whole)) => {
                            timestamp_ns = Some(*whole * NANOS_PER_MILLI);
                        },
                        None => {},
                    },
                },
            }
        } else {
            match scalar_text(name.as_str(), v) {
                Some(f) => {
                    fields.push(f);
                    proof {
                        assert(text::text_views(fields@) =~= text::text_views(before).push(f@));
                    }
                },
                None => {},
            }
        }
        i = i + 1;
    }
    proof {
        assert(view.take(view.len() as int) =~= view);
    }
    (fields, timestamp_ns)
}

/// Write decoded JSON rows as lines.
pub fn json_rows_to_ilp(
    rows: &Vec<Option<Vec<(String, JsonScalar)>>>,
    measurement: &str,
    time_key: Option<&str>,
) -> (r: String)
    requires
        all_json_times_fit(json_row_views(rows@), key_view(time_key)),
    ensures
        r@ == json_text(json_row_views(rows@), measurement@, key_view(time_key)),
{
    let ghost views = json_row_views(rows@);
    let mut buf = String::new();
    let mut i: usize = 0;
    while i < rows.len()
        invariant
            i <= rows@.len(),
            views == json_row_views(rows@),
            all_json_times_fit(views, key_view(time_key)),
            buf@ == json_text(views.take(i as int), measurement@, key_view(time_key)),
        decreases rows.len() - i,
    {
        proof {
            assert(views.take(i + 1).drop_last() =~= views.take(i as int));
            assert(views.take(i + 1).last() == views[i as int]);
            assert(views[i as int] == json_row_view(rows@[i as int]));
        }
        match &rows[i] {
            Some(members) => {
                let (fields, timestamp_ns) = read_json_row(members, time_key);
                push_line(&mut buf, measurement, &fields, timestamp_ns);
            },
            None => {},
        }
        i = i + 1;
    }
    proof {
        assert(views.take(views.len() as int) =~= views);
    }
    buf
}

/// Whether milliseconds, in nanoseconds, fit.
fn fits(n: i64) -> (r: bool)
    ensures
        r == millis_fit(n),
{
    -9_223_372_036_854 <= n && n <= 9_223_372_036_854
}

/// Whether the times of rows, in nanoseconds, fit.
pub open spec fn rows_fit(
    rows: Seq<Vec<(String, IngestValue)>>,
    time_key: Option<Seq<char>>,
) -> bool {
    forall|i: int|
        0 <= i < rows.len() ==> times_fit(row_view((#[trigger] rows[i])@), time_key)
}

/// Whether the times of rows, in nanoseconds, fit.
pub fn rows_times_in_range(rows: &Vec<Vec<(String, IngestValue)>>, time_key: Option<&str>) -> (r:
    bool)
    ensures
        r == rows_fit(rows@, key_view(time_key)),
{
    let ghost key = key_view(time_key);
    let mut i: usize = 0;
    while i < rows.len()
        invariant
            i <= rows@.len(),
            key == key_view(time_key),
            forall|j: int| 0 <= j < i ==> times_fit(row_view((#[trigger] rows@[j])@), key),
        decreases rows.len() - i,
    {
        let row = &rows[i];
        let ghost view = row_view(row@);
        let mut m: usize = 0;
        while m < row.len()
            invariant
                m <= row@.len(),
                i < rows@.len(),
                *row == rows@[i as int],
                key == key_view(time_key),
                view == row_view(row@),
                forall|j: int|
                    0 <= j < m && is_time((#[trigger] view[j]).0, key) ==> match view[j].1 {
                        ValueView::Int(n) => millis_fit(n),
                        ValueView::Float { whole, .. } => millis_fit(whole),
                        _ => true,
                    },
            decreases row.len() - m,
        {
            let (name, v) = &row[m];
            proof {
                assert(view[m as int] == (name@, v@));
            }
            if is_time_column(name.as_str(), time_key) {
                let ok = match v {
                    IngestValue::Int(n) => fits(*n),
                    IngestValue::Float { whole, .. } => fits(*whole),
                    _ => true,
                };
                if !ok {
                    proof {
                        assert(!times_fit(view, key));
                        assert(!times_fit(row_view(rows@[i as int]@), key));
                    }
                    return false;
                }
            }
            m = m + 1;
        }
        i = i + 1;
    }
    true
}

fn json_times_in_range(rows: &Vec<Option<Vec<(String, JsonScalar)>>>, time_key: Option<&str>) -> (r:
    bool)
    ensures
        r == all_json_times_fit(json_row_views(rows@), key_view(time_key)),
{
    let ghost views = json_row_views(rows@);
    let ghost key = key_view(time_key);
    let mut i: usize = 0;
    while i < rows.len()
        invariant
            i <= rows@.len(),
            views == json_row_views(rows@),
            key == key_view(time_key),
            forall|j: int|
                0 <= j < i ==> match #[trigger] views[j] {
                    Some(row) => json_times_fit(row, key),
                    None => true,
                },
        decreases rows.len() - i,
    {
        proof {
            assert(views[i as int] == json_row_view(rows@[i as int]));
        }
        match &rows[i] {
            Some(members) => {
                let ghost row = json_row_view(Some(*members))->0;
                let mut m: usize = 0;
                while m < members.len()
                    invariant
                        m <= members@.len(),
                        i < rows@.len(),
                        views == json_row_views(rows@),
                        key == key_view(time_key),
                        row == json_row_view(Some(*members))->0,
                        views[i as int] == Some(row),
                        forall|j: int|
                            0 <= j < m && is_time((#[trigger] row[j]).0, key) && row[j].1.0 is None
                                ==> match row[j].1.1 {
                                Some(n) => millis_fit(n),
                                None => match row[j].1.2 {
                                    Some((_, whole)) => millis_fit(whole),
                                    None => true,
                                },
                            },
                    decreases members.len() - m,
                {
                    let (name, v) = &members[m];
                    proof {
                        assert(row[m as int] == (name@, v@));
                    }
                    if is_time_column(name.as_str(), time_key) && v.text.is_none() {
                        let ok = match v.int {
                            Some(n) => fits(n),
                            None => match &v.float {
                                Some((_, whole)) => fits(*whole),
                                None => true,
                            },
                        };
                        if !ok {
                            proof {
                                assert(!json_times_fit(row, key));
                                assert(!all_json_times_fit(views, key));
                            }
                            return false;
                        }
                    }
                    m = m + 1;
                }
            },
            None => {},
        }
        i = i + 1;
    }
    true
}

/// What came of a JSON payload.
pub enum JsonLines {
    Lines(String),
    /// The payload does not parse.
    Malformed(String),
    /// A time is too far from the epoch to be held in nanoseconds.
    TimeOutOfRange,
    /// The payload is nested deeper than it may be.
    TooDeep,
}

/// Write the rows of a JSON payload as lines. A payload that is nested too deep
/// is not parsed.
pub fn json_payload_to_ilp(payload: &[u8], measurement: &str, time_key: Option<&str>) -> (r:
    JsonLines)
    ensures
        if nesting(payload@) > MAX_NESTING {
            r is TooDeep
        } else {
            match json_rows_of(payload@) {
                Err(e) => r matches JsonLines::Malformed(text) && text@ == e,
                Ok(rows) => if all_json_times_fit(rows, key_view(time_key)) {
                    r matches JsonLines::Lines(text) && text@ == json_text(
                        rows,
                        measurement@,
                        key_view(time_key),
                    )
                } else {
                    r is TimeOutOfRange
                },
            }
        },
{
    if json_nesting(payload) > MAX_NESTING {
        return JsonLines::TooDeep;
    }
    match json_rows(payload) {
        Err(e) => JsonLines::Malformed(e),
        Ok(rows) => {
            if json_times_in_range(&rows, time_key) {
                JsonLines::Lines(json_rows_to_ilp(&rows, measurement, time_key))
            } else {
                JsonLines::TimeOutOfRange
            }
        },
    }
}

/// A line with a timestamp: its own, or the default where it has none.
pub open spec fn stamped_line(line: Seq<char>, default_ns: i64) -> Result<Seq<char>, IlpError> {
    match line_protocol::parsed_batch(line) {
        Err(e) => Err(e),
        Ok(lines) => if lines.len() > 0 && lines[0].timestamp_ns is Some {
            Ok(line)
        } else {
            Ok(line + (seq![' '] + text::signed_decimal(default_ns as int)))
        },
    }
}

/// The lines of a batch that are not empty, trimmed and stamped, or the first
/// error.
pub open spec fn stamped_lines(parts: Seq<Seq<char>>, default_ns: i64) -> Result<
    Seq<Seq<char>>,
    IlpError,
>
    decreases parts.len(),
{
    if parts.len() == 0 {
        Ok(Seq::empty())
    } else {
        match stamped_lines(parts.drop_last(), default_ns) {
            Err(e) => Err(e),
            Ok(init) => {
                let line = line_protocol::trimmed(parts.last());
                if line.len() == 0 {
                    Ok(init)
                } else {
                    match stamped_line(line, default_ns) {
                        Err(e) => Err(e),
                        Ok(stamped) => Ok(init.push(stamped)),
                    }
                }
            },
        }
    }
}

proof fn lemma_stamp_error(parts: Seq<Seq<char>>, default_ns: i64, n: int)
    requires
        0 <= n <= parts.len(),
        stamped_lines(parts.take(n), default_ns) is Err,
    ensures
        stamped_lines(parts, default_ns) == stamped_lines(parts.take(n), default_ns),
    decreases parts.len() - n,
{
    if n < parts.len() {
        assert(parts.take(n + 1).drop_last() =~= parts.take(n));
        lemma_stamp_error(parts, default_ns, n + 1);
    } else {
        assert(parts.take(n) =~= parts);
    }
}

/// Split a batch into lines, giving every line without a timestamp the
/// default, so that every replica stores the same rows.
pub fn stamp_timestamps(batch: &str, default_timestamp_ms: i64) -> (r: Result<
    Vec<String>,
    IlpError,
>)
    requires
        millis_fit(default_timestamp_ms),
    ensures
        match stamped_lines(
            text::split_parts(batch@, '\n'),
            (default_timestamp_ms * NANOS_PER_MILLI) as i64,
        ) {
            Ok(lines) => r is Ok && text::text_views(r->Ok_0@) == lines,
            Err(e) => r == Err::<Vec<String>, IlpError>(e),
        },
{
    let default_ns: i64 = default_timestamp_ms * NANOS_PER_MILLI;
    let chars = text::to_chars(batch);
    let parts = text::split_chars(&chars, '\n');
    let ghost views = text::chars_views(parts@);
    let mut out: Vec<String> = Vec::new();
    let mut i: usize = 0;
    proof {
        assert(text::text_views(out@) =~= Seq::<Seq<char>>::empty());
    }
    while i < parts.len()
        invariant
            i <= parts@.len(),
            views == text::chars_views(parts@),
            views == text::split_parts(batch@, '\n'),
            default_ns == default_timestamp_ms * NANOS_PER_MILLI,
            stamped_lines(views.take(i as int), default_ns) == Ok::<Seq<Seq<char>>, IlpError>(
                text::text_views(out@),
            ),
        decreases parts.len() - i,
    {
        let ghost before = out@;
        let trimmed = line_protocol::trim_chars(&parts[i]);
        proof {
            assert(views.take(i + 1).drop_last() =~= views.take(i as int));
            assert(views.take(i + 1).last() == parts@[i as int]@);
        }
        if trimmed.len() > 0 {
            let mut line = text::from_chars(&trimmed, 0, trimmed.len());
            proof {
                assert(line@ =~= trimmed@);
            }
            match line_protocol::parse_batch(line.as_str()) {
                Err(e) => {
                    proof {
                        lemma_stamp_error(views, default_ns, i + 1);
                    }
                    return Err(e);
                },
                Ok(lines) => {
                    let has_timestamp = lines.len() > 0 && lines[0].timestamp_ns.is_some();
                    if !has_timestamp {
                        line.push(' ');
                        text::push_signed(&mut line, default_ns);
                    }
                    proof {
                        assert(line@ =~= stamped_line(trimmed@, default_ns)->Ok_0);
                    }
                    out.push(line);
                    proof {
                        assert(text::text_views(out@) =~= text::text_views(before).push(line@));
                    }
                },
            }
        }
        i = i + 1;
    }
    proof {
        assert(views.take(views.len() as int) =~= views);
    }
    Ok(out)
}

proof fn lemma_trimmed_lacks(s: Seq<char>, c: char)
    requires
        !s.contains(c),
    ensures
        !line_protocol::trimmed(s).contains(c),
    decreases s.len(),
{
    if s.len() > 0 {
        if line_protocol::is_white(s[0]) {
            lemma_trimmed_lacks(s.subrange(1, s.len() as int), c);
        } else if line_protocol::is_white(s.last()) {
            lemma_trimmed_lacks(s.drop_last(), c);
        }
    }
}

/// A trimmed line without a line break is the only line of its batch.
proof fn lemma_single_line(line: Seq<char>)
    requires
        !line.contains('\n'),
        line_protocol::trimmed(line) == line,
        line.len() > 0,
        line[0] != '#',
    ensures
        match line_protocol::parsed_line(line) {
            Ok(l) => line_protocol::parsed_batch(line) == Ok::<
                Seq<line_protocol::LineView>,
                IlpError,
            >(seq![l]),
            Err(e) => line_protocol::parsed_batch(line) == Err::<
                Seq<line_protocol::LineView>,
                IlpError,
            >(e),
        },
{
    text::lemma_split_parts_single(line, '\n');
    let parts = seq![line];
    assert(parts.drop_last() =~= Seq::<Seq<char>>::empty());
    assert(line_protocol::data_lines(parts.drop_last()) == Seq::<Seq<char>>::empty());
    assert(line_protocol::data_lines(parts) =~= seq![line]);
    assert(line_protocol::parsed_lines(parts.drop_last()) == Ok::<
        Seq<line_protocol::LineView>,
        IlpError,
    >(Seq::empty()));
    match line_protocol::parsed_line(line) {
        Ok(l) => {
            assert(Seq::<line_protocol::LineView>::empty().push(l) =~= seq![l]);
        },
        Err(e) => {},
    }
}

proof fn lemma_stamped(
    parts: Seq<Seq<char>>,
    default_ns: i64,
    i: int,
)
    requires
        forall|j: int| 0 <= j < parts.len() ==> !(#[trigger] parts[j]).contains('\n'),
        stamped_lines(parts, default_ns) is Ok,
        0 <= i < stamped_lines(parts, default_ns)->Ok_0.len(),
        stamped_lines(parts, default_ns)->Ok_0[i][0] != '#',
    ensures
        line_protocol::parsed_line(stamped_lines(parts, default_ns)->Ok_0[i]) matches Ok(line)
            && line.timestamp_ns is Some,
    decreases parts.len(),
{
    let init = parts.drop_last();
    let before = stamped_lines(init, default_ns)->Ok_0;
    assert forall|j: int| 0 <= j < init.len() implies !(#[trigger] init[j]).contains('\n') by {
        assert(init[j] == parts[j]);
    }
    if i < before.len() {
        lemma_stamped(init, default_ns, i);
    } else {
        assert(!parts[parts.len() - 1].contains('\n'));
        let line = line_protocol::trimmed(parts.last());
        line_protocol::lemma_trimmed(parts.last());
        lemma_trimmed_lacks(parts.last(), '\n');
        assert(line[0] == stamped_lines(parts, default_ns)->Ok_0[i][0]);
        lemma_single_line(line);
        if line_protocol::parsed_line(line)->Ok_0.timestamp_ns is None {
            line_protocol::law_a_stamped_line_carries_the_stamp(line, default_ns);
        }
    }
}

/// Every stamped line but a comment parses and carries a timestamp: no replica
/// has to take one from its own clock.
pub proof fn law_every_stamped_line_has_a_timestamp(batch: Seq<char>, default_ns: i64, i: int)
    requires
        stamped_lines(text::split_parts(batch, '\n'), default_ns) is Ok,
        0 <= i < stamped_lines(text::split_parts(batch, '\n'), default_ns)->Ok_0.len(),
        stamped_lines(text::split_parts(batch, '\n'), default_ns)->Ok_0[i][0] != '#',
    ensures
        line_protocol::parsed_line(
            stamped_lines(text::split_parts(batch, '\n'), default_ns)->Ok_0[i],
        ) matches Ok(line) && line.timestamp_ns is Some,
{
    text::lemma_parts_lack(batch, '\n');
    lemma_stamped(text::split_parts(batch, '\n'), default_ns, i);
}

/// The lines of a batch that are not blank, trimmed.
pub open spec fn nonblank_lines(parts: Seq<Seq<char>>) -> Seq<Seq<char>>
    decreases parts.len(),
{
    if parts.len() == 0 {
        Seq::empty()
    } else {
        let line = line_protocol::trimmed(parts.last());
        if line.len() == 0 {
            nonblank_lines(parts.drop_last())
        } else {
            nonblank_lines(parts.drop_last()).push(line)
        }
    }
}

/// Whether a line is a row of data: trimmed, on one line, and no comment.
pub open spec fn is_row(line: Seq<char>) -> bool {
    &&& !line.contains('\n')
    &&& line_protocol::trimmed(line) == line
    &&& line.len() > 0
    &&& line[0] != '#'
}

proof fn lemma_stamp_is_row(line: Seq<char>, default_ns: i64)
    requires
        is_row(line),
    ensures
        is_row(line + (seq![' '] + text::signed_decimal(default_ns as int))),
{
    let n = default_ns as int;
    let magnitude: nat = if n < 0 {
        (-n) as nat
    } else {
        n as nat
    };
    let d = text::decimal(magnitude);
    let t = line + (seq![' '] + text::signed_decimal(n));
    text::lemma_decimal_shape(magnitude);
    assert(text::is_digit(d[d.len() - 1]));
    assert(t.last() == d[d.len() - 1]);
    line_protocol::lemma_trimmed(line);
    assert(t[0] == line[0]);
    assert(!line_protocol::is_white(t.last()));
    assert(!t.contains('\n')) by {
        if t.contains('\n') {
            let i = choose|i: int| 0 <= i < t.len() && t[i] == '\n';
            if i < line.len() {
                assert(line[i] == '\n');
            } else if i > line.len() {
                let sd = text::signed_decimal(n);
                let j = i - line.len() - 1;
                assert(sd[j] == '\n');
                if n < 0 {
                    if j > 0 {
                        assert(text::is_digit(d[j - 1]));
                    }
                } else {
                    assert(text::is_digit(d[j]));
                }
            }
        }
    }
}

proof fn lemma_stamps(parts: Seq<Seq<char>>, default_ns: i64, i: int)
    requires
        forall|j: int| 0 <= j < parts.len() ==> !(#[trigger] parts[j]).contains('\n'),
        stamped_lines(parts, default_ns) is Ok,
    ensures
        ({
            let v = stamped_lines(parts, default_ns)->Ok_0;
            let lines = nonblank_lines(parts);
            &&& v.len() == lines.len()
            &&& 0 <= i < v.len() ==> lines[i].len() > 0 && text::begins_with(v[i], lines[i]) && (
            lines[i][0] != '#' ==> is_row(v[i]))
        }),
    decreases parts.len(),
{
    if parts.len() > 0 {
        let init = parts.drop_last();
        assert forall|j: int| 0 <= j < init.len() implies !(#[trigger] init[j]).contains('\n') by {
            assert(init[j] == parts[j]);
        }
        lemma_stamps(init, default_ns, i);
        assert(!parts[parts.len() - 1].contains('\n'));
        let line = line_protocol::trimmed(parts.last());
        line_protocol::lemma_trimmed(parts.last());
        lemma_trimmed_lacks(parts.last(), '\n');
        let v = stamped_lines(parts, default_ns)->Ok_0;
        if line.len() > 0 {
            assert(v.last().take(line.len() as int) =~= line);
            if line[0] != '#' {
                lemma_stamp_is_row(line, default_ns);
            }
        }
    }
}

proof fn lemma_rows_stay(v: Seq<Seq<char>>, default_ns: i64)
    requires
        forall|i: int|
            0 <= i < v.len() ==> is_row(#[trigger] v[i]) && (line_protocol::parsed_line(
                v[i],
            ) matches Ok(l) && l.timestamp_ns is Some),
    ensures
        stamped_lines(v, default_ns) == Ok::<Seq<Seq<char>>, IlpError>(v),
    decreases v.len(),
{
    if v.len() == 0 {
        assert(v =~= Seq::empty());
    } else {
        let init = v.drop_last();
        assert forall|i: int| 0 <= i < init.len() implies is_row(#[trigger] init[i]) && (
        line_protocol::parsed_line(init[i]) matches Ok(l) && l.timestamp_ns is Some) by {
            assert(init[i] == v[i]);
        }
        lemma_rows_stay(init, default_ns);
        let line = v[v.len() - 1];
        assert(is_row(line));
        lemma_single_line(line);
        assert(stamped_line(line, default_ns) == Ok::<Seq<char>, IlpError>(line));
        assert(init.push(line) =~= v);
    }
}

/// Stamping keeps every line that is not blank, in order, each with something
/// behind it or as it is.
pub proof fn law_stamping_keeps_every_line(batch: Seq<char>, default_ns: i64, i: int)
    requires
        stamped_lines(text::split_parts(batch, '\n'), default_ns) is Ok,
    ensures
        ({
            let v = stamped_lines(text::split_parts(batch, '\n'), default_ns)->Ok_0;
            let lines = nonblank_lines(text::split_parts(batch, '\n'));
            &&& v.len() == lines.len()
            &&& 0 <= i < v.len() ==> text::begins_with(v[i], lines[i])
        }),
{
    text::lemma_parts_lack(batch, '\n');
    lemma_stamps(text::split_parts(batch, '\n'), default_ns, i);
}

/// Stamping what is stamped changes nothing, whatever the default is then. A
/// comment carries no timestamp, so batches with comments are left aside.
pub proof fn law_stamping_twice_is_stamping_once(batch: Seq<char>, first_ns: i64, second_ns: i64)
    requires
        stamped_lines(text::split_parts(batch, '\n'), first_ns) is Ok,
        forall|i: int|
            0 <= i < nonblank_lines(text::split_parts(batch, '\n')).len() ==> (
            #[trigger] nonblank_lines(text::split_parts(batch, '\n'))[i])[0] != '#',
    ensures
        ({
            let v = stamped_lines(text::split_parts(batch, '\n'), first_ns)->Ok_0;
            stamped_lines(text::split_parts(text::joined_with(v, '\n'), '\n'), second_ns) == Ok::<
                Seq<Seq<char>>,
                IlpError,
            >(v)
        }),
{
    let parts = text::split_parts(batch, '\n');
    let v = stamped_lines(parts, first_ns)->Ok_0;
    let lines = nonblank_lines(parts);
    text::lemma_parts_lack(batch, '\n');
    assert forall|i: int| 0 <= i < v.len() implies is_row(#[trigger] v[i]) && (
    line_protocol::parsed_line(v[i]) matches Ok(l) && l.timestamp_ns is Some) by {
        lemma_stamps(parts, first_ns, i);
        assert(lines[i][0] != '#');
        law_every_stamped_line_has_a_timestamp(batch, first_ns, i);
    }
    if v.len() == 0 {
        let e = Seq::<char>::empty();
        assert(v =~= Seq::empty());
        text::lemma_split_parts_single(e, '\n');
        let one = seq![e];
        assert(one.drop_last() =~= Seq::<Seq<char>>::empty());
        assert(one.last() == e);
        assert(line_protocol::trimmed(e).len() == 0);
        assert(stamped_lines(one.drop_last(), second_ns) == Ok::<Seq<Seq<char>>, IlpError>(v));
        assert(stamped_lines(one, second_ns) == Ok::<Seq<Seq<char>>, IlpError>(v));
        assert(text::joined_with(v, '\n') =~= e);
    } else {
        assert forall|i: int| 0 <= i < v.len() implies !(#[trigger] v[i]).contains('\n') by {
            assert(is_row(v[i]));
        }
        text::lemma_split_joined(v, '\n');
        lemma_rows_stay(v, second_ns);
    }
}

/// Letters of the Latin alphabet count as their other case; every other character
/// counts as itself.
pub proof fn law_case_is_ignored(a: char, b: char)
    ensures
        folded(a) == folded(b) <==> a == b || ('A' <= a <= 'Z' && b as int == a as int + 32) || (
        'A' <= b <= 'Z' && a as int == b as int + 32),
{
}

/// The time column is the declared one; where none is declared it is any of three
/// names.
pub proof fn law_which_column_holds_the_time(column: Seq<char>, declared: Option<Seq<char>>)
    ensures
        declared matches Some(key) ==> (is_time(column, declared) <==> column.len() == key.len()
            && forall|i: int|
            0 <= i < column.len() ==> folded(#[trigger] column[i]) == folded(key[i])),
        declared is None && (column == "ts"@ || column == "timestamp"@ || column == "time"@)
            ==> is_time(column, declared),
        declared is None && is_time(column, declared) ==> column.len() == 2 || column.len() == 9
            || column.len() == 4,
{
    reveal_strlit("ts");
    reveal_strlit("timestamp");
    reveal_strlit("time");
}

/// The first form that reads a time decides, even where the time does not fit.
pub proof fn law_the_first_reading_decides(readings: Seq<Option<Option<i64>>>, i: int)
    requires
        0 <= i <= readings.len(),
        forall|j: int| 0 <= j < i ==> (#[trigger] readings[j]) is None,
        i < readings.len() ==> readings[i] is Some,
    ensures
        i < readings.len() ==> first_reading(readings) == readings[i]->0,
        i == readings.len() ==> first_reading(readings) is None,
    decreases readings.len(),
{
    if i > 0 {
        assert(readings[0] is None);
        let rest = readings.subrange(1, readings.len() as int);
        assert forall|j: int| 0 <= j < i - 1 implies (#[trigger] rest[j]) is None by {
            assert(readings[j + 1] is None);
        }
        law_the_first_reading_decides(rest, i - 1);
    }
}

/// A text is read as an instant with an offset first, then in the forms without
/// one: with a blank before those with a T, with fractions before those without.
pub proof fn law_the_forms_of_an_instant(s: Seq<char>)
    ensures
        instant_of(s) == first_reading(
            seq![
                rfc3339_nanos_of(s),
                naive_nanos_of(s, "%Y-%m-%d %H:%M:%S%.f"@),
                naive_nanos_of(s, "%Y-%m-%d %H:%M:%S"@),
                naive_nanos_of(s, "%Y-%m-%dT%H:%M:%S%.f"@),
                naive_nanos_of(s, "%Y-%m-%dT%H:%M:%S"@),
            ],
        ),
{
    let r = seq![
        rfc3339_nanos_of(s),
        naive_nanos_of(s, "%Y-%m-%d %H:%M:%S%.f"@),
        naive_nanos_of(s, "%Y-%m-%d %H:%M:%S"@),
        naive_nanos_of(s, "%Y-%m-%dT%H:%M:%S%.f"@),
        naive_nanos_of(s, "%Y-%m-%dT%H:%M:%S"@),
    ];
    if r[0] is Some {
        law_the_first_reading_decides(r, 0);
    } else if r[1] is Some {
        law_the_first_reading_decides(r, 1);
    } else if r[2] is Some {
        law_the_first_reading_decides(r, 2);
    } else if r[3] is Some {
        law_the_first_reading_decides(r, 3);
    } else if r[4] is Some {
        law_the_first_reading_decides(r, 4);
    } else {
        law_the_first_reading_decides(r, 5);
    }
}

/// Escaping takes a text character by character: a quote gets a backslash before
/// it, every other character stays.
pub proof fn law_each_quote_is_escaped(a: Seq<char>, b: Seq<char>, c: char)
    ensures
        quotes_escaped(a + b) == quotes_escaped(a) + quotes_escaped(b),
        c == '"' ==> quotes_escaped(seq![c]) == seq!['\\', '"'],
        c != '"' ==> quotes_escaped(seq![c]) == seq![c],
        quotes_escaped(Seq::empty()).len() == 0,
    decreases b.len(),
{
    assert(seq![c].drop_last() =~= Seq::<char>::empty());
    assert(quotes_escaped(seq![c].drop_last()) =~= Seq::<char>::empty());
    assert(Seq::<char>::empty() + seq!['\\', '"'] =~= seq!['\\', '"']);
    assert(Seq::<char>::empty().push(c) =~= seq![c]);
    if b.len() == 0 {
        assert(a + b =~= a);
        assert(quotes_escaped(a) + quotes_escaped(b) =~= quotes_escaped(a));
    } else {
        let short = b.drop_last();
        law_each_quote_is_escaped(a, short, c);
        assert((a + b).drop_last() =~= a + short);
        assert((a + b).last() == b.last());
        if b.last() == '"' {
            assert((quotes_escaped(a) + quotes_escaped(short)) + seq!['\\', '"'] =~= quotes_escaped(
                a,
            ) + (quotes_escaped(short) + seq!['\\', '"']));
        } else {
            assert((quotes_escaped(a) + quotes_escaped(short)).push(b.last()) =~= quotes_escaped(a)
                + quotes_escaped(short).push(b.last()));
        }
    }
}

/// A float is written as its text, an integer in decimal with an `i`, a text that
/// reads as an integer as that integer, one that reads as a float as that float,
/// any other text in quotes, and a truth value by its name. Nothing else is written.
pub proof fn law_how_a_value_is_written(v: ValueView)
    ensures
        v matches ValueView::Float { text, .. } ==> written_value(v) == Some(text),
        v matches ValueView::Int(n) ==> (written_value(v) matches Some(t) && t.len() > 0 && t.last()
            == 'i' && t.drop_last() == text::signed_decimal(n as int)),
        v matches ValueView::Str { text, float } ==> match text::parsed_i64(text) {
            Some(n) => written_value(v) == written_value(ValueView::Int(n)),
            None => match float {
                Some(f) => written_value(v) == Some(f),
                None => written_value(v) matches Some(t) && t.len() >= 2 && t[0] == '"' && t.last()
                    == '"' && t.subrange(1, t.len() - 1) == quotes_escaped(text),
            },
        },
        v matches ValueView::Bool(b) ==> written_value(v) == Some(
            if b {
                "true"@
            } else {
                "false"@
            },
        ),
        written_value(v) is None <==> v is Other,
{
    if let ValueView::Int(n) = v {
        let t = int_field(n);
        assert(t.drop_last() =~= text::signed_decimal(n as int));
    }
    if let ValueView::Str { text, float } = v {
        let t = quoted_field(text);
        assert(t.subrange(1, t.len() - 1) =~= quotes_escaped(text));
    }
}

/// Of a JSON value the float is written where it has one, otherwise the integer,
/// the text in quotes or the truth value.
pub proof fn law_how_a_json_value_is_written(v: ScalarView)
    ensures
        ({
            let (text, whole_number, float, flag) = v;
            &&& float matches Some((t, _)) ==> written_scalar(v) == Some(t)
            &&& float is None && whole_number is Some ==> written_scalar(v) == written_value(
                ValueView::Int(whole_number->0),
            )
            &&& float is None && whole_number is None && text is Some ==> (written_scalar(v) matches Some(t)
                && t == seq!['"'] + (quotes_escaped(text->0) + seq!['"']))
            &&& float is None && whole_number is None && text is None && flag is Some ==> written_scalar(v)
                == Some(
                if flag->0 {
                    "true"@
                } else {
                    "false"@
                },
            )
            &&& written_scalar(v) is None <==> float is None && whole_number is None && text is None
                && flag is None
        }),
{
}

/// A row's line has a field for each column that is not the time and whose value
/// can be written, in the order of the columns, as name, equals sign and value.
pub proof fn law_every_column_is_a_field(row: RowView, time_key: Option<Seq<char>>)
    ensures
        row_fields(row, time_key) == row.filter(
            |e: (Seq<char>, ValueView)| !is_time(e.0, time_key) && written_value(e.1) is Some,
        ).map_values(|e: (Seq<char>, ValueView)| e.0 + (seq!['='] + written_value(e.1)->0)),
    decreases row.len(),
{
    reveal(Seq::filter);
    let pred = |e: (Seq<char>, ValueView)|
        !is_time(e.0, time_key) && written_value(e.1) is Some;
    let to = |e: (Seq<char>, ValueView)| e.0 + (seq!['='] + written_value(e.1)->0);
    if row.len() > 0 {
        let short = row.drop_last();
        law_every_column_is_a_field(short, time_key);
        if pred(row.last()) {
            assert(short.filter(pred).push(row.last()).map_values(to) =~= short.filter(
                pred,
            ).map_values(to).push(to(row.last())));
        }
    } else {
        assert(row.filter(pred).map_values(to) =~= row_fields(row, time_key));
    }
}

/// The same of a JSON row.
pub proof fn law_every_json_member_is_a_field(
    row: Seq<(Seq<char>, ScalarView)>,
    time_key: Option<Seq<char>>,
)
    ensures
        json_fields(row, time_key) == row.filter(
            |e: (Seq<char>, ScalarView)| !is_time(e.0, time_key) && written_scalar(e.1) is Some,
        ).map_values(|e: (Seq<char>, ScalarView)| e.0 + (seq!['='] + written_scalar(e.1)->0)),
    decreases row.len(),
{
    reveal(Seq::filter);
    let pred = |e: (Seq<char>, ScalarView)|
        !is_time(e.0, time_key) && written_scalar(e.1) is Some;
    let to = |e: (Seq<char>, ScalarView)| e.0 + (seq!['='] + written_scalar(e.1)->0);
    if row.len() > 0 {
        let short = row.drop_last();
        law_every_json_member_is_a_field(short, time_key);
        if pred(row.last()) {
            assert(short.filter(pred).push(row.last()).map_values(to) =~= short.filter(
                pred,
            ).map_values(to).push(to(row.last())));
        }
    } else {
        assert(row.filter(pred).map_values(to) =~= json_fields(row, time_key));
    }
}

/// A row's time is that of its last time column that holds a text or a number: the
/// instant that the text names, or the number as milliseconds.
pub proof fn law_the_last_time_column_counts(row: RowView, time_key: Option<Seq<char>>, i: int)
    requires
        0 <= i < row.len(),
        is_time(row[i].0, time_key),
        !(row[i].1 is Bool) && !(row[i].1 is Other),
        times_fit(row, time_key),
        forall|j: int|
            i < j < row.len() && is_time((#[trigger] row[j]).0, time_key) ==> row[j].1 is Bool
                || row[j].1 is Other,
    ensures
        match row[i].1 {
            ValueView::Str { text, .. } => row_timestamp(row, time_key) == instant_of(text),
            ValueView::Int(n) => row_timestamp(row, time_key) matches Some(t) && t == n * 1_000_000,
            ValueView::Float { whole, .. } => row_timestamp(row, time_key) matches Some(t) && t
                == whole * 1_000_000,
            _ => true,
        },
    decreases row.len(),
{
    let n = row.len() - 1;
    if i < n {
        let short = row.drop_last();
        assert(row[n] == row.last());
        assert forall|j: int|
            i < j < short.len() && is_time((#[trigger] short[j]).0, time_key) implies short[j].1 is Bool
            || short[j].1 is Other by {
            assert(short[j] == row[j]);
        }
        assert(times_fit(short, time_key)) by {
            assert forall|j: int| 0 <= j < short.len() implies #[trigger] short[j] == row[j] by {}
        }
        law_the_last_time_column_counts(short, time_key, i);
    }
}

/// A row without such a column has no time.
pub proof fn law_a_row_without_a_time_column_has_no_time(row: RowView, time_key: Option<Seq<char>>)
    requires
        forall|j: int|
            0 <= j < row.len() && is_time((#[trigger] row[j]).0, time_key) ==> row[j].1 is Bool
                || row[j].1 is Other,
    ensures
        row_timestamp(row, time_key) is None,
    decreases row.len(),
{
    if row.len() > 0 {
        let short = row.drop_last();
        assert(row[row.len() - 1] == row.last());
        assert forall|j: int|
            0 <= j < short.len() && is_time((#[trigger] short[j]).0, time_key) implies short[j].1 is Bool
            || short[j].1 is Other by {
            assert(short[j] == row[j]);
        }
        law_a_row_without_a_time_column_has_no_time(short, time_key);
    }
}

/// A JSON row's time is that of its last time member that is a text or a number,
/// the text before the integer and the integer before the float.
pub proof fn law_the_last_time_member_counts(
    row: Seq<(Seq<char>, ScalarView)>,
    time_key: Option<Seq<char>>,
    i: int,
)
    requires
        0 <= i < row.len(),
        is_time(row[i].0, time_key),
        json_times_fit(row, time_key),
        ({
            let (text, whole_number, float, _) = row[i].1;
            text is Some || whole_number is Some || float is Some
        }),
        forall|j: int|
            i < j < row.len() && is_time((#[trigger] row[j]).0, time_key) ==> ({
                let (text, whole_number, float, _) = row[j].1;
                text is None && whole_number is None && float is None
            }),
    ensures
        ({
            let (text, whole_number, float, _) = row[i].1;
            &&& text matches Some(t) ==> json_timestamp(row, time_key) == instant_of(t)
            &&& text is None && whole_number is Some ==> (json_timestamp(row, time_key) matches Some(t) && t
                == whole_number->0 * 1_000_000)
            &&& text is None && whole_number is None && float is Some ==> ({
                let (_, whole) = float->0;
                json_timestamp(row, time_key) matches Some(t) && t == whole * 1_000_000
            })
        }),
    decreases row.len(),
{
    let n = row.len() - 1;
    if i < n {
        let short = row.drop_last();
        assert(row[n] == row.last());
        assert forall|j: int| i < j < short.len() && is_time((#[trigger] short[j]).0, time_key) implies ({
            let (text, whole_number, float, _) = short[j].1;
            text is None && whole_number is None && float is None
        }) by {
            assert(short[j] == row[j]);
        }
        assert(json_times_fit(short, time_key)) by {
            assert forall|j: int| 0 <= j < short.len() implies #[trigger] short[j] == row[j] by {}
        }
        law_the_last_time_member_counts(short, time_key, i);
    }
}

/// A row is written as one line behind those before it; a JSON value that is no
/// object, and a row without fields, is not written.
pub proof fn law_each_row_is_one_line(
    rows: Seq<JsonRowView>,
    row: JsonRowView,
    measurement: Seq<char>,
    time_key: Option<Seq<char>>,
)
    ensures
        ({
            let before = json_text(rows, measurement, time_key);
            let after = json_text(rows.push(row), measurement, time_key);
            &&& row is None ==> after == before
            &&& row is Some && json_fields(row->0, time_key).len() == 0 ==> after == before
            &&& row is Some && json_fields(row->0, time_key).len() > 0 ==> {
                &&& after.len() > before.len()
                &&& after.take(before.len() as int) == before
                &&& after.skip(before.len() as int).take(measurement.len() as int) == measurement
                &&& after.last() == '\n'
            }
        }),
{
    assert(rows.push(row).drop_last() =~= rows);
    let before = json_text(rows, measurement, time_key);
    let after = json_text(rows.push(row), measurement, time_key);
    assert(after.take(before.len() as int) =~= before);
    if row is Some {
        let line = rendered_line(
            measurement,
            json_fields(row->0, time_key),
            json_timestamp(row->0, time_key),
        );
        assert(after.skip(before.len() as int) =~= line);
        if json_fields(row->0, time_key).len() > 0 {
            assert(line.take(measurement.len() as int) =~= measurement);
        } else {
            assert(after =~= before);
        }
    }
}

/// A line is its measurement, a blank, its fields with commas between them, a blank
/// and the time where there is one, and a line break.
pub proof fn law_the_parts_of_a_line(
    measurement: Seq<char>,
    fields: Seq<Seq<char>>,
    timestamp_ns: Option<i64>,
)
    ensures
        fields.len() == 0 ==> rendered_line(measurement, fields, timestamp_ns).len() == 0,
        fields.len() > 0 ==> ({
            let line = rendered_line(measurement, fields, timestamp_ns);
            let m = measurement.len() as int;
            let f = text::joined_with(fields, ',');
            &&& line.take(m) == measurement
            &&& line[m] == ' '
            &&& line.subrange(m + 1, m + 1 + f.len()) == f
            &&& timestamp_ns is None ==> line.len() == m + 2 + f.len()
            &&& timestamp_ns matches Some(n) ==> line[m + 1 + f.len()] == ' ' && line.subrange(
                m + 2 + f.len(),
                line.len() - 1,
            ) == text::signed_decimal(n as int)
            &&& line.last() == '\n'
        }),
{
    if fields.len() > 0 {
        let line = rendered_line(measurement, fields, timestamp_ns);
        let m = measurement.len() as int;
        let f = text::joined_with(fields, ',');
        assert(line.take(m) =~= measurement);
        assert(line.subrange(m + 1, m + 1 + f.len()) =~= f);
        if let Some(n) = timestamp_ns {
            assert(line.subrange(m + 2 + f.len(), line.len() - 1) =~= text::signed_decimal(
                n as int,
            ));
        }
    }
}

} // verus!
