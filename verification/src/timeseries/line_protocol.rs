//! The line protocol: `measurement[,tag=value..] field=value[,..] [timestamp]`.
//!
//! A backslash takes the meaning off a comma, a space or an equals sign in a
//! name or a tag value, and off a quote in a quoted field value.
use crate::text;
use vstd::prelude::*;
use vstd::string::*;

verus! {

/// What keeps a line from being read.
#[derive(Clone, Copy, Debug, PartialEq, Eq, Structural)]
pub enum IlpError {
    Measurement,
    Tags,
    Fields,
    Timestamp,
}

impl IlpError {
    pub open spec fn spec_text(self) -> Seq<char> {
        match self {
            IlpError::Measurement => "missing measurement"@,
            IlpError::Tags => "malformed tags"@,
            IlpError::Fields => "malformed fields"@,
            IlpError::Timestamp => "malformed timestamp"@,
        }
    }

    /// The error in words.
    pub fn text(self) -> (r: &'static str)
        ensures
            r@ == self.spec_text(),
    {
        match self {
            IlpError::Measurement => "missing measurement",
            IlpError::Tags => "malformed tags",
            IlpError::Fields => "malformed fields",
            IlpError::Timestamp => "malformed timestamp",
        }
    }
}

/// The value of a field. A float is kept as the text that it was given as.
#[derive(Debug)]
pub enum FieldValue {
    Float(String),
    Int(i64),
    UInt(u64),
    Str(String),
    Bool(bool),
}

pub enum FieldView {
    Float(Seq<char>),
    Int(i64),
    UInt(u64),
    Str(Seq<char>),
    Bool(bool),
}

impl View for FieldValue {
    type V = FieldView;

    open spec fn view(&self) -> FieldView {
        match *self {
            FieldValue::Float(t) => FieldView::Float(t@),
            FieldValue::Int(n) => FieldView::Int(n),
            FieldValue::UInt(n) => FieldView::UInt(n),
            FieldValue::Str(t) => FieldView::Str(t@),
            FieldValue::Bool(b) => FieldView::Bool(b),
        }
    }
}

/// One line.
#[derive(Debug)]
pub struct IlpLine {
    pub measurement: String,
    pub tags: Vec<(String, String)>,
    pub fields: Vec<(String, FieldValue)>,
    pub timestamp_ns: Option<i64>,
}

pub type TagsView = Seq<(Seq<char>, Seq<char>)>;

pub type FieldsView = Seq<(Seq<char>, FieldView)>;

#[verifier::ext_equal]
pub struct LineView {
    pub measurement: Seq<char>,
    pub tags: TagsView,
    pub fields: FieldsView,
    pub timestamp_ns: Option<i64>,
}

pub open spec fn tag_views(tags: Seq<(String, String)>) -> TagsView {
    tags.map_values(|t: (String, String)| (t.0@, t.1@))
}

pub open spec fn field_views(fields: Seq<(String, FieldValue)>) -> FieldsView {
    fields.map_values(|f: (String, FieldValue)| (f.0@, f.1@))
}

impl View for IlpLine {
    type V = LineView;

    open spec fn view(&self) -> LineView {
        LineView {
            measurement: self.measurement@,
            tags: tag_views(self.tags@),
            fields: field_views(self.fields@),
            timestamp_ns: self.timestamp_ns,
        }
    }
}

/// What ends a name or a tag value.
pub open spec fn is_stop(c: char, at_equals: bool) -> bool {
    c == ',' || c == ' ' || (at_equals && c == '=')
}

/// Where the name or tag value from `i` on ends.
pub open spec fn text_end(s: Seq<char>, i: int, at_equals: bool) -> int
    decreases s.len() - i,
{
    if i < 0 || i >= s.len() {
        s.len() as int
    } else if is_stop(s[i], at_equals) {
        i
    } else if s[i] == '\\' && i + 1 < s.len() {
        text_end(s, i + 2, at_equals)
    } else {
        text_end(s, i + 1, at_equals)
    }
}

/// Where the quoted value from `i` on ends: the position of its closing quote.
pub open spec fn quote_end(s: Seq<char>, i: int) -> int
    decreases s.len() - i,
{
    if i < 0 || i >= s.len() {
        s.len() as int
    } else if s[i] == '"' {
        i
    } else if s[i] == '\\' && i + 1 < s.len() {
        quote_end(s, i + 2)
    } else {
        quote_end(s, i + 1)
    }
}

/// Where the bare field value from `i` on ends.
pub open spec fn bare_end(s: Seq<char>, i: int) -> int
    decreases s.len() - i,
{
    if i < 0 || i >= s.len() {
        s.len() as int
    } else if is_stop(s[i], false) {
        i
    } else {
        bare_end(s, i + 1)
    }
}

/// Whether a backslash before `c` takes the meaning off it.
pub open spec fn is_escapable(c: char, quoted: bool) -> bool {
    if quoted {
        c == '"' || c == '\\'
    } else {
        c == ',' || c == ' ' || c == '=' || c == '\\'
    }
}

/// The text without the backslashes that took a meaning off.
pub open spec fn unescaped(s: Seq<char>, quoted: bool) -> Seq<char>
    decreases s.len(),
{
    if s.len() == 0 {
        Seq::empty()
    } else if s.len() > 1 && s[0] == '\\' && is_escapable(s[1], quoted) {
        seq![s[1]] + unescaped(s.subrange(2, s.len() as int), quoted)
    } else {
        seq![s[0]] + unescaped(s.subrange(1, s.len() as int), quoted)
    }
}

/// Where the run of digits from `i` on ends.
pub open spec fn digits_end(s: Seq<char>, i: int) -> int
    decreases s.len() - i,
{
    if i < 0 || i >= s.len() || !text::is_digit(s[i]) {
        i
    } else {
        digits_end(s, i + 1)
    }
}

/// Whether the text from `i` on is empty or an exponent.
pub open spec fn is_exponent(s: Seq<char>, i: int) -> bool {
    if i >= s.len() {
        true
    } else if s[i] == 'e' || s[i] == 'E' {
        let from = if i + 1 < s.len() && (s[i + 1] == '+' || s[i + 1] == '-') {
            i + 2
        } else {
            i + 1
        };
        digits_end(s, from) > from && digits_end(s, from) == s.len()
    } else {
        false
    }
}

/// Whether the text is a decimal number with an optional sign, fraction and
/// exponent: digits on at least one side of the point.
pub open spec fn is_float_text(s: Seq<char>) -> bool {
    let start = if s.len() > 0 && (s[0] == '+' || s[0] == '-') {
        1
    } else {
        0
    };
    let whole = digits_end(s, start);
    if whole < s.len() && s[whole] == '.' {
        let end = digits_end(s, whole + 1);
        (whole > start || end > whole + 1) && is_exponent(s, end)
    } else {
        whole > start && is_exponent(s, whole)
    }
}

pub open spec fn is_true_text(s: Seq<char>) -> bool {
    s == "t"@ || s == "T"@ || s == "true"@ || s == "True"@ || s == "TRUE"@
}

pub open spec fn is_false_text(s: Seq<char>) -> bool {
    s == "f"@ || s == "F"@ || s == "false"@ || s == "False"@ || s == "FALSE"@
}

/// The value of a field that is not quoted: a number with `i` behind it is
/// signed, with `u` unsigned, and else a float.
pub open spec fn bare_value(s: Seq<char>) -> Option<FieldView> {
    if is_true_text(s) {
        Some(FieldView::Bool(true))
    } else if is_false_text(s) {
        Some(FieldView::Bool(false))
    } else if s.len() > 0 && s.last() == 'i' {
        match text::parsed_i64(s.drop_last()) {
            Some(n) => Some(FieldView::Int(n)),
            None => None,
        }
    } else if s.len() > 0 && s.last() == 'u' {
        match text::parsed_u64(s.drop_last()) {
            Some(n) => Some(FieldView::UInt(n)),
            None => None,
        }
    } else if is_float_text(s) {
        Some(FieldView::Float(s))
    } else {
        None
    }
}

/// The field value from `i` on, and where it ends.
pub open spec fn value_at(s: Seq<char>, i: int) -> Option<(FieldView, int)> {
    if 0 <= i < s.len() && s[i] == '"' {
        let e = quote_end(s, i + 1);
        if e < s.len() {
            Some((FieldView::Str(unescaped(s.subrange(i + 1, e), true)), e + 1))
        } else {
            None
        }
    } else {
        let e = bare_end(s, i);
        match bare_value(s.subrange(i, e)) {
            Some(v) => Some((v, e)),
            None => None,
        }
    }
}

/// Each of the ends lies between the start and the end of the line, on what
/// stopped it.
pub proof fn lemma_ends(s: Seq<char>, i: int)
    requires
        0 <= i <= s.len(),
    ensures
        i <= text_end(s, i, true) <= s.len(),
        i <= text_end(s, i, false) <= s.len(),
        i <= quote_end(s, i) <= s.len(),
        i <= bare_end(s, i) <= s.len(),
        text_end(s, i, true) < s.len() ==> is_stop(s[text_end(s, i, true)], true),
        text_end(s, i, false) < s.len() ==> is_stop(s[text_end(s, i, false)], false),
        bare_end(s, i) < s.len() ==> is_stop(s[bare_end(s, i)], false),
        quote_end(s, i) < s.len() ==> s[quote_end(s, i)] == '"',
    decreases s.len() - i,
{
    if i < s.len() {
        lemma_ends(s, i + 1);
        if i + 1 < s.len() {
            lemma_ends(s, i + 2);
        }
    }
}

/// A value ends at or behind its start.
pub proof fn lemma_value_end(s: Seq<char>, i: int)
    requires
        0 <= i <= s.len(),
    ensures
        value_at(s, i) matches Some((_, e)) ==> i <= e <= s.len(),
{
    lemma_ends(s, i);
    if i < s.len() {
        lemma_ends(s, i + 1);
    }
}

/// The fields from `i` on, and where they end.
pub open spec fn fields_at(s: Seq<char>, i: int) -> Option<(FieldsView, int)>
    decreases s.len() - i,
    when 0 <= i <= s.len()
{
    let k = text_end(s, i, true);
    if k >= s.len() || s[k] != '=' || k == i {
        None
    } else {
        proof {
            lemma_ends(s, i);
            lemma_value_end(s, k + 1);
        }
        match value_at(s, k + 1) {
            None => None,
            Some((v, e)) => {
                let field = (unescaped(s.subrange(i, k), false), v);
                if e >= s.len() || s[e] == ' ' {
                    Some((seq![field], e))
                } else if s[e] == ',' {
                    match fields_at(s, e + 1) {
                        None => None,
                        Some((rest, end)) => Some((seq![field] + rest, end)),
                    }
                } else {
                    None
                }
            },
        }
    }
}

/// The tags from the comma at `i` on, if there is one, and where they end.
pub open spec fn tags_at(s: Seq<char>, i: int) -> Option<(TagsView, int)>
    decreases s.len() - i,
    when 0 <= i <= s.len()
{
    if i < s.len() && s[i] == ',' {
        let k = text_end(s, i + 1, true);
        if k >= s.len() || s[k] != '=' || k == i + 1 {
            None
        } else {
            let e = text_end(s, k + 1, false);
            proof {
                lemma_ends(s, i + 1);
                lemma_ends(s, k + 1);
            }
            if e == k + 1 {
                None
            } else {
                let tag = (
                    unescaped(s.subrange(i + 1, k), false),
                    unescaped(s.subrange(k + 1, e), false),
                );
                match tags_at(s, e) {
                    None => None,
                    Some((rest, end)) => Some((seq![tag] + rest, end)),
                }
            }
        }
    } else {
        Some((Seq::empty(), i))
    }
}

/// The first position from `i` on that holds no space.
pub open spec fn skip_spaces(s: Seq<char>, i: int) -> int
    decreases s.len() - i,
{
    if 0 <= i < s.len() && s[i] == ' ' {
        skip_spaces(s, i + 1)
    } else {
        i
    }
}

/// The timestamp behind the fields that end at `e`.
pub open spec fn timestamp_at(s: Seq<char>, e: int) -> Result<Option<i64>, IlpError> {
    let from = skip_spaces(s, e);
    if from >= s.len() {
        Ok(None)
    } else {
        match text::parsed_i64(s.subrange(from, s.len() as int)) {
            Some(n) => Ok(Some(n)),
            None => Err(IlpError::Timestamp),
        }
    }
}

/// What a line says.
pub open spec fn parsed_line(s: Seq<char>) -> Result<LineView, IlpError> {
    let m = text_end(s, 0, false);
    if m == 0 {
        Err(IlpError::Measurement)
    } else {
        match tags_at(s, m) {
            None => Err(IlpError::Tags),
            Some((tags, t)) => if t >= s.len() || s[t] != ' ' {
                Err(IlpError::Fields)
            } else {
                match fields_at(s, skip_spaces(s, t)) {
                    None => Err(IlpError::Fields),
                    Some((fields, e)) => match timestamp_at(s, e) {
                        Err(error) => Err(error),
                        Ok(timestamp_ns) => Ok(
                            LineView {
                                measurement: unescaped(s.subrange(0, m), false),
                                tags,
                                fields,
                                timestamp_ns,
                            },
                        ),
                    },
                }
            },
        }
    }
}

/// Whether a character is white space.
pub open spec fn is_white(c: char) -> bool {
    let n = c as int;
    0x9 <= n <= 0xD || n == 0x20 || n == 0x85 || n == 0xA0 || n == 0x1680 || 0x2000 <= n <= 0x200A
        || n == 0x2028 || n == 0x2029 || n == 0x202F || n == 0x205F || n == 0x3000
}

fn white(c: char) -> (r: bool)
    ensures
        r == is_white(c),
{
    let n: u32 = text::code_of(c);
    (0x9 <= n && n <= 0xD) || n == 0x20 || n == 0x85 || n == 0xA0 || n == 0x1680 || (0x2000 <= n
        && n <= 0x200A) || n == 0x2028 || n == 0x2029 || n == 0x202F || n == 0x205F || n == 0x3000
}

/// The text without white space at either end.
pub open spec fn trimmed(s: Seq<char>) -> Seq<char>
    decreases s.len(),
{
    if s.len() == 0 {
        s
    } else if is_white(s[0]) {
        trimmed(s.subrange(1, s.len() as int))
    } else if is_white(s.last()) {
        trimmed(s.drop_last())
    } else {
        s
    }
}

/// Trim the characters of a line.
pub fn trim_chars(s: &Vec<char>) -> (r: Vec<char>)
    ensures
        r@ == trimmed(s@),
{
    let mut from: usize = 0;
    let mut to: usize = s.len();
    proof {
        assert(s@.subrange(0, s@.len() as int) =~= s@);
    }
    while from < to && white(s[from])
        invariant
            from <= to,
            to == s@.len(),
            trimmed(s@) == trimmed(s@.subrange(from as int, to as int)),
        decreases to - from,
    {
        proof {
            let rest = s@.subrange(from as int, to as int);
            assert(rest[0] == s@[from as int]);
            assert(rest.subrange(1, rest.len() as int) =~= s@.subrange(from + 1, to as int));
        }
        from = from + 1;
    }
    while from < to && white(s[to - 1])
        invariant
            from <= to <= s@.len(),
            from < to ==> !is_white(s@[from as int]),
            trimmed(s@) == trimmed(s@.subrange(from as int, to as int)),
        decreases to - from,
    {
        proof {
            let rest = s@.subrange(from as int, to as int);
            assert(rest[0] == s@[from as int]);
            assert(rest.last() == s@[to - 1]);
            assert(rest.drop_last() =~= s@.subrange(from as int, to - 1));
        }
        to = to - 1;
    }
    proof {
        let rest = s@.subrange(from as int, to as int);
        if from < to {
            assert(rest[0] == s@[from as int]);
            assert(rest.last() == s@[to - 1]);
        }
    }
    text::slice_chars(s, from, to)
}

/// The lines of a batch that hold something: trimmed, neither empty nor a
/// comment.
pub open spec fn data_lines(parts: Seq<Seq<char>>) -> Seq<Seq<char>>
    decreases parts.len(),
{
    if parts.len() == 0 {
        Seq::empty()
    } else {
        let init = data_lines(parts.drop_last());
        let line = trimmed(parts.last());
        if line.len() == 0 || line[0] == '#' {
            init
        } else {
            init.push(line)
        }
    }
}

/// What the lines say, or the first error.
pub open spec fn parsed_lines(lines: Seq<Seq<char>>) -> Result<Seq<LineView>, IlpError>
    decreases lines.len(),
{
    if lines.len() == 0 {
        Ok(Seq::empty())
    } else {
        match parsed_lines(lines.drop_last()) {
            Err(e) => Err(e),
            Ok(init) => match parsed_line(lines.last()) {
                Err(e) => Err(e),
                Ok(line) => Ok(init.push(line)),
            },
        }
    }
}

/// What a batch says.
pub open spec fn parsed_batch(s: Seq<char>) -> Result<Seq<LineView>, IlpError> {
    parsed_lines(data_lines(text::split_parts(s, '\n')))
}

pub open spec fn line_views(lines: Seq<IlpLine>) -> Seq<LineView> {
    lines.map_values(|l: IlpLine| l@)
}

fn find_text_end(s: &Vec<char>, i: usize, at_equals: bool) -> (r: usize)
    requires
        i <= s@.len(),
    ensures
        r == text_end(s@, i as int, at_equals),
        i <= r <= s@.len(),
        r < s@.len() ==> is_stop(s@[r as int], at_equals),
{
    let mut k: usize = i;
    while k < s.len()
        invariant
            i <= k <= s@.len(),
            text_end(s@, i as int, at_equals) == text_end(s@, k as int, at_equals),
        decreases s.len() - k,
    {
        let c: char = s[k];
        if c == ',' || c == ' ' || (at_equals && c == '=') {
            return k;
        }
        if c == '\\' && k + 1 < s.len() {
            k = k + 2;
        } else {
            k = k + 1;
        }
    }
    k
}

fn find_quote_end(s: &Vec<char>, i: usize) -> (r: usize)
    requires
        i <= s@.len(),
    ensures
        r == quote_end(s@, i as int),
        i <= r <= s@.len(),
{
    let mut k: usize = i;
    while k < s.len()
        invariant
            i <= k <= s@.len(),
            quote_end(s@, i as int) == quote_end(s@, k as int),
        decreases s.len() - k,
    {
        let c: char = s[k];
        if c == '"' {
            return k;
        }
        if c == '\\' && k + 1 < s.len() {
            k = k + 2;
        } else {
            k = k + 1;
        }
    }
    k
}

fn find_bare_end(s: &Vec<char>, i: usize) -> (r: usize)
    requires
        i <= s@.len(),
    ensures
        r == bare_end(s@, i as int),
        i <= r <= s@.len(),
{
    let mut k: usize = i;
    while k < s.len()
        invariant
            i <= k <= s@.len(),
            bare_end(s@, i as int) == bare_end(s@, k as int),
        decreases s.len() - k,
    {
        let c: char = s[k];
        if c == ',' || c == ' ' {
            return k;
        }
        k = k + 1;
    }
    k
}

fn find_digits_end(s: &Vec<char>, i: usize) -> (r: usize)
    requires
        i <= s@.len(),
    ensures
        r == digits_end(s@, i as int),
        i <= r <= s@.len(),
{
    let mut k: usize = i;
    while k < s.len()
        invariant
            i <= k <= s@.len(),
            digits_end(s@, i as int) == digits_end(s@, k as int),
        decreases s.len() - k,
    {
        let c: u32 = text::code_of(s[k]);
        if c < 48 || c > 57 {
            return k;
        }
        k = k + 1;
    }
    k
}

/// The text of a span without the backslashes that took a meaning off.
fn unescape(s: &Vec<char>, from: usize, to: usize, quoted: bool) -> (r: String)
    requires
        from <= to <= s@.len(),
    ensures
        r@ == unescaped(s@.subrange(from as int, to as int), quoted),
{
    let mut out = String::new();
    let mut k: usize = from;
    proof {
        assert(out@ + unescaped(s@.subrange(from as int, to as int), quoted) =~= unescaped(
            s@.subrange(from as int, to as int),
            quoted,
        ));
    }
    while k < to
        invariant
            from <= k <= to <= s@.len(),
            out@ + unescaped(s@.subrange(k as int, to as int), quoted) == unescaped(
                s@.subrange(from as int, to as int),
                quoted,
            ),
        decreases to - k,
    {
        let ghost rest = s@.subrange(k as int, to as int);
        let ghost before = out@;
        let c: char = s[k];
        let mut width: usize = 1;
        let mut kept: char = c;
        if c == '\\' && to - k > 1 {
            let d: char = s[k + 1];
            let takes = if quoted {
                d == '"' || d == '\\'
            } else {
                d == ',' || d == ' ' || d == '=' || d == '\\'
            };
            if takes {
                width = 2;
                kept = d;
            }
        }
        out.push(kept);
        proof {
            assert(rest.subrange(width as int, rest.len() as int) =~= s@.subrange(
                k + width,
                to as int,
            ));
            assert(out@ + unescaped(s@.subrange(k + width, to as int), quoted) =~= before + (
            seq![kept] + unescaped(s@.subrange(k + width, to as int), quoted)));
        }
        k = k + width;
    }
    proof {
        assert(s@.subrange(k as int, to as int) =~= Seq::<char>::empty());
        assert(out@ + Seq::<char>::empty() =~= out@);
    }
    out
}

fn exponent(s: &Vec<char>, i: usize) -> (r: bool)
    requires
        i <= s@.len(),
    ensures
        r == is_exponent(s@, i as int),
{
    if i >= s.len() {
        return true;
    }
    if s[i] == 'e' || s[i] == 'E' {
        let from: usize = if i + 1 < s.len() && (s[i + 1] == '+' || s[i + 1] == '-') {
            i + 2
        } else {
            i + 1
        };
        let end: usize = find_digits_end(s, from);
        end > from && end == s.len()
    } else {
        false
    }
}

/// Whether a text reads as a float.
pub fn float_text(s: &Vec<char>) -> (r: bool)
    ensures
        r == is_float_text(s@),
{
    let start: usize = if s.len() > 0 && (s[0] == '+' || s[0] == '-') {
        1
    } else {
        0
    };
    let whole: usize = find_digits_end(s, start);
    if whole < s.len() && s[whole] == '.' {
        let end: usize = find_digits_end(s, whole + 1);
        (whole > start || end > whole + 1) && exponent(s, end)
    } else {
        whole > start && exponent(s, whole)
    }
}

fn read_bare(s: &Vec<char>) -> (r: Option<FieldValue>)
    ensures
        match bare_value(s@) {
            Some(v) => r is Some && r->0@ == v,
            None => r is None,
        },
{
    let n: usize = s.len();
    let whole = text::from_chars(s, 0, n);
    proof {
        assert(whole@ =~= s@);
    }
    let w = whole.as_str();
    if text::same_text(w, "t") || text::same_text(w, "T") || text::same_text(w, "true")
        || text::same_text(w, "True") || text::same_text(w, "TRUE") {
        return Some(FieldValue::Bool(true));
    }
    if text::same_text(w, "f") || text::same_text(w, "F") || text::same_text(w, "false")
        || text::same_text(w, "False") || text::same_text(w, "FALSE") {
        return Some(FieldValue::Bool(false));
    }
    if n > 0 && s[n - 1] == 'i' {
        let digits = text::slice_chars(s, 0, n - 1);
        proof {
            assert(digits@ =~= s@.drop_last());
        }
        return match text::parse_i64(&digits) {
            Some(v) => Some(FieldValue::Int(v)),
            None => None,
        };
    }
    if n > 0 && s[n - 1] == 'u' {
        let digits = text::slice_chars(s, 0, n - 1);
        proof {
            assert(digits@ =~= s@.drop_last());
        }
        return match text::parse_u64(&digits) {
            Some(v) => Some(FieldValue::UInt(v)),
            None => None,
        };
    }
    if float_text(s) {
        Some(FieldValue::Float(whole))
    } else {
        None
    }
}

fn read_value(s: &Vec<char>, i: usize) -> (r: Option<(FieldValue, usize)>)
    requires
        i <= s@.len(),
    ensures
        match value_at(s@, i as int) {
            Some((v, e)) => r is Some && (r->0).0@ == v && (r->0).1 == e && i <= e <= s@.len(),
            None => r is None,
        },
{
    if i < s.len() && s[i] == '"' {
        let e: usize = find_quote_end(s, i + 1);
        if e < s.len() {
            Some((FieldValue::Str(unescape(s, i + 1, e, true)), e + 1))
        } else {
            None
        }
    } else {
        let e: usize = find_bare_end(s, i);
        let bare = text::slice_chars(s, i, e);
        match read_bare(&bare) {
            Some(v) => Some((v, e)),
            None => None,
        }
    }
}

/// What was read before, put in front.
pub open spec fn after<A>(read: Seq<A>, rest: Option<(Seq<A>, int)>) -> Option<(Seq<A>, int)> {
    match rest {
        None => None,
        Some((more, end)) => Some((read + more, end)),
    }
}

fn read_fields(s: &Vec<char>, i: usize) -> (r: Option<(Vec<(String, FieldValue)>, usize)>)
    requires
        i <= s@.len(),
    ensures
        match fields_at(s@, i as int) {
            Some((f, e)) => r is Some && field_views((r->0).0@) == f && (r->0).1 == e && i <= e
                <= s@.len(),
            None => r is None,
        },
{
    let mut out: Vec<(String, FieldValue)> = Vec::new();
    let mut k: usize = i;
    proof {
        assert(field_views(out@) =~= Seq::<(Seq<char>, FieldView)>::empty());
        match fields_at(s@, i as int) {
            Some((f, e)) => {
                assert(Seq::<(Seq<char>, FieldView)>::empty() + f =~= f);
            },
            None => {},
        }
    }
    loop
        invariant
            i <= k <= s@.len(),
            fields_at(s@, i as int) == after(field_views(out@), fields_at(s@, k as int)),
        decreases s@.len() - k,
    {
        let ghost before = field_views(out@);
        let ghost from = k as int;
        let eq: usize = find_text_end(s, k, true);
        if eq >= s.len() || s[eq] != '=' || eq == k {
            return None;
        }
        let name = unescape(s, k, eq, false);
        match read_value(s, eq + 1) {
            None => {
                return None;
            },
            Some((v, e)) => {
                let ghost field = (name@, v@);
                out.push((name, v));
                proof {
                    assert(field_views(out@) =~= before.push(field));
                    assert(before.push(field) =~= before + seq![field]);
                }
                if e >= s.len() || s[e] == ' ' {
                    return Some((out, e));
                }
                if s[e] != ',' {
                    return None;
                }
                proof {
                    match fields_at(s@, e + 1) {
                        Some((rest, end)) => {
                            assert(before + (seq![field] + rest) =~= (before + seq![field]) + rest);
                        },
                        None => {},
                    }
                }
                k = e + 1;
            },
        }
    }
}

fn read_tags(s: &Vec<char>, i: usize) -> (r: Option<(Vec<(String, String)>, usize)>)
    requires
        i <= s@.len(),
    ensures
        match tags_at(s@, i as int) {
            Some((t, e)) => r is Some && tag_views((r->0).0@) == t && (r->0).1 == e && i <= e
                <= s@.len(),
            None => r is None,
        },
{
    let mut out: Vec<(String, String)> = Vec::new();
    let mut k: usize = i;
    proof {
        assert(tag_views(out@) =~= Seq::<(Seq<char>, Seq<char>)>::empty());
        match tags_at(s@, i as int) {
            Some((t, e)) => {
                assert(Seq::<(Seq<char>, Seq<char>)>::empty() + t =~= t);
            },
            None => {},
        }
    }
    while k < s.len() && s[k] == ','
        invariant
            i <= k <= s@.len(),
            tags_at(s@, i as int) == after(tag_views(out@), tags_at(s@, k as int)),
        decreases s@.len() - k,
    {
        let ghost before = tag_views(out@);
        let eq: usize = find_text_end(s, k + 1, true);
        if eq >= s.len() || s[eq] != '=' || eq == k + 1 {
            return None;
        }
        let e: usize = find_text_end(s, eq + 1, false);
        if e == eq + 1 {
            return None;
        }
        let name = unescape(s, k + 1, eq, false);
        let value = unescape(s, eq + 1, e, false);
        let ghost tag = (name@, value@);
        out.push((name, value));
        proof {
            assert(tag_views(out@) =~= before.push(tag));
            assert(before.push(tag) =~= before + seq![tag]);
            match tags_at(s@, e as int) {
                Some((rest, end)) => {
                    assert(before + (seq![tag] + rest) =~= (before + seq![tag]) + rest);
                },
                None => {},
            }
        }
        k = e;
    }
    proof {
        assert(tag_views(out@) + Seq::<(Seq<char>, Seq<char>)>::empty() =~= tag_views(out@));
    }
    Some((out, k))
}

fn find_non_space(s: &Vec<char>, i: usize) -> (r: usize)
    requires
        i <= s@.len(),
    ensures
        r == skip_spaces(s@, i as int),
        i <= r <= s@.len(),
{
    let mut k: usize = i;
    while k < s.len() && s[k] == ' '
        invariant
            i <= k <= s@.len(),
            skip_spaces(s@, i as int) == skip_spaces(s@, k as int),
        decreases s.len() - k,
    {
        k = k + 1;
    }
    k
}

/// Read one line.
pub fn parse_line(s: &Vec<char>) -> (r: Result<IlpLine, IlpError>)
    ensures
        match parsed_line(s@) {
            Ok(line) => r is Ok && r->Ok_0@ == line,
            Err(e) => r == Err::<IlpLine, IlpError>(e),
        },
{
    let m: usize = find_text_end(s, 0, false);
    if m == 0 {
        return Err(IlpError::Measurement);
    }
    let (tags, t) = match read_tags(s, m) {
        None => {
            return Err(IlpError::Tags);
        },
        Some(read) => read,
    };
    if t >= s.len() || s[t] != ' ' {
        return Err(IlpError::Fields);
    }
    let f: usize = find_non_space(s, t);
    let (fields, e) = match read_fields(s, f) {
        None => {
            return Err(IlpError::Fields);
        },
        Some(read) => read,
    };
    let at: usize = find_non_space(s, e);
    let timestamp_ns: Option<i64> = if at >= s.len() {
        None
    } else {
        let digits = text::slice_chars(s, at, s.len());
        match text::parse_i64(&digits) {
            Some(n) => Some(n),
            None => {
                return Err(IlpError::Timestamp);
            },
        }
    };
    Ok(IlpLine { measurement: unescape(s, 0, m, false), tags, fields, timestamp_ns })
}

proof fn lemma_first_error(lines: Seq<Seq<char>>, n: int)
    requires
        0 <= n <= lines.len(),
        parsed_lines(lines.take(n)) is Err,
    ensures
        parsed_lines(lines) == parsed_lines(lines.take(n)),
    decreases lines.len() - n,
{
    if n < lines.len() {
        assert(lines.take(n + 1).drop_last() =~= lines.take(n));
        lemma_first_error(lines, n + 1);
    } else {
        assert(lines.take(n) =~= lines);
    }
}

/// The lines of a batch that hold something.
pub fn split_lines(input: &str) -> (r: Vec<Vec<char>>)
    ensures
        text::chars_views(r@) == data_lines(text::split_parts(input@, '\n')),
{
    let chars = text::to_chars(input);
    let parts = text::split_chars(&chars, '\n');
    let ghost views = text::chars_views(parts@);
    let mut out: Vec<Vec<char>> = Vec::new();
    let mut i: usize = 0;
    proof {
        assert(text::chars_views(out@) =~= data_lines(views.take(0)));
    }
    while i < parts.len()
        invariant
            i <= parts@.len(),
            views == text::chars_views(parts@),
            text::chars_views(out@) == data_lines(views.take(i as int)),
        decreases parts.len() - i,
    {
        let ghost before = out@;
        let line = trim_chars(&parts[i]);
        proof {
            assert(views.take(i + 1).drop_last() =~= views.take(i as int));
            assert(views.take(i + 1).last() == parts@[i as int]@);
        }
        if line.len() > 0 && line[0] != '#' {
            out.push(line);
            proof {
                assert(text::chars_views(out@) =~= text::chars_views(before).push(line@));
            }
        }
        i = i + 1;
    }
    proof {
        assert(views.take(views.len() as int) =~= views);
    }
    out
}

/// Read a batch of lines, up to the first that cannot be read.
pub fn parse_batch(input: &str) -> (r: Result<Vec<IlpLine>, IlpError>)
    ensures
        match parsed_batch(input@) {
            Ok(lines) => r is Ok && line_views(r->Ok_0@) == lines,
            Err(e) => r == Err::<Vec<IlpLine>, IlpError>(e),
        },
{
    let lines = split_lines(input);
    let ghost views = text::chars_views(lines@);
    let mut out: Vec<IlpLine> = Vec::new();
    let mut i: usize = 0;
    proof {
        assert(line_views(out@) =~= Seq::<LineView>::empty());
    }
    while i < lines.len()
        invariant
            i <= lines@.len(),
            views == text::chars_views(lines@),
            views == data_lines(text::split_parts(input@, '\n')),
            parsed_lines(views.take(i as int)) == Ok::<Seq<LineView>, IlpError>(line_views(out@)),
        decreases lines.len() - i,
    {
        let ghost before = out@;
        proof {
            assert(views.take(i + 1).drop_last() =~= views.take(i as int));
            assert(views.take(i + 1).last() == lines@[i as int]@);
        }
        match parse_line(&lines[i]) {
            Ok(line) => {
                out.push(line);
                proof {
                    assert(line_views(out@) =~= line_views(before).push(line@));
                }
            },
            Err(e) => {
                proof {
                    lemma_first_error(views, i + 1);
                }
                return Err(e);
            },
        }
        i = i + 1;
    }
    proof {
        assert(views.take(views.len() as int) =~= views);
    }
    Ok(out)
}

/// Trimming what is trimmed changes nothing.
pub proof fn lemma_trimmed(s: Seq<char>)
    ensures
        trimmed(trimmed(s)) == trimmed(s),
        trimmed(s).len() > 0 ==> !is_white(trimmed(s)[0]) && !is_white(trimmed(s).last()),
    decreases s.len(),
{
    if s.len() > 0 {
        if is_white(s[0]) {
            lemma_trimmed(s.subrange(1, s.len() as int));
        } else if is_white(s.last()) {
            lemma_trimmed(s.drop_last());
        }
    }
}

/// An end before the end of the line stays where it is when the line goes on.
proof fn lemma_longer_ends(s: Seq<char>, t: Seq<char>, i: int)
    requires
        0 <= i <= s.len(),
        t.len() > 0,
        t[0] == ' ',
    ensures
        text_end(s, i, true) < s.len() ==> text_end(s + t, i, true) == text_end(s, i, true),
        text_end(s, i, false) < s.len() ==> text_end(s + t, i, false) == text_end(s, i, false),
        quote_end(s, i) < s.len() ==> quote_end(s + t, i) == quote_end(s, i),
        bare_end(s + t, i) == bare_end(s, i),
    decreases s.len() - i,
{
    let u = s + t;
    if i < s.len() {
        assert(u[i] == s[i]);
        lemma_longer_ends(s, t, i + 1);
        if i + 1 < s.len() {
            lemma_longer_ends(s, t, i + 2);
        } else {
            assert(text_end(s, i + 1, true) == s.len());
            assert(text_end(s, i + 1, false) == s.len());
            assert(quote_end(s, i + 1) == s.len());
        }
    } else {
        assert(u[i] == ' ');
    }
}

proof fn lemma_longer_value(s: Seq<char>, t: Seq<char>, i: int)
    requires
        0 <= i <= s.len(),
        t.len() > 0,
        t[0] == ' ',
        value_at(s, i) is Some,
    ensures
        value_at(s + t, i) == value_at(s, i),
{
    let u = s + t;
    lemma_longer_ends(s, t, i);
    lemma_ends(s, i);
    if i < s.len() {
        assert(u[i] == s[i]);
        if s[i] == '"' {
            lemma_longer_ends(s, t, i + 1);
            lemma_ends(s, i + 1);
            let e = quote_end(s, i + 1);
            assert(u.subrange(i + 1, e) =~= s.subrange(i + 1, e));
        } else {
            let e = bare_end(s, i);
            assert(u.subrange(i, e) =~= s.subrange(i, e));
        }
    } else {
        assert(u[i] == ' ');
        let e = bare_end(s, i);
        assert(u.subrange(i, e) =~= s.subrange(i, e));
    }
}

proof fn lemma_longer_fields(s: Seq<char>, t: Seq<char>, i: int)
    requires
        0 <= i <= s.len(),
        t.len() > 0,
        t[0] == ' ',
        fields_at(s, i) is Some,
    ensures
        fields_at(s + t, i) == fields_at(s, i),
        i < (fields_at(s, i)->0).1 <= s.len(),
    decreases s.len() - i,
{
    let u = s + t;
    let k = text_end(s, i, true);
    lemma_ends(s, i);
    lemma_longer_ends(s, t, i);
    assert(u[k] == s[k]);
    assert(u.subrange(i, k) =~= s.subrange(i, k));
    lemma_longer_value(s, t, k + 1);
    lemma_value_end(s, k + 1);
    let e = (value_at(s, k + 1)->0).1;
    if e < s.len() {
        assert(u[e] == s[e]);
        if s[e] == ',' {
            lemma_longer_fields(s, t, e + 1);
        }
    } else {
        assert(u[e] == ' ');
    }
}

proof fn lemma_longer_tags(s: Seq<char>, t: Seq<char>, i: int)
    requires
        0 <= i <= s.len(),
        t.len() > 0,
        t[0] == ' ',
        tags_at(s, i) is Some,
        (tags_at(s, i)->0).1 < s.len(),
    ensures
        tags_at(s + t, i) == tags_at(s, i),
        i <= (tags_at(s, i)->0).1,
    decreases s.len() - i,
{
    let u = s + t;
    if i < s.len() {
        assert(u[i] == s[i]);
        if s[i] == ',' {
            let k = text_end(s, i + 1, true);
            lemma_ends(s, i + 1);
            lemma_longer_ends(s, t, i + 1);
            assert(u[k] == s[k]);
            lemma_ends(s, k + 1);
            lemma_longer_ends(s, t, k + 1);
            let e = text_end(s, k + 1, false);
            if e >= s.len() {
                assert(tags_at(s, e) == Some((Seq::<(Seq<char>, Seq<char>)>::empty(), e)));
                assert(false);
            }
            assert(u.subrange(i + 1, k) =~= s.subrange(i + 1, k));
            assert(u.subrange(k + 1, e) =~= s.subrange(k + 1, e));
            lemma_longer_tags(s, t, e);
        }
    }
}

proof fn lemma_skip(s: Seq<char>, t: Seq<char>, i: int)
    requires
        0 <= i <= s.len(),
    ensures
        i <= skip_spaces(s, i) <= s.len(),
        skip_spaces(s, i) < s.len() ==> skip_spaces(s + t, i) == skip_spaces(s, i),
        i < s.len() && skip_spaces(s, i) == s.len() ==> s.last() == ' ',
    decreases s.len() - i,
{
    if i < s.len() {
        assert((s + t)[i] == s[i]);
        lemma_skip(s, t, i + 1);
    }
}

/// A line without a timestamp, with a space and a timestamp put behind it, says
/// the same and carries that timestamp.
pub proof fn law_a_stamped_line_carries_the_stamp(s: Seq<char>, n: i64)
    requires
        s.len() > 0,
        s.last() != ' ',
        parsed_line(s) matches Ok(line) && line.timestamp_ns is None,
    ensures
        parsed_line(s + (seq![' '] + text::signed_decimal(n as int))) == Ok::<LineView, IlpError>(
            LineView { timestamp_ns: Some(n), ..parsed_line(s)->Ok_0 },
        ),
{
    let d = text::signed_decimal(n as int);
    let t = seq![' '] + d;
    let u = s + t;
    text::law_signed_decimal_parses_back(n);
    let magnitude: nat = if n < 0 {
        (-(n as int)) as nat
    } else {
        n as nat
    };
    text::lemma_decimal_shape(magnitude);
    assert(text::is_digit(text::decimal(magnitude)[0]));
    assert(d.len() > 0 && d[0] != ' ');
    let m = text_end(s, 0, false);
    lemma_ends(s, 0);
    lemma_longer_ends(s, t, 0);
    let (tags, at) = tags_at(s, m)->0;
    if m >= s.len() {
        assert(tags_at(s, m) == Some((Seq::<(Seq<char>, Seq<char>)>::empty(), m)));
    }
    lemma_longer_tags(s, t, m);
    assert(u[at] == s[at]);
    assert(u.subrange(0, m) =~= s.subrange(0, m));
    let from = skip_spaces(s, at);
    lemma_skip(s, t, at);
    lemma_longer_fields(s, t, from);
    let (fields, e) = fields_at(s, from)->0;
    lemma_skip(s, t, e);
    assert(e == s.len());
    assert(u[e] == ' ');
    assert(u[e + 1] == d[0]);
    assert(skip_spaces(u, e + 1) == e + 1);
    assert(skip_spaces(u, e) == e + 1);
    assert(u.subrange(e + 1, u.len() as int) =~= d);
}

/// Whether the characters of `s[from..to]` mean themselves: no comma, blank, equals
/// sign or backslash is among them.
pub open spec fn is_plain(s: Seq<char>, from: int, to: int) -> bool {
    forall|i: int|
        from <= i < to ==> (#[trigger] s[i]) != ',' && s[i] != ' ' && s[i] != '=' && s[i] != '\\'
}

proof fn lemma_plain_end(s: Seq<char>, i: int, e: int, at_equals: bool)
    requires
        0 <= i <= e <= s.len(),
        is_plain(s, i, e),
        e < s.len() ==> is_stop(s[e], at_equals),
    ensures
        text_end(s, i, at_equals) == e,
    decreases e - i,
{
    if i < e {
        assert(s[i] != ',');
        lemma_plain_end(s, i + 1, e, at_equals);
    }
}

proof fn lemma_bare_end(s: Seq<char>, i: int, e: int)
    requires
        0 <= i <= e <= s.len(),
        forall|j: int| i <= j < e ==> (#[trigger] s[j]) != ',' && s[j] != ' ',
        e < s.len() ==> s[e] == ',' || s[e] == ' ',
    ensures
        bare_end(s, i) == e,
    decreases e - i,
{
    if i < e {
        lemma_bare_end(s, i + 1, e);
    }
}

proof fn lemma_quote_end(s: Seq<char>, i: int, e: int)
    requires
        0 <= i <= e < s.len(),
        forall|j: int| i <= j < e ==> (#[trigger] s[j]) != '"' && s[j] != '\\',
        s[e] == '"',
    ensures
        quote_end(s, i) == e,
    decreases e - i,
{
    if i < e {
        lemma_quote_end(s, i + 1, e);
    }
}

/// Unescaping leaves a text without backslashes as it is. A backslash before a
/// character that can be escaped goes; any other stays.
pub proof fn law_only_escapes_are_taken_out(s: Seq<char>, c: char, quoted: bool)
    ensures
        !s.contains('\\') ==> unescaped(s, quoted) == s,
        quoted && (c == '"' || c == '\\') ==> unescaped(seq!['\\', c] + s, quoted) == seq![c]
            + unescaped(s, quoted),
        !quoted && (c == ',' || c == ' ' || c == '=' || c == '\\') ==> unescaped(
            seq!['\\', c] + s,
            quoted,
        ) == seq![c] + unescaped(s, quoted),
        c != '\\' ==> unescaped(seq![c] + s, quoted) == seq![c] + unescaped(s, quoted),
    decreases s.len(),
{
    let t = seq!['\\', c] + s;
    assert(t.subrange(2, t.len() as int) =~= s);
    let u = seq![c] + s;
    assert(u.subrange(1, u.len() as int) =~= s);
    if !s.contains('\\') && s.len() > 0 {
        let rest = s.subrange(1, s.len() as int);
        assert(s.contains(s[0]));
        assert forall|x: char| rest.contains(x) implies s.contains(x) by {
            let i = choose|i: int| 0 <= i < rest.len() && rest[i] == x;
            assert(s[i + 1] == x);
        }
        law_only_escapes_are_taken_out(rest, c, quoted);
        assert(seq![s[0]] + rest =~= s);
    }
}

/// A plain name is read up to its equals sign and its value up to the comma or
/// blank behind it: the last field where a blank or the end follows, otherwise
/// before the fields that are read behind the comma.
pub proof fn law_a_field_is_read(s: Seq<char>, i: int, k: int, e: int, v: FieldView)
    requires
        0 <= i < k < e <= s.len(),
        is_plain(s, i, k),
        s[k] == '=',
        s[k + 1] != '"',
        k + 1 < s.len(),
        forall|j: int| k < j < e ==> (#[trigger] s[j]) != ',' && s[j] != ' ',
        e < s.len() ==> s[e] == ',' || s[e] == ' ',
        bare_value(s.subrange(k + 1, e)) == Some(v),
    ensures
        e == s.len() || s[e] == ' ' ==> fields_at(s, i) == Some((seq![(s.subrange(i, k), v)], e)),
        e < s.len() && s[e] == ',' ==> fields_at(s, i) == (match fields_at(s, e + 1) {
            None => None,
            Some((rest, end)) => Some((seq![(s.subrange(i, k), v)] + rest, end)),
        }),
{
    lemma_plain_end(s, i, k, true);
    lemma_bare_end(s, k + 1, e);
    let name = s.subrange(i, k);
    assert(!name.contains('\\')) by {
        if name.contains('\\') {
            let j = choose|j: int| 0 <= j < name.len() && name[j] == '\\';
            assert(s[i + j] == '\\');
        }
    }
    law_only_escapes_are_taken_out(name, 'x', false);
}

/// A text in quotes is read up to the quote that closes it.
pub proof fn law_a_quoted_value_is_read(s: Seq<char>, i: int, e: int)
    requires
        0 <= i < e < s.len(),
        s[i] == '"',
        s[e] == '"',
        forall|j: int| i < j < e ==> (#[trigger] s[j]) != '"' && s[j] != '\\',
    ensures
        value_at(s, i) == Some((FieldView::Str(s.subrange(i + 1, e)), e + 1)),
{
    lemma_quote_end(s, i + 1, e);
    let t = s.subrange(i + 1, e);
    assert(!t.contains('\\')) by {
        if t.contains('\\') {
            let j = choose|j: int| 0 <= j < t.len() && t[j] == '\\';
            assert(s[i + 1 + j] == '\\');
        }
    }
    law_only_escapes_are_taken_out(t, 'x', true);
}

/// A tag stands behind a comma: a plain key up to its equals sign and a plain value
/// up to the next comma or blank, before the tags that follow.
pub proof fn law_a_tag_is_read(s: Seq<char>, i: int, k: int, e: int)
    requires
        0 <= i,
        i + 1 < k,
        k + 1 < e <= s.len(),
        s[i] == ',',
        is_plain(s, i + 1, k),
        s[k] == '=',
        is_plain(s, k + 1, e),
        e < s.len() ==> s[e] == ',' || s[e] == ' ',
    ensures
        tags_at(s, i) == (match tags_at(s, e) {
            None => None,
            Some((rest, end)) => Some(
                (seq![(s.subrange(i + 1, k), s.subrange(k + 1, e))] + rest, end),
            ),
        }),
        e == s.len() || s[e] == ' ' ==> tags_at(s, e) == Some((Seq::<(Seq<char>, Seq<char>)>::empty(), e)),
{
    lemma_plain_end(s, i + 1, k, true);
    lemma_plain_end(s, k + 1, e, false);
    let name = s.subrange(i + 1, k);
    let value = s.subrange(k + 1, e);
    assert(!name.contains('\\')) by {
        if name.contains('\\') {
            let j = choose|j: int| 0 <= j < name.len() && name[j] == '\\';
            assert(s[i + 1 + j] == '\\');
        }
    }
    assert(!value.contains('\\')) by {
        if value.contains('\\') {
            let j = choose|j: int| 0 <= j < value.len() && value[j] == '\\';
            assert(s[k + 1 + j] == '\\');
        }
    }
    law_only_escapes_are_taken_out(name, 'x', false);
    law_only_escapes_are_taken_out(value, 'x', false);
}

/// A line is a plain measurement, its tags, a blank, its fields, and a number behind
/// a further blank where it has a time.
pub proof fn law_a_line_is_read_in_its_parts(
    s: Seq<char>,
    m: int,
    tags: TagsView,
    t: int,
    fields: FieldsView,
    e: int,
)
    requires
        0 < m <= t < s.len(),
        is_plain(s, 0, m),
        s[m] == ',' || s[m] == ' ',
        tags_at(s, m) == Some((tags, t)),
        s[t] == ' ',
        t + 1 < s.len(),
        s[t + 1] != ' ',
        fields_at(s, t + 1) == Some((fields, e)),
        0 <= e <= s.len(),
    ensures
        e == s.len() ==> parsed_line(s) == Ok::<LineView, IlpError>(
            LineView { measurement: s.take(m), tags, fields, timestamp_ns: None },
        ),
        e + 1 < s.len() && s[e] == ' ' && s[e + 1] != ' ' ==> match text::parsed_i64(
            s.skip(e + 1),
        ) {
            Some(n) => parsed_line(s) == Ok::<LineView, IlpError>(
                LineView { measurement: s.take(m), tags, fields, timestamp_ns: Some(n) },
            ),
            None => parsed_line(s) == Err::<LineView, IlpError>(IlpError::Timestamp),
        },
{
    lemma_plain_end(s, 0, m, false);
    assert(s.subrange(0, m) =~= s.take(m));
    let name = s.take(m);
    assert(!name.contains('\\')) by {
        if name.contains('\\') {
            let j = choose|j: int| 0 <= j < name.len() && name[j] == '\\';
            assert(s[j] == '\\');
        }
    }
    law_only_escapes_are_taken_out(name, 'x', false);
    assert(skip_spaces(s, t + 1) == t + 1);
    assert(skip_spaces(s, t) == t + 1);
    if e + 1 < s.len() && s[e] == ' ' && s[e + 1] != ' ' {
        assert(skip_spaces(s, e + 1) == e + 1);
        assert(skip_spaces(s, e) == e + 1);
        assert(s.subrange(e + 1, s.len() as int) =~= s.skip(e + 1));
    }
}

proof fn lemma_all_digits(s: Seq<char>, i: int)
    requires
        0 <= i <= s.len(),
        forall|j: int| i <= j < s.len() ==> text::is_digit(#[trigger] s[j]),
    ensures
        digits_end(s, i) == s.len(),
    decreases s.len() - i,
{
    if i < s.len() {
        lemma_all_digits(s, i + 1);
    }
}

/// A number with an `i` is a signed integer and one with a `u` an unsigned one, of
/// the value that is written; a number without either is a float, kept as it is
/// written.
pub proof fn law_the_suffix_tells_the_number(n: i64, u: u64)
    ensures
        bare_value(text::signed_decimal(n as int).push('i')) == Some(FieldView::Int(n)),
        bare_value(text::decimal(u as nat).push('u')) == Some(FieldView::UInt(u)),
        bare_value(text::decimal(u as nat)) == Some(FieldView::Float(text::decimal(u as nat))),
{
    reveal_strlit("t");
    reveal_strlit("T");
    reveal_strlit("true");
    reveal_strlit("True");
    reveal_strlit("TRUE");
    reveal_strlit("f");
    reveal_strlit("F");
    reveal_strlit("false");
    reveal_strlit("False");
    reveal_strlit("FALSE");
    let a = text::signed_decimal(n as int).push('i');
    let b = text::decimal(u as nat).push('u');
    let c = text::decimal(u as nat);
    text::law_signed_decimal_parses_back(n);
    text::law_decimal_parses_back(u);
    text::lemma_decimal_shape(u as nat);
    assert(a.drop_last() =~= text::signed_decimal(n as int));
    assert(b.drop_last() =~= text::decimal(u as nat));
    assert(a.last() == 'i' && b.last() == 'u');
    assert(text::is_digit(c[c.len() - 1]));
    assert(text::is_digit(c[0]));
    lemma_all_digits(c, 0);
    assert("t"@.last() == 't' && "T"@.last() == 'T' && "true"@.last() == 'e' && "True"@.last()
        == 'e' && "TRUE"@.last() == 'E' && "f"@.last() == 'f' && "F"@.last() == 'F'
        && "false"@.last() == 'e' && "False"@.last() == 'e' && "FALSE"@.last() == 'E');
}

/// Trimming takes blanks off both ends and nothing else.
pub proof fn law_trimming_takes_blanks_off_the_ends(s: Seq<char>) -> (from: int)
    ensures
        0 <= from <= from + trimmed(s).len() <= s.len(),
        trimmed(s) == s.subrange(from, from + trimmed(s).len()),
        forall|i: int| 0 <= i < from ==> is_white(#[trigger] s[i]),
        forall|i: int| from + trimmed(s).len() <= i < s.len() ==> is_white(#[trigger] s[i]),
        trimmed(s).len() > 0 ==> !is_white(trimmed(s)[0]) && !is_white(trimmed(s).last()),
    decreases s.len(),
{
    if s.len() == 0 {
        assert(s =~= s.subrange(0, 0));
        0
    } else if is_white(s[0]) {
        let rest = s.subrange(1, s.len() as int);
        let at = law_trimming_takes_blanks_off_the_ends(rest);
        let n = trimmed(rest).len();
        assert(rest.subrange(at, at + n) =~= s.subrange(at + 1, at + 1 + n));
        assert forall|i: int| 0 <= i < at + 1 implies is_white(#[trigger] s[i]) by {
            if i > 0 {
                assert(is_white(rest[i - 1]));
            }
        }
        assert forall|i: int| at + 1 + n <= i < s.len() implies is_white(#[trigger] s[i]) by {
            assert(is_white(rest[i - 1]));
        }
        at + 1
    } else if is_white(s.last()) {
        let rest = s.drop_last();
        let at = law_trimming_takes_blanks_off_the_ends(rest);
        let n = trimmed(rest).len();
        assert(rest.subrange(at, at + n) =~= s.subrange(at, at + n));
        assert forall|i: int| 0 <= i < at implies is_white(#[trigger] s[i]) by {
            assert(is_white(rest[i]));
        }
        assert forall|i: int| at + n <= i < s.len() implies is_white(#[trigger] s[i]) by {
            if i < s.len() - 1 {
                assert(is_white(rest[i]));
            }
        }
        at
    } else {
        assert(s =~= s.subrange(0, s.len() as int));
        0
    }
}

/// The lines of a batch are its trimmed parts that are neither blank nor a comment,
/// in their order.
pub proof fn law_which_lines_hold_data(parts: Seq<Seq<char>>)
    ensures
        data_lines(parts) == parts.map_values(|p: Seq<char>| trimmed(p)).filter(
            |l: Seq<char>| l.len() > 0 && l[0] != '#',
        ),
    decreases parts.len(),
{
    reveal(Seq::filter);
    let trim = |p: Seq<char>| trimmed(p);
    let pred = |l: Seq<char>| l.len() > 0 && l[0] != '#';
    if parts.len() > 0 {
        law_which_lines_hold_data(parts.drop_last());
        assert(parts.map_values(trim).drop_last() =~= parts.drop_last().map_values(trim));
    } else {
        assert(parts.map_values(trim).filter(pred) =~= Seq::<Seq<char>>::empty());
    }
}

/// A batch parses exactly where each of its lines does, and then to those lines in
/// their order; otherwise with the error of the first line that does not.
pub proof fn law_a_batch_is_its_lines(lines: Seq<Seq<char>>)
    ensures
        parsed_lines(lines) matches Ok(l) ==> l.len() == lines.len() && forall|i: int|
            0 <= i < lines.len() ==> parsed_line(#[trigger] lines[i]) == Ok::<LineView, IlpError>(
                l[i],
            ),
        parsed_lines(lines) matches Err(e) ==> exists|i: int|
            0 <= i < lines.len() && parsed_line(#[trigger] lines[i]) == Err::<LineView, IlpError>(e)
                && forall|j: int| 0 <= j < i ==> parsed_line(#[trigger] lines[j]) is Ok,
    decreases lines.len(),
{
    if lines.len() > 0 {
        let short = lines.drop_last();
        let n = lines.len() - 1;
        law_a_batch_is_its_lines(short);
        assert(lines[n] == lines.last());
        match parsed_lines(short) {
            Err(e) => {
                let i = choose|i: int|
                    0 <= i < short.len() && parsed_line(#[trigger] short[i]) == Err::<
                        LineView,
                        IlpError,
                    >(e) && forall|j: int| 0 <= j < i ==> parsed_line(#[trigger] short[j]) is Ok;
                assert(parsed_line(lines[i]) == Err::<LineView, IlpError>(e));
                assert forall|j: int| 0 <= j < i implies parsed_line(#[trigger] lines[j]) is Ok by {
                    assert(parsed_line(short[j]) is Ok);
                }
            },
            Ok(l) => {
                assert forall|i: int| 0 <= i < n implies parsed_line(#[trigger] lines[i]) == Ok::<
                    LineView,
                    IlpError,
                >(l[i]) by {
                    assert(parsed_line(short[i]) == Ok::<LineView, IlpError>(l[i]));
                }
            },
        }
    }
}

} // verus!
