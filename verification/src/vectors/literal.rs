//! Vectors written as text, and vectors taken from the value of a field.
//!
//! Numbers stand here as the texts they are read from. What a text is as a number
//! is asked of the caller.
use crate::error::{Error, ErrorView};
use crate::text;
use crate::timeseries::line_protocol;
use vstd::prelude::*;
use vstd::string::*;

verus! {

/// A number that is not finite.
#[derive(Clone, Copy, Debug, PartialEq, Eq, Structural)]
pub enum NonFinite {
    NotANumber,
    Positive,
    Negative,
}

/// How a number that is not finite is printed.
pub open spec fn non_finite_text(n: NonFinite) -> Seq<char> {
    match n {
        NonFinite::NotANumber => "NaN"@,
        NonFinite::Positive => "inf"@,
        NonFinite::Negative => "-inf"@,
    }
}

/// What a text is as a number.
#[derive(Clone, Copy, Debug, PartialEq, Eq, Structural)]
pub enum Numeric {
    /// It is none.
    Unreadable,
    NonFinite(NonFinite),
    Finite,
}

/// The answers of a classifier.
pub open spec fn classifies<F: Fn(&str) -> Numeric>(
    f: F,
    kind: spec_fn(Seq<char>) -> Numeric,
) -> bool {
    &&& forall|t: &str| #[trigger] f.requires((t,))
    &&& forall|t: &str, n: Numeric| #[trigger] f.ensures((t,), n) ==> n == kind(t@)
}

/// The numbers of listed parts. Parts without text are passed over; one part that
/// is no finite number spoils the list.
pub open spec fn numbers_of(parts: Seq<Seq<char>>, kind: spec_fn(Seq<char>) -> Numeric) -> Option<
    Seq<Seq<char>>,
>
    decreases parts.len(),
{
    if parts.len() == 0 {
        Some(Seq::empty())
    } else {
        match numbers_of(parts.drop_last(), kind) {
            None => None,
            Some(before) => {
                let t = line_protocol::trimmed(parts.last());
                if t.len() == 0 {
                    Some(before)
                } else if kind(t) == Numeric::Finite {
                    Some(before.push(t))
                } else {
                    None
                }
            },
        }
    }
}

proof fn lemma_spoiled_stays(parts: Seq<Seq<char>>, kind: spec_fn(Seq<char>) -> Numeric, i: int)
    requires
        0 <= i <= parts.len(),
        numbers_of(parts.take(i), kind) is None,
    ensures
        numbers_of(parts, kind) is None,
    decreases parts.len(),
{
    if i == parts.len() {
        assert(parts.take(i) =~= parts);
    } else {
        assert(parts.drop_last().take(i) =~= parts.take(i));
        lemma_spoiled_stays(parts.drop_last(), kind, i);
    }
}

/// The numbers of a list whose only separator is the comma.
fn parse_float_list<F: Fn(&str) -> Numeric>(
    inner: &Vec<char>,
    classify: &F,
    Ghost(kind): Ghost<spec_fn(Seq<char>) -> Numeric>,
) -> (r: Option<Vec<String>>)
    requires
        classifies(*classify, kind),
    ensures
        match r {
            Some(v) => numbers_of(text::split_parts(inner@, ','), kind) == Some(
                text::text_views(v@),
            ),
            None => numbers_of(text::split_parts(inner@, ','), kind) is None,
        },
{
    let parts = text::split_chars(inner, ',');
    let ghost all = text::chars_views(parts@);
    let mut out: Vec<String> = Vec::new();
    let mut i: usize = 0;
    proof {
        assert(all.take(0) =~= Seq::empty());
        assert(text::text_views(out@) =~= Seq::empty());
    }
    while i < parts.len()
        invariant
            i <= parts@.len(),
            all == text::chars_views(parts@),
            all == text::split_parts(inner@, ','),
            classifies(*classify, kind),
            numbers_of(all.take(i as int), kind) == Some(text::text_views(out@)),
        decreases parts.len() - i,
    {
        proof {
            assert(all.take(i + 1).drop_last() =~= all.take(i as int));
            assert(all.take(i + 1).last() == parts@[i as int]@);
        }
        let t = line_protocol::trim_chars(&parts[i]);
        if t.len() > 0 {
            let token = text::from_chars(&t, 0, t.len());
            proof {
                assert(token@ =~= t@);
            }
            if classify(token.as_str()) != Numeric::Finite {
                proof {
                    lemma_spoiled_stays(all, kind, i + 1);
                }
                return None;
            }
            let ghost before = out@;
            out.push(token);
            proof {
                assert(text::text_views(out@) =~= text::text_views(before).push(token@));
            }
        }
        i = i + 1;
    }
    proof {
        assert(all.take(all.len() as int) =~= all);
    }
    Some(out)
}

/// The last position of a character, or -1.
pub open spec fn last_index(s: Seq<char>, c: char) -> int
    decreases s.len(),
{
    if s.len() == 0 {
        -1
    } else if s.last() == c {
        s.len() - 1
    } else {
        last_index(s.drop_last(), c)
    }
}

fn find_last(s: &Vec<char>, c: char) -> (r: Option<usize>)
    ensures
        match r {
            Some(i) => last_index(s@, c) == i && i < s@.len(),
            None => last_index(s@, c) == -1,
        },
{
    let mut n: usize = s.len();
    proof {
        assert(s@.take(n as int) =~= s@);
    }
    while n > 0
        invariant
            n <= s@.len(),
            last_index(s@, c) == last_index(s@.take(n as int), c),
        decreases n,
    {
        proof {
            assert(s@.take(n as int).drop_last() =~= s@.take(n - 1));
        }
        if s[n - 1] == c {
            return Some(n - 1);
        }
        n = n - 1;
    }
    None
}

/// The character in lower case, where it is one of the basic letters.
pub open spec fn lower(c: char) -> char {
    if 'A' <= c <= 'Z' {
        (c as u8 + 32) as char
    } else {
        c
    }
}

/// Whether a text begins with `ARRAY[`, in whatever case.
pub open spec fn begins_array(s: Seq<char>) -> bool {
    s.len() >= 6 && lower(s[0]) == 'a' && lower(s[1]) == 'r' && lower(s[2]) == 'r' && lower(s[3])
        == 'a' && lower(s[4]) == 'y' && s[5] == '['
}

fn is_letter(c: char, small: char, capital: char) -> (r: bool)
    requires
        'a' <= small <= 'z',
        capital as int == small as int - 32,
    ensures
        r == (lower(c) == small),
{
    let r = c == small || c == capital;
    proof {
        if 'A' <= c <= 'Z' {
            assert((c as u8 + 32) as char as int == c as int + 32);
        }
    }
    r
}

fn has_array_head(s: &Vec<char>) -> (r: bool)
    ensures
        r == begins_array(s@),
{
    s.len() >= 6 && is_letter(s[0], 'a', 'A') && is_letter(s[1], 'r', 'R') && is_letter(
        s[2],
        'r',
        'R',
    ) && is_letter(s[3], 'a', 'A') && is_letter(s[4], 'y', 'Y') && s[5] == '['
}

/// The parts of a text between the occurrences of a pattern, without the first.
pub open spec fn parts_behind(s: Seq<char>, pat: Seq<char>) -> Seq<Seq<char>>
    decreases s.len(),
{
    if pat.len() == 0 {
        Seq::empty()
    } else {
        match text::split_at_text(s, pat) {
            None => Seq::empty(),
            Some((head, tail)) => match text::split_at_text(tail, pat) {
                None => seq![tail],
                Some((next, rest)) => seq![next] + parts_behind(tail, pat),
            },
        }
    }
}

/// The numbers at the head of parts, each up to its bracket. A part without a
/// bracket, or with no finite number before it, spoils the whole.
pub open spec fn bracketed(parts: Seq<Seq<char>>, kind: spec_fn(Seq<char>) -> Numeric) -> Option<
    Seq<Seq<char>>,
>
    decreases parts.len(),
{
    if parts.len() == 0 {
        Some(Seq::empty())
    } else {
        match (bracketed(parts.drop_last(), kind), text::split_once(parts.last(), ')')) {
            (Some(before), Some((t, rest))) => if kind(t) == Numeric::Finite {
                Some(before.push(t))
            } else {
                None
            },
            _ => None,
        }
    }
}

/// Whether every literal of a printed list is a float. The first occurrence of
/// the word is the list's own.
pub open spec fn literals_are_floats(s: Seq<char>) -> bool {
    let parts = parts_behind(s, "Literal("@);
    forall|i: int| 1 <= i < parts.len() ==> text::begins_with(#[trigger] parts[i], "Float("@)
}

/// The numbers of a printed list; none where it has none, or where one of its
/// elements is no finite float.
pub open spec fn printed_numbers(s: Seq<char>, kind: spec_fn(Seq<char>) -> Numeric) -> Option<
    Seq<Seq<char>>,
> {
    match bracketed(parts_behind(s, "Float("@), kind) {
        Some(t) if t.len() > 0 && literals_are_floats(s) => Some(t),
        _ => None,
    }
}

pub open spec fn all_finite(t: Seq<Seq<char>>, kind: spec_fn(Seq<char>) -> Numeric) -> bool {
    forall|i: int| 0 <= i < t.len() ==> kind(#[trigger] t[i]) == Numeric::Finite
}

/// The numbers of a vector in one of its three texts: a bracketed list, an SQL
/// literal, or the printed form of a parsed literal. A bare number is none.
pub open spec fn vector_text(s: Seq<char>, kind: spec_fn(Seq<char>) -> Numeric) -> Option<
    Seq<Seq<char>>,
> {
    if begins_array(s) {
        let end = last_index(s, ']');
        if end <= 6 {
            None
        } else {
            numbers_of(text::split_parts(s.subrange(6, end), ','), kind)
        }
    } else if s.len() >= 2 && s[0] == '[' && s.last() == ']' {
        numbers_of(text::split_parts(s.subrange(1, s.len() - 1), ','), kind)
    } else if text::begins_with(s, "ArrayLiteral("@) {
        printed_numbers(s, kind)
    } else {
        None
    }
}

proof fn lemma_bracketed_spoiled(parts: Seq<Seq<char>>, kind: spec_fn(Seq<char>) -> Numeric, i: int)
    requires
        0 <= i <= parts.len(),
        bracketed(parts.take(i), kind) is None,
    ensures
        bracketed(parts, kind) is None,
    decreases parts.len(),
{
    if i == parts.len() {
        assert(parts.take(i) =~= parts);
    } else {
        assert(parts.drop_last().take(i) =~= parts.take(i));
        lemma_bracketed_spoiled(parts.drop_last(), kind, i);
    }
}

fn has_only_floats(s: &Vec<char>) -> (r: bool)
    ensures
        r == literals_are_floats(s@),
{
    proof {
        reveal_strlit("Literal(");
    }
    let pat = text::to_chars("Literal(");
    let float = text::to_chars("Float(");
    let parts = collect_parts(s, &pat);
    let ghost all = text::chars_views(parts@);
    let mut i: usize = 1;
    while i < parts.len()
        invariant
            1 <= i,
            all == text::chars_views(parts@),
            all == parts_behind(s@, "Literal("@),
            float@ == "Float("@,
            forall|j: int|
                1 <= j < i && j < all.len() ==> text::begins_with(#[trigger] all[j], "Float("@),
        decreases parts.len() - i,
    {
        proof {
            assert(all[i as int] == parts@[i as int]@);
        }
        if !text::has_prefix(&parts[i], &float) {
            return false;
        }
        i = i + 1;
    }
    true
}

fn parse_printed<F: Fn(&str) -> Numeric>(
    s: &Vec<char>,
    classify: &F,
    Ghost(kind): Ghost<spec_fn(Seq<char>) -> Numeric>,
) -> (r: Option<Vec<String>>)
    requires
        classifies(*classify, kind),
    ensures
        match r {
            Some(v) => printed_numbers(s@, kind) == Some(text::text_views(v@)),
            None => printed_numbers(s@, kind) is None,
        },
{
    proof {
        reveal_strlit("Float(");
    }
    let pat = text::to_chars("Float(");
    let parts = collect_parts(s, &pat);
    let ghost all = text::chars_views(parts@);
    let mut out: Vec<String> = Vec::new();
    let mut i: usize = 0;
    proof {
        assert(all.take(0) =~= Seq::empty());
        assert(text::text_views(out@) =~= Seq::empty());
    }
    while i < parts.len()
        invariant
            i <= parts@.len(),
            all == text::chars_views(parts@),
            all == parts_behind(s@, "Float("@),
            classifies(*classify, kind),
            bracketed(all.take(i as int), kind) == Some(text::text_views(out@)),
        decreases parts.len() - i,
    {
        proof {
            assert(all.take(i + 1).drop_last() =~= all.take(i as int));
            assert(all.take(i + 1).last() == parts@[i as int]@);
        }
        match text::split_once_chars(&parts[i], ')') {
            None => {
                proof {
                    lemma_bracketed_spoiled(all, kind, i + 1);
                }
                return None;
            },
            Some((t, _)) => {
                let token = text::from_chars(&t, 0, t.len());
                proof {
                    assert(token@ =~= t@);
                }
                if classify(token.as_str()) != Numeric::Finite {
                    proof {
                        lemma_bracketed_spoiled(all, kind, i + 1);
                    }
                    return None;
                }
                let ghost before = text::text_views(out@);
                out.push(token);
                proof {
                    assert(text::text_views(out@) =~= before.push(token@));
                }
            },
        }
        i = i + 1;
    }
    proof {
        assert(all.take(all.len() as int) =~= all);
        assert(text::text_views(out@).len() == out@.len());
    }
    if out.len() > 0 && has_only_floats(s) {
        Some(out)
    } else {
        None
    }
}

/// The parts behind each occurrence of a pattern.
fn collect_parts(s: &Vec<char>, pat: &Vec<char>) -> (r: Vec<Vec<char>>)
    requires
        pat@.len() > 0,
    ensures
        text::chars_views(r@) == parts_behind(s@, pat@),
{
    let mut out: Vec<Vec<char>> = Vec::new();
    let mut rest: Vec<char> = match text::split_at_pattern(s, pat) {
        None => {
            proof {
                assert(text::chars_views(out@) =~= Seq::empty());
            }
            return out;
        },
        Some((_, tail)) => tail,
    };
    let ghost mut whole = s@;
    proof {
        assert(text::chars_views(out@) + parts_behind(whole, pat@) =~= parts_behind(s@, pat@));
    }
    loop
        invariant
            pat@.len() > 0,
            text::split_at_text(whole, pat@) is Some,
            (text::split_at_text(whole, pat@)->0).1 == rest@,
            text::chars_views(out@) + parts_behind(whole, pat@) == parts_behind(s@, pat@),
        decreases rest@.len(),
    {
        match text::split_at_pattern(&rest, pat) {
            None => {
                let ghost before = text::chars_views(out@);
                out.push(rest);
                proof {
                    assert(text::chars_views(out@) =~= before + parts_behind(whole, pat@));
                }
                return out;
            },
            Some((next, tail)) => {
                let ghost before = text::chars_views(out@);
                proof {
                    assert(tail@.len() < rest@.len());
                }
                out.push(next);
                proof {
                    assert(text::chars_views(out@) =~= before.push(next@));
                    assert(parts_behind(whole, pat@) == seq![next@] + parts_behind(rest@, pat@));
                    assert(text::chars_views(out@) + parts_behind(rest@, pat@) =~= before
                        + parts_behind(whole, pat@));
                    whole = rest@;
                }
                rest = tail;
            },
        }
    }
}

/// The kind of number that a classifier says each text is.
pub open spec fn kind_of<F: Fn(&str) -> Numeric>(f: F) -> spec_fn(Seq<char>) -> Numeric {
    |s: Seq<char>| choose|n: Numeric| answers(f, s, n)
}

pub open spec fn answers<F: Fn(&str) -> Numeric>(f: F, s: Seq<char>, n: Numeric) -> bool {
    exists|t: &str| t@ == s && #[trigger] f.ensures((t,), n)
}

/// A classifier answers every text, and one text in one way.
pub open spec fn decides<F: Fn(&str) -> Numeric>(f: F) -> bool {
    &&& forall|t: &str| #[trigger] f.requires((t,))
    &&& forall|s: Seq<char>, a: Numeric, b: Numeric|
        #![trigger answers(f, s, a), answers(f, s, b)]
        answers(f, s, a) && answers(f, s, b) ==> a == b
}

proof fn lemma_classifies<F: Fn(&str) -> Numeric>(f: F)
    requires
        decides(f),
    ensures
        classifies(f, kind_of(f)),
{
    assert forall|t: &str, n: Numeric| #[trigger] f.ensures((t,), n) implies n == kind_of(f)(t@) by {
        assert(answers(f, t@, n));
        assert(answers(f, t@, kind_of(f)(t@)));
    }
}

/// Read a vector from its text. `classify` says what a text is as a number.
pub fn parse_vector_string<F: Fn(&str) -> Numeric>(s: &str, classify: &F) -> (r: Option<
    Vec<String>,
>)
    requires
        decides(*classify),
    ensures
        match r {
            Some(v) => vector_text(s@, kind_of(*classify)) == Some(text::text_views(v@)),
            None => vector_text(s@, kind_of(*classify)) is None,
        },
{
    let ghost kind = kind_of(*classify);
    proof {
        lemma_classifies(*classify);
    }
    let chars = text::to_chars(s);
    if has_array_head(&chars) {
        let end: usize = match find_last(&chars, ']') {
            None => {
                return None;
            },
            Some(end) => end,
        };
        if end <= 6 {
            return None;
        }
        let inner = text::slice_chars(&chars, 6, end);
        return parse_float_list(&inner, classify, Ghost(kind));
    }
    let n: usize = chars.len();
    if n >= 2 && chars[0] == '[' && chars[n - 1] == ']' {
        let inner = text::slice_chars(&chars, 1, n - 1);
        return parse_float_list(&inner, classify, Ghost(kind));
    }
    if text::text_has_prefix(s, "ArrayLiteral(") {
        return parse_printed(&chars, classify, Ghost(kind));
    }
    None
}

/// An element of an array.
pub enum Element {
    /// A number, as it is printed in single precision, and whether it is finite.
    Number { shown: String, finite: bool },
    /// A decimal, and what it is in single precision; none where it does not fit.
    Decimal { shown: String, single: Option<(String, bool)> },
    Text(String),
    /// Anything else, as it is printed.
    Other(String),
}

/// The value of a field.
pub enum FieldValue {
    List(Vec<Element>),
    Text(String),
    /// Anything else: a scalar, bytes, an object.
    Other,
}

pub open spec fn vector_failure(
    collection: Seq<char>,
    field: Seq<char>,
    detail: Seq<char>,
) -> ErrorView {
    ErrorView::RejectedConstraint {
        collection,
        constraint: "vector field '"@ + (field + "'"@),
        detail,
    }
}

fn vector_error(collection: &str, field_name: &str, detail: String) -> (r: Error)
    ensures
        r@ == vector_failure(collection@, field_name@, detail@),
{
    let mut constraint = "vector field '".to_owned();
    constraint.append(field_name);
    constraint.append("'");
    proof {
        assert(constraint@ =~= "vector field '"@ + (field_name@ + "'"@));
    }
    Error::RejectedConstraint { collection: collection.to_owned(), constraint, detail }
}

/// What `format!("{:?}")` prints of a text: the text in quotes, with what needs
/// it escaped.
pub uninterp spec fn quoted_of(s: Seq<char>) -> Seq<char>;

/// The `Debug` form of a text, as `format!` prints it.
#[verifier::external_body]
fn quoted(s: &str) -> (r: String)
    ensures
        r@ == quoted_of(s@),
{
    format!("{s:?}")
}

/// The number of an element, or what is wrong with it.
pub open spec fn element_number(e: Element, kind: spec_fn(Seq<char>) -> Numeric) -> Result<
    Seq<char>,
    Seq<char>,
> {
    match e {
        Element::Number { shown, finite } => if finite {
            Ok(shown@)
        } else {
            Err("expected a finite element, got "@ + shown@)
        },
        Element::Decimal { shown, single } => match single {
            None => Err("expected a numeric element, got "@ + shown@),
            Some((t, finite)) => if finite {
                Ok(t@)
            } else {
                Err("expected a finite element, got "@ + t@)
            },
        },
        Element::Text(t) => match kind(t@) {
            Numeric::Unreadable => Err(
                "expected a numeric element, got String("@ + (quoted_of(t@) + ")"@),
            ),
            Numeric::NonFinite(n) => Err("expected a finite element, got "@ + non_finite_text(n)),
            Numeric::Finite => Ok(t@),
        },
        Element::Other(shown) => Err("expected a numeric element, got "@ + shown@),
    }
}

/// The numbers of elements, or what is wrong with the first that has none.
pub open spec fn element_numbers(e: Seq<Element>, kind: spec_fn(Seq<char>) -> Numeric) -> Result<
    Seq<Seq<char>>,
    Seq<char>,
>
    decreases e.len(),
{
    if e.len() == 0 {
        Ok(Seq::empty())
    } else {
        match element_numbers(e.drop_last(), kind) {
            Err(x) => Err(x),
            Ok(before) => match element_number(e.last(), kind) {
                Err(x) => Err(x),
                Ok(t) => Ok(before.push(t)),
            },
        }
    }
}

proof fn lemma_bad_element_stays(e: Seq<Element>, kind: spec_fn(Seq<char>) -> Numeric, i: int)
    requires
        0 <= i <= e.len(),
        element_numbers(e.take(i), kind) is Err,
    ensures
        element_numbers(e, kind) == element_numbers(e.take(i), kind),
    decreases e.len(),
{
    if i == e.len() {
        assert(e.take(i) =~= e);
    } else {
        assert(e.drop_last().take(i) =~= e.take(i));
        lemma_bad_element_stays(e.drop_last(), kind, i);
    }
}

/// The vector of a field's value: none where the value is no vector at all, and
/// an error where it is one that is malformed or empty.
pub open spec fn vector_of(value: FieldValue, kind: spec_fn(Seq<char>) -> Numeric) -> Result<
    Option<Seq<Seq<char>>>,
    Seq<char>,
> {
    match value {
        FieldValue::List(e) => if e@.len() == 0 {
            Err("expected a non-empty vector, got an empty array"@)
        } else {
            match element_numbers(e@, kind) {
                Ok(t) => Ok(Some(t)),
                Err(x) => Err(x),
            }
        },
        FieldValue::Text(s) => {
            let t = line_protocol::trimmed(s@);
            match vector_text(t, kind) {
                None => Err(
                    "expected a VECTOR array literal, got String("@ + (quoted_of(t) + ")"@),
                ),
                Some(v) => if v.len() == 0 {
                    Err("expected a non-empty vector, got an empty array literal"@)
                } else {
                    Ok(Some(v))
                },
            }
        },
        FieldValue::Other => Ok(None),
    }
}

fn with_detail(head: &str, tail: &str) -> (r: String)
    ensures
        r@ == head@ + tail@,
{
    let mut r = head.to_owned();
    r.append(tail);
    r
}

fn with_quoted(head: &str, t: &str) -> (r: String)
    ensures
        r@ == head@ + (quoted_of(t@) + ")"@),
{
    let mut r = head.to_owned();
    let q = quoted(t);
    r.append(q.as_str());
    r.append(")");
    proof {
        assert(r@ =~= head@ + (quoted_of(t@) + ")"@));
    }
    r
}

fn number_of_element<F: Fn(&str) -> Numeric>(
    e: &Element,
    classify: &F,
    Ghost(kind): Ghost<spec_fn(Seq<char>) -> Numeric>,
) -> (r: Result<String, String>)
    requires
        classifies(*classify, kind),
    ensures
        match r {
            Ok(t) => element_number(*e, kind) == Ok::<Seq<char>, Seq<char>>(t@),
            Err(x) => element_number(*e, kind) == Err::<Seq<char>, Seq<char>>(x@),
        },
{
    match e {
        Element::Number { shown, finite } => {
            if *finite {
                Ok(shown.clone())
            } else {
                Err(with_detail("expected a finite element, got ", shown.as_str()))
            }
        },
        Element::Decimal { shown, single } => match single {
            None => Err(with_detail("expected a numeric element, got ", shown.as_str())),
            Some((t, finite)) => {
                if *finite {
                    Ok(t.clone())
                } else {
                    Err(with_detail("expected a finite element, got ", t.as_str()))
                }
            },
        },
        Element::Text(t) => match classify(t.as_str()) {
            Numeric::Unreadable => Err(
                with_quoted("expected a numeric element, got String(", t.as_str()),
            ),
            Numeric::NonFinite(n) => {
                let shown = match n {
                    NonFinite::NotANumber => "NaN",
                    NonFinite::Positive => "inf",
                    NonFinite::Negative => "-inf",
                };
                Err(with_detail("expected a finite element, got ", shown))
            },
            Numeric::Finite => Ok(t.clone()),
        },
        Element::Other(shown) => Err(
            with_detail("expected a numeric element, got ", shown.as_str()),
        ),
    }
}

/// Take the vector from the value of a field. A value that is a vector but is
/// malformed or empty is refused: a document does not lose its vector in silence.
pub fn floats_from_value<F: Fn(&str) -> Numeric>(
    collection: &str,
    field_name: &str,
    value: &FieldValue,
    classify: &F,
) -> (r: Result<Option<Vec<String>>, Error>)
    requires
        decides(*classify),
    ensures
        match vector_of(*value, kind_of(*classify)) {
            Err(x) => r is Err && r->Err_0@ == vector_failure(collection@, field_name@, x),
            Ok(None) => r is Ok && r->Ok_0 is None,
            Ok(Some(t)) => r is Ok && r->Ok_0 is Some && text::text_views(r->Ok_0->0@) == t,
        },
{
    let ghost kind = kind_of(*classify);
    proof {
        lemma_classifies(*classify);
    }
    match value {
        FieldValue::Other => Ok(None),
        FieldValue::Text(s) => {
            let chars = text::to_chars(s.as_str());
            let trimmed = line_protocol::trim_chars(&chars);
            let t = text::from_chars(&trimmed, 0, trimmed.len());
            proof {
                assert(t@ =~= line_protocol::trimmed(s@));
            }
            match parse_vector_string(t.as_str(), classify) {
                None => Err(
                    vector_error(
                        collection,
                        field_name,
                        with_quoted("expected a VECTOR array literal, got String(", t.as_str()),
                    ),
                ),
                Some(v) => {
                    if v.len() == 0 {
                        Err(
                            vector_error(
                                collection,
                                field_name,
                                "expected a non-empty vector, got an empty array literal".to_owned(),
                            ),
                        )
                    } else {
                        Ok(Some(v))
                    }
                },
            }
        },
        FieldValue::List(e) => {
            if e.len() == 0 {
                return Err(
                    vector_error(
                        collection,
                        field_name,
                        "expected a non-empty vector, got an empty array".to_owned(),
                    ),
                );
            }
            let mut out: Vec<String> = Vec::new();
            let mut i: usize = 0;
            proof {
                assert(e@.take(0) =~= Seq::empty());
                assert(text::text_views(out@) =~= Seq::empty());
            }
            while i < e.len()
                invariant
                    i <= e@.len(),
                    e@.len() > 0,
                    *value == FieldValue::List(*e),
                    kind == kind_of(*classify),
                    classifies(*classify, kind),
                    element_numbers(e@.take(i as int), kind) == Ok::<Seq<Seq<char>>, Seq<char>>(
                        text::text_views(out@),
                    ),
                decreases e.len() - i,
            {
                proof {
                    assert(e@.take(i + 1).drop_last() =~= e@.take(i as int));
                    assert(e@.take(i + 1).last() == e@[i as int]);
                }
                match number_of_element(&e[i], classify, Ghost(kind)) {
                    Ok(t) => {
                        let ghost before = out@;
                        out.push(t);
                        proof {
                            assert(text::text_views(out@) =~= text::text_views(before).push(t@));
                        }
                    },
                    Err(x) => {
                        proof {
                            lemma_bad_element_stays(e@, kind, i + 1);
                        }
                        return Err(vector_error(collection, field_name, x));
                    },
                }
                i = i + 1;
            }
            proof {
                assert(e@.take(e@.len() as int) =~= e@);
            }
            Ok(Some(out))
        },
    }
}

/// What is read of a list is finite throughout.
proof fn lemma_numbers_are_finite(parts: Seq<Seq<char>>, kind: spec_fn(Seq<char>) -> Numeric)
    ensures
        numbers_of(parts, kind) matches Some(t) ==> all_finite(t, kind),
    decreases parts.len(),
{
    if parts.len() > 0 {
        lemma_numbers_are_finite(parts.drop_last(), kind);
    }
}

/// What is read of a printed list is finite throughout, and nothing of it is
/// dropped.
proof fn lemma_bracketed(parts: Seq<Seq<char>>, kind: spec_fn(Seq<char>) -> Numeric)
    ensures
        bracketed(parts, kind) matches Some(t) ==> all_finite(t, kind) && t.len() == parts.len(),
    decreases parts.len(),
{
    if parts.len() > 0 {
        lemma_bracketed(parts.drop_last(), kind);
    }
}

/// No float of a printed list is dropped: the vector has as many numbers as the
/// list has floats.
pub proof fn law_no_printed_float_is_dropped(s: Seq<char>, kind: spec_fn(Seq<char>) -> Numeric)
    ensures
        printed_numbers(s, kind) matches Some(t) ==> t.len() == parts_behind(s, "Float("@).len(),
{
    lemma_bracketed(parts_behind(s, "Float("@), kind);
}

/// A vector that is read from a text holds finite numbers alone.
pub proof fn law_a_vector_is_finite(s: Seq<char>, kind: spec_fn(Seq<char>) -> Numeric)
    ensures
        vector_text(s, kind) matches Some(t) ==> all_finite(t, kind),
{
    if begins_array(s) {
        lemma_numbers_are_finite(text::split_parts(s.subrange(6, last_index(s, ']')), ','), kind);
    } else if s.len() >= 2 && s[0] == '[' && s.last() == ']' {
        lemma_numbers_are_finite(text::split_parts(s.subrange(1, s.len() - 1), ','), kind);
    } else {
        lemma_bracketed(parts_behind(s, "Float("@), kind);
    }
}

/// A field that is taken for a vector is never empty.
pub proof fn law_a_vector_is_not_empty(value: FieldValue, kind: spec_fn(Seq<char>) -> Numeric)
    ensures
        vector_of(value, kind) matches Ok(Some(t)) ==> t.len() > 0,
{
    match value {
        FieldValue::List(e) => {
            lemma_as_many_numbers(e@, kind);
        },
        _ => {},
    }
}

proof fn lemma_as_many_numbers(e: Seq<Element>, kind: spec_fn(Seq<char>) -> Numeric)
    ensures
        element_numbers(e, kind) matches Ok(t) ==> t.len() == e.len(),
    decreases e.len(),
{
    if e.len() > 0 {
        lemma_as_many_numbers(e.drop_last(), kind);
    }
}

/// A list of numbers is its trimmed parts that are not blank, in their order; it is
/// one exactly where each of those is a finite number.
pub proof fn law_a_list_holds_every_part(parts: Seq<Seq<char>>, kind: spec_fn(Seq<char>) -> Numeric)
    ensures
        ({
            let written = parts.map_values(|p: Seq<char>| line_protocol::trimmed(p)).filter(
                |t: Seq<char>| t.len() > 0,
            );
            &&& numbers_of(parts, kind) is Some <==> all_finite(written, kind)
            &&& numbers_of(parts, kind) matches Some(t) ==> t == written
        }),
    decreases parts.len(),
{
    reveal(Seq::filter);
    let trim = |p: Seq<char>| line_protocol::trimmed(p);
    let pred = |t: Seq<char>| t.len() > 0;
    let written = parts.map_values(trim).filter(pred);
    if parts.len() > 0 {
        let short = parts.drop_last();
        law_a_list_holds_every_part(short, kind);
        let before = short.map_values(trim).filter(pred);
        assert(parts.map_values(trim).drop_last() =~= short.map_values(trim));
        let t = line_protocol::trimmed(parts.last());
        if t.len() > 0 {
            assert(written == before.push(t));
            assert(written[before.len() as int] == t);
            assert(forall|i: int| 0 <= i < before.len() ==> written[i] == before[i]);
            if all_finite(written, kind) {
                assert forall|i: int| 0 <= i < before.len() implies kind(#[trigger] before[i])
                    == Numeric::Finite by {
                    assert(kind(written[i]) == Numeric::Finite);
                }
            }
        }
    } else {
        assert(parts.map_values(trim) =~= Seq::<Seq<char>>::empty());
        assert(written =~= Seq::<Seq<char>>::empty());
    }
}

/// The last position of a character is the one behind which it does not occur.
pub proof fn law_the_last_position(s: Seq<char>, c: char)
    ensures
        -1 <= last_index(s, c) < s.len(),
        last_index(s, c) >= 0 ==> s[last_index(s, c)] == c,
        forall|i: int| last_index(s, c) < i < s.len() ==> (#[trigger] s[i]) != c,
    decreases s.len(),
{
    if s.len() > 0 && s.last() != c {
        let short = s.drop_last();
        law_the_last_position(short, c);
        assert forall|i: int| last_index(s, c) < i < s.len() implies (#[trigger] s[i]) != c by {
            if i < short.len() {
                assert(short[i] != c);
            }
        }
    }
}

/// What stands in brackets, with or without the word before them, is a list with
/// commas between its numbers.
pub proof fn law_a_bracketed_list_is_a_vector(
    head: Seq<char>,
    inner: Seq<char>,
    kind: spec_fn(Seq<char>) -> Numeric,
)
    ensures
        vector_text(seq!['['] + inner + seq![']'], kind) == numbers_of(
            text::split_parts(inner, ','),
            kind,
        ),
        head.len() == 5 && lower(head[0]) == 'a' && lower(head[1]) == 'r' && lower(head[2]) == 'r'
            && lower(head[3]) == 'a' && lower(head[4]) == 'y' && inner.len() > 0 ==> vector_text(
            head + seq!['['] + inner + seq![']'],
            kind,
        ) == numbers_of(text::split_parts(inner, ','), kind),
{
    let s = seq!['['] + inner + seq![']'];
    assert(s.subrange(1, s.len() - 1) =~= inner);
    assert(lower('[') == '[');
    if head.len() == 5 && inner.len() > 0 {
        let t = head + seq!['['] + inner + seq![']'];
        assert(t.subrange(6, t.len() - 1) =~= inner);
        assert(t.last() == ']');
        assert(forall|i: int| 0 <= i < 5 ==> t[i] == head[i]);
    }
}

/// The elements of a list are taken one by one: each gives its number, and the
/// first that gives none tells why.
pub proof fn law_each_element_gives_its_number(
    e: Seq<Element>,
    kind: spec_fn(Seq<char>) -> Numeric,
)
    ensures
        element_numbers(e, kind) matches Ok(t) ==> t.len() == e.len() && forall|i: int|
            0 <= i < e.len() ==> element_number(#[trigger] e[i], kind) == Ok::<
                Seq<char>,
                Seq<char>,
            >(t[i]),
        element_numbers(e, kind) matches Err(x) ==> exists|i: int|
            0 <= i < e.len() && element_number(#[trigger] e[i], kind) == Err::<
                Seq<char>,
                Seq<char>,
            >(x) && forall|j: int| 0 <= j < i ==> element_number(#[trigger] e[j], kind) is Ok,
    decreases e.len(),
{
    if e.len() > 0 {
        let short = e.drop_last();
        let n = e.len() - 1;
        law_each_element_gives_its_number(short, kind);
        assert(e[n] == e.last());
        match element_numbers(short, kind) {
            Err(x) => {
                let i = choose|i: int|
                    0 <= i < short.len() && element_number(#[trigger] short[i], kind) == Err::<
                        Seq<char>,
                        Seq<char>,
                    >(x) && forall|j: int|
                        0 <= j < i ==> element_number(#[trigger] short[j], kind) is Ok;
                assert(element_number(e[i], kind) == Err::<Seq<char>, Seq<char>>(x));
                assert forall|j: int| 0 <= j < i implies element_number(
                    #[trigger] e[j],
                    kind,
                ) is Ok by {
                    assert(element_number(short[j], kind) is Ok);
                }
            },
            Ok(t) => {
                assert forall|i: int| 0 <= i < n implies element_number(#[trigger] e[i], kind)
                    == Ok::<Seq<char>, Seq<char>>(t[i]) by {
                    assert(element_number(short[i], kind) == Ok::<Seq<char>, Seq<char>>(t[i]));
                }
            },
        }
    }
}

/// An element is a number exactly where it is finite in single precision: a number
/// as it is printed, a decimal as it is in single precision, a text as it is.
pub proof fn law_which_elements_are_numbers(e: Element, kind: spec_fn(Seq<char>) -> Numeric)
    ensures
        e matches Element::Number { shown, finite } ==> (element_number(e, kind) is Ok <==> finite)
            && (finite ==> element_number(e, kind)->Ok_0 == shown@),
        e matches Element::Decimal { shown, single } ==> (element_number(e, kind) is Ok <==> (
        single matches Some((_, finite)) && finite)) && (single matches Some((t, true))
            ==> element_number(e, kind)->Ok_0 == t@),
        e matches Element::Text(t) ==> (element_number(e, kind) is Ok <==> kind(t@)
            == Numeric::Finite) && (kind(t@) == Numeric::Finite ==> element_number(e, kind)->Ok_0
            == t@),
        e is Other ==> element_number(e, kind) is Err,
{
}

/// A value that is neither a list nor a text is no vector; a list or a text is one
/// exactly where it gives at least one number and nothing that is none.
pub proof fn law_which_values_are_vectors(value: FieldValue, kind: spec_fn(Seq<char>) -> Numeric)
    ensures
        value is Other <==> vector_of(value, kind) == Ok::<Option<Seq<Seq<char>>>, Seq<char>>(None),
        value matches FieldValue::List(e) ==> (vector_of(value, kind) is Ok <==> e@.len() > 0
            && element_numbers(e@, kind) is Ok),
        value matches FieldValue::List(e) ==> (vector_of(value, kind) matches Ok(t) ==> t == Some(
            element_numbers(e@, kind)->Ok_0,
        )),
        value matches FieldValue::Text(s) ==> (vector_of(value, kind) matches Ok(t) ==> t
            == vector_text(line_protocol::trimmed(s@), kind)),
        value matches FieldValue::Text(s) ==> (vector_of(value, kind) is Ok <==> (vector_text(
            line_protocol::trimmed(s@),
            kind,
        ) matches Some(v) && v.len() > 0)),
{
}

} // verus!
