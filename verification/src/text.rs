//! Text building blocks: decimal and hexadecimal numbers, splitting, prefixes.
//!
//! Text is reasoned about as a sequence of characters.
use vstd::prelude::*;
use vstd::string::*;
use vstd::utf8::*;

verus! {

/// `String::push` appends one character.
pub assume_specification[ String::push ](s: &mut String, c: char)
    ensures
        final(s)@ == old(s)@.push(c),
;

/// What `String::from_utf8` says of bytes that are not UTF-8.
pub uninterp spec fn utf8_error_of(bytes: Seq<u8>) -> Seq<char>;

/// `String::from_utf8`: the text of a byte string, where the bytes are UTF-8,
/// and else the error's text.
#[verifier::external_body]
pub(crate) fn string_from_utf8(bytes: Vec<u8>) -> (r: Result<String, String>)
    ensures
        match r {
            Ok(s) => valid_utf8(bytes@) && s@ == decode_utf8(bytes@),
            Err(e) => !valid_utf8(bytes@) && e@ == utf8_error_of(bytes@),
        },
{
    String::from_utf8(bytes).map_err(|e| format!("{e}"))
}

/// What `String::from_utf8_lossy` makes of a byte string.
pub uninterp spec fn lossy_text_of(bytes: Seq<u8>) -> Seq<char>;

/// `String::from_utf8_lossy`: bytes that are UTF-8 stand as they are; what it
/// puts in place of other bytes is left unsaid.
#[verifier::external_body]
pub(crate) fn lossy_text(bytes: &[u8]) -> (r: String)
    ensures
        r@ == lossy_text_of(bytes@),
        valid_utf8(bytes@) ==> r@ == decode_utf8(bytes@),
{
    String::from_utf8_lossy(bytes).into_owned()
}

/// The code point of a character.
pub fn code_of(c: char) -> (r: u32)
    ensures
        r as nat == c as nat,
        r as int == c as int,
{
    c as u32
}

/// The characters of `s` in order.
pub fn to_chars(s: &str) -> (r: Vec<char>)
    ensures
        r@ == s@,
{
    let mut r: Vec<char> = Vec::new();
    for c in it: s.chars()
        invariant
            it.seq() == s@,
            r@ == s@.take(it.index() as int),
    {
        r.push(c);
        proof {
            assert(s@.take(it.index() as int).push(c) =~= s@.take(it.index() + 1));
        }
    }
    proof {
        assert(s@.take(s@.len() as int) =~= s@);
    }
    r
}

/// The text made of `chars[from..to]`.
pub fn from_chars(chars: &Vec<char>, from: usize, to: usize) -> (r: String)
    requires
        from <= to <= chars@.len(),
    ensures
        r@ == chars@.subrange(from as int, to as int),
{
    let mut r = String::new();
    let mut i: usize = from;
    while i < to
        invariant
            from <= i <= to <= chars@.len(),
            r@ == chars@.subrange(from as int, i as int),
        decreases to - i,
    {
        r.push(chars[i]);
        proof {
            assert(chars@.subrange(from as int, i as int).push(chars@[i as int])
                =~= chars@.subrange(from as int, i + 1));
        }
        i = i + 1;
    }
    r
}

/// Whether two texts are the same.
pub fn same_text(a: &str, b: &str) -> (r: bool)
    ensures
        r == (a@ == b@),
{
    let x = a.to_owned();
    let y = b.to_owned();
    x == y
}

/// The character of a digit below ten.
pub open spec fn digit_char(d: nat) -> char {
    (d + 0x30) as char
}

pub open spec fn is_digit(c: char) -> bool {
    0x30 <= c as nat <= 0x39
}

/// The decimal text of `n`, without leading zeros.
pub open spec fn decimal(n: nat) -> Seq<char>
    decreases n,
{
    if n < 10 {
        seq![digit_char(n)]
    } else {
        decimal(n / 10).push(digit_char(n % 10))
    }
}

/// The number that a run of decimal digits denotes, most significant first.
pub open spec fn digits_value(s: Seq<char>) -> nat
    decreases s.len(),
{
    if s.len() == 0 {
        0
    } else {
        digits_value(s.drop_last()) * 10 + (s.last() as nat - 0x30) as nat
    }
}

pub open spec fn all_digits(s: Seq<char>) -> bool {
    forall|i: int| 0 <= i < s.len() ==> is_digit(#[trigger] s[i])
}

/// The digits of a number as it is read: one leading `+` is skipped when
/// something follows it.
pub open spec fn unsigned_body(s: Seq<char>) -> Seq<char> {
    if s.len() > 1 && s[0] == '+' {
        s.subrange(1, s.len() as int)
    } else {
        s
    }
}

/// The 64-bit unsigned number that `s` reads as, if it reads as one.
pub open spec fn parsed_u64(s: Seq<char>) -> Option<u64> {
    let body = unsigned_body(s);
    if body.len() > 0 && all_digits(body) && digits_value(body) <= u64::MAX {
        Some(digits_value(body) as u64)
    } else {
        None
    }
}

pub proof fn lemma_decimal_shape(n: nat)
    ensures
        decimal(n).len() > 0,
        all_digits(decimal(n)),
        digits_value(decimal(n)) == n,
    decreases n,
{
    if n < 10 {
        let s = seq![digit_char(n)];
        assert(s.drop_last() =~= Seq::<char>::empty());
        assert(digits_value(s.drop_last()) == 0);
    } else {
        lemma_decimal_shape(n / 10);
        let s = decimal(n);
        assert(s.drop_last() =~= decimal(n / 10));
        assert(s.last() == digit_char(n % 10));
    }
}

/// Reading the decimal text of a number gives the number back.
pub proof fn law_decimal_parses_back(n: u64)
    ensures
        parsed_u64(decimal(n as nat)) == Some(n),
{
    lemma_decimal_shape(n as nat);
    let s = decimal(n as nat);
    assert(is_digit(s[0]));
    assert(unsigned_body(s) == s);
}

/// Two numbers with the same decimal text are the same number.
pub proof fn law_decimal_is_injective(a: nat, b: nat)
    requires
        decimal(a) == decimal(b),
    ensures
        a == b,
{
    lemma_decimal_shape(a);
    lemma_decimal_shape(b);
}

/// A digit run's value bounds that of every prefix of it.
proof fn lemma_digits_prefix_bound(s: Seq<char>, n: int)
    requires
        all_digits(s),
        0 <= n <= s.len(),
    ensures
        digits_value(s.take(n)) <= digits_value(s),
    decreases s.len() - n,
{
    if n < s.len() {
        lemma_digits_prefix_bound(s, n + 1);
        assert(s.take(n + 1).drop_last() =~= s.take(n));
    } else {
        assert(s.take(n) =~= s);
    }
}

/// Append the decimal text of `n`.
pub fn push_decimal(out: &mut String, n: u64)
    ensures
        final(out)@ == old(out)@ + decimal(n as nat),
    decreases n,
{
    if n >= 10 {
        push_decimal(out, n / 10);
    }
    let d: u8 = (n % 10) as u8 + 48;
    let c: char = d as char;
    out.push(c);
    proof {
        assert(c == digit_char((n % 10) as nat));
        if n >= 10 {
            assert(out@ =~= old(out)@ + decimal((n / 10) as nat).push(c));
        } else {
            assert(out@ =~= old(out)@ + seq![c]);
        }
    }
}

/// The decimal text of `n`.
pub fn decimal_text(n: u64) -> (r: String)
    ensures
        r@ == decimal(n as nat),
{
    let mut r = String::new();
    push_decimal(&mut r, n);
    proof {
        assert(Seq::<char>::empty() + decimal(n as nat) =~= decimal(n as nat));
    }
    r
}

/// Read a 64-bit unsigned decimal number.
pub fn parse_u64(s: &Vec<char>) -> (r: Option<u64>)
    ensures
        r == parsed_u64(s@),
{
    let n: usize = s.len();
    let start: usize = if n > 1 && s[0] == '+' {
        1
    } else {
        0
    };
    let ghost body = unsigned_body(s@);
    proof {
        assert(body == s@.subrange(start as int, n as int));
    }
    if start == n {
        return None;
    }
    let mut i: usize = start;
    let mut value: u64 = 0;
    while i < n
        invariant
            n == s@.len(),
            start <= i <= n,
            body == s@.subrange(start as int, n as int),
            body == unsigned_body(s@),
            body.len() > 0,
            all_digits(body.take(i - start)),
            value == digits_value(body.take(i - start)),
        decreases n - i,
    {
        let c: char = s[i];
        let ghost k = i - start;
        proof {
            assert(body[k] == c);
            assert(body.take(k + 1).drop_last() =~= body.take(k));
            assert(body.take(k + 1).last() == c);
        }
        let code: u32 = code_of(c);
        if code < 48 || code > 57 {
            proof {
                assert(!is_digit(body[k]));
            }
            return None;
        }
        let d: u64 = (code - 48) as u64;
        if value > (u64::MAX - d) / 10 {
            proof {
                assert(value * 10 + d > u64::MAX);
                if all_digits(body) {
                    lemma_digits_prefix_bound(body, k + 1);
                }
            }
            return None;
        }
        value = value * 10 + d;
        proof {
            assert forall|j: int| 0 <= j < body.take(k + 1).len() implies is_digit(
                #[trigger] body.take(k + 1)[j],
            ) by {
                if j < k {
                    assert(body.take(k)[j] == body[j]);
                }
            }
        }
        i = i + 1;
    }
    proof {
        assert(body.take(n - start) =~= body);
    }
    Some(value)
}

/// The position of the first `sep` in `s` at or after `from`, or the length.
pub open spec fn index_from(s: Seq<char>, sep: char, from: int) -> int
    decreases s.len() - from,
{
    if from >= s.len() {
        s.len() as int
    } else if s[from] == sep {
        from
    } else {
        index_from(s, sep, from + 1)
    }
}

pub proof fn lemma_index_from(s: Seq<char>, sep: char, from: int)
    requires
        0 <= from <= s.len(),
    ensures
        from <= index_from(s, sep, from) <= s.len(),
        index_from(s, sep, from) < s.len() ==> s[index_from(s, sep, from)] == sep,
        forall|j: int| from <= j < index_from(s, sep, from) ==> s[j] != sep,
    decreases s.len() - from,
{
    if from < s.len() && s[from] != sep {
        lemma_index_from(s, sep, from + 1);
    }
}

/// A position that holds the first `sep` is where the search stops.
pub proof fn lemma_index_is(s: Seq<char>, sep: char, from: int, at: int)
    requires
        0 <= from <= at <= s.len(),
        forall|j: int| from <= j < at ==> s[j] != sep,
        at < s.len() ==> s[at] == sep,
    ensures
        index_from(s, sep, from) == at,
    decreases at - from,
{
    if from < at {
        lemma_index_is(s, sep, from + 1, at);
    }
}

pub fn find_from(s: &Vec<char>, sep: char, from: usize) -> (r: usize)
    requires
        from <= s@.len(),
    ensures
        r == index_from(s@, sep, from as int),
        from <= r <= s@.len(),
{
    let mut i: usize = from;
    while i < s.len()
        invariant
            from <= i <= s@.len(),
            index_from(s@, sep, from as int) == index_from(s@, sep, i as int),
        decreases s.len() - i,
    {
        if s[i] == sep {
            return i;
        }
        i = i + 1;
    }
    i
}

/// The parts of `s` between the separators: one more part than separators.
pub open spec fn split_parts(s: Seq<char>, sep: char) -> Seq<Seq<char>>
    decreases s.len(),
{
    let at = index_from(s, sep, 0);
    if 0 <= at < s.len() {
        seq![s.take(at)] + split_parts(s.subrange(at + 1, s.len() as int), sep)
    } else {
        seq![s]
    }
}

/// The part up to the first separator and the part behind it, if there is one.
pub open spec fn split_once(s: Seq<char>, sep: char) -> Option<(Seq<char>, Seq<char>)> {
    let at = index_from(s, sep, 0);
    if 0 <= at < s.len() {
        Some((s.take(at), s.subrange(at + 1, s.len() as int)))
    } else {
        None
    }
}

/// The characters `s[from..to]`.
pub fn slice_chars(s: &Vec<char>, from: usize, to: usize) -> (r: Vec<char>)
    requires
        from <= to <= s@.len(),
    ensures
        r@ == s@.subrange(from as int, to as int),
{
    let mut r: Vec<char> = Vec::new();
    let mut i: usize = from;
    while i < to
        invariant
            from <= i <= to <= s@.len(),
            r@ == s@.subrange(from as int, i as int),
        decreases to - i,
    {
        r.push(s[i]);
        proof {
            assert(s@.subrange(from as int, i as int).push(s@[i as int]) =~= s@.subrange(
                from as int,
                i + 1,
            ));
        }
        i = i + 1;
    }
    r
}

pub fn split_once_chars(s: &Vec<char>, sep: char) -> (r: Option<(Vec<char>, Vec<char>)>)
    ensures
        match r {
            Some((a, b)) => split_once(s@, sep) == Some((a@, b@)),
            None => split_once(s@, sep) is None,
        },
{
    let at: usize = find_from(s, sep, 0);
    if at < s.len() {
        let a = slice_chars(s, 0, at);
        let b = slice_chars(s, at + 1, s.len());
        proof {
            assert(a@ =~= s@.take(at as int));
        }
        Some((a, b))
    } else {
        None
    }
}

/// The views of the parts.
pub open spec fn chars_views(v: Seq<Vec<char>>) -> Seq<Seq<char>> {
    v.map_values(|c: Vec<char>| c@)
}

pub fn split_chars(s: &Vec<char>, sep: char) -> (r: Vec<Vec<char>>)
    ensures
        chars_views(r@) == split_parts(s@, sep),
{
    let mut parts: Vec<Vec<char>> = Vec::new();
    let mut from: usize = 0;
    proof {
        assert(s@.subrange(0, s@.len() as int) =~= s@);
        assert(chars_views(parts@) + split_parts(s@, sep) =~= split_parts(s@, sep));
    }
    loop
        invariant
            from <= s@.len(),
            chars_views(parts@) + split_parts(s@.subrange(from as int, s@.len() as int), sep)
                == split_parts(s@, sep),
        decreases s@.len() - from,
    {
        let at: usize = find_from(s, sep, from);
        let ghost rest = s@.subrange(from as int, s@.len() as int);
        proof {
            lemma_index_from(s@, sep, from as int);
            lemma_index_is(rest, sep, 0, at - from);
        }
        let part = slice_chars(s, from, at);
        let ghost before = parts@;
        parts.push(part);
        proof {
            assert(part@ =~= rest.take(at - from));
            assert(chars_views(parts@) =~= chars_views(before).push(part@));
        }
        if at < s.len() {
            proof {
                assert(rest.subrange(at - from + 1, rest.len() as int) =~= s@.subrange(
                    at + 1,
                    s@.len() as int,
                ));
                assert(split_parts(rest, sep) =~= seq![part@] + split_parts(
                    s@.subrange(at + 1, s@.len() as int),
                    sep,
                ));
                assert(chars_views(parts@) + split_parts(
                    s@.subrange(at + 1, s@.len() as int),
                    sep,
                ) =~= chars_views(before) + split_parts(rest, sep));
            }
            from = at + 1;
        } else {
            proof {
                assert(rest.take(at - from) =~= rest);
                assert(split_parts(rest, sep) == seq![part@]);
                assert(chars_views(parts@) =~= chars_views(before) + seq![part@]);
            }
            return parts;
        }
    }
}

/// Whether `s` begins with `prefix`.
pub open spec fn begins_with(s: Seq<char>, prefix: Seq<char>) -> bool {
    prefix.len() <= s.len() && s.take(prefix.len() as int) == prefix
}

pub fn has_prefix(s: &Vec<char>, prefix: &Vec<char>) -> (r: bool)
    ensures
        r == begins_with(s@, prefix@),
{
    if prefix.len() > s.len() {
        return false;
    }
    let mut i: usize = 0;
    while i < prefix.len()
        invariant
            i <= prefix@.len() <= s@.len(),
            forall|j: int| 0 <= j < i ==> s@[j] == prefix@[j],
        decreases prefix.len() - i,
    {
        if s[i] != prefix[i] {
            proof {
                assert(s@.take(prefix@.len() as int)[i as int] == s@[i as int]);
            }
            return false;
        }
        i = i + 1;
    }
    proof {
        assert(s@.take(prefix@.len() as int) =~= prefix@);
    }
    true
}

/// Whether text begins with a prefix.
pub fn text_has_prefix(s: &str, prefix: &str) -> (r: bool)
    ensures
        r == begins_with(s@, prefix@),
{
    let a = to_chars(s);
    let b = to_chars(prefix);
    has_prefix(&a, &b)
}

/// A separator-free part followed by the separator splits off as it stands.
pub proof fn lemma_split_once_at(head: Seq<char>, sep: char, tail: Seq<char>)
    requires
        !head.contains(sep),
    ensures
        split_once(head + seq![sep] + tail, sep) == Some((head, tail)),
{
    let s = head + seq![sep] + tail;
    let at = head.len() as int;
    assert(s[at] == sep);
    assert forall|j: int| 0 <= j < at implies s[j] != sep by {
        assert(s[j] == head[j]);
    }
    lemma_index_is(s, sep, 0, at);
    assert(s.take(at) =~= head);
    assert(s.subrange(at + 1, s.len() as int) =~= tail);
}

/// Splitting off a separator-free head.
pub proof fn lemma_split_parts_cons(head: Seq<char>, tail: Seq<char>, sep: char)
    requires
        !head.contains(sep),
    ensures
        split_parts(head + seq![sep] + tail, sep) == seq![head] + split_parts(tail, sep),
{
    let s = head + seq![sep] + tail;
    lemma_split_once_at(head, sep, tail);
    let at = index_from(s, sep, 0);
    lemma_index_from(s, sep, 0);
    assert(s.take(at) == head);
    assert(s.subrange(at + 1, s.len() as int) == tail);
}

/// A separator-free text is its own only part.
pub proof fn lemma_split_parts_single(s: Seq<char>, sep: char)
    requires
        !s.contains(sep),
    ensures
        split_parts(s, sep) == seq![s],
{
    lemma_index_is(s, sep, 0, s.len() as int);
}

/// No part holds the separator.
pub proof fn lemma_parts_lack(s: Seq<char>, sep: char)
    ensures
        forall|i: int|
            0 <= i < split_parts(s, sep).len() ==> !(#[trigger] split_parts(s, sep)[i]).contains(sep),
    decreases s.len(),
{
    lemma_index_from(s, sep, 0);
    let at = index_from(s, sep, 0);
    if at < s.len() {
        let rest = s.subrange(at + 1, s.len() as int);
        lemma_parts_lack(rest, sep);
        let parts = split_parts(s, sep);
        assert forall|i: int| 0 <= i < parts.len() implies !(#[trigger] parts[i]).contains(sep) by {
            if i > 0 {
                assert(parts[i] == split_parts(rest, sep)[i - 1]);
            }
        }
    }
}

/// The decimal text of a number holds no separator that is not a digit.
pub proof fn lemma_decimal_lacks(n: nat, sep: char)
    requires
        !is_digit(sep),
    ensures
        !decimal(n).contains(sep),
{
    lemma_decimal_shape(n);
}

/// Whether `pat` stands in `s` at position `i`.
pub open spec fn stands_at(s: Seq<char>, pat: Seq<char>, i: int) -> bool {
    0 <= i && i + pat.len() <= s.len() && s.subrange(i, i + pat.len()) == pat
}

/// The first position at or after `from` at which `pat` stands in `s`, or -1.
pub open spec fn find_text(s: Seq<char>, pat: Seq<char>, from: int) -> int
    decreases s.len() + 1 - from,
{
    if from + pat.len() > s.len() || from < 0 {
        -1
    } else if stands_at(s, pat, from) {
        from
    } else {
        find_text(s, pat, from + 1)
    }
}

/// The text before the first `pat` and the text behind it, if it occurs.
pub open spec fn split_at_text(s: Seq<char>, pat: Seq<char>) -> Option<(Seq<char>, Seq<char>)> {
    let at = find_text(s, pat, 0);
    if 0 <= at && at + pat.len() <= s.len() {
        Some((s.take(at), s.subrange(at + pat.len(), s.len() as int)))
    } else {
        None
    }
}

fn pattern_stands_at(s: &Vec<char>, pat: &Vec<char>, i: usize) -> (r: bool)
    requires
        i + pat@.len() <= s@.len(),
    ensures
        r == stands_at(s@, pat@, i as int),
{
    let n: usize = s.len();
    let mut k: usize = 0;
    while k < pat.len()
        invariant
            n == s@.len(),
            k <= pat@.len(),
            i + pat@.len() <= s@.len(),
            forall|j: int| 0 <= j < k ==> s@[i + j] == pat@[j],
        decreases pat.len() - k,
    {
        if s[i + k] != pat[k] {
            proof {
                assert(s@.subrange(i as int, i + pat@.len())[k as int] == s@[i + k]);
            }
            return false;
        }
        k = k + 1;
    }
    proof {
        assert(s@.subrange(i as int, i + pat@.len()) =~= pat@);
    }
    true
}

proof fn lemma_find_text_bounds(s: Seq<char>, pat: Seq<char>, from: int)
    requires
        0 <= from,
    ensures
        find_text(s, pat, from) == -1 || (from <= find_text(s, pat, from) && find_text(
            s,
            pat,
            from,
        ) + pat.len() <= s.len()),
    decreases s.len() + 1 - from,
{
    if from + pat.len() <= s.len() && !stands_at(s, pat, from) {
        lemma_find_text_bounds(s, pat, from + 1);
    }
}

pub fn split_at_pattern(s: &Vec<char>, pat: &Vec<char>) -> (r: Option<(Vec<char>, Vec<char>)>)
    ensures
        match r {
            Some((a, b)) => split_at_text(s@, pat@) == Some((a@, b@)),
            None => split_at_text(s@, pat@) is None,
        },
{
    let n: usize = s.len();
    let m: usize = pat.len();
    if m > n {
        return None;
    }
    let last: usize = n - m;
    let mut i: usize = 0;
    while i <= last
        invariant
            n == s@.len(),
            m == pat@.len(),
            m <= n,
            last == n - m,
            i <= last + 1,
            find_text(s@, pat@, 0) == find_text(s@, pat@, i as int),
        decreases last + 1 - i,
    {
        if pattern_stands_at(s, pat, i) {
            let a = slice_chars(s, 0, i);
            let b = slice_chars(s, i + m, n);
            proof {
                assert(a@ =~= s@.take(i as int));
            }
            return Some((a, b));
        }
        if i == last {
            proof {
                assert(find_text(s@, pat@, i + 1) == -1);
            }
            return None;
        }
        i = i + 1;
    }
    None
}

/// A head that lacks the pattern's first character, then the pattern: the
/// split is behind the head.
pub proof fn lemma_split_at_text(head: Seq<char>, pat: Seq<char>, tail: Seq<char>)
    requires
        pat.len() > 0,
        !head.contains(pat[0]),
    ensures
        split_at_text(head + pat + tail, pat) == Some((head, tail)),
{
    let s = head + pat + tail;
    let at = head.len() as int;
    assert(s.subrange(at, at + pat.len()) =~= pat);
    lemma_find_text_is(s, pat, 0, at);
    assert(s.take(at) =~= head);
    assert(s.subrange(at + pat.len(), s.len() as int) =~= tail);
}

proof fn lemma_find_text_is(s: Seq<char>, pat: Seq<char>, from: int, at: int)
    requires
        pat.len() > 0,
        0 <= from <= at,
        stands_at(s, pat, at),
        forall|j: int| from <= j < at ==> s[j] != pat[0],
    ensures
        find_text(s, pat, from) == at,
    decreases at - from,
{
    if from < at {
        if stands_at(s, pat, from) {
            assert(s.subrange(from, from + pat.len())[0] == s[from]);
            assert(false);
        }
        lemma_find_text_is(s, pat, from + 1, at);
    }
}

pub open spec fn text_views(parts: Seq<String>) -> Seq<Seq<char>> {
    parts.map_values(|p: String| p@)
}

/// Texts with `sep` between them.
pub open spec fn joined_with(parts: Seq<Seq<char>>, sep: char) -> Seq<char>
    decreases parts.len(),
{
    if parts.len() == 0 {
        Seq::empty()
    } else if parts.len() == 1 {
        parts[0]
    } else {
        joined_with(parts.drop_last(), sep) + (seq![sep] + parts.last())
    }
}

proof fn lemma_joined_cons(parts: Seq<Seq<char>>, sep: char)
    requires
        parts.len() > 1,
    ensures
        joined_with(parts, sep) == parts[0] + seq![sep] + joined_with(
            parts.subrange(1, parts.len() as int),
            sep,
        ),
    decreases parts.len(),
{
    let rest = parts.subrange(1, parts.len() as int);
    let init = parts.drop_last();
    assert(rest.last() == parts.last());
    if parts.len() == 2 {
        assert(joined_with(init, sep) == parts[0]);
        assert(joined_with(rest, sep) == parts[1]);
    } else {
        lemma_joined_cons(init, sep);
        assert(init.subrange(1, init.len() as int) =~= rest.drop_last());
    }
    assert(joined_with(parts, sep) =~= parts[0] + seq![sep] + joined_with(rest, sep));
}

/// Splitting joined texts gives them back, where none holds the separator.
pub proof fn lemma_split_joined(parts: Seq<Seq<char>>, sep: char)
    requires
        parts.len() > 0,
        forall|i: int| 0 <= i < parts.len() ==> !(#[trigger] parts[i]).contains(sep),
    ensures
        split_parts(joined_with(parts, sep), sep) == parts,
    decreases parts.len(),
{
    if parts.len() == 1 {
        lemma_split_parts_single(parts[0], sep);
        assert(seq![parts[0]] =~= parts);
    } else {
        let rest = parts.subrange(1, parts.len() as int);
        lemma_joined_cons(parts, sep);
        lemma_split_parts_cons(parts[0], joined_with(rest, sep), sep);
        lemma_split_joined(rest, sep);
        assert(seq![parts[0]] + rest =~= parts);
    }
}

/// Append texts with `sep` between them.
pub fn push_joined(buf: &mut String, parts: &Vec<String>, sep: char)
    ensures
        final(buf)@ == old(buf)@ + joined_with(text_views(parts@), sep),
{
    let ghost views = text_views(parts@);
    let mut i: usize = 0;
    proof {
        assert(buf@ =~= old(buf)@ + joined_with(views.take(0), sep));
    }
    while i < parts.len()
        invariant
            i <= parts@.len(),
            views == text_views(parts@),
            buf@ == old(buf)@ + joined_with(views.take(i as int), sep),
        decreases parts.len() - i,
    {
        proof {
            assert(views.take(i + 1).drop_last() =~= views.take(i as int));
            assert(views.take(i + 1).last() == parts@[i as int]@);
        }
        if i > 0 {
            buf.push(sep);
        }
        buf.append(parts[i].as_str());
        proof {
            assert(buf@ =~= old(buf)@ + joined_with(views.take(i + 1), sep));
        }
        i = i + 1;
    }
    proof {
        assert(views.take(views.len() as int) =~= views);
    }
}

/// The decimal text of an integer.
pub open spec fn signed_decimal(n: int) -> Seq<char> {
    if n < 0 {
        seq!['-'] + decimal((-n) as nat)
    } else {
        decimal(n as nat)
    }
}

pub fn push_signed(out: &mut String, n: i64)
    ensures
        final(out)@ == old(out)@ + signed_decimal(n as int),
{
    if n < 0 {
        let magnitude: u64 = (-(n + 1)) as u64 + 1;
        out.push('-');
        push_decimal(out, magnitude);
        proof {
            assert(out@ =~= old(out)@ + signed_decimal(n as int));
        }
    } else {
        push_decimal(out, n as u64);
    }
}

/// The value of a sign, if there is one, and digits.
pub open spec fn parsed_i64(s: Seq<char>) -> Option<i64> {
    let negative = s.len() > 0 && s[0] == '-';
    let body = if s.len() > 0 && (s[0] == '-' || s[0] == '+') {
        s.subrange(1, s.len() as int)
    } else {
        s
    };
    if body.len() == 0 || !all_digits(body) {
        None
    } else if negative {
        if digits_value(body) <= i64::MAX as nat + 1 {
            Some((-(digits_value(body) as int)) as i64)
        } else {
            None
        }
    } else if digits_value(body) <= i64::MAX as nat {
        Some(digits_value(body) as i64)
    } else {
        None
    }
}

/// Read a 64-bit signed decimal number.
pub fn parse_i64(s: &Vec<char>) -> (r: Option<i64>)
    ensures
        r == parsed_i64(s@),
{
    let n: usize = s.len();
    if n == 0 {
        return None;
    }
    let negative = s[0] == '-';
    let start: usize = if negative || s[0] == '+' {
        1
    } else {
        0
    };
    let body = slice_chars(s, start, n);
    proof {
        assert(start == 0 ==> body@ =~= s@);
    }
    if body.len() == 0 {
        return None;
    }
    let first: u32 = code_of(body[0]);
    if first < 48 || first > 57 {
        proof {
            assert(!is_digit(body@[0]));
        }
        return None;
    }
    match parse_u64(&body) {
        None => None,
        Some(v) => {
            if negative {
                if v == 0x8000_0000_0000_0000 {
                    Some(i64::MIN)
                } else if v < 0x8000_0000_0000_0000 {
                    Some(-(v as i64))
                } else {
                    None
                }
            } else if v < 0x8000_0000_0000_0000 {
                Some(v as i64)
            } else {
                None
            }
        },
    }
}

/// Reading the decimal text of an integer gives the integer back.
pub proof fn law_signed_decimal_parses_back(n: i64)
    ensures
        parsed_i64(signed_decimal(n as int)) == Some(n),
{
    let magnitude: nat = if n < 0 {
        (-(n as int)) as nat
    } else {
        n as nat
    };
    lemma_decimal_shape(magnitude);
    let d = decimal(magnitude);
    assert(is_digit(d[0]));
    if n < 0 {
        let s = signed_decimal(n as int);
        assert(s.subrange(1, s.len() as int) =~= d);
    }
}

/// The path of `component` under `base`: an absolute component stands alone.
pub open spec fn joined_path(base: Seq<char>, component: Seq<char>) -> Seq<char> {
    if component.len() > 0 && component[0] == '/' {
        component
    } else if base.len() == 0 || base.last() == '/' {
        base + component
    } else {
        base + seq!['/'] + component
    }
}

pub fn join_path(base: &str, component: &str) -> (r: String)
    ensures
        r@ == joined_path(base@, component@),
{
    if component.unicode_len() > 0 && component.get_char(0) == '/' {
        return component.to_owned();
    }
    let n: usize = base.unicode_len();
    let mut r = base.to_owned();
    if n > 0 && base.get_char(n - 1) != '/' {
        r.push('/');
        proof {
            assert(base@.push('/') =~= base@ + seq!['/']);
        }
    }
    r.append(component);
    r
}

/// A byte string of its own with the same bytes.
pub fn copy_bytes(b: &[u8]) -> (r: Vec<u8>)
    ensures
        r@ == b@,
{
    let mut r: Vec<u8> = Vec::new();
    let mut i: usize = 0;
    while i < b.len()
        invariant
            i <= b@.len(),
            r@ == b@.take(i as int),
        decreases b.len() - i,
    {
        r.push(b[i]);
        proof {
            assert(b@.take(i + 1) =~= b@.take(i as int).push(b@[i as int]));
        }
        i = i + 1;
    }
    proof {
        assert(b@.take(b@.len() as int) =~= b@);
    }
    r
}

/// A number is read with or without a plus sign; whatever holds another character,
/// or nothing, is no number.
pub proof fn law_which_texts_are_numbers(n: u64, s: Seq<char>, i: int)
    ensures
        parsed_u64(seq!['+'] + decimal(n as nat)) == Some(n),
        parsed_u64(Seq::empty()) is None,
        0 < i < s.len() && !(0x30 <= s[i] as nat <= 0x39) ==> parsed_u64(s) is None && parsed_i64(s) is None,
        s.len() > 0 && !(0x30 <= s[0] as nat <= 0x39) && s[0] != '+' ==> parsed_u64(s) is None,
        s.len() > 0 && !(0x30 <= s[0] as nat <= 0x39) && s[0] != '+' && s[0] != '-' ==> parsed_i64(s) is None,
{
    law_decimal_parses_back(n);
    lemma_decimal_shape(n as nat);
    let d = decimal(n as nat);
    let t = seq!['+'] + d;
    assert(t.subrange(1, t.len() as int) =~= d);
    if 0 < i < s.len() && !(0x30 <= s[i] as nat <= 0x39) {
        let rest = s.subrange(1, s.len() as int);
        assert(rest[i - 1] == s[i]);
        assert(!is_digit(rest[i - 1]));
        assert(!is_digit(s[i]));
    }
    if s.len() > 0 && !(0x30 <= s[0] as nat <= 0x39) {
        assert(!is_digit(s[0]));
    }
}

/// A path goes on with a slash between its parts, one where the base ends in one
/// already; a part that starts at the root stands for itself.
pub proof fn law_how_paths_are_joined(base: Seq<char>, component: Seq<char>)
    ensures
        component.len() > 0 && component[0] == '/' ==> joined_path(base, component) == component,
        (component.len() == 0 || component[0] != '/') && base.len() > 0 ==> {
            let path = joined_path(base, component);
            let n = path.len() - component.len();
            &&& path.skip(n) == component
            &&& path[n - 1] == '/'
            &&& path.take(base.len() as int) == base
            &&& n == base.len() || n == base.len() + 1
            &&& n == base.len() <==> base.last() == '/'
        },
        (component.len() == 0 || component[0] != '/') && base.len() == 0 ==> joined_path(
            base,
            component,
        ) == component,
{
    let path = joined_path(base, component);
    if component.len() == 0 || component[0] != '/' {
        if base.len() > 0 {
            assert(path.skip(path.len() - component.len()) =~= component);
            assert(path.take(base.len() as int) =~= base);
        } else {
            assert(path =~= component);
        }
    }
}

} // verus!
