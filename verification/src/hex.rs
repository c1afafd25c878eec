//! Hexadecimal text of byte strings and of row numbers.
use crate::ids::Surrogate;
use crate::text;
use vstd::prelude::*;
use vstd::string::*;

verus! {

/// The lower-case hexadecimal character of a digit below sixteen.
pub open spec fn hex_digit(d: nat) -> char {
    if d < 10 {
        (d + 0x30) as char
    } else {
        (d + 0x57) as char
    }
}

/// The digit that a hexadecimal character of either case stands for.
pub open spec fn hex_value(c: char) -> Option<nat> {
    let code = c as nat;
    if 0x30 <= code <= 0x39 {
        Some((code - 0x30) as nat)
    } else if 0x61 <= code <= 0x66 {
        Some((code - 0x57) as nat)
    } else if 0x41 <= code <= 0x46 {
        Some((code - 0x37) as nat)
    } else {
        None
    }
}

/// Two lower-case digits for each byte.
pub open spec fn hex_text(bytes: Seq<u8>) -> Seq<char>
    decreases bytes.len(),
{
    if bytes.len() == 0 {
        Seq::empty()
    } else {
        hex_text(bytes.drop_last()) + seq![
            hex_digit((bytes.last() / 16) as nat),
            hex_digit((bytes.last() % 16) as nat),
        ]
    }
}

pub open spec fn all_hex(s: Seq<char>) -> bool {
    forall|i: int| 0 <= i < s.len() ==> hex_value(#[trigger] s[i]) is Some
}

/// The byte at position `i` of a text of digit pairs.
pub open spec fn hex_byte(s: Seq<char>, i: int) -> u8 {
    (hex_value(s[2 * i])->0 * 16 + hex_value(s[2 * i + 1])->0) as u8
}

/// The bytes that a text of digit pairs stands for; none where a digit is
/// missing or a character is no digit.
pub open spec fn unhex(s: Seq<char>) -> Option<Seq<u8>> {
    if s.len() % 2 == 0 && all_hex(s) {
        Some(Seq::new((s.len() / 2) as nat, |i: int| hex_byte(s, i)))
    } else {
        None
    }
}

pub fn hex_digit_of(d: u8) -> (r: char)
    requires
        d < 16,
    ensures
        r == hex_digit(d as nat),
{
    if d < 10 {
        (d + 48) as char
    } else {
        (d + 87) as char
    }
}

pub fn hex_value_of(c: char) -> (r: Option<u8>)
    ensures
        match r {
            Some(d) => hex_value(c) == Some(d as nat) && d < 16,
            None => hex_value(c) is None,
        },
{
    let code: u32 = text::code_of(c);
    if code >= 48 && code <= 57 {
        Some((code - 48) as u8)
    } else if code >= 97 && code <= 102 {
        Some((code - 87) as u8)
    } else if code >= 65 && code <= 70 {
        Some((code - 55) as u8)
    } else {
        None
    }
}

/// Append two lower-case digits for each byte.
pub fn push_hex(out: &mut String, bytes: &[u8])
    ensures
        final(out)@ == old(out)@ + hex_text(bytes@),
{
    let mut i: usize = 0;
    proof {
        assert(out@ + hex_text(bytes@.take(0)) =~= out@);
    }
    while i < bytes.len()
        invariant
            i <= bytes@.len(),
            out@ == old(out)@ + hex_text(bytes@.take(i as int)),
        decreases bytes.len() - i,
    {
        let b: u8 = bytes[i];
        out.push(hex_digit_of(b / 16));
        out.push(hex_digit_of(b % 16));
        proof {
            let t = bytes@.take(i + 1);
            assert(t.drop_last() =~= bytes@.take(i as int));
            assert(t.last() == b);
            assert(out@ =~= old(out)@ + hex_text(t));
        }
        i = i + 1;
    }
    proof {
        assert(bytes@.take(bytes@.len() as int) =~= bytes@);
    }
}

/// Lower-case hexadecimal text of a byte string.
pub fn hex_string(bytes: &[u8]) -> (r: String)
    ensures
        r@ == hex_text(bytes@),
{
    let mut r = String::new();
    push_hex(&mut r, bytes);
    proof {
        assert(Seq::<char>::empty() + hex_text(bytes@) =~= hex_text(bytes@));
    }
    r
}

/// Read digit pairs back into bytes.
pub fn unhex_chars(s: &Vec<char>) -> (r: Option<Vec<u8>>)
    ensures
        match r {
            Some(b) => unhex(s@) == Some(b@),
            None => unhex(s@) is None,
        },
{
    if s.len() % 2 != 0 {
        return None;
    }
    let mut out: Vec<u8> = Vec::new();
    let mut i: usize = 0;
    while i < s.len()
        invariant
            i <= s@.len(),
            i % 2 == 0,
            s@.len() % 2 == 0,
            out@.len() == i / 2,
            forall|j: int| 0 <= j < i ==> hex_value(#[trigger] s@[j]) is Some,
            forall|j: int| 0 <= j < i / 2 ==> #[trigger] out@[j] == hex_byte(s@, j),
        decreases s.len() - i,
    {
        let hi = match hex_value_of(s[i]) {
            Some(d) => d,
            None => {
                proof {
                    assert(hex_value(s@[i as int]) is None);
                }
                return None;
            },
        };
        let lo = match hex_value_of(s[i + 1]) {
            Some(d) => d,
            None => {
                proof {
                    assert(hex_value(s@[i + 1]) is None);
                }
                return None;
            },
        };
        out.push(hi * 16 + lo);
        i = i + 2;
    }
    proof {
        assert(out@ =~= Seq::new((s@.len() / 2) as nat, |k: int| hex_byte(s@, k)));
    }
    Some(out)
}

pub proof fn lemma_hex_len(bytes: Seq<u8>)
    ensures
        hex_text(bytes).len() == 2 * bytes.len(),
        all_hex(hex_text(bytes)),
        forall|i: int| 0 <= i < bytes.len() ==> #[trigger] hex_byte(hex_text(bytes), i) == bytes[i],
    decreases bytes.len(),
{
    if bytes.len() > 0 {
        let init = bytes.drop_last();
        let t = hex_text(bytes);
        let b = bytes.last();
        lemma_hex_len(init);
        assert forall|i: int| 0 <= i < bytes.len() implies #[trigger] hex_byte(t, i) == bytes[i] by {
            if i < init.len() {
                assert(t[2 * i] == hex_text(init)[2 * i]);
                assert(t[2 * i + 1] == hex_text(init)[2 * i + 1]);
                assert(hex_byte(hex_text(init), i) == init[i]);
            } else {
                assert(t[2 * i] == hex_digit((b / 16) as nat));
                assert(t[2 * i + 1] == hex_digit((b % 16) as nat));
            }
        }
        assert forall|i: int| 0 <= i < t.len() implies hex_value(#[trigger] t[i]) is Some by {
            if i < hex_text(init).len() {
                assert(t[i] == hex_text(init)[i]);
            }
        }
    }
}

/// Reading the hexadecimal text of a byte string gives the bytes back.
pub proof fn law_unhex_inverts_hex(bytes: Seq<u8>)
    ensures
        unhex(hex_text(bytes)) == Some(bytes),
{
    lemma_hex_len(bytes);
    let t = hex_text(bytes);
    assert(Seq::new((t.len() / 2) as nat, |i: int| hex_byte(t, i)) =~= bytes);
}

/// The text of two byte strings in a row is their texts in a row, so that one
/// byte string beginning with another shows in the text.
pub proof fn law_hex_of_concatenation(a: Seq<u8>, b: Seq<u8>)
    ensures
        hex_text(a + b) == hex_text(a) + hex_text(b),
    decreases b.len(),
{
    if b.len() == 0 {
        assert(a + b =~= a);
        assert(hex_text(a) + hex_text(b) =~= hex_text(a));
    } else {
        law_hex_of_concatenation(a, b.drop_last());
        assert((a + b).drop_last() =~= a + b.drop_last());
        assert((a + b).last() == b.last());
        assert(hex_text(a + b) =~= hex_text(a) + hex_text(b));
    }
}

/// The hexadecimal number that a run of digits denotes.
pub open spec fn hex_number(s: Seq<char>) -> nat
    decreases s.len(),
{
    if s.len() == 0 {
        0
    } else {
        hex_number(s.drop_last()) * 16 + hex_value(s.last())->0
    }
}

/// The 32-bit number that hexadecimal text reads as, if it reads as one.
pub open spec fn parsed_hex_u32(s: Seq<char>) -> Option<u32> {
    let body = text::unsigned_body(s);
    if body.len() > 0 && all_hex(body) && hex_number(body) <= u32::MAX {
        Some(hex_number(body) as u32)
    } else {
        None
    }
}

proof fn lemma_hex_prefix_bound(s: Seq<char>, n: int)
    requires
        all_hex(s),
        0 <= n <= s.len(),
    ensures
        hex_number(s.take(n)) <= hex_number(s),
    decreases s.len() - n,
{
    if n < s.len() {
        lemma_hex_prefix_bound(s, n + 1);
        assert(s.take(n + 1).drop_last() =~= s.take(n));
    } else {
        assert(s.take(n) =~= s);
    }
}

/// Read a 32-bit hexadecimal number.
pub fn parse_hex_u32(s: &Vec<char>) -> (r: Option<u32>)
    ensures
        r == parsed_hex_u32(s@),
{
    let n: usize = s.len();
    let start: usize = if n > 1 && s[0] == '+' {
        1
    } else {
        0
    };
    let ghost body = text::unsigned_body(s@);
    proof {
        assert(body == s@.subrange(start as int, n as int));
    }
    if start == n {
        return None;
    }
    let mut i: usize = start;
    let mut value: u32 = 0;
    while i < n
        invariant
            n == s@.len(),
            start <= i <= n,
            body == s@.subrange(start as int, n as int),
            body == text::unsigned_body(s@),
            body.len() > 0,
            all_hex(body.take(i - start)),
            value == hex_number(body.take(i - start)),
        decreases n - i,
    {
        let ghost k = i - start;
        proof {
            assert(body[k] == s@[i as int]);
            assert(body.take(k + 1).drop_last() =~= body.take(k));
            assert(body.take(k + 1).last() == s@[i as int]);
        }
        let d: u32 = match hex_value_of(s[i]) {
            Some(d) => d as u32,
            None => {
                proof {
                    assert(hex_value(body[k]) is None);
                }
                return None;
            },
        };
        if value > (u32::MAX - d) / 16 {
            proof {
                assert(value * 16 + d > u32::MAX);
                if all_hex(body) {
                    lemma_hex_prefix_bound(body, k + 1);
                }
            }
            return None;
        }
        value = value * 16 + d;
        proof {
            assert forall|j: int| 0 <= j < body.take(k + 1).len() implies hex_value(
                #[trigger] body.take(k + 1)[j],
            ) is Some by {
                if j < k {
                    assert(body.take(k)[j] == body[j]);
                }
            }
        }
        i = i + 1;
    }
    proof {
        assert(body.take(n - start) =~= body);
    }
    Some(value)
}

/// The four bytes of a number, most significant first.
pub open spec fn be_bytes(n: u32) -> Seq<u8> {
    seq![
        (n / 0x100_0000) as u8,
        (n / 0x1_0000 % 0x100) as u8,
        (n / 0x100 % 0x100) as u8,
        (n % 0x100) as u8,
    ]
}

/// The storage key of the row with surrogate `n`: eight lower-case digits.
pub open spec fn row_key(n: u32) -> Seq<char> {
    hex_text(be_bytes(n))
}

/// The storage key of a row.
pub fn surrogate_to_doc_id(s: Surrogate) -> (r: String)
    ensures
        r@ == row_key(s.0),
{
    let n: u32 = s.0;
    let bytes: [u8; 4] = [
        (n / 0x100_0000) as u8,
        (n / 0x1_0000 % 0x100) as u8,
        (n / 0x100 % 0x100) as u8,
        (n % 0x100) as u8,
    ];
    proof {
        assert(bytes@ =~= be_bytes(n));
    }
    hex_string(&bytes)
}

/// The surrogate a storage key names; none for a key that is not one.
pub fn doc_id_to_surrogate(doc_id: &str) -> (r: Option<Surrogate>)
    ensures
        match r {
            Some(s) => parsed_hex_u32(doc_id@) == Some(s.0),
            None => parsed_hex_u32(doc_id@) is None,
        },
{
    let chars = text::to_chars(doc_id);
    match parse_hex_u32(&chars) {
        Some(n) => Some(Surrogate(n)),
        None => None,
    }
}

/// The number of a text of byte pairs, taken two digits at a time.
proof fn lemma_hex_number_of_bytes(bytes: Seq<u8>)
    requires
        bytes.len() > 0,
    ensures
        hex_number(hex_text(bytes)) == hex_number(hex_text(bytes.drop_last())) * 256 + bytes.last(),
{
    lemma_hex_len(bytes);
    let t = hex_text(bytes);
    let u = hex_text(bytes.drop_last());
    let b = bytes.last();
    let a = u.push(hex_digit((b / 16) as nat));
    assert(t.drop_last() =~= a);
    assert(a.drop_last() =~= u);
    assert(hex_value(t.last()) == Some((b % 16) as nat));
    assert(hex_value(a.last()) == Some((b / 16) as nat));
    assert(hex_number(a) == hex_number(u) * 16 + (b / 16) as nat);
    assert(hex_number(t) == hex_number(a) * 16 + (b % 16) as nat);
    assert((b / 16) * 16 + (b % 16) == b);
}

/// The storage key of a row names that row.
#[verifier::spinoff_prover]
#[verifier::rlimit(60)]
pub proof fn law_row_key_parses_back(n: u32)
    ensures
        parsed_hex_u32(row_key(n)) == Some(n),
{
    let b = be_bytes(n);
    lemma_hex_len(b);
    let t = hex_text(b);
    assert(hex_value(t[0]) is Some);
    assert(text::unsigned_body(t) == t);
    let b3 = b.drop_last();
    let b2 = b3.drop_last();
    let b1 = b2.drop_last();
    lemma_hex_number_of_bytes(b);
    lemma_hex_number_of_bytes(b3);
    lemma_hex_number_of_bytes(b2);
    lemma_hex_number_of_bytes(b1);
    assert(b1.drop_last() =~= Seq::<u8>::empty());
    assert(hex_text(Seq::<u8>::empty()) =~= Seq::<char>::empty());
    assert(hex_number(hex_text(b1)) == b[0]);
    assert(hex_number(hex_text(b2)) == b[0] * 256 + b[1]);
    assert(hex_number(hex_text(b3)) == (b[0] * 256 + b[1]) * 256 + b[2]);
    assert(hex_number(t) == ((b[0] * 256 + b[1]) * 256 + b[2]) * 256 + b[3]);
    assert(hex_number(t) == n);
}

/// Whether a character is a digit or a small letter up to `f`.
pub open spec fn is_lower_digit(c: char) -> bool {
    0x30 <= c as nat <= 0x39 || 0x61 <= c as nat <= 0x66
}

/// The storage key of a row is eight digits without capitals.
pub proof fn law_a_row_key_is_eight_digits(n: u32)
    ensures
        row_key(n).len() == 8,
        forall|i: int| 0 <= i < 8 ==> is_lower_digit(#[trigger] row_key(n)[i]),
{
    let b = be_bytes(n);
    lemma_hex_len(b);
    lemma_lower_digits(b);
}

proof fn lemma_lower_digits(bytes: Seq<u8>)
    ensures
        forall|i: int|
            0 <= i < hex_text(bytes).len() ==> is_lower_digit(#[trigger] hex_text(bytes)[i]),
    decreases bytes.len(),
{
    if bytes.len() > 0 {
        let before = hex_text(bytes.drop_last());
        let b = bytes.last();
        lemma_lower_digits(bytes.drop_last());
        assert(is_lower_digit(hex_digit((b / 16) as nat)));
        assert(is_lower_digit(hex_digit((b % 16) as nat)));
        assert forall|i: int| 0 <= i < hex_text(bytes).len() implies is_lower_digit(
            #[trigger] hex_text(bytes)[i],
        ) by {
            if i < before.len() {
                assert(hex_text(bytes)[i] == before[i]);
            } else if i == before.len() {
                assert(hex_text(bytes)[i] == hex_digit((b / 16) as nat));
            } else {
                assert(hex_text(bytes)[i] == hex_digit((b % 16) as nat));
            }
        }
    }
}

} // verus!
