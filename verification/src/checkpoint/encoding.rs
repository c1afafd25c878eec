//! Percent-encoding of the names that become part of a checkpoint file name.
//!
//! The encoded form never holds the `_` that separates the parts of a stem.
use crate::hex;
use crate::text;
use vstd::prelude::*;
use vstd::string::*;
use vstd::utf8::*;

verus! {

/// A byte that stands for itself: a letter, a digit, `-` or `.`.
pub open spec fn is_plain(b: u8) -> bool {
    0x30 <= b <= 0x39 || 0x41 <= b <= 0x5a || 0x61 <= b <= 0x7a || b == 0x2d || b == 0x2e
}

/// One byte, encoded: itself, or `%` and two digits.
pub open spec fn encoded_byte(b: u8) -> Seq<char> {
    if is_plain(b) {
        seq![b as char]
    } else {
        seq!['%', hex::hex_digit((b / 16) as nat), hex::hex_digit((b % 16) as nat)]
    }
}

pub open spec fn encoded_bytes(bytes: Seq<u8>) -> Seq<char>
    decreases bytes.len(),
{
    if bytes.len() == 0 {
        Seq::empty()
    } else {
        encoded_bytes(bytes.drop_last()) + encoded_byte(bytes.last())
    }
}

/// The encoded form of a name.
pub open spec fn encoded(raw: Seq<char>) -> Seq<char> {
    encoded_bytes(encode_utf8(raw))
}

/// Whether the text begins with `%` and two digits.
pub open spec fn begins_with_escape(s: Seq<char>) -> bool {
    s.len() >= 3 && s[0] == '%' && hex::hex_value(s[1]) is Some && hex::hex_value(s[2]) is Some
}

/// The bytes that encoded text stands for. A `%` that no two digits follow
/// stands for itself.
pub open spec fn decoded_bytes(s: Seq<char>) -> Seq<u8>
    decreases s.len(),
{
    if s.len() == 0 {
        Seq::empty()
    } else if begins_with_escape(s) {
        seq![(hex::hex_value(s[1])->0 * 16 + hex::hex_value(s[2])->0) as u8] + decoded_bytes(
            s.subrange(3, s.len() as int),
        )
    } else {
        encode_scalar(s[0] as u32) + decoded_bytes(s.subrange(1, s.len() as int))
    }
}

/// The name that encoded text stands for; text whose bytes are no UTF-8 stands
/// for itself.
pub open spec fn decoded(s: Seq<char>) -> Seq<char> {
    if valid_utf8(decoded_bytes(s)) {
        decode_utf8(decoded_bytes(s))
    } else {
        s
    }
}

/// Encode a name for use between the separators of a stem.
pub fn enc_component(raw: &str) -> (r: String)
    ensures
        r@ == encoded(raw@),
{
    let bytes = raw.as_bytes();
    let mut out = String::new();
    let mut i: usize = 0;
    while i < bytes.len()
        invariant
            i <= bytes@.len(),
            out@ == encoded_bytes(bytes@.take(i as int)),
        decreases bytes.len() - i,
    {
        let b: u8 = bytes[i];
        let ghost before = out@;
        if (48 <= b && b <= 57) || (65 <= b && b <= 90) || (97 <= b && b <= 122) || b == 45 || b
            == 46 {
            out.push(b as char);
            proof {
                assert(out@ =~= before + encoded_byte(b));
            }
        } else {
            out.push('%');
            out.push(hex::hex_digit_of(b / 16));
            out.push(hex::hex_digit_of(b % 16));
            proof {
                assert(out@ =~= before + encoded_byte(b));
            }
        }
        proof {
            assert(bytes@.take(i + 1).drop_last() =~= bytes@.take(i as int));
        }
        i = i + 1;
    }
    proof {
        assert(bytes@.take(bytes@.len() as int) =~= bytes@);
    }
    out
}

/// Decode what [`enc_component`] made.
pub fn dec_component(encoded: &str) -> (r: String)
    ensures
        r@ == decoded(encoded@),
{
    let s = text::to_chars(encoded);
    let n: usize = s.len();
    let mut out: Vec<u8> = Vec::new();
    let mut i: usize = 0;
    proof {
        assert(s@.subrange(0, n as int) =~= s@);
        assert(out@ + decoded_bytes(s@) =~= decoded_bytes(s@));
    }
    while i < n
        invariant
            n == s@.len(),
            i <= n,
            out@ + decoded_bytes(s@.subrange(i as int, n as int)) == decoded_bytes(s@),
        decreases n - i,
    {
        let ghost rest = s@.subrange(i as int, n as int);
        let ghost before = out@;
        if n - i >= 3 && s[i] == '%' {
            match (hex::hex_value_of(s[i + 1]), hex::hex_value_of(s[i + 2])) {
                (Some(hi), Some(lo)) => {
                    let b: u8 = hi * 16 + lo;
                    out.push(b);
                    proof {
                        assert(begins_with_escape(rest));
                        assert(rest.subrange(3, rest.len() as int) =~= s@.subrange(
                            i + 3,
                            n as int,
                        ));
                        assert(out@ =~= before + seq![b]);
                        assert(out@ + decoded_bytes(s@.subrange(i + 3, n as int)) =~= before
                            + decoded_bytes(rest));
                    }
                    i = i + 3;
                    continue ;
                },
                _ => {},
            }
        }
        let one = text::from_chars(&s, i, i + 1);
        let bytes = one.as_str().as_bytes();
        proof {
            assert(!begins_with_escape(rest));
            let c = seq![s@[i as int]];
            assert(one@ =~= c);
            assert(c.drop_first() =~= Seq::<char>::empty());
            assert(encode_utf8(c.drop_first()) =~= Seq::<u8>::empty());
            assert(encode_utf8(c) =~= encode_scalar(c[0] as u32));
            assert(rest.subrange(1, rest.len() as int) =~= s@.subrange(i + 1, n as int));
        }
        let mut k: usize = 0;
        while k < bytes.len()
            invariant
                k <= bytes@.len(),
                out@ == before + bytes@.take(k as int),
            decreases bytes.len() - k,
        {
            out.push(bytes[k]);
            proof {
                assert(before + bytes@.take(k + 1) =~= (before + bytes@.take(k as int)).push(
                    bytes@[k as int],
                ));
            }
            k = k + 1;
        }
        proof {
            assert(bytes@.take(bytes@.len() as int) =~= bytes@);
            assert(out@ + decoded_bytes(s@.subrange(i + 1, n as int)) =~= before + decoded_bytes(
                rest,
            ));
        }
        i = i + 1;
    }
    proof {
        assert(s@.subrange(n as int, n as int) =~= Seq::<char>::empty());
        assert(out@ =~= decoded_bytes(s@));
    }
    match text::string_from_utf8(out) {
        Ok(r) => r,
        Err(_) => encoded.to_owned(),
    }
}

proof fn lemma_encoded_cons(bytes: Seq<u8>)
    requires
        bytes.len() > 0,
    ensures
        encoded_bytes(bytes) == encoded_byte(bytes[0]) + encoded_bytes(bytes.drop_first()),
    decreases bytes.len(),
{
    if bytes.len() == 1 {
        assert(bytes.drop_last() =~= Seq::<u8>::empty());
        assert(bytes.drop_first() =~= Seq::<u8>::empty());
        assert(encoded_bytes(bytes.drop_last()) =~= Seq::<char>::empty());
        assert(encoded_bytes(bytes.drop_first()) =~= Seq::<char>::empty());
        assert(encoded_bytes(bytes) =~= encoded_byte(bytes[0]));
        assert(encoded_byte(bytes[0]) + encoded_bytes(bytes.drop_first()) =~= encoded_byte(
            bytes[0],
        ));
    } else {
        let init = bytes.drop_last();
        lemma_encoded_cons(init);
        assert(init.drop_first() =~= bytes.drop_first().drop_last());
        assert(bytes.drop_first().last() == bytes.last());
        assert(encoded_bytes(bytes) =~= encoded_byte(bytes[0]) + encoded_bytes(
            bytes.drop_first(),
        ));
    }
}

proof fn lemma_decode_step(b: u8, rest: Seq<char>)
    ensures
        decoded_bytes(encoded_byte(b) + rest) == seq![b] + decoded_bytes(rest),
{
    let s = encoded_byte(b) + rest;
    if is_plain(b) {
        let c = b as char;
        assert(s[0] == c);
        assert(c != '%');
        let one = seq![c];
        assert(is_ascii_chars(one));
        is_ascii_chars_encode_utf8(one);
        assert(one.drop_first() =~= Seq::<char>::empty());
        assert(encode_utf8(one.drop_first()) =~= Seq::<u8>::empty());
        assert(encode_utf8(one) =~= encode_scalar(c as u32));
        assert(encode_scalar(c as u32) =~= seq![b]) by {
            assert(encode_utf8(one)[0] == one[0] as u8);
        }
        assert(s.subrange(1, s.len() as int) =~= rest);
    } else {
        assert(s[0] == '%');
        assert(s[1] == hex::hex_digit((b / 16) as nat));
        assert(s[2] == hex::hex_digit((b % 16) as nat));
        assert(hex::hex_value(s[1]) == Some((b / 16) as nat));
        assert(hex::hex_value(s[2]) == Some((b % 16) as nat));
        assert(s.subrange(3, s.len() as int) =~= rest);
        assert(begins_with_escape(s));
    }
}

proof fn lemma_decoded_bytes(bytes: Seq<u8>)
    ensures
        decoded_bytes(encoded_bytes(bytes)) == bytes,
    decreases bytes.len(),
{
    if bytes.len() > 0 {
        lemma_encoded_cons(bytes);
        lemma_decode_step(bytes[0], encoded_bytes(bytes.drop_first()));
        lemma_decoded_bytes(bytes.drop_first());
        assert(seq![bytes[0]] + bytes.drop_first() =~= bytes);
    } else {
        assert(encoded_bytes(bytes) =~= Seq::<char>::empty());
        assert(bytes =~= Seq::<u8>::empty());
    }
}

/// Decoding an encoded name gives the name back, whatever it holds.
pub proof fn law_decoding_inverts_encoding(raw: Seq<char>)
    ensures
        decoded(encoded(raw)) == raw,
{
    lemma_decoded_bytes(encode_utf8(raw));
    encode_utf8_valid_utf8(raw);
    encode_utf8_decode_utf8(raw);
}

/// An encoded name holds neither the stem separator nor a path separator.
pub proof fn law_encoded_has_no_separator(raw: Seq<char>)
    ensures
        !encoded(raw).contains('_'),
        !encoded(raw).contains('/'),
{
    lemma_encoded_chars(encode_utf8(raw));
}

proof fn lemma_encoded_chars(bytes: Seq<u8>)
    ensures
        forall|i: int|
            0 <= i < encoded_bytes(bytes).len() ==> #[trigger] encoded_bytes(bytes)[i] != '_'
                && encoded_bytes(bytes)[i] != '/',
    decreases bytes.len(),
{
    if bytes.len() > 0 {
        lemma_encoded_chars(bytes.drop_last());
        let b = bytes.last();
        let s = encoded_bytes(bytes);
        let t = encoded_bytes(bytes.drop_last());
        assert forall|i: int| 0 <= i < s.len() implies #[trigger] s[i] != '_' && s[i] != '/' by {
            if i < t.len() {
                assert(s[i] == t[i]);
            } else {
                assert(s[i] == encoded_byte(b)[i - t.len()]);
            }
        }
    }
}

/// Letters, digits, dashes and dots are kept; every other byte becomes a percent
/// sign and two digits. Bytes are taken one by one.
pub proof fn law_which_bytes_are_kept(a: Seq<u8>, b: u8)
    ensures
        encoded_bytes(a.push(b)).take(encoded_bytes(a).len() as int) == encoded_bytes(a),
        ({
            let own = encoded_bytes(a.push(b)).skip(encoded_bytes(a).len() as int);
            let kept = ('0' <= b as char <= '9') || ('A' <= b as char <= 'Z') || ('a' <= b as char
                <= 'z') || b as char == '-' || b as char == '.';
            &&& kept ==> own == seq![b as char]
            &&& !kept ==> own.len() == 3 && own[0] == '%' && hex::hex_value(own[1]) is Some
                && hex::hex_value(own[2]) is Some && hex::hex_value(own[1])->0 * 16
                + hex::hex_value(own[2])->0 == b
        }),
{
    assert(a.push(b).drop_last() =~= a);
    let own = encoded_byte(b);
    assert(encoded_bytes(a.push(b)) == encoded_bytes(a) + own);
    assert((encoded_bytes(a) + own).take(encoded_bytes(a).len() as int) =~= encoded_bytes(a));
    assert((encoded_bytes(a) + own).skip(encoded_bytes(a).len() as int) =~= own);
}

} // verus!
