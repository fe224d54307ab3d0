//! Verified text handling: the bridge between raw message bytes and the
//! strings that messages carry, stated with vstd's UTF-8 model.

use vstd::prelude::*;
use vstd::utf8::*;

verus! {

/// The characters of an all-ASCII byte sequence, one per byte.
pub open spec fn ascii_chars_of(s: Seq<u8>) -> Seq<char> {
    Seq::new(s.len(), |i: int| s[i] as char)
}

/// True when every byte of `s` is ASCII.
pub open spec fn all_ascii(s: Seq<u8>) -> bool {
    forall|i: int| 0 <= i < s.len() ==> #[trigger] s[i] < 128
}

/// An all-ASCII byte sequence is valid UTF-8 and decodes byte for byte.
pub proof fn lemma_ascii_utf8(s: Seq<u8>)
    requires
        all_ascii(s),
    ensures
        valid_utf8(s),
        decode_utf8(s) == ascii_chars_of(s),
    decreases s.len(),
{
    if s.len() == 0 {
        assert(decode_utf8(s) =~= ascii_chars_of(s));
    } else {
        assert(s[0] < 128);
        assert(is_leading_byte_width_1(s[0]));
        assert(length_of_first_scalar(s) == 1);
        assert(valid_first_scalar(s));
        let rest = pop_first_scalar(s);
        assert(rest =~= s.drop_first());
        assert(all_ascii(rest)) by {
            assert(forall|i: int| 0 <= i < rest.len() ==> rest[i] == s[i + 1]);
        }
        lemma_ascii_utf8(rest);
        assert(decode_first_scalar(s) == s[0] as u32) by {
            let b = s[0];
            assert(b < 128 ==> (b & 0x7F) == b) by (bit_vector);
        }
        assert(decode_utf8(s) == seq![decode_first_scalar(s) as char] + decode_utf8(rest));
        assert(decode_utf8(s) =~= ascii_chars_of(s));
    }
}

/// An ASCII character in a sequence leaves its byte in the sequence's
/// encoding.
pub proof fn lemma_ascii_char_encode_contains(chars: Seq<char>, c: char)
    requires
        chars.contains(c),
        (c as u32) < 128,
    ensures
        encode_utf8(chars).contains((c as u32) as u8),
    decreases chars.len(),
{
    let b = (c as u32) as u8;
    if chars[0] == c {
        assert(is_leading_byte_width_1(b)) by {
            let u = c as u32;
            assert(u < 128 ==> ((u & 0x7F) as u8) < 0x80 && (u & 0x7F) == u) by (bit_vector);
        }
        assert(has_width_1_encoding(c as u32));
        assert(encode_scalar(c as u32) == seq![leading_bits_width_1_byte(c as u32)]);
        assert(encode_utf8(chars)[0] == b) by {
            let u = c as u32;
            assert(u < 128 ==> ((u & 0x7F) as u8) == (u as u8)) by (bit_vector);
        }
        assert(encode_utf8(chars).contains(b));
    } else {
        let rest = chars.drop_first();
        let i = choose|i: int| 0 <= i < chars.len() && chars[i] == c;
        assert(rest[i - 1] == c);
        assert(rest.contains(c));
        lemma_ascii_char_encode_contains(rest, c);
        let j = choose|j: int| 0 <= j < encode_utf8(rest).len() && encode_utf8(rest)[j] == b;
        let head = encode_scalar(chars[0] as u32);
        assert(encode_utf8(chars)[head.len() + j] == b);
        assert(encode_utf8(chars).contains(b));
    }
}

/// The byte that encodes an ASCII scalar.
pub open spec fn leading_bits_width_1_byte(u: u32) -> u8 {
    vstd::utf8::leading_byte_width_1(u)
}

/// Relies on String::from_utf8: it succeeds exactly on valid UTF-8 and
/// decodes the bytes to the characters they encode.
#[verifier::external_body]
pub fn bytes_to_string(b: &[u8]) -> (r: Option<String>)
    ensures
        r is Some <==> valid_utf8(b@),
        r matches Some(s) ==> s@ == decode_utf8(b@),
{
    String::from_utf8(b.to_vec()).ok()
}

/// Compare two string slices for equality of their characters.
pub fn str_eq(a: &str, b: &str) -> (r: bool)
    ensures
        r == (a@ == b@),
{
    let r = crate::bytes_eq(a.as_bytes(), b.as_bytes());
    proof {
        if encode_utf8(a@) == encode_utf8(b@) {
            encode_utf8_decode_utf8(a@);
            encode_utf8_decode_utf8(b@);
            assert(a@ == b@);
        }
    }
    r
}

/// Relies on str::trim: it removes exactly the leading and trailing
/// white-space characters.
#[verifier::external_body]
pub fn str_trim<'a>(s: &'a str) -> (r: &'a str)
    ensures
        r@ == crate::headers::trim(s@),
{
    s.trim()
}

/// Relies on str::eq_ignore_ascii_case: an ASCII case-insensitive match of
/// the two strings.
#[verifier::external_body]
pub fn str_eq_ignore_ascii_case(a: &str, b: &str) -> (r: bool)
    ensures
        r == crate::headers::name_eq(a@, b@),
{
    a.eq_ignore_ascii_case(b)
}

/// Render an all-ASCII byte sequence as a string.
pub fn ascii_to_string(b: &[u8]) -> (r: String)
    requires
        all_ascii(b@),
    ensures
        r@ == ascii_chars_of(b@),
{
    proof {
        lemma_ascii_utf8(b@);
    }
    match bytes_to_string(b) {
        Some(s) => s,
        None => {
            proof {
                assert(false);
            }
            String::new()
        },
    }
}

} // verus!
