//! Helper functions for decoding the bodies of HTTP requests and responses.
//! Content coding reverses transformations such as gzip or deflate
//! compression, as listed in the `Content-Encoding` header; text coding
//! interprets the body bytes as text according to the `Content-Type`
//! header's charset parameter.

use crate::error::Error;
use std::io::Read;
use crate::headers::{
    find_char, header_tokens_spec, headers_remove, headers_seq, headers_set, headers_tokens,
    join_comma_space, name_eq, remove_matches, set_header_spec, trim,
};
use crate::num::{dec_digits_of, lemma_dec_digits_of, usize_to_dec_bytes};
use crate::request::cl_chars;
use crate::text::{
    all_ascii, ascii_chars_of, ascii_to_string, lemma_ascii_char_encode_contains, str_eq,
    str_eq_ignore_ascii_case, str_trim,
};
use vstd::prelude::*;
use vstd::slice::slice_to_vec;
use vstd::string::StringSliceAdditionalSpecFns;
use vstd::utf8::{decode_utf8, decode_utf8_encode_utf8, encode_utf8, encode_utf8_valid_utf8, encode_utf8_decode_utf8, valid_utf8};

verus! {

/// The name of the header that lists the content codings of a body.
pub open spec fn ce_chars() -> Seq<char> {
    "Content-Encoding"@
}

/// The name of the header that gives the media type of a body.
pub open spec fn ct_chars() -> Seq<char> {
    "Content-Type"@
}

/// What gzip decompression yields for the given bytes, or `None` where they
/// are no well-formed gzip stream.
pub uninterp spec fn gunzip(bytes: Seq<u8>) -> Option<Seq<u8>>;

/// What raw-deflate decompression yields for the given bytes, or `None`
/// where they are no well-formed deflate stream.
pub uninterp spec fn inflate(bytes: Seq<u8>) -> Option<Seq<u8>>;

/// Whether the text-encoding catalogue knows a charset label.
pub uninterp spec fn label_known(label: Seq<u8>) -> bool;

/// What strict text decoding yields for the given body under the encoding
/// the given charset label names: a function of the label and body bytes
/// alone, `None` on any malformed sequence.
pub uninterp spec fn text_decoded(label: Seq<u8>, body: Seq<u8>) -> Option<Seq<char>>;

/// Relies on flate2's GzDecoder with Read::read_to_end: the outcome depends
/// on the input bytes alone.
#[verifier::external_body]
fn gzip_decode_raw(body: &[u8]) -> (r: Result<Vec<u8>, std::io::Error>)
    ensures
        r is Ok <==> gunzip(body@) is Some,
        r matches Ok(v) ==> Some(v@) == gunzip(body@),
{
    let mut decoder = flate2::bufread::GzDecoder::new(body);
    let mut out = Vec::new();
    match decoder.read_to_end(&mut out) {
        Ok(_) => Ok(out),
        Err(e) => Err(e),
    }
}

/// Relies on flate2's DeflateDecoder with Read::read_to_end: the outcome
/// depends on the input bytes alone.
#[verifier::external_body]
fn deflate_decode_raw(body: &[u8]) -> (r: Result<Vec<u8>, std::io::Error>)
    ensures
        r is Ok <==> inflate(body@) is Some,
        r matches Ok(v) ==> Some(v@) == inflate(body@),
{
    let mut decoder = flate2::bufread::DeflateDecoder::new(body);
    let mut out = Vec::new();
    match decoder.read_to_end(&mut out) {
        Ok(_) => Ok(out),
        Err(e) => Err(e),
    }
}

/// Relies on encoding_rs::Encoding::for_label and
/// Encoding::decode_without_bom_handling_and_without_replacement: whether a
/// charset label is recognized, and what the named encoding strictly decodes
/// the body to, are functions of the label and body bytes alone.
#[verifier::external_body]
fn text_decode(label: &[u8], body: &[u8]) -> (r: Option<String>)
    ensures
        r is Some <==> (label_known(label@) && text_decoded(label@, body@) is Some),
        r matches Some(s) ==> Some(s@) == text_decoded(label@, body@),
{
    match encoding_rs::Encoding::for_label(label) {
        Some(encoding) => encoding.decode_without_bom_handling_and_without_replacement(body).map(
            |cow| String::from(cow),
        ),
        None => None,
    }
}

/// Attempt to reverse gzip decompression of the given bytes.
///
/// # Errors
///
/// `Error::BadContentEncoding` is returned if the bytes are no well-formed
/// gzip stream.
pub fn gzip_decode(body: &[u8]) -> (r: Result<Vec<u8>, Error>)
    ensures
        r is Ok <==> gunzip(body@) is Some,
        r matches Ok(v) ==> Some(v@) == gunzip(body@),
        r matches Err(e) ==> e is BadContentEncoding,
{
    match gzip_decode_raw(body) {
        Ok(v) => Ok(v),
        Err(e) => Err(Error::BadContentEncoding(e)),
    }
}

/// Attempt to reverse raw-deflate decompression of the given bytes.
///
/// # Errors
///
/// `Error::BadContentEncoding` is returned if the bytes are no well-formed
/// deflate stream.
pub fn deflate_decode(body: &[u8]) -> (r: Result<Vec<u8>, Error>)
    ensures
        r is Ok <==> inflate(body@) is Some,
        r matches Ok(v) ==> Some(v@) == inflate(body@),
        r matches Err(e) ==> e is BadContentEncoding,
{
    match deflate_decode_raw(body) {
        Ok(v) => Ok(v),
        Err(e) => Err(Error::BadContentEncoding(e)),
    }
}

/// The outcome of walking the content codings from the last applied to the
/// first.
pub enum SpecDecodeBody {
    /// Decoding stopped cleanly: the codings still listed and the body.
    Done { codings: Seq<Seq<char>>, body: Seq<u8> },
    /// A recognized coding failed to decode.
    Failed,
}

/// Walk the content codings in reverse order, reversing each recognized
/// coding, stopping at the first unrecognized one.
pub open spec fn decode_chain(codings: Seq<Seq<char>>, body: Seq<u8>) -> SpecDecodeBody
    decreases codings.len(),
{
    if codings.len() == 0 {
        SpecDecodeBody::Done { codings, body }
    } else if codings.last() == "gzip"@ {
        match gunzip(body) {
            Some(b) => decode_chain(codings.drop_last(), b),
            None => SpecDecodeBody::Failed,
        }
    } else if codings.last() == "deflate"@ {
        match inflate(body) {
            Some(b) => decode_chain(codings.drop_last(), b),
            None => SpecDecodeBody::Failed,
        }
    } else {
        SpecDecodeBody::Done { codings, body }
    }
}

/// Attempt to reverse any content coding performed on the given message
/// body, as listed in the `Content-Encoding` header of the given headers.
/// Codings are reversed from the last applied backwards; decoding stops at
/// the first unrecognized coding, which is not an error.  Codings
/// successfully decoded are removed from `Content-Encoding`, the header
/// itself is removed when every coding is decoded, and `Content-Length` is
/// reset to the decoded length.
///
/// # Errors
///
/// `Error::BadContentEncoding` is returned if a recognized coding fails to
/// decode.
pub fn decode_body(headers: &mut rhymessage::MessageHeaders, body: &[u8]) -> (r: Result<
    Vec<u8>,
    Error,
>)
    ensures
        ({
            let tokens0 = header_tokens_spec(headers_seq(*old(headers)), ce_chars());
            match decode_chain(tokens0, body@) {
                SpecDecodeBody::Failed => r matches Err(e) && e is BadContentEncoding,
                SpecDecodeBody::Done { codings, body: decoded } => {
                    &&& r matches Ok(v) && v@ == decoded
                    &&& ({
                        let after_ce = if codings.len() == 0 {
                            remove_matches(headers_seq(*old(headers)), ce_chars())
                        } else {
                            set_header_spec(
                                headers_seq(*old(headers)),
                                ce_chars(),
                                join_comma_space(codings),
                            )
                        };
                        headers_seq(*final(headers)) == set_header_spec(
                            after_ce,
                            cl_chars(),
                            ascii_chars_of(dec_digits_of(decoded.len())),
                        )
                    })
                },
            }
        }),
{
    let ghost hs0 = headers_seq(*old(headers));
    let mut codings = headers_tokens(headers, "Content-Encoding");
    let ghost tokens0 = header_tokens_spec(hs0, ce_chars());
    let mut body_vec = slice_to_vec(body);
    let mut done = false;
    proof {
        assert(codings@.len() == tokens0.len());
    }
    let ghost mut tseq = tokens0;
    while !done && codings.len() > 0
        invariant
            *headers == *old(headers),
            tokens0 == header_tokens_spec(headers_seq(*old(headers)), ce_chars()),
            tseq.len() == codings@.len(),
            forall|j: int| 0 <= j < codings@.len() ==> (#[trigger] codings@[j])@ == tseq[j],
            decode_chain(tokens0, body@) == decode_chain(tseq, body_vec@),
            done ==> (tseq.len() == 0 || (tseq.last() != "gzip"@ && tseq.last() != "deflate"@)),
        decreases codings@.len(), (if done { 0int } else { 1int }),
    {
        let last_index = codings.len() - 1;
        let is_gzip = str_eq(codings[last_index].as_str(), "gzip");
        let is_deflate = str_eq(codings[last_index].as_str(), "deflate");
        if is_gzip {
            let _popped = codings.pop();
            match gzip_decode(body_vec.as_slice()) {
                Ok(decoded) => {
                    proof {
                        tseq = tseq.drop_last();
                        assert(codings@ =~= codings@);
                    }
                    body_vec = decoded;
                },
                Err(e) => {
                    proof {
                        assert(decode_chain(tseq, body_vec@) == SpecDecodeBody::Failed);
                    }
                    return Err(e);
                },
            }
        } else if is_deflate {
            let _popped = codings.pop();
            match deflate_decode(body_vec.as_slice()) {
                Ok(decoded) => {
                    proof {
                        tseq = tseq.drop_last();
                    }
                    body_vec = decoded;
                },
                Err(e) => {
                    proof {
                        assert(decode_chain(tseq, body_vec@) == SpecDecodeBody::Failed);
                    }
                    return Err(e);
                },
            }
        } else {
            done = true;
        }
    }
    proof {
        assert(decode_chain(tseq, body_vec@) == SpecDecodeBody::Done {
            codings: tseq,
            body: body_vec@,
        });
    }
    if codings.len() == 0 {
        headers_remove(headers, "Content-Encoding");
    } else {
        let ghost kept = tseq;
        let mut joined = String::new();
        let mut k: usize = 0;
        while k < codings.len()
            invariant
                k <= codings@.len(),
                codings@.len() == kept.len(),
                forall|j: int| 0 <= j < codings@.len() ==> (#[trigger] codings@[j])@ == kept[j],
                joined@ == join_comma_space(kept.take(k as int)),
                0 < kept.len(),
            decreases codings@.len() - k,
        {
            if k > 0 {
                joined.append(", ");
            }
            joined.append(codings[k].as_str());
            proof {
                assert(kept.take(k + 1).drop_last() =~= kept.take(k as int));
                if k > 0 {
                    reveal_strlit(", ");
                    assert(", "@ =~= seq![',', ' ']);
                    assert(joined@ == join_comma_space(kept.take(k as int)) + seq![',', ' ']
                        + kept[k as int]);
                } else {
                    assert(kept.take(1)[0] == kept[0]);
                }
                assert(joined@ == join_comma_space(kept.take(k + 1)));
            }
            k = k + 1;
        }
        proof {
            assert(kept.take(kept.len() as int) =~= kept);
        }
        headers_set(headers, "Content-Encoding", joined.as_str());
    }
    let digits = usize_to_dec_bytes(body_vec.len());
    proof {
        lemma_dec_digits_of(body_vec@.len());
        assert(all_ascii(digits@));
    }
    let content_length_value = ascii_to_string(digits.as_slice());
    headers_set(headers, "Content-Length", content_length_value.as_str());
    Ok(body_vec)
}

/// Split a string at the first occurrence of an ASCII delimiter, the
/// delimiter itself belonging to neither part.  Only ASCII delimiters are
/// supported; every delimiter this crate splits at (`;`, `/`, `=`) is one.
pub fn split_at<'a>(composite: &'a str, delimiter: char) -> (r: Option<(&'a str, &'a str)>)
    requires
        (delimiter as u32) < 128,
    ensures
        r matches Some((a, b)) ==> composite@ == a@ + seq![delimiter] + b@ && !a@.contains(
            delimiter,
        ),
        r is None ==> !composite@.contains(delimiter),
{
    let bytes = composite.as_bytes();
    let d = delimiter as u8;
    proof {
        encode_utf8_valid_utf8(composite@);
        crate::lemma_find_byte(bytes@, d);
    }
    match crate::find_byte(bytes, d) {
        None => {
            proof {
                if composite@.contains(delimiter) {
                    lemma_ascii_char_encode_contains(composite@, delimiter);
                    let j = choose|j: int|
                        0 <= j < bytes@.len() && bytes@[j] == (delimiter as u32) as u8;
                    assert(bytes@[j] == d);
                    assert(false);
                }
            }
            None
        },
        Some(i) => {
            proof {
                assert(bytes@[i as int] == d);
                assert(d < 128);
                crate::request::lemma_split_after_ascii(bytes@, i as int);
                assert(vstd::utf8::is_char_boundary(bytes@, i as int)) by {
                    broadcast use vstd::utf8::is_char_boundary_iff_not_is_continuation_byte;

                    assert(!vstd::utf8::is_continuation_byte(bytes@[i as int]));
                }
            }
            let (before, at) = composite.split_at(i);
            proof {
                assert(vstd::utf8::is_char_boundary(at.spec_bytes(), 1)) by {
                    broadcast use vstd::utf8::is_char_boundary_iff_not_is_continuation_byte;
                    broadcast use vstd::utf8::is_char_boundary_start_end_of_seq;

                    assert(at.spec_bytes() =~= bytes@.subrange(i as int, bytes@.len() as int));
                    assert(vstd::utf8::valid_utf8(at.spec_bytes())) by {
                        broadcast use vstd::utf8::valid_utf8_split;

                    }
                    if at.spec_bytes().len() == 1 {
                        assert(vstd::utf8::is_char_boundary(at.spec_bytes(), 1));
                    } else {
                        assert(at.spec_bytes()[1] == bytes@[i + 1]);
                        assert(!vstd::utf8::is_continuation_byte(at.spec_bytes()[1])) by {
                            crate::request::lemma_split_after_ascii(bytes@, i as int);
                            let tail = bytes@.subrange(i as int, bytes@.len() as int);
                            assert(vstd::utf8::valid_utf8(tail));
                            assert(tail[0] == d && d < 128);
                            assert(vstd::utf8::valid_first_scalar(tail) && vstd::utf8::valid_utf8(
                                vstd::utf8::pop_first_scalar(tail),
                            )) by {
                                reveal_with_fuel(vstd::utf8::valid_utf8, 2);
                            }
                            assert(vstd::utf8::length_of_first_scalar(tail) == 1);
                            let rest2 = vstd::utf8::pop_first_scalar(tail);
                            assert(rest2[0] == tail[1]);
                            if rest2.len() > 0 {
                                assert(vstd::utf8::valid_first_scalar(rest2)) by {
                                    reveal_with_fuel(vstd::utf8::valid_utf8, 2);
                                }
                                assert(!vstd::utf8::is_continuation_byte(rest2[0])) by {
                                    assert(vstd::utf8::valid_leading_and_continuation_bytes_first_codepoint(
                                        rest2,
                                    ));
                                }
                            }
                            assert(tail[1] == at.spec_bytes()[1]);
                        }
                    }
                }
            }
            let (_, after) = at.split_at(1);
            proof {
                let n = bytes@.len() as int;
                assert(before.spec_bytes() =~= bytes@.subrange(0, i as int));
                assert(after.spec_bytes() =~= bytes@.subrange(i + 1, n)) by {
                    assert(at.spec_bytes() =~= bytes@.subrange(i as int, n));
                    assert(after.spec_bytes() =~= at.spec_bytes().subrange(
                        1,
                        at.spec_bytes().len() as int,
                    ));
                }
                encode_utf8_decode_utf8(before@);
                encode_utf8_decode_utf8(after@);
                encode_utf8_decode_utf8(composite@);
                assert(before@ == decode_utf8(bytes@.subrange(0, i as int)));
                assert(after@ == decode_utf8(bytes@.subrange(i + 1, n)));
                assert(composite@ == before@ + seq![bytes@[i as int] as char] + after@);
                assert(bytes@[i as int] as char == delimiter) by {
                    vstd::utf8::char_u32_cast(delimiter, delimiter as u32);
                }
                if before@.contains(delimiter) {
                    lemma_ascii_char_encode_contains(before@, delimiter);
                    let j = choose|j: int|
                        0 <= j < before.spec_bytes().len() && before.spec_bytes()[j] == (
                        delimiter as u32) as u8;
                    assert(bytes@[j] == d);
                    assert(false);
                }
            }
            Some((before, after))
        },
    }
}

/// The charset named by the parameters of a `Content-Type` value, each
/// parameter trimmed and split at `=`.
pub open spec fn charset_param(params: Seq<Seq<char>>) -> Option<Seq<char>>
    decreases params.len(),
{
    if params.len() == 0 {
        None
    } else {
        let p = trim(params[0]);
        match find_char(p, '=') {
            None => charset_param(params.drop_first()),
            Some(i) => if name_eq(p.take(i), "charset"@) {
                Some(p.skip(i + 1))
            } else {
                charset_param(params.drop_first())
            },
        }
    }
}

/// The pieces of `v` between semicolons, as `str::split(';')` yields them.
pub open spec fn split_semis(v: Seq<char>) -> Seq<Seq<char>>
    decreases v.len(),
{
    match find_char(v, ';') {
        None => seq![v],
        Some(i) => {
            if 0 <= i < v.len() {
                seq![v.take(i)] + split_semis(v.skip(i + 1))
            } else {
                seq![v]
            }
        },
    }
}

/// The charset a `Content-Type` value selects: present only when the
/// top-level type is `text`, named by the `charset` parameter, with
/// `iso-8859-1` assumed when the parameter is missing.
pub open spec fn selected_charset(ct: Seq<char>) -> Option<Seq<char>> {
    let split = match find_char(ct, ';') {
        Some(i) => (ct.take(i), ct.skip(i + 1)),
        None => (ct, Seq::<char>::empty()),
    };
    match find_char(split.0, '/') {
        None => None,
        Some(i) => if !name_eq(split.0.take(i), "text"@) {
            None
        } else {
            match charset_param(split_semis(split.1)) {
                Some(cs) => Some(cs),
                None => Some("iso-8859-1"@),
            }
        },
    }
}

/// The first occurrence of `d` in `a + [d] + b`, when `a` is free of it.
proof fn lemma_find_char_concat(a: Seq<char>, d: char, b: Seq<char>)
    requires
        !a.contains(d),
    ensures
        find_char(a + seq![d] + b, d) == Some(a.len() as int),
        (a + seq![d] + b).take(a.len() as int) == a,
        (a + seq![d] + b).skip(a.len() as int + 1) == b,
    decreases a.len(),
{
    let v = a + seq![d] + b;
    assert(v.take(a.len() as int) =~= a);
    assert(v.skip(a.len() as int + 1) =~= b);
    if a.len() == 0 {
        assert(v[0] == d);
    } else {
        assert(v[0] == a[0]);
        assert(a[0] != d) by {
            assert(a.contains(a[0]) ==> a.contains(d) || a[0] != d);
        }
        let a2 = a.drop_first();
        assert(!a2.contains(d)) by {
            if a2.contains(d) {
                let j = choose|j: int| 0 <= j < a2.len() && a2[j] == d;
                assert(a[j + 1] == d);
                assert(a.contains(d));
            }
        }
        lemma_find_char_concat(a2, d, b);
        assert(v.drop_first() =~= a2 + seq![d] + b);
    }
}

/// A sequence without `d` has no first occurrence of it.
proof fn lemma_find_char_absent(v: Seq<char>, d: char)
    requires
        !v.contains(d),
    ensures
        find_char(v, d) is None,
    decreases v.len(),
{
    if v.len() == 0 {
    } else {
        assert(v[0] != d);
        let v2 = v.drop_first();
        assert(!v2.contains(d)) by {
            if v2.contains(d) {
                let j = choose|j: int| 0 <= j < v2.len() && v2[j] == d;
                assert(v[j + 1] == d);
            }
        }
        lemma_find_char_absent(v2, d);
    }
}

/// Attempt to decode the given message body as text.  This works only when
/// the given headers hold a `Content-Type` whose top-level type is `text`,
/// the charset parameter (`iso-8859-1` is assumed when it is missing) names
/// an encoding that the text-encoding catalogue knows, and the bytes decode
/// cleanly in that encoding.
pub fn decode_body_as_text(headers: &rhymessage::MessageHeaders, body: &[u8]) -> (r: Option<
    String,
>)
    ensures
        ({
            match combined_value_of(headers, ct_chars()) {
                None => r is None,
                Some(ct) => match selected_charset(ct) {
                    None => r is None,
                    Some(cs) => {
                        &&& (r is Some <==> (label_known(encode_utf8(cs)) && text_decoded(
                            encode_utf8(cs),
                            body@,
                        ) is Some))
                        &&& (r matches Some(s) ==> Some(s@) == text_decoded(
                            encode_utf8(cs),
                            body@,
                        ))
                    },
                },
            }
        }),
{
    let content_type = match crate::headers::headers_value(headers, "Content-Type") {
        Some(ct) => ct,
        None => {
            return None;
        },
    };
    let ghost ct = content_type@;
    let (type_subtype, parameters): (&str, &str) = match split_at(content_type.as_str(), ';') {
        Some((ts, ps)) => {
            proof {
                lemma_find_char_concat(ts@, ';', ps@);
            }
            (ts, ps)
        },
        None => {
            proof {
                lemma_find_char_absent(ct, ';');
                reveal_strlit("");
                assert(""@ =~= Seq::<char>::empty());
            }
            (content_type.as_str(), "")
        },
    };
    proof {
        match find_char(ct, ';') {
            Some(i) => {
                assert(type_subtype@ == ct.take(i) && parameters@ == ct.skip(i + 1));
            },
            None => {
                assert(type_subtype@ == ct && parameters@ == Seq::<char>::empty());
            },
        }
    }
    let split_type = split_at(type_subtype, '/');
    match split_type {
        None => {
            proof {
                lemma_find_char_absent(type_subtype@, '/');
            }
            None
        },
        Some((main_type, subtype)) => {
            proof {
                lemma_find_char_concat(main_type@, '/', subtype@);
            }
            if !str_eq_ignore_ascii_case(main_type, "text") {
                return None;
            }
            let charset = charset_of_params(parameters);
            let label = charset.as_str().as_bytes();
            text_decode(label, body)
        },
    }
}

/// The value of the headers named `name`, as `header_value` combines it.
pub open spec fn combined_value_of(h: &rhymessage::MessageHeaders, name: Seq<char>) -> Option<
    Seq<char>,
> {
    crate::headers::combined_value(headers_seq(*h), name)
}

/// Find the `charset` parameter among the `;`-separated parameters, or fall
/// back to `iso-8859-1`.
fn charset_of_params(parameters: &str) -> (r: String)
    ensures
        ({
            match charset_param(split_semis(parameters@)) {
                Some(cs) => r@ == cs,
                None => r@ == "iso-8859-1"@,
            }
        }),
{
    let mut remaining: &str = parameters;
    loop
        invariant
            charset_param(split_semis(parameters@)) == charset_param(split_semis(remaining@)),
        decreases remaining@.len(),
    {
        let (piece, rest): (&str, Option<&str>) = match split_at(remaining, ';') {
            Some((p, rr)) => (p, Some(rr)),
            None => (remaining, None),
        };
        proof {
            match rest {
                Some(rr) => {
                    lemma_find_char_concat(piece@, ';', rr@);
                    assert(split_semis(remaining@) == seq![piece@] + split_semis(rr@));
                },
                None => {
                    lemma_find_char_absent(remaining@, ';');
                    assert(split_semis(remaining@) == seq![piece@]);
                },
            }
        }
        let trimmed = str_trim(piece);
        let eq_split = split_at(trimmed, '=');
        match eq_split {
            Some((pname, pvalue)) => {
                proof {
                    lemma_find_char_concat(pname@, '=', pvalue@);
                }
                if str_eq_ignore_ascii_case(pname, "charset") {
                    proof {
                        assert(charset_param(split_semis(remaining@)) == Some(pvalue@));
                    }
                    return pvalue.to_owned();
                }
            },
            None => {
                proof {
                    lemma_find_char_absent(trimmed@, '=');
                }
            },
        }
        match rest {
            Some(rr) => {
                proof {
                    assert((seq![piece@] + split_semis(rr@)).drop_first() =~= split_semis(rr@));
                }
                remaining = rr;
            },
            None => {
                proof {
                    assert(split_semis(remaining@) == seq![remaining@]);
                    assert(seq![remaining@].drop_first() =~= Seq::<Seq<char>>::empty());
                    assert(charset_param(Seq::<Seq<char>>::empty()) is None);
                    assert(charset_param(split_semis(remaining@)) is None);
                }
                return "iso-8859-1".to_owned();
            },
        }
    }
}

} // verus!
