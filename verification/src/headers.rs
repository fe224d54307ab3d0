//! The header-block collaborator.  Parsing and generating header blocks is
//! delegated to `rhymessage::MessageHeaders`; this module gives that type a
//! mathematical model — an ordered sequence of (name, value) pairs of
//! characters — and trusted wrappers for the methods the message parsers
//! call, each with a contract drawn from that crate's source.

use rhymessage::Error as RhymessageError;
use vstd::prelude::*;
use vstd::utf8::encode_utf8;

verus! {

#[verifier::external_type_specification]
#[verifier::external_body]
pub struct ExMessageHeaders(rhymessage::MessageHeaders);

#[verifier::external_type_specification]
#[verifier::external_body]
pub struct ExRhymessageError(RhymessageError);

/// The ordered (name, value) pairs that a header collection holds.
pub uninterp spec fn headers_seq(h: rhymessage::MessageHeaders) -> Seq<(Seq<char>, Seq<char>)>;

/// The header-line length limit that a header collection was configured with.
pub uninterp spec fn headers_line_limit(h: rhymessage::MessageHeaders) -> Option<usize>;

/// The wire bytes that a header collection generates, or `None` where
/// generation fails (a header cannot be folded within the line limit).
pub uninterp spec fn headers_generated(h: rhymessage::MessageHeaders) -> Option<Seq<u8>>;

/// The outcome of the header-block collaborator's parse, a function of the
/// configured line limit and the input bytes alone: `None` where it fails,
/// otherwise whether the block completed and how many bytes were consumed.
pub uninterp spec fn headers_parse_result(limit: Option<usize>, raw: Seq<u8>) -> Option<
    (bool, int),
>;

/// The (name, value) pairs the collaborator's parse appends, a function of
/// the configured line limit and the input bytes alone.
pub uninterp spec fn headers_parse_added(limit: Option<usize>, raw: Seq<u8>) -> Seq<
    (Seq<char>, Seq<char>),
>;

/// The ASCII-lowercased form of a character: header names and tokens compare
/// case-insensitively.
pub open spec fn lower_char(c: char) -> char {
    if 65 <= c as u32 && c as u32 <= 90 {
        ((c as u32) + 32) as char
    } else {
        c
    }
}

/// The ASCII-lowercased form of a character sequence.
pub open spec fn lower_seq(v: Seq<char>) -> Seq<char> {
    Seq::new(v.len(), |i: int| lower_char(v[i]))
}

/// Case-insensitive equality of header names.
pub open spec fn name_eq(a: Seq<char>, b: Seq<char>) -> bool {
    lower_seq(a) == lower_seq(b)
}

/// True when some header in `hs` has the given name.
pub open spec fn has_name(hs: Seq<(Seq<char>, Seq<char>)>, name: Seq<char>) -> bool {
    exists|i: int| 0 <= i < hs.len() && name_eq(#[trigger] hs[i].0, name)
}

/// The value of the headers named `name` in `hs`: the values of all matching
/// headers joined with commas, or `None` when no header matches.
pub open spec fn combined_value(hs: Seq<(Seq<char>, Seq<char>)>, name: Seq<char>) -> Option<
    Seq<char>,
>
    decreases hs.len(),
{
    if hs.len() == 0 {
        None
    } else {
        let prior = combined_value(hs.drop_last(), name);
        if name_eq(hs.last().0, name) {
            match prior {
                None => Some(hs.last().1),
                Some(p) => Some(p + seq![','] + hs.last().1),
            }
        } else {
            prior
        }
    }
}

/// True when `c` has the Unicode white-space property, the set that
/// `char::is_whitespace` recognizes and header values are trimmed by.
pub open spec fn is_ws_char(c: char) -> bool {
    let u = c as u32;
    ||| u == 9
    ||| u == 10
    ||| u == 11
    ||| u == 12
    ||| u == 13
    ||| u == 32
    ||| u == 0x85
    ||| u == 0xA0
    ||| u == 0x1680
    ||| (0x2000 <= u && u <= 0x200A)
    ||| u == 0x2028
    ||| u == 0x2029
    ||| u == 0x202F
    ||| u == 0x205F
    ||| u == 0x3000
}

/// `v` without its leading white space.
pub open spec fn trim_start(v: Seq<char>) -> Seq<char>
    decreases v.len(),
{
    if v.len() > 0 && is_ws_char(v[0]) {
        trim_start(v.drop_first())
    } else {
        v
    }
}

/// `v` without its trailing white space.
pub open spec fn trim_end(v: Seq<char>) -> Seq<char>
    decreases v.len(),
{
    if v.len() > 0 && is_ws_char(v.last()) {
        trim_end(v.drop_last())
    } else {
        v
    }
}

/// `v` without leading and trailing white space.
pub open spec fn trim(v: Seq<char>) -> Seq<char> {
    trim_end(trim_start(v))
}

/// The index of the first occurrence of `c` in `v`, if any.
pub open spec fn find_char(v: Seq<char>, c: char) -> Option<int>
    decreases v.len(),
{
    if v.len() == 0 {
        None
    } else if v[0] == c {
        Some(0)
    } else {
        match find_char(v.drop_first(), c) {
            Some(i) => Some(i + 1),
            None => None,
        }
    }
}

/// The pieces of `v` between commas, a trailing empty piece dropped, as
/// `str::split_terminator(',')` yields them.
pub open spec fn split_commas(v: Seq<char>) -> Seq<Seq<char>>
    decreases v.len(),
{
    if v.len() == 0 {
        Seq::empty()
    } else {
        match find_char(v, ',') {
            None => seq![v],
            Some(i) => {
                if 0 <= i && i < v.len() {
                    let rest = v.skip(i + 1);
                    if rest.len() == 0 {
                        seq![v.take(i)]
                    } else {
                        seq![v.take(i)] + split_commas(rest)
                    }
                } else {
                    seq![v]
                }
            },
        }
    }
}

/// The comma-separated tokens of one header value: each piece trimmed and
/// lowercased.
pub open spec fn tokens_of_value(v: Seq<char>) -> Seq<Seq<char>> {
    Seq::new(split_commas(v).len(), |i: int| lower_seq(trim(split_commas(v)[i])))
}

/// The tokens of every header named `name` in `hs`, in header order.
pub open spec fn header_tokens_spec(hs: Seq<(Seq<char>, Seq<char>)>, name: Seq<char>) -> Seq<
    Seq<char>,
>
    decreases hs.len(),
{
    if hs.len() == 0 {
        Seq::empty()
    } else {
        (if name_eq(hs[0].0, name) {
            tokens_of_value(hs[0].1)
        } else {
            Seq::empty()
        }) + header_tokens_spec(hs.drop_first(), name)
    }
}

/// True when the lowercased `token` is among the tokens of the headers named
/// `name` in `hs`.
pub open spec fn token_present(
    hs: Seq<(Seq<char>, Seq<char>)>,
    name: Seq<char>,
    token: Seq<char>,
) -> bool {
    header_tokens_spec(hs, name).contains(lower_seq(token))
}

/// `hs` with every header named `name` removed, order kept.
pub open spec fn remove_matches(hs: Seq<(Seq<char>, Seq<char>)>, name: Seq<char>) -> Seq<
    (Seq<char>, Seq<char>),
> {
    hs.filter(|p: (Seq<char>, Seq<char>)| !name_eq(p.0, name))
}

/// The effect of replacing the header named `name`: the first matching
/// header keeps its stored name and takes the new value, later matches are
/// removed, and when nothing matches the pair is appended.
pub open spec fn set_header_rec(
    hs: Seq<(Seq<char>, Seq<char>)>,
    name: Seq<char>,
    value: Seq<char>,
    seen: bool,
) -> Seq<(Seq<char>, Seq<char>)>
    decreases hs.len(),
{
    if hs.len() == 0 {
        if seen {
            Seq::empty()
        } else {
            seq![(name, value)]
        }
    } else if name_eq(hs[0].0, name) {
        if seen {
            set_header_rec(hs.drop_first(), name, value, true)
        } else {
            seq![(hs[0].0, value)] + set_header_rec(hs.drop_first(), name, value, true)
        }
    } else {
        seq![hs[0]] + set_header_rec(hs.drop_first(), name, value, seen)
    }
}

/// `hs` after `set_header(name, value)`.
pub open spec fn set_header_spec(
    hs: Seq<(Seq<char>, Seq<char>)>,
    name: Seq<char>,
    value: Seq<char>,
) -> Seq<(Seq<char>, Seq<char>)> {
    set_header_rec(hs, name, value, false)
}

/// Tokens joined with a comma and a space, as rewritten token lists are
/// re-emitted.
pub open spec fn join_comma_space(ts: Seq<Seq<char>>) -> Seq<char>
    decreases ts.len(),
{
    if ts.len() == 0 {
        Seq::empty()
    } else if ts.len() == 1 {
        ts[0]
    } else {
        join_comma_space(ts.drop_last()) + seq![',', ' '] + ts.last()
    }
}

/// The characters of a generated header block when no line limit folds it:
/// one `name: value` line per header, then a blank line.
pub open spec fn header_block_chars(hs: Seq<(Seq<char>, Seq<char>)>) -> Seq<char>
    decreases hs.len(),
{
    if hs.len() == 0 {
        seq!['\r', '\n']
    } else {
        hs[0].0 + seq![':', ' '] + hs[0].1 + seq!['\r', '\n'] + header_block_chars(hs.drop_first())
    }
}

/// Relies on rhymessage::MessageHeaders::new: a fresh collection holds no
/// headers and no line limit.
#[verifier::external_body]
pub fn headers_new() -> (r: rhymessage::MessageHeaders)
    ensures
        headers_seq(r) == Seq::<(Seq<char>, Seq<char>)>::empty(),
        headers_line_limit(r) is None,
{
    rhymessage::MessageHeaders::new()
}

/// Relies on rhymessage::MessageHeaders::set_line_limit: it stores the given
/// limit and touches nothing else.
#[verifier::external_body]
pub fn headers_set_line_limit(h: &mut rhymessage::MessageHeaders, limit: Option<usize>)
    ensures
        headers_seq(*final(h)) == headers_seq(*old(h)),
        headers_line_limit(*final(h)) == limit,
{
    h.set_line_limit(limit)
}

/// Relies on rhymessage::MessageHeaders::parse: its outcome — success or
/// failure, completion, bytes consumed (never more than the input), and the
/// headers appended — is a function of the line limit and the input bytes
/// alone, and it leaves the limit untouched.
#[verifier::external_body]
pub fn headers_parse(h: &mut rhymessage::MessageHeaders, raw: &[u8]) -> (r: Result<
    (bool, usize),
    RhymessageError,
>)
    ensures
        headers_line_limit(*final(h)) == headers_line_limit(*old(h)),
        headers_seq(*final(h)) == headers_seq(*old(h)) + headers_parse_added(
            headers_line_limit(*old(h)),
            raw@,
        ),
        ({
            match headers_parse_result(headers_line_limit(*old(h)), raw@) {
                None => r is Err,
                Some((complete, consumed)) => 0 <= consumed <= raw@.len() && r == Ok::<
                    _,
                    RhymessageError,
                >((complete, consumed as usize)),
            }
        }),
{
    match h.parse(raw) {
        Ok(rhymessage::ParseResults { status: rhymessage::ParseStatus::Complete, consumed }) => Ok(
            (true, consumed),
        ),
        Ok(
            rhymessage::ParseResults { status: rhymessage::ParseStatus::Incomplete, consumed },
        ) => Ok((false, consumed)),
        Err(e) => Err(e),
    }
}

/// True when every header's `name: value` line, with its line ending, fits
/// within the given line limit, so that generation never folds.
pub open spec fn lines_fit(hs: Seq<(Seq<char>, Seq<char>)>, limit: usize) -> bool {
    forall|i: int|
        0 <= i < hs.len() ==> encode_utf8(#[trigger] hs[i].0).len() + encode_utf8(hs[i].1).len()
            + 4 <= limit
}

/// Relies on rhymessage::MessageHeaders::generate: the output depends on the
/// headers and the line limit alone; without a line limit, or when every
/// line fits within it, the output is one `name: value` line per header
/// followed by a blank line.  A line limit below 2 is excluded: with a
/// header present, the collaborator's fold arithmetic would overflow there.
#[verifier::external_body]
pub fn headers_generate(h: &rhymessage::MessageHeaders) -> (r: Result<Vec<u8>, RhymessageError>)
    requires
        headers_line_limit(*h) matches Some(n) ==> n >= 2,
    ensures
        r is Ok <==> headers_generated(*h) is Some,
        headers_line_limit(*h) is None ==> r is Ok,
        (headers_line_limit(*h) matches Some(n) && lines_fit(headers_seq(*h), n)) ==> r is Ok,
        r matches Ok(v) ==> Some(v@) == headers_generated(*h) && (headers_line_limit(*h) is None
            ==> v@ == encode_utf8(header_block_chars(headers_seq(*h)))) && ((headers_line_limit(
            *h,
        ) matches Some(n) && lines_fit(headers_seq(*h), n)) ==> v@ == encode_utf8(
            header_block_chars(headers_seq(*h)),
        )),
{
    h.generate()
}

/// Relies on rhymessage::MessageHeaders::add_header: it appends the pair and
/// changes nothing else.
#[verifier::external_body]
pub fn headers_add(h: &mut rhymessage::MessageHeaders, name: &str, value: &str)
    ensures
        headers_seq(*final(h)) == headers_seq(*old(h)).push((name@, value@)),
        headers_line_limit(*final(h)) == headers_line_limit(*old(h)),
{
    h.add_header(rhymessage::Header { name: name.into(), value: value.to_string() })
}

/// Relies on rhymessage::MessageHeaders::remove_header: it retains exactly
/// the headers whose names do not match, keeping their order.
#[verifier::external_body]
pub fn headers_remove(h: &mut rhymessage::MessageHeaders, name: &str)
    ensures
        headers_seq(*final(h)) == remove_matches(headers_seq(*old(h)), name@),
        headers_line_limit(*final(h)) == headers_line_limit(*old(h)),
{
    h.remove_header(name)
}

/// Relies on rhymessage::MessageHeaders::set_header: the first matching
/// header takes the new value, later matches are removed, and when nothing
/// matches the pair is appended.
#[verifier::external_body]
pub fn headers_set(h: &mut rhymessage::MessageHeaders, name: &str, value: &str)
    ensures
        headers_seq(*final(h)) == set_header_spec(headers_seq(*old(h)), name@, value@),
        headers_line_limit(*final(h)) == headers_line_limit(*old(h)),
{
    h.set_header(name, value)
}

/// Relies on rhymessage::MessageHeaders::has_header: case-insensitive
/// presence of a name.
#[verifier::external_body]
pub fn headers_has(h: &rhymessage::MessageHeaders, name: &str) -> (r: bool)
    ensures
        r == has_name(headers_seq(*h), name@),
{
    h.has_header(name)
}

/// Relies on rhymessage::MessageHeaders::header_value: the values of all
/// matching headers joined with commas, `None` when no header matches.
#[verifier::external_body]
pub fn headers_value(h: &rhymessage::MessageHeaders, name: &str) -> (r: Option<String>)
    ensures
        r is Some <==> combined_value(headers_seq(*h), name@) is Some,
        r matches Some(s) ==> Some(s@) == combined_value(headers_seq(*h), name@),
{
    h.header_value(name)
}

/// Relies on rhymessage::MessageHeaders::header_tokens: the comma-separated
/// tokens of every matching header, each trimmed and lowercased.
#[verifier::external_body]
pub fn headers_tokens(h: &rhymessage::MessageHeaders, name: &str) -> (r: Vec<String>)
    ensures
        r@.len() == header_tokens_spec(headers_seq(*h), name@).len(),
        forall|i: int|
            0 <= i < r@.len() ==> #[trigger] r@[i]@ == header_tokens_spec(
                headers_seq(*h),
                name@,
            )[i],
{
    h.header_tokens(name)
}

/// Relies on rhymessage::MessageHeaders::has_header_token: whether the
/// lowercased token is among the tokens of the matching headers.
#[verifier::external_body]
pub fn headers_has_token(h: &rhymessage::MessageHeaders, name: &str, token: &str) -> (r: bool)
    ensures
        r == token_present(headers_seq(*h), name@, token@),
{
    h.has_header_token(name, token)
}

/// Relies on rhymessage::MessageHeaders::headers: it exposes the stored
/// (name, value) pairs in order.
#[verifier::external_body]
pub fn headers_to_pairs(h: &rhymessage::MessageHeaders) -> (r: Vec<(String, String)>)
    ensures
        r@.len() == headers_seq(*h).len(),
        forall|i: int|
            0 <= i < r@.len() ==> (#[trigger] r@[i]).0@ == headers_seq(*h)[i].0 && r@[i].1@
                == headers_seq(*h)[i].1,
{
    h.headers().iter().map(|hdr| (hdr.name.as_ref().to_string(), hdr.value.clone())).collect()
}

} // verus!
