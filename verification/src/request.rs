//! The HTTP/1.1 request parser and generator: a push-driven state machine
//! that consumes a request line, a header block, and an optional
//! fixed-length body from arbitrarily fragmented input, and a generator that
//! writes a request value back to wire bytes.

use crate::error::Error;
use crate::headers::{
    combined_value, header_block_chars, headers_generated, headers_generate, headers_line_limit,
    headers_new, headers_parse, headers_parse_added, headers_parse_result, headers_seq,
    headers_set_line_limit, headers_value, lines_fit,
};
use crate::num::{dec_value, is_dec_digits, parse_decimal};
use crate::text::bytes_to_string;
use crate::uri::{uri_accepts, uri_default, uri_parse, uri_render_of, uri_text, uri_to_string};
use crate::{find_byte, http11_bytes, is_crlf_at, is_http11, spec_find_byte, spec_find_crlf};
use vstd::prelude::*;
use vstd::slice::{slice_subrange, slice_to_vec};
use vstd::string::StringSliceAdditionalSpecFns;
use vstd::utf8::{
    decode_utf8, decode_utf8_split, encode_utf8, encode_utf8_valid_utf8,
    is_char_boundary_iff_not_is_continuation_byte, valid_utf8, valid_utf8_split,
};

verus! {

/// The name of the header that declares a fixed body length.
pub open spec fn cl_chars() -> Seq<char> {
    "Content-Length"@
}

/// Saturating addition within `usize`: how the running byte total grows.
pub open spec fn sat_add(a: nat, b: nat) -> nat {
    if a + b > usize::MAX {
        usize::MAX as nat
    } else {
        a + b
    }
}

/// True when the running total `t` fits the configured cap.
pub open spec fn within_cap(max: Option<usize>, t: nat) -> bool {
    match max {
        Some(m) => t <= m,
        None => true,
    }
}

/// What scanning for a CRLF-terminated start line yields under an optional
/// length limit.
pub enum SpecScan {
    /// No full line yet, within the limit.
    Incomplete,
    /// The limit was passed before the line ended; the attached bytes are
    /// the first `limit` bytes.
    TooLong { prefix: Seq<u8> },
    /// A full line: its bytes, and the count it consumes with its CRLF.
    Line { line: Seq<u8>, consumed: int },
}

/// Scan `input` for a start line of at most `limit` bytes before the CRLF.
pub open spec fn scan_start_line(input: Seq<u8>, limit: Option<usize>) -> SpecScan {
    match (spec_find_crlf(input), limit) {
        (Some(i), Some(l)) => if i > l {
            SpecScan::TooLong { prefix: input.take(l as int) }
        } else {
            SpecScan::Line { line: input.take(i), consumed: i + 2 }
        },
        (Some(i), None) => SpecScan::Line { line: input.take(i), consumed: i + 2 },
        (None, Some(l)) => if input.len() > l {
            SpecScan::TooLong { prefix: input.take(l as int) }
        } else {
            SpecScan::Incomplete
        },
        (None, None) => SpecScan::Incomplete,
    }
}

/// How a request line parses: `method SP target SP "HTTP/1.1"`.
pub enum SpecReqLine {
    /// No space delimits the method.
    NoMethodDelimiter,
    /// The method is empty.
    NoMethodOrExtraWhitespace,
    /// No space delimits the target.
    NoTargetDelimiter,
    /// The target is empty.
    NoTargetOrExtraWhitespace,
    /// The URI collaborator rejects the target text.
    BadUri,
    /// The remainder is not exactly `HTTP/1.1`.
    Protocol,
    /// A well-formed request line: the method bytes and the target bytes.
    Good { method: Seq<u8>, target: Seq<u8> },
}

/// Parse the bytes of a request line.
pub open spec fn parse_request_line_spec(line: Seq<u8>) -> SpecReqLine {
    match spec_find_byte(line, 32u8) {
        None => SpecReqLine::NoMethodDelimiter,
        Some(m) => if m == 0 {
            SpecReqLine::NoMethodOrExtraWhitespace
        } else {
            let at_target = line.skip(m + 1);
            match spec_find_byte(at_target, 32u8) {
                None => SpecReqLine::NoTargetDelimiter,
                Some(t) => if t == 0 {
                    SpecReqLine::NoTargetOrExtraWhitespace
                } else {
                    let target = at_target.take(t);
                    if !uri_accepts(decode_utf8(target)) {
                        SpecReqLine::BadUri
                    } else if at_target.skip(t + 1) != http11_bytes() {
                        SpecReqLine::Protocol
                    } else {
                        SpecReqLine::Good { method: line.take(m), target }
                    }
                },
            }
        },
    }
}

/// Splitting valid UTF-8 around an ASCII byte keeps both sides valid and
/// decodes them piecewise.
pub proof fn lemma_split_after_ascii(bytes: Seq<u8>, i: int)
    requires
        valid_utf8(bytes),
        0 <= i < bytes.len(),
        bytes[i] < 128,
    ensures
        valid_utf8(bytes.subrange(0, i)),
        valid_utf8(bytes.subrange(i + 1, bytes.len() as int)),
        decode_utf8(bytes) == decode_utf8(bytes.subrange(0, i)) + seq![bytes[i] as char]
            + decode_utf8(bytes.subrange(i + 1, bytes.len() as int)),
{
    broadcast use is_char_boundary_iff_not_is_continuation_byte;
    broadcast use valid_utf8_split;
    broadcast use decode_utf8_split;

    assert(!vstd::utf8::is_continuation_byte(bytes[i]));
    assert(vstd::utf8::is_char_boundary(bytes, i));
    assert(valid_utf8(bytes.subrange(0, i)));
    let suffix = bytes.subrange(i, bytes.len() as int);
    assert(valid_utf8(suffix));
    assert(suffix[0] == bytes[i]);
    assert(vstd::utf8::is_leading_byte_width_1(suffix[0]));
    assert(suffix.len() > 0);
    assert(vstd::utf8::valid_first_scalar(suffix) && valid_utf8(
        vstd::utf8::pop_first_scalar(suffix),
    )) by {
        reveal_with_fuel(valid_utf8, 2);
    }
    assert(vstd::utf8::length_of_first_scalar(suffix) == 1);
    assert(vstd::utf8::pop_first_scalar(suffix) =~= bytes.subrange(i + 1, bytes.len() as int));
    assert(decode_utf8(bytes) == decode_utf8(bytes.subrange(0, i)) + decode_utf8(suffix));
    assert(decode_utf8(suffix) == seq![vstd::utf8::decode_first_scalar(suffix) as char]
        + decode_utf8(bytes.subrange(i + 1, bytes.len() as int)));
    assert(vstd::utf8::decode_first_scalar(suffix) == bytes[i] as u32) by {
        let b = bytes[i];
        assert(b < 128 ==> (b & 0x7F) == b) by (bit_vector);
    }
    assert(seq![vstd::utf8::decode_first_scalar(suffix) as char] =~= seq![bytes[i] as char]) by {
        vstd::utf8::char_u32_cast(bytes[i] as char, bytes[i] as u32);
    }
}

/// Parse the request line `method SP target SP "HTTP/1.1"`, handing the
/// target text to the URI collaborator.
pub fn parse_request_line(request_line: &str) -> (r: Result<(String, rhymuri::Uri), Error>)
    ensures
        ({
            let bytes = request_line.spec_bytes();
            match parse_request_line_spec(bytes) {
                SpecReqLine::NoMethodDelimiter => r matches Err(e) && e matches
                    Error::RequestLineNoMethodDelimiter(s) && s@ == request_line@,
                SpecReqLine::NoMethodOrExtraWhitespace => r matches Err(e) && e matches
                    Error::RequestLineNoMethodOrExtraWhitespace(s) && s@ == request_line@,
                SpecReqLine::NoTargetDelimiter => r matches Err(e) && e matches
                    Error::RequestLineNoTargetDelimiter(s) && s@ == request_line@,
                SpecReqLine::NoTargetOrExtraWhitespace => r matches Err(e) && e matches
                    Error::RequestLineNoTargetOrExtraWhitespace(s) && s@ == request_line@,
                SpecReqLine::BadUri => r matches Err(e) && e is RequestTargetUriInvalid,
                SpecReqLine::Protocol => r matches Err(e) && e matches Error::RequestLineProtocol(
                    s,
                ) && s@ == request_line@,
                SpecReqLine::Good { method, target } => r matches Ok((m, u)) && m@ == decode_utf8(
                    method,
                ) && uri_text(u) == uri_render_of(decode_utf8(target)),
            }
        }),
{
    let bytes = request_line.as_bytes();
    let _bytes_len = bytes.len();
    proof {
        encode_utf8_valid_utf8(request_line@);
        assert(valid_utf8(bytes@));
    }
    match find_byte(bytes, 32u8) {
        None => Err(Error::RequestLineNoMethodDelimiter(request_line.to_owned())),
        Some(m) => {
            proof {
                crate::lemma_find_byte(bytes@, 32u8);
            }
            if m == 0 {
                return Err(Error::RequestLineNoMethodOrExtraWhitespace(request_line.to_owned()));
            }
            let at_target = slice_subrange(bytes, m + 1, bytes.len());
            proof {
                lemma_split_after_ascii(bytes@, m as int);
                assert(at_target@ =~= bytes@.skip(m + 1));
            }
            match find_byte(at_target, 32u8) {
                None => Err(Error::RequestLineNoTargetDelimiter(request_line.to_owned())),
                Some(t) => {
                    proof {
                        crate::lemma_find_byte(at_target@, 32u8);
                    }
                    if t == 0 {
                        return Err(
                            Error::RequestLineNoTargetOrExtraWhitespace(request_line.to_owned()),
                        );
                    }
                    let target_bytes = slice_subrange(at_target, 0, t);
                    proof {
                        lemma_split_after_ascii(at_target@, t as int);
                        assert(target_bytes@ =~= at_target@.take(t as int));
                        assert(target_bytes@ =~= at_target@.subrange(0, t as int));
                    }
                    let target_str = match bytes_to_string(target_bytes) {
                        Some(s) => s,
                        None => {
                            proof {
                                assert(false);
                            }
                            String::new()
                        },
                    };
                    match uri_parse(target_str.as_str()) {
                        Err(e) => Err(Error::RequestTargetUriInvalid(e)),
                        Ok(target) => {
                            let rest = slice_subrange(at_target, t + 1, at_target.len());
                            proof {
                                assert(rest@ =~= at_target@.skip(t + 1));
                            }
                            if !is_http11(rest) {
                                return Err(Error::RequestLineProtocol(request_line.to_owned()));
                            }
                            let method_bytes = slice_subrange(bytes, 0, m);
                            proof {
                                assert(method_bytes@ =~= bytes@.take(m as int));
                                assert(method_bytes@ =~= bytes@.subrange(0, m as int));
                            }
                            let method = match bytes_to_string(method_bytes) {
                                Some(s) => s,
                                None => {
                                    proof {
                                        assert(false);
                                    }
                                    String::new()
                                },
                            };
                            Ok((method, target))
                        },
                    }
                },
            }
        },
    }
}

/// The parsing state a request rests in.
#[derive(Debug, PartialEq, Eq, Structural)]
pub enum RequestState {
    /// Accumulating the declared number of body bytes.
    Body(usize),
    /// Awaiting the header block.
    Headers,
    /// Awaiting the request line.
    RequestLine,
}

/// This enumerates the possible non-error states `Request` can be in
/// after parsing a bit of input.
#[derive(Debug, PartialEq, Eq, Structural)]
pub enum ParseStatus {
    /// The request was fully parsed.
    Complete,
    /// The request has not yet been fully parsed.  The caller is expected to
    /// call `parse` again with more input, starting with the unparsed
    /// portion of the previous input.
    Incomplete,
}

/// This holds the values returned by `Request::parse`.
#[derive(Debug, PartialEq, Eq, Structural)]
pub struct ParseResults {
    /// This indicates the state of the parser.
    pub status: ParseStatus,
    /// This is the number of bytes of input consumed by the last
    /// `Request::parse` call.
    pub consumed: usize,
}

/// This type is used to parse and generate HTTP 1.1 requests.
pub struct Request {
    /// This holds the bytes which compose the body of the request.
    pub body: Vec<u8>,
    /// This holds any headers for the request.
    pub headers: rhymessage::MessageHeaders,
    /// If not None, the maximum size, in bytes, for the request as a whole:
    /// request line, headers, and declared body length together.  `parse`
    /// returns `Error::MessageTooLong` as soon as the total passes it.
    pub max_message_size: Option<usize>,
    /// This is the method token in the request, which indicates the request
    /// method to be performed on the target resource.
    pub method: String,
    /// If not None, the maximum size, in bytes, of the request line.
    /// `parse` returns `Error::RequestLineTooLong` if the request line
    /// exceeds it.
    pub request_line_limit: Option<usize>,
    /// The parsing state the request rests in.  The parser maintains this
    /// field; callers should read it at most.
    pub state: RequestState,
    /// This is the target Uniform Resource Identifier in the request.
    pub target: rhymuri::Uri,
    /// The bytes committed so far against `max_message_size`.  The parser
    /// maintains this field; callers should read it at most.
    pub total_bytes: usize,
}

/// The fixed-body phase: copy up to the declared length, consume no more.
pub open spec fn body_step(
    pre_body: Seq<u8>,
    n: nat,
    rest: Seq<u8>,
    base: int,
    post_body: Seq<u8>,
    r: Result<ParseResults, Error>,
) -> bool {
    let needed: nat = if pre_body.len() <= n {
        (n - pre_body.len()) as nat
    } else {
        0
    };
    if rest.len() >= needed {
        &&& post_body == pre_body + rest.take(needed as int)
        &&& r == Ok::<_, Error>(
            ParseResults { status: ParseStatus::Complete, consumed: (base + needed) as usize },
        )
    } else {
        &&& post_body == pre_body + rest
        &&& r == Ok::<_, Error>(
            ParseResults { status: ParseStatus::Incomplete, consumed: (base + rest.len()) as usize },
        )
    }
}

/// The header phase and whatever follows it in the same call.  The
/// collaborator's outcome on the remaining input is the named function of
/// its line limit and those bytes; its completion either ends the message
/// or, under a `Content-Length` header, leads into the body phase.  `total1`
/// is the byte total already committed, `base` the bytes of this call
/// consumed before the phase.
pub open spec fn headers_phase(
    max: Option<usize>,
    pre_body: Seq<u8>,
    pre_hs: Seq<(Seq<char>, Seq<char>)>,
    limit: Option<usize>,
    total1: nat,
    rest: Seq<u8>,
    base: int,
    post: Request,
    r: Result<ParseResults, Error>,
) -> bool {
    match headers_parse_result(limit, rest) {
        None => (r matches Err(e) && e is Headers) && post.body@ == pre_body,
        Some((complete, hc)) => {
            let hs_mid = pre_hs + headers_parse_added(limit, rest);
            let total2 = sat_add(total1, hc as nat);
            if !within_cap(max, total2) {
                (r matches Err(e) && e is MessageTooLong) && post.body@ == pre_body
            } else if !complete {
                &&& r == Ok::<_, Error>(
                    ParseResults { status: ParseStatus::Incomplete, consumed: (base + hc) as usize },
                )
                &&& post.state == RequestState::Headers
                &&& post.total_bytes == total2
                &&& post.body@ == pre_body
                &&& headers_seq(post.headers) == hs_mid
                &&& headers_line_limit(post.headers) == limit
            } else {
                match combined_value(hs_mid, cl_chars()) {
                    None => {
                        &&& r == Ok::<_, Error>(
                            ParseResults {
                                status: ParseStatus::Complete,
                                consumed: (base + hc) as usize,
                            },
                        )
                        &&& post.state == RequestState::Headers
                        &&& post.total_bytes == total2
                        &&& post.body@ == pre_body
                        &&& headers_seq(post.headers) == hs_mid
                        &&& headers_line_limit(post.headers) == limit
                    },
                    Some(clv) => headers_phase_with_length(
                        max,
                        pre_body,
                        hs_mid,
                        limit,
                        total2,
                        rest,
                        base,
                        hc,
                        clv,
                        post,
                        r,
                    ),
                }
            }
        },
    }
}

/// The tail of the header phase when a `Content-Length` header is present:
/// its value must read as a decimal length, the length counts toward the
/// cap, and the body phase follows at once.
pub open spec fn headers_phase_with_length(
    max: Option<usize>,
    pre_body: Seq<u8>,
    hs_mid: Seq<(Seq<char>, Seq<char>)>,
    limit: Option<usize>,
    total2: nat,
    rest: Seq<u8>,
    base: int,
    hc: int,
    clv: Seq<char>,
    post: Request,
    r: Result<ParseResults, Error>,
) -> bool {
    let clb = encode_utf8(clv);
    if !(is_dec_digits(clb) && dec_value(clb) <= usize::MAX) {
        (r matches Err(e) && e matches Error::InvalidContentLength(t) && t@ == clv) && post.body@
            == pre_body
    } else {
        let cl = dec_value(clb);
        let total3 = sat_add(total2, cl);
        if !within_cap(max, total3) {
            (r matches Err(e) && e is MessageTooLong) && post.body@ == pre_body
        } else {
            &&& post.state == RequestState::Body(cl as usize)
            &&& post.total_bytes == total3
            &&& headers_seq(post.headers) == hs_mid
            &&& headers_line_limit(post.headers) == limit
            &&& body_step(pre_body, cl, rest.skip(hc), base + hc, post.body@, r)
        }
    }
}

/// The request-line phase once a full line stands at the head of the input:
/// the line must be text, count toward the cap, and parse as a request line;
/// the header phase follows at once.
pub open spec fn request_line_phase(
    pre: Request,
    input: Seq<u8>,
    line: Seq<u8>,
    consumed: int,
    post: Request,
    r: Result<ParseResults, Error>,
) -> bool {
    if !valid_utf8(line) {
        r matches Err(e) && e matches Error::RequestLineNotValidText(v) && v@ == line
    } else {
        let total1 = sat_add(pre.total_bytes as nat, consumed as nat);
        if !within_cap(pre.max_message_size, total1) {
            r matches Err(e) && e is MessageTooLong
        } else {
            match parse_request_line_spec(line) {
                SpecReqLine::NoMethodDelimiter => r matches Err(e) && e matches
                    Error::RequestLineNoMethodDelimiter(s) && s@ == decode_utf8(line),
                SpecReqLine::NoMethodOrExtraWhitespace => r matches Err(e) && e matches
                    Error::RequestLineNoMethodOrExtraWhitespace(s) && s@ == decode_utf8(line),
                SpecReqLine::NoTargetDelimiter => r matches Err(e) && e matches
                    Error::RequestLineNoTargetDelimiter(s) && s@ == decode_utf8(line),
                SpecReqLine::NoTargetOrExtraWhitespace => r matches Err(e) && e matches
                    Error::RequestLineNoTargetOrExtraWhitespace(s) && s@ == decode_utf8(line),
                SpecReqLine::BadUri => r matches Err(e) && e is RequestTargetUriInvalid,
                SpecReqLine::Protocol => r matches Err(e) && e matches Error::RequestLineProtocol(
                    s,
                ) && s@ == decode_utf8(line),
                SpecReqLine::Good { method, target } => {
                    &&& post.method@ == decode_utf8(method)
                    &&& uri_text(post.target) == uri_render_of(decode_utf8(target))
                    &&& headers_phase(
                        pre.max_message_size,
                        pre.body@,
                        headers_seq(pre.headers),
                        headers_line_limit(pre.headers),
                        total1,
                        input.skip(consumed),
                        consumed,
                        post,
                        r,
                    )
                },
            }
        }
    }
}

/// The wire bytes of a request: the request line, then the header block,
/// then the body.
pub open spec fn request_wire(
    method: Seq<char>,
    target: Seq<char>,
    header_bytes: Seq<u8>,
    body: Seq<u8>,
) -> Seq<u8> {
    encode_utf8(method) + seq![32u8] + encode_utf8(target) + http11_bytes().insert(0, 32u8).push(
        13u8,
    ).push(10u8) + header_bytes + body
}

/// Everything `Request::parse` does, by the state the request rests in when
/// the call arrives.
pub open spec fn parse_post(
    pre: Request,
    post: Request,
    input: Seq<u8>,
    r: Result<ParseResults, Error>,
) -> bool {
    match pre.state {
        RequestState::RequestLine => match scan_start_line(input, pre.request_line_limit) {
            SpecScan::Incomplete => r == Ok::<_, Error>(
                ParseResults { status: ParseStatus::Incomplete, consumed: 0 },
            ) && post == pre,
            SpecScan::TooLong { prefix } => r matches Err(e) && e matches
                Error::RequestLineTooLong(v) && v@ == prefix,
            SpecScan::Line { line, consumed } => request_line_phase(
                pre,
                input,
                line,
                consumed,
                post,
                r,
            ),
        },
        RequestState::Headers => headers_phase(
            pre.max_message_size,
            pre.body@,
            headers_seq(pre.headers),
            headers_line_limit(pre.headers),
            pre.total_bytes as nat,
            input,
            0,
            post,
            r,
        ),
        RequestState::Body(n) => {
            &&& body_step(pre.body@, n as nat, input, 0, post.body@, r)
            &&& post.state == pre.state
            &&& post.total_bytes == pre.total_bytes
            &&& post.headers == pre.headers
        },
    }
}

impl Request {
    /// Commit `bytes` more bytes toward the configured message-size cap,
    /// failing as soon as the running total passes it.
    fn count_bytes(&mut self, bytes: usize) -> (r: Result<(), Error>)
        ensures
            final(self).total_bytes == sat_add(old(self).total_bytes as nat, bytes as nat),
            final(self).body == old(self).body,
            final(self).headers == old(self).headers,
            final(self).max_message_size == old(self).max_message_size,
            final(self).method == old(self).method,
            final(self).request_line_limit == old(self).request_line_limit,
            final(self).state == old(self).state,
            final(self).target == old(self).target,
            r is Ok <==> within_cap(
                old(self).max_message_size,
                sat_add(old(self).total_bytes as nat, bytes as nat),
            ),
            r matches Err(e) ==> e is MessageTooLong,
    {
        if bytes > usize::MAX - self.total_bytes {
            self.total_bytes = usize::MAX;
        } else {
            self.total_bytes = self.total_bytes + bytes;
        }
        match self.max_message_size {
            Some(max_message_size) if self.total_bytes > max_message_size => Err(
                Error::MessageTooLong,
            ),
            _ => Ok(()),
        }
    }

    /// Create a new request value with default method (GET), empty target
    /// URI, no headers or body, and the default limit constraints: a request
    /// line of at most 1000 bytes, header lines of at most 1000 bytes, and
    /// 10,000,000 bytes for the message overall.
    pub fn new() -> (r: Self)
        ensures
            r.body@ == Seq::<u8>::empty(),
            headers_seq(r.headers) == Seq::<(Seq<char>, Seq<char>)>::empty(),
            headers_line_limit(r.headers) == Some(1000usize),
            r.max_message_size == Some(10_000_000usize),
            r.method@ == "GET"@,
            r.request_line_limit == Some(1000usize),
            r.state == RequestState::RequestLine,
            uri_text(r.target) == Seq::<char>::empty(),
            r.total_bytes == 0,
    {
        let mut headers = headers_new();
        headers_set_line_limit(&mut headers, Some(1000));
        Request {
            body: Vec::new(),
            headers,
            max_message_size: Some(10_000_000),
            method: "GET".to_owned(),
            request_line_limit: Some(1000),
            state: RequestState::RequestLine,
            target: uri_default(),
            total_bytes: 0,
        }
    }

    /// Produce the raw bytes form of the request: the request line first,
    /// then the header lines, an empty line, and the body.  The target is
    /// rendered by the URI collaborator.  A header line limit below 2 is
    /// excluded: the header collaborator's fold arithmetic does not support
    /// it (see `headers_generate`).
    pub fn generate(&self) -> (r: Result<Vec<u8>, Error>)
        requires
            headers_line_limit(self.headers) matches Some(n) ==> n >= 2,
        ensures
            r is Ok <==> headers_generated(self.headers) is Some,
            r matches Err(e) ==> e is Headers,
            r matches Ok(v) ==> v@ == request_wire(
                self.method@,
                uri_text(self.target),
                headers_generated(self.headers).unwrap(),
                self.body@,
            ) && ((headers_line_limit(self.headers) is None || (headers_line_limit(self.headers)
                matches Some(n) && lines_fit(headers_seq(self.headers), n))) ==> v@
                == request_wire(
                self.method@,
                uri_text(self.target),
                encode_utf8(header_block_chars(headers_seq(self.headers))),
                self.body@,
            )),
            (headers_line_limit(self.headers) is None || (headers_line_limit(self.headers) matches
            Some(n) && lines_fit(headers_seq(self.headers), n))) ==> r is Ok,
    {
        let target_string = uri_to_string(&self.target);
        let header_bytes = match headers_generate(&self.headers) {
            Ok(v) => v,
            Err(e) => {
                return Err(Error::Headers(e));
            },
        };
        let mut output: Vec<u8> = Vec::new();
        output.extend_from_slice(self.method.as_str().as_bytes());
        output.push(32u8);
        output.extend_from_slice(target_string.as_str().as_bytes());
        output.push(32u8);
        output.push(72u8);
        output.push(84u8);
        output.push(84u8);
        output.push(80u8);
        output.push(47u8);
        output.push(49u8);
        output.push(46u8);
        output.push(49u8);
        output.push(13u8);
        output.push(10u8);
        output.extend_from_slice(header_bytes.as_slice());
        output.extend_from_slice(self.body.as_slice());
        proof {
            assert(output@ =~= request_wire(
                self.method@,
                uri_text(self.target),
                headers_generated(self.headers).unwrap(),
                self.body@,
            ));
        }
        Ok(output)
    }

    /// Feed more bytes into the parser, building the request internally, and
    /// detecting when the end of the request has been found.  A single call
    /// advances through as many phases as the input covers; `consumed` bytes
    /// are committed, and the rest belong to the caller to re-present.
    pub fn parse(&mut self, raw_message: &[u8]) -> (r: Result<ParseResults, Error>)
        ensures
            parse_post(*old(self), *final(self), raw_message@, r),
            r matches Ok(pr) ==> pr.consumed <= raw_message@.len(),
            r is Ok ==> final(self).max_message_size == old(self).max_message_size && final(self).request_line_limit == old(self).request_line_limit,
            r is Ok ==> (old(self).max_message_size matches Some(m) ==> (old(self).total_bytes
                <= m ==> final(self).total_bytes <= m)),
    {
        proof {
            assert(raw_message@.skip(0) =~= raw_message@);
        }
        match self.state {
            RequestState::RequestLine => self.parse_for_request_line(raw_message),
            RequestState::Headers => self.parse_for_headers(raw_message, 0),
            RequestState::Body(content_length) => self.parse_for_body(
                raw_message,
                0,
                content_length,
            ),
        }
    }

    /// The request-line phase of `parse`.
    fn parse_for_request_line(&mut self, raw_message: &[u8]) -> (r: Result<ParseResults, Error>)
        requires
            old(self).state == RequestState::RequestLine,
        ensures
            parse_post(*old(self), *final(self), raw_message@, r),
            r matches Ok(pr) ==> pr.consumed <= raw_message@.len(),
            r is Ok ==> final(self).max_message_size == old(self).max_message_size && final(self).request_line_limit == old(self).request_line_limit,
            r is Ok ==> (old(self).max_message_size matches Some(m) ==> (old(self).total_bytes
                <= m ==> final(self).total_bytes <= m)),
    {
        let message_len = raw_message.len();
        proof {
            crate::lemma_find_crlf(raw_message@);
        }
        match crate::find_crlf(raw_message) {
            Some(request_line_end) => {
                proof {
                    assert(is_crlf_at(raw_message@, request_line_end as int));
                }
                match self.request_line_limit {
                    Some(limit) => {
                        if request_line_end > limit {
                            let prefix = slice_subrange(raw_message, 0, limit);
                            proof {
                                assert(prefix@ =~= raw_message@.take(limit as int));
                            }
                            Err(Error::RequestLineTooLong(slice_to_vec(prefix)))
                        } else {
                            self.parse_found_request_line(raw_message, request_line_end)
                        }
                    },
                    None => self.parse_found_request_line(raw_message, request_line_end),
                }
            },
            None => {
                match self.request_line_limit {
                    Some(limit) => {
                        if message_len > limit {
                            let prefix = slice_subrange(raw_message, 0, limit);
                            proof {
                                assert(prefix@ =~= raw_message@.take(limit as int));
                            }
                            Err(Error::RequestLineTooLong(slice_to_vec(prefix)))
                        } else {
                            Ok(ParseResults { status: ParseStatus::Incomplete, consumed: 0 })
                        }
                    },
                    None => Ok(ParseResults { status: ParseStatus::Incomplete, consumed: 0 }),
                }
            },
        }
    }

    /// The rest of the request-line phase, once the line's CRLF stands at
    /// `request_line_end`.
    fn parse_found_request_line(&mut self, raw_message: &[u8], request_line_end: usize) -> (r:
        Result<ParseResults, Error>)
        requires
            old(self).state == RequestState::RequestLine,
            spec_find_crlf(raw_message@) == Some(request_line_end as int),
        ensures
            request_line_phase(
                *old(self),
                raw_message@,
                raw_message@.take(request_line_end as int),
                request_line_end + 2,
                *final(self),
                r,
            ),
            r matches Ok(pr) ==> pr.consumed <= raw_message@.len(),
            r is Ok ==> final(self).max_message_size == old(self).max_message_size && final(self).request_line_limit == old(self).request_line_limit,
            r is Ok ==> (old(self).max_message_size matches Some(m) ==> (old(self).total_bytes
                <= m ==> final(self).total_bytes <= m)),
    {
        proof {
            crate::lemma_find_crlf(raw_message@);
            assert(is_crlf_at(raw_message@, request_line_end as int));
        }
        let message_len = raw_message.len();
        let line = slice_subrange(raw_message, 0, request_line_end);
        proof {
            assert(line@ =~= raw_message@.take(request_line_end as int));
        }
        let line_str = match bytes_to_string(line) {
            Some(s) => s,
            None => {
                return Err(Error::RequestLineNotValidText(slice_to_vec(line)));
            },
        };
        let consumed = request_line_end + 2;
        self.count_bytes(consumed)?;
        self.state = RequestState::Headers;
        proof {
            vstd::utf8::decode_utf8_encode_utf8(line@);
            assert(encode_utf8(line_str@) == raw_message@.take(request_line_end as int));
        }
        match parse_request_line(line_str.as_str()) {
            Ok((method, target)) => {
                self.method = method;
                self.target = target;
                self.parse_for_headers(raw_message, consumed)
            },
            Err(e) => Err(e),
        }
    }

    /// The header phase of `parse`, entered with `base` bytes of the call
    /// already consumed.
    fn parse_for_headers(&mut self, raw_message: &[u8], base: usize) -> (r: Result<
        ParseResults,
        Error,
    >)
        requires
            base <= raw_message@.len(),
            old(self).state == RequestState::Headers,
        ensures
            headers_phase(
                old(self).max_message_size,
                old(self).body@,
                headers_seq(old(self).headers),
                headers_line_limit(old(self).headers),
                old(self).total_bytes as nat,
                raw_message@.skip(base as int),
                base as int,
                *final(self),
                r,
            ),
            r matches Ok(pr) ==> pr.consumed <= raw_message@.len(),
            final(self).max_message_size == old(self).max_message_size,
            final(self).request_line_limit == old(self).request_line_limit,
            final(self).method == old(self).method,
            final(self).target == old(self).target,
            r is Ok ==> (old(self).max_message_size matches Some(m) ==> final(self).total_bytes
                <= m),
    {
        let remainder = slice_subrange(raw_message, base, raw_message.len());
        proof {
            assert(remainder@ =~= raw_message@.skip(base as int));
        }
        let parse_result = headers_parse(&mut self.headers, remainder);
        match parse_result {
            Err(e) => Err(Error::Headers(e)),
            Ok((complete, hc)) => {
                self.count_bytes(hc)?;
                if !complete {
                    return Ok(
                        ParseResults { status: ParseStatus::Incomplete, consumed: base + hc },
                    );
                }
                match headers_value(&self.headers, "Content-Length") {
                    None => Ok(ParseResults { status: ParseStatus::Complete, consumed: base + hc }),
                    Some(content_length_text) => {
                        match parse_decimal(content_length_text.as_str().as_bytes()) {
                            None => Err(Error::InvalidContentLength(content_length_text)),
                            Some(content_length) => {
                                self.count_bytes(content_length)?;
                                self.state = RequestState::Body(content_length);
                                let res = self.parse_for_body(
                                    raw_message,
                                    base + hc,
                                    content_length,
                                );
                                proof {
                                    assert(raw_message@.skip(base as int).skip(hc as int)
                                        =~= raw_message@.skip((base + hc) as int));
                                }
                                res
                            },
                        }
                    },
                }
            },
        }
    }

    /// The fixed-body phase of `parse`, entered with `base` bytes of the
    /// call already consumed.
    fn parse_for_body(&mut self, raw_message: &[u8], base: usize, content_length: usize) -> (r:
        Result<ParseResults, Error>)
        requires
            base <= raw_message@.len(),
            old(self).state == RequestState::Body(content_length),
        ensures
            body_step(
                old(self).body@,
                content_length as nat,
                raw_message@.skip(base as int),
                base as int,
                final(self).body@,
                r,
            ),
            final(self).headers == old(self).headers,
            final(self).max_message_size == old(self).max_message_size,
            final(self).method == old(self).method,
            final(self).request_line_limit == old(self).request_line_limit,
            final(self).state == old(self).state,
            final(self).target == old(self).target,
            final(self).total_bytes == old(self).total_bytes,
            r matches Ok(pr) ==> pr.consumed <= raw_message@.len(),
    {
        let have = self.body.len();
        let needed = if content_length > have {
            content_length - have
        } else {
            0
        };
        let available = raw_message.len() - base;
        if available >= needed {
            let part = slice_subrange(raw_message, base, base + needed);
            self.body.extend_from_slice(part);
            proof {
                assert(part@ =~= raw_message@.skip(base as int).take(needed as int));
                assert(self.body@ =~= old(self).body@ + raw_message@.skip(base as int).take(
                    needed as int,
                ));
            }
            Ok(ParseResults { status: ParseStatus::Complete, consumed: base + needed })
        } else {
            let part = slice_subrange(raw_message, base, raw_message.len());
            self.body.extend_from_slice(part);
            proof {
                assert(part@ =~= raw_message@.skip(base as int));
                assert(self.body@ =~= old(self).body@ + raw_message@.skip(base as int));
            }
            Ok(ParseResults { status: ParseStatus::Incomplete, consumed: base + available })
        }
    }
}

impl Default for Request {
    /// A fresh request, as `Request::new` builds it.
    fn default() -> (r: Self)
        ensures
            r.body@ == Seq::<u8>::empty(),
            headers_seq(r.headers) == Seq::<(Seq<char>, Seq<char>)>::empty(),
            headers_line_limit(r.headers) == Some(1000usize),
            r.max_message_size == Some(10_000_000usize),
            r.method@ == "GET"@,
            r.request_line_limit == Some(1000usize),
            r.state == RequestState::RequestLine,
            uri_text(r.target) == Seq::<char>::empty(),
            r.total_bytes == 0,
    {
        Request::new()
    }
}

} // verus!
