//! The HTTP/1.1 response parser and generator: a push-driven state machine
//! that consumes a status line, a header block, and an optional fixed-length
//! or chunked body, promoting trailer headers and rewriting the framing
//! headers when a chunked body completes.

use crate::chunked_body::{
    chunk_machine, ChunkedBody, ChunkedBodyState, DecodeStatus, SpecChunkErr, SpecStep,
};
use crate::error::Error;
use crate::headers::{
    combined_value, header_block_chars, header_tokens_spec, headers_generate, headers_generated,
    headers_add, headers_has_token, headers_line_limit, headers_new, headers_parse,
    headers_parse_added, headers_parse_result, headers_remove, headers_seq, headers_set,
    headers_to_pairs, headers_tokens, headers_value, join_comma_space, lines_fit, remove_matches,
    set_header_spec, token_present,
};
use crate::num::{
    dec_digits_of, dec_value, is_dec_digits, lemma_dec_digits_of, parse_decimal,
    usize_to_dec_bytes,
};
use crate::request::cl_chars;
use crate::text::{all_ascii, ascii_chars_of, ascii_to_string, bytes_to_string};
use crate::{find_byte, http11_bytes, is_crlf_at, is_http11, spec_find_byte, spec_find_crlf};
use vstd::prelude::*;
use vstd::slice::{slice_subrange, slice_to_vec};
use vstd::string::{StringExecFns, StringSliceAdditionalSpecFns};
use vstd::utf8::{decode_utf8, encode_utf8, encode_utf8_valid_utf8, valid_utf8};

verus! {

/// The name of the header that lists the transfer codings of a body.
pub open spec fn te_chars() -> Seq<char> {
    "Transfer-Encoding"@
}

/// The name of the header that announces trailer headers.
pub open spec fn trailer_chars() -> Seq<char> {
    "Trailer"@
}

/// The transfer-coding token that selects chunked framing.
pub open spec fn chunked_chars() -> Seq<char> {
    "chunked"@
}

/// The header block of a response after its chunked body completes: the
/// trailer headers are appended, the final `Transfer-Encoding` token is
/// dropped (the header removed when none is left, the remaining tokens
/// re-emitted as a comma-separated list otherwise), a `Content-Length` for
/// the decoded body is appended, and `Trailer` is removed.
pub open spec fn finalize_headers(
    hs: Seq<(Seq<char>, Seq<char>)>,
    trailer: Seq<(Seq<char>, Seq<char>)>,
    body_len: nat,
) -> Seq<(Seq<char>, Seq<char>)> {
    let merged = hs + trailer;
    let tokens = header_tokens_spec(merged, te_chars());
    let after_te = if tokens.len() <= 1 {
        remove_matches(merged, te_chars())
    } else {
        set_header_spec(merged, te_chars(), join_comma_space(tokens.take(tokens.len() - 1)))
    };
    let with_cl = after_te.push((cl_chars(), ascii_chars_of(dec_digits_of(body_len))));
    remove_matches(with_cl, trailer_chars())
}

/// How a status line parses: `"HTTP/1.1" SP status SP reason`.
pub enum SpecStatusLine {
    /// No space delimits the protocol.
    NoProtocolDelimiter,
    /// The protocol is not exactly `HTTP/1.1`.
    Protocol,
    /// No space delimits the status code.
    NoStatusCodeDelimiter,
    /// The status field is not decimal digits, or does not fit in `usize`.
    BadStatus,
    /// The status code is 1000 or more.
    OutOfRange { code: nat },
    /// A well-formed status line: the code and the reason-phrase bytes.
    Good { code: nat, reason: Seq<u8> },
}

/// Parse the bytes of a status line.
pub open spec fn parse_status_line_spec(line: Seq<u8>) -> SpecStatusLine {
    match spec_find_byte(line, 32u8) {
        None => SpecStatusLine::NoProtocolDelimiter,
        Some(p) => if line.take(p) != http11_bytes() {
            SpecStatusLine::Protocol
        } else {
            let at_code = line.skip(p + 1);
            match spec_find_byte(at_code, 32u8) {
                None => SpecStatusLine::NoStatusCodeDelimiter,
                Some(c) => {
                    let code_bytes = at_code.take(c);
                    if !(is_dec_digits(code_bytes) && dec_value(code_bytes) <= usize::MAX) {
                        SpecStatusLine::BadStatus
                    } else if dec_value(code_bytes) >= 1000 {
                        SpecStatusLine::OutOfRange { code: dec_value(code_bytes) }
                    } else {
                        SpecStatusLine::Good {
                            code: dec_value(code_bytes),
                            reason: at_code.skip(c + 1),
                        }
                    }
                },
            }
        },
    }
}

/// Parse the status line `"HTTP/1.1" SP status SP reason`, yielding the
/// numeric status code and the reason phrase.
pub fn parse_status_line(status_line: &str) -> (r: Result<(usize, String), Error>)
    ensures
        ({
            let bytes = status_line.spec_bytes();
            match parse_status_line_spec(bytes) {
                SpecStatusLine::NoProtocolDelimiter => r matches Err(e) && e matches
                    Error::StatusLineNoProtocolDelimiter(s) && s@ == status_line@,
                SpecStatusLine::Protocol => r matches Err(e) && e matches
                    Error::StatusLineProtocol(s) && s@ == status_line@,
                SpecStatusLine::NoStatusCodeDelimiter => r matches Err(e) && e matches
                    Error::StatusLineNoStatusCodeDelimiter(s) && s@ == status_line@,
                SpecStatusLine::BadStatus => r matches Err(e) && e matches
                    Error::InvalidStatusCode(t) && t@ == status_line@,
                SpecStatusLine::OutOfRange { code } => r matches Err(e) && e matches
                    Error::StatusCodeOutOfRange(n) && n == code,
                SpecStatusLine::Good { code, reason } => r matches Ok((c, rs)) && c == code && rs@
                    == decode_utf8(reason),
            }
        }),
{
    let bytes = status_line.as_bytes();
    let _bytes_len = bytes.len();
    proof {
        encode_utf8_valid_utf8(status_line@);
        assert(valid_utf8(bytes@));
    }
    match find_byte(bytes, 32u8) {
        None => Err(Error::StatusLineNoProtocolDelimiter(status_line.to_owned())),
        Some(p) => {
            proof {
                crate::lemma_find_byte(bytes@, 32u8);
            }
            let protocol = slice_subrange(bytes, 0, p);
            proof {
                assert(protocol@ =~= bytes@.take(p as int));
            }
            if !is_http11(protocol) {
                return Err(Error::StatusLineProtocol(status_line.to_owned()));
            }
            let at_code = slice_subrange(bytes, p + 1, bytes.len());
            proof {
                crate::request::lemma_split_after_ascii(bytes@, p as int);
                assert(at_code@ =~= bytes@.skip(p + 1));
            }
            match find_byte(at_code, 32u8) {
                None => Err(Error::StatusLineNoStatusCodeDelimiter(status_line.to_owned())),
                Some(c) => {
                    proof {
                        crate::lemma_find_byte(at_code@, 32u8);
                    }
                    let code_bytes = slice_subrange(at_code, 0, c);
                    proof {
                        assert(code_bytes@ =~= at_code@.take(c as int));
                    }
                    match parse_decimal(code_bytes) {
                        None => Err(Error::InvalidStatusCode(status_line.to_owned())),
                        Some(code) => {
                            if code >= 1000 {
                                return Err(Error::StatusCodeOutOfRange(code));
                            }
                            let reason_bytes = slice_subrange(at_code, c + 1, at_code.len());
                            proof {
                                crate::request::lemma_split_after_ascii(at_code@, c as int);
                                assert(reason_bytes@ =~= at_code@.skip(c + 1));
                                assert(reason_bytes@ =~= at_code@.subrange(
                                    c + 1,
                                    at_code@.len() as int,
                                ));
                            }
                            let reason = match bytes_to_string(reason_bytes) {
                                Some(s) => s,
                                None => {
                                    proof {
                                        assert(false);
                                    }
                                    String::new()
                                },
                            };
                            Ok((code, reason))
                        },
                    }
                },
            }
        },
    }
}

/// The parsing state a response rests in.
pub enum ResponseState {
    /// Running the chunked-body decoder.
    ChunkedBody(ChunkedBody),
    /// Accumulating the declared number of body bytes.
    FixedBody(usize),
    /// Awaiting the header block.
    Headers,
    /// Awaiting the status line.
    StatusLine,
}

/// This enumerates the possible non-error states `Response` can be in
/// after parsing a bit of input.
#[derive(Debug, PartialEq, Eq, Structural)]
pub enum ParseStatus {
    /// The response was fully parsed.
    Complete,
    /// The response has not yet been fully parsed.  The caller is expected
    /// to call `parse` again with more input, starting with the unparsed
    /// portion of the previous input.
    Incomplete,
}

/// This holds the values returned by `Response::parse`.
#[derive(Debug, PartialEq, Eq, Structural)]
pub struct ParseResults {
    /// This indicates the state of the parser.
    pub status: ParseStatus,
    /// This is the number of bytes of input consumed by the last
    /// `Response::parse` call.
    pub consumed: usize,
}

/// This type is used to parse and generate HTTP 1.1 responses.
pub struct Response {
    /// This holds the bytes which compose the body of the response.
    pub body: Vec<u8>,
    /// This holds any headers for the response.
    pub headers: rhymessage::MessageHeaders,
    /// This is the reason phrase in the response, which is a textual
    /// description associated with the numeric status code.
    pub reason_phrase: String,
    /// The parsing state the response rests in.  The parser maintains this
    /// field; callers should read it at most.
    pub state: ResponseState,
    /// This is the numeric status code in the response.
    pub status_code: usize,
}

/// The fixed-body phase: copy up to the declared length, consume no more.
pub open spec fn resp_body_step(
    pre_body: Seq<u8>,
    n: nat,
    rest: Seq<u8>,
    base: int,
    post_body: Seq<u8>,
    r: Result<ParseResults, Error>,
) -> bool {
    let needed: nat = if pre_body.len() <= n {
        (n - pre_body.len()) as nat
    } else {
        0
    };
    if rest.len() >= needed {
        &&& post_body == pre_body + rest.take(needed as int)
        &&& r == Ok::<_, Error>(
            ParseResults { status: ParseStatus::Complete, consumed: (base + needed) as usize },
        )
    } else {
        &&& post_body == pre_body + rest
        &&& r == Ok::<_, Error>(
            ParseResults { status: ParseStatus::Incomplete, consumed: (base + rest.len()) as usize },
        )
    }
}

/// How a machine failure surfaces as an error value.
pub open spec fn chunk_err_matches(err: SpecChunkErr, r: Result<ParseResults, Error>) -> bool {
    match err {
        SpecChunkErr::NotText { line } => r matches Err(e) && e matches
            Error::ChunkSizeLineNotValidText(v) && v@ == line,
        SpecChunkErr::BadSize { text } => r matches Err(e) && e matches Error::InvalidChunkSize(t)
            && t@ == text,
        SpecChunkErr::BadTerminator { junk } => r matches Err(e) && e matches
            Error::InvalidChunkTerminator(v) && v@ == junk,
    }
}

/// The chunked-body phase: the byte-level machine behaves exactly as
/// [`chunk_machine`] says; reaching the trailer hands the rest to the
/// header-block collaborator, whose named outcome on those bytes decides
/// completion, the consumed count, and — through the header rewrite — the
/// final message.  `tr_limit` and `tr_hs` are the trailer collection's line
/// limit and contents when the phase starts, `hs_mid` the message headers.
pub open spec fn chunked_phase(
    st: ChunkedBodyState,
    needed: nat,
    buffer: Seq<u8>,
    tr_limit: Option<usize>,
    tr_hs: Seq<(Seq<char>, Seq<char>)>,
    hs_mid: Seq<(Seq<char>, Seq<char>)>,
    rest: Seq<u8>,
    base: int,
    post: Response,
    r: Result<ParseResults, Error>,
) -> bool {
    match chunk_machine(st, needed, buffer, rest) {
        SpecStep::Failed { err } => chunk_err_matches(err, r),
        SpecStep::Stopped { state, needed, buffer, consumed } => {
            &&& r == Ok::<_, Error>(
                ParseResults {
                    status: ParseStatus::Incomplete,
                    consumed: (base + consumed) as usize,
                },
            )
            &&& (post.state matches ResponseState::ChunkedBody(cb2) && cb2.state == state
                && cb2.chunk_bytes_needed == needed && cb2.buffer@ == buffer && headers_seq(
                cb2.trailer,
            ) == tr_hs && headers_line_limit(cb2.trailer) == tr_limit)
            &&& headers_seq(post.headers) == hs_mid
        },
        SpecStep::TrailerReached { buffer, consumed } => {
            let trest = rest.skip(consumed);
            match headers_parse_result(tr_limit, trest) {
                None => (r matches Err(e) && e is Trailer),
                Some((complete, tc)) => {
                    let tr2 = tr_hs + headers_parse_added(tr_limit, trest);
                    if complete {
                        &&& r == Ok::<_, Error>(
                            ParseResults {
                                status: ParseStatus::Complete,
                                consumed: (base + consumed + tc) as usize,
                            },
                        )
                        &&& post.body@ == buffer
                        &&& headers_seq(post.headers) == finalize_headers(
                            hs_mid,
                            tr2,
                            buffer.len(),
                        )
                        &&& (post.state matches ResponseState::StatusLine)
                    } else {
                        &&& r == Ok::<_, Error>(
                            ParseResults {
                                status: ParseStatus::Incomplete,
                                consumed: (base + consumed + tc) as usize,
                            },
                        )
                        &&& (post.state matches ResponseState::ChunkedBody(cb2) && cb2.buffer@
                            == buffer && headers_seq(cb2.trailer) == tr2 && headers_line_limit(
                            cb2.trailer,
                        ) == tr_limit && cb2.state == ChunkedBodyState::Trailer)
                        &&& headers_seq(post.headers) == hs_mid
                    }
                },
            }
        },
    }
}

/// The header phase of a response and whatever follows it in the same call.
/// The collaborator's outcome on the remaining input is the named function
/// of its line limit and those bytes; its completion selects fixed-length
/// framing under `Content-Length`, chunked framing under a `chunked`
/// transfer-coding token, or ends the message.
pub open spec fn resp_headers_phase(
    pre_body: Seq<u8>,
    pre_hs: Seq<(Seq<char>, Seq<char>)>,
    limit: Option<usize>,
    rest: Seq<u8>,
    base: int,
    post: Response,
    r: Result<ParseResults, Error>,
) -> bool {
    match headers_parse_result(limit, rest) {
        None => (r matches Err(e) && e is Headers) && post.body@ == pre_body,
        Some((complete, hc)) => {
            let hs_mid = pre_hs + headers_parse_added(limit, rest);
            if !complete {
                &&& r == Ok::<_, Error>(
                    ParseResults { status: ParseStatus::Incomplete, consumed: (base + hc) as usize },
                )
                &&& (post.state matches ResponseState::Headers)
                &&& post.body@ == pre_body
                &&& headers_seq(post.headers) == hs_mid
            } else {
                match combined_value(hs_mid, cl_chars()) {
                    Some(clv) => resp_fixed_tail(pre_body, hs_mid, rest, base, hc, clv, post, r),
                    None => if token_present(hs_mid, te_chars(), chunked_chars()) {
                        chunked_phase(
                            ChunkedBodyState::ChunkSize,
                            0,
                            Seq::empty(),
                            None,
                            Seq::empty(),
                            hs_mid,
                            rest.skip(hc),
                            base + hc,
                            post,
                            r,
                        )
                    } else {
                        &&& r == Ok::<_, Error>(
                            ParseResults {
                                status: ParseStatus::Complete,
                                consumed: (base + hc) as usize,
                            },
                        )
                        &&& (post.state matches ResponseState::Headers)
                        &&& post.body@ == pre_body
                        &&& headers_seq(post.headers) == hs_mid
                    },
                }
            }
        },
    }
}

/// The tail of the response header phase when a `Content-Length` header is
/// present: its value must read as a decimal length, and the fixed-body
/// phase follows at once.
pub open spec fn resp_fixed_tail(
    pre_body: Seq<u8>,
    hs_mid: Seq<(Seq<char>, Seq<char>)>,
    rest: Seq<u8>,
    base: int,
    hc: int,
    clv: Seq<char>,
    post: Response,
    r: Result<ParseResults, Error>,
) -> bool {
    let clb = encode_utf8(clv);
    if !(is_dec_digits(clb) && dec_value(clb) <= usize::MAX) {
        (r matches Err(e) && e matches Error::InvalidContentLength(t) && t@ == clv) && post.body@
            == pre_body
    } else {
        &&& (post.state matches ResponseState::FixedBody(n) && n == dec_value(clb))
        &&& headers_seq(post.headers) == hs_mid
        &&& resp_body_step(pre_body, dec_value(clb), rest.skip(hc), base + hc, post.body@, r)
    }
}

/// The status-line phase once a full line stands at the head of the input:
/// the line must be text and parse as a status line; the header phase
/// follows at once.
pub open spec fn status_line_phase(
    pre: Response,
    input: Seq<u8>,
    line: Seq<u8>,
    consumed: int,
    post: Response,
    r: Result<ParseResults, Error>,
) -> bool {
    if !valid_utf8(line) {
        r matches Err(e) && e matches Error::StatusLineNotValidText(v) && v@ == line
    } else {
        match parse_status_line_spec(line) {
            SpecStatusLine::NoProtocolDelimiter => r matches Err(e) && e matches
                Error::StatusLineNoProtocolDelimiter(s) && s@ == decode_utf8(line),
            SpecStatusLine::Protocol => r matches Err(e) && e matches Error::StatusLineProtocol(s)
                && s@ == decode_utf8(line),
            SpecStatusLine::NoStatusCodeDelimiter => r matches Err(e) && e matches
                Error::StatusLineNoStatusCodeDelimiter(s) && s@ == decode_utf8(line),
            SpecStatusLine::BadStatus => r matches Err(e) && e matches Error::InvalidStatusCode(t)
                && t@ == decode_utf8(line),
            SpecStatusLine::OutOfRange { code } => r matches Err(e) && e matches
                Error::StatusCodeOutOfRange(n) && n == code,
            SpecStatusLine::Good { code, reason } => {
                &&& post.status_code == code
                &&& post.reason_phrase@ == decode_utf8(reason)
                &&& resp_headers_phase(
                    pre.body@,
                    headers_seq(pre.headers),
                    headers_line_limit(pre.headers),
                    input.skip(consumed),
                    consumed,
                    post,
                    r,
                )
            },
        }
    }
}

/// The wire bytes of a response: the status line, then the header block,
/// then the body.
pub open spec fn response_wire(
    code: nat,
    reason: Seq<char>,
    header_bytes: Seq<u8>,
    body: Seq<u8>,
) -> Seq<u8> {
    http11_bytes() + seq![32u8] + dec_digits_of(code) + seq![32u8] + encode_utf8(reason) + seq![
        13u8,
        10u8,
    ] + header_bytes + body
}

/// Everything `Response::parse` does, by the state the response rests in
/// when the call arrives.
pub open spec fn resp_parse_post(
    pre: Response,
    post: Response,
    input: Seq<u8>,
    r: Result<ParseResults, Error>,
) -> bool {
    match pre.state {
        ResponseState::StatusLine => match spec_find_crlf(input) {
            None => r == Ok::<_, Error>(
                ParseResults { status: ParseStatus::Incomplete, consumed: 0 },
            ) && post == pre,
            Some(i) => status_line_phase(pre, input, input.take(i), i + 2, post, r),
        },
        ResponseState::Headers => resp_headers_phase(
            pre.body@,
            headers_seq(pre.headers),
            headers_line_limit(pre.headers),
            input,
            0,
            post,
            r,
        ),
        ResponseState::FixedBody(n) => {
            &&& resp_body_step(pre.body@, n as nat, input, 0, post.body@, r)
            &&& (post.state matches ResponseState::FixedBody(m) && m == n)
            &&& post.headers == pre.headers
            &&& post.status_code == pre.status_code
            &&& post.reason_phrase == pre.reason_phrase
        },
        ResponseState::ChunkedBody(cb) => chunked_phase(
            cb.state,
            cb.chunk_bytes_needed as nat,
            cb.buffer@,
            headers_line_limit(cb.trailer),
            headers_seq(cb.trailer),
            headers_seq(pre.headers),
            input,
            0,
            post,
            r,
        ),
    }
}

impl Response {
    /// Create a new response value with default status code (200), reason
    /// phrase ("OK"), and no headers or body.
    pub fn new() -> (r: Self)
        ensures
            r.body@ == Seq::<u8>::empty(),
            headers_seq(r.headers) == Seq::<(Seq<char>, Seq<char>)>::empty(),
            headers_line_limit(r.headers) is None,
            r.reason_phrase@ == "OK"@,
            r.state matches ResponseState::StatusLine,
            r.status_code == 200,
    {
        Response {
            body: Vec::new(),
            headers: headers_new(),
            reason_phrase: "OK".to_owned(),
            state: ResponseState::StatusLine,
            status_code: 200,
        }
    }

    /// Produce the raw bytes form of the response: the status line first,
    /// then the header lines, an empty line, and the body.  A header line
    /// limit below 2 is excluded: the header collaborator's fold arithmetic
    /// does not support it (see `headers_generate`).
    pub fn generate(&self) -> (r: Result<Vec<u8>, Error>)
        requires
            headers_line_limit(self.headers) matches Some(n) ==> n >= 2,
        ensures
            r is Ok <==> headers_generated(self.headers) is Some,
            r matches Err(e) ==> e is Headers,
            r matches Ok(v) ==> v@ == response_wire(
                self.status_code as nat,
                self.reason_phrase@,
                headers_generated(self.headers).unwrap(),
                self.body@,
            ) && ((headers_line_limit(self.headers) is None || (headers_line_limit(self.headers)
                matches Some(n) && lines_fit(headers_seq(self.headers), n))) ==> v@
                == response_wire(
                self.status_code as nat,
                self.reason_phrase@,
                encode_utf8(header_block_chars(headers_seq(self.headers))),
                self.body@,
            )),
            (headers_line_limit(self.headers) is None || (headers_line_limit(self.headers) matches
            Some(n) && lines_fit(headers_seq(self.headers), n))) ==> r is Ok,
    {
        let header_bytes = match headers_generate(&self.headers) {
            Ok(v) => v,
            Err(e) => {
                return Err(Error::Headers(e));
            },
        };
        let code_bytes = usize_to_dec_bytes(self.status_code);
        let mut output: Vec<u8> = Vec::new();
        output.push(72u8);
        output.push(84u8);
        output.push(84u8);
        output.push(80u8);
        output.push(47u8);
        output.push(49u8);
        output.push(46u8);
        output.push(49u8);
        output.push(32u8);
        output.extend_from_slice(code_bytes.as_slice());
        output.push(32u8);
        output.extend_from_slice(self.reason_phrase.as_str().as_bytes());
        output.push(13u8);
        output.push(10u8);
        output.extend_from_slice(header_bytes.as_slice());
        output.extend_from_slice(self.body.as_slice());
        proof {
            assert(output@ =~= response_wire(
                self.status_code as nat,
                self.reason_phrase@,
                headers_generated(self.headers).unwrap(),
                self.body@,
            ));
        }
        Ok(output)
    }

    /// Feed more bytes into the parser, building the response internally,
    /// and detecting when the end of the response has been found.  A single
    /// call advances through as many phases as the input covers; `consumed`
    /// bytes are committed, and the rest belong to the caller to re-present.
    pub fn parse(&mut self, raw_message: &[u8]) -> (r: Result<ParseResults, Error>)
        ensures
            resp_parse_post(*old(self), *final(self), raw_message@, r),
            r matches Ok(pr) ==> pr.consumed <= raw_message@.len(),
    {
        proof {
            assert(raw_message@.skip(0) =~= raw_message@);
        }
        let mut state = ResponseState::StatusLine;
        core::mem::swap(&mut state, &mut self.state);
        match state {
            ResponseState::ChunkedBody(chunked_body) => self.parse_for_chunked_body(
                raw_message,
                0,
                chunked_body,
            ),
            ResponseState::FixedBody(content_length) => {
                self.state = ResponseState::FixedBody(content_length);
                self.parse_for_fixed_body(raw_message, 0, content_length)
            },
            ResponseState::Headers => {
                self.state = ResponseState::Headers;
                self.parse_for_headers(raw_message, 0)
            },
            ResponseState::StatusLine => {
                self.state = ResponseState::StatusLine;
                self.parse_for_status_line(raw_message)
            },
        }
    }

    /// The status-line phase of `parse`.
    fn parse_for_status_line(&mut self, raw_message: &[u8]) -> (r: Result<ParseResults, Error>)
        requires
            old(self).state matches ResponseState::StatusLine,
        ensures
            resp_parse_post(*old(self), *final(self), raw_message@, r),
            r matches Ok(pr) ==> pr.consumed <= raw_message@.len(),
    {
        proof {
            crate::lemma_find_crlf(raw_message@);
        }
        match crate::find_crlf(raw_message) {
            None => Ok(ParseResults { status: ParseStatus::Incomplete, consumed: 0 }),
            Some(status_line_end) => {
                proof {
                    assert(is_crlf_at(raw_message@, status_line_end as int));
                }
                let _message_len = raw_message.len();
                let line = slice_subrange(raw_message, 0, status_line_end);
                proof {
                    assert(line@ =~= raw_message@.take(status_line_end as int));
                }
                let line_str = match bytes_to_string(line) {
                    Some(s) => s,
                    None => {
                        return Err(Error::StatusLineNotValidText(slice_to_vec(line)));
                    },
                };
                let consumed = status_line_end + 2;
                proof {
                    vstd::utf8::decode_utf8_encode_utf8(line@);
                    assert(encode_utf8(line_str@) == raw_message@.take(status_line_end as int));
                }
                match parse_status_line(line_str.as_str()) {
                    Ok((status_code, reason_phrase)) => {
                        self.status_code = status_code;
                        self.reason_phrase = reason_phrase;
                        self.state = ResponseState::Headers;
                        self.parse_for_headers(raw_message, consumed)
                    },
                    Err(e) => Err(e),
                }
            },
        }
    }

    /// The header phase of `parse`, entered with `base` bytes of the call
    /// already consumed.
    fn parse_for_headers(&mut self, raw_message: &[u8], base: usize) -> (r: Result<
        ParseResults,
        Error,
    >)
        requires
            base <= raw_message@.len(),
            old(self).state matches ResponseState::Headers,
        ensures
            resp_headers_phase(
                old(self).body@,
                headers_seq(old(self).headers),
                headers_line_limit(old(self).headers),
                raw_message@.skip(base as int),
                base as int,
                *final(self),
                r,
            ),
            r matches Ok(pr) ==> pr.consumed <= raw_message@.len(),
            final(self).status_code == old(self).status_code,
            final(self).reason_phrase == old(self).reason_phrase,
    {
        let remainder = slice_subrange(raw_message, base, raw_message.len());
        proof {
            assert(remainder@ =~= raw_message@.skip(base as int));
        }
        let parse_result = headers_parse(&mut self.headers, remainder);
        match parse_result {
            Err(e) => Err(Error::Headers(e)),
            Ok((complete, hc)) => {
                if !complete {
                    return Ok(
                        ParseResults { status: ParseStatus::Incomplete, consumed: base + hc },
                    );
                }
                match headers_value(&self.headers, "Content-Length") {
                    Some(content_length_text) => {
                        match parse_decimal(content_length_text.as_str().as_bytes()) {
                            None => Err(Error::InvalidContentLength(content_length_text)),
                            Some(content_length) => {
                                self.state = ResponseState::FixedBody(content_length);
                                let res = self.parse_for_fixed_body(
                                    raw_message,
                                    base + hc,
                                    content_length,
                                );
                                proof {
                                    assert(raw_message@.skip(base as int).skip(hc as int)
                                        =~= raw_message@.skip((base + hc) as int));
                                }
                                res
                            },
                        }
                    },
                    None => {
                        if headers_has_token(&self.headers, "Transfer-Encoding", "chunked") {
                            let chunked_body = ChunkedBody::new();
                            let res = self.parse_for_chunked_body(
                                raw_message,
                                base + hc,
                                chunked_body,
                            );
                            proof {
                                assert(raw_message@.skip(base as int).skip(hc as int)
                                    =~= raw_message@.skip((base + hc) as int));
                            }
                            res
                        } else {
                            Ok(ParseResults { status: ParseStatus::Complete, consumed: base + hc })
                        }
                    },
                }
            },
        }
    }

    /// The fixed-body phase of `parse`, entered with `base` bytes of the
    /// call already consumed.
    fn parse_for_fixed_body(&mut self, raw_message: &[u8], base: usize, content_length: usize) -> (r:
        Result<ParseResults, Error>)
        requires
            base <= raw_message@.len(),
            old(self).state matches ResponseState::FixedBody(n) && n == content_length,
        ensures
            resp_body_step(
                old(self).body@,
                content_length as nat,
                raw_message@.skip(base as int),
                base as int,
                final(self).body@,
                r,
            ),
            final(self).headers == old(self).headers,
            final(self).reason_phrase == old(self).reason_phrase,
            final(self).status_code == old(self).status_code,
            (final(self).state matches ResponseState::FixedBody(n) && n == content_length),
            r matches Ok(pr) ==> pr.consumed <= raw_message@.len(),
    {
        let have = self.body.len();
        let needed = if content_length > have {
            content_length - have
        } else {
            0
        };
        let available = raw_message.len() - base;
        if available >= needed {
            let part = slice_subrange(raw_message, base, base + needed);
            self.body.extend_from_slice(part);
            proof {
                assert(part@ =~= raw_message@.skip(base as int).take(needed as int));
                assert(self.body@ =~= old(self).body@ + raw_message@.skip(base as int).take(
                    needed as int,
                ));
            }
            Ok(ParseResults { status: ParseStatus::Complete, consumed: base + needed })
        } else {
            let part = slice_subrange(raw_message, base, raw_message.len());
            self.body.extend_from_slice(part);
            proof {
                assert(part@ =~= raw_message@.skip(base as int));
                assert(self.body@ =~= old(self).body@ + raw_message@.skip(base as int));
            }
            Ok(ParseResults { status: ParseStatus::Incomplete, consumed: base + available })
        }
    }

    /// The chunked-body phase of `parse`, entered with `base` bytes of the
    /// call already consumed and the decoder in hand.
    fn parse_for_chunked_body(
        &mut self,
        raw_message: &[u8],
        base: usize,
        chunked_body: ChunkedBody,
    ) -> (r: Result<ParseResults, Error>)
        requires
            base <= raw_message@.len(),
        ensures
            chunked_phase(
                chunked_body.state,
                chunked_body.chunk_bytes_needed as nat,
                chunked_body.buffer@,
                headers_line_limit(chunked_body.trailer),
                headers_seq(chunked_body.trailer),
                headers_seq(old(self).headers),
                raw_message@.skip(base as int),
                base as int,
                *final(self),
                r,
            ),
            r matches Ok(pr) ==> pr.consumed <= raw_message@.len(),
            final(self).status_code == old(self).status_code,
            final(self).reason_phrase == old(self).reason_phrase,
    {
        let ghost rest = raw_message@.skip(base as int);
        let mut chunked_body = chunked_body;
        let remainder = slice_subrange(raw_message, base, raw_message.len());
        proof {
            assert(remainder@ =~= rest);
            crate::chunked_body::lemma_chunk_machine_consumed(
                chunked_body.state,
                chunked_body.chunk_bytes_needed as nat,
                chunked_body.buffer@,
                rest,
            );
        }
        match chunked_body.decode(remainder) {
            Err(e) => Err(e),
            Ok((DecodeStatus::Incomplete, consumed)) => {
                self.state = ResponseState::ChunkedBody(chunked_body);
                Ok(ParseResults { status: ParseStatus::Incomplete, consumed: base + consumed })
            },
            Ok((DecodeStatus::Complete, consumed)) => {
                self.finish_chunked_body(chunked_body);
                self.state = ResponseState::StatusLine;
                Ok(ParseResults { status: ParseStatus::Complete, consumed: base + consumed })
            },
        }
    }

    /// Promote a completed chunked body: move the decoded payload into the
    /// body, append the trailer headers, drop the final `Transfer-Encoding`
    /// token, append `Content-Length`, and remove `Trailer`.
    fn finish_chunked_body(&mut self, chunked_body: ChunkedBody)
        ensures
            final(self).body@ == chunked_body.buffer@,
            headers_seq(final(self).headers) == finalize_headers(
                headers_seq(old(self).headers),
                headers_seq(chunked_body.trailer),
                chunked_body.buffer@.len(),
            ),
            final(self).state == old(self).state,
            final(self).status_code == old(self).status_code,
            final(self).reason_phrase == old(self).reason_phrase,
    {
        let ChunkedBody { buffer, chunk_bytes_needed: _, state: _, trailer } = chunked_body;
        let ghost hs0 = headers_seq(self.headers);
        let ghost tr = headers_seq(trailer);
        self.body = buffer;
        let pairs = headers_to_pairs(&trailer);
        let mut i: usize = 0;
        while i < pairs.len()
            invariant
                i <= pairs@.len(),
                pairs@.len() == tr.len(),
                forall|j: int|
                    0 <= j < pairs@.len() ==> (#[trigger] pairs@[j]).0@ == tr[j].0 && pairs@[j].1@
                        == tr[j].1,
                headers_seq(self.headers) == hs0 + tr.take(i as int),
                headers_line_limit(self.headers) == headers_line_limit(old(self).headers),
                self.body@ == chunked_body.buffer@,
                self.state == old(self).state,
                self.status_code == old(self).status_code,
                self.reason_phrase == old(self).reason_phrase,
            decreases pairs@.len() - i,
        {
            let name = pairs[i].0.as_str();
            let value = pairs[i].1.as_str();
            headers_add(&mut self.headers, name, value);
            proof {
                assert(hs0 + tr.take(i as int) + seq![tr[i as int]] =~= hs0 + tr.take(i + 1));
            }
            i = i + 1;
        }
        proof {
            assert(hs0 + tr.take(tr.len() as int) =~= hs0 + tr);
        }
        let ghost merged = hs0 + tr;
        let mut transfer_encodings = headers_tokens(&self.headers, "Transfer-Encoding");
        let ghost tokens = header_tokens_spec(merged, te_chars());
        let _popped = transfer_encodings.pop();
        if transfer_encodings.len() == 0 {
            headers_remove(&mut self.headers, "Transfer-Encoding");
        } else {
            let ghost kept = tokens.take(tokens.len() - 1);
            let mut joined = String::new();
            let mut k: usize = 0;
            while k < transfer_encodings.len()
                invariant
                    k <= transfer_encodings@.len(),
                    transfer_encodings@.len() == kept.len(),
                    forall|j: int|
                        0 <= j < transfer_encodings@.len() ==> (#[trigger] transfer_encodings@[j])@
                            == kept[j],
                    joined@ == join_comma_space(kept.take(k as int)),
                    0 < kept.len(),
                decreases transfer_encodings@.len() - k,
            {
                if k > 0 {
                    joined.append(", ");
                }
                joined.append(transfer_encodings[k].as_str());
                proof {
                    assert(kept.take(k + 1).drop_last() =~= kept.take(k as int));
                    if k > 0 {
                        reveal_strlit(", ");
                        assert(", "@ =~= seq![',', ' ']);
                        assert(joined@ == join_comma_space(kept.take(k as int)) + seq![',', ' ']
                            + kept[k as int]);
                    } else {
                        assert(kept.take(1)[0] == kept[0]);
                    }
                    assert(joined@ == join_comma_space(kept.take(k + 1)));
                }
                k = k + 1;
            }
            proof {
                assert(kept.take(kept.len() as int) =~= kept);
            }
            headers_set(&mut self.headers, "Transfer-Encoding", joined.as_str());
        }
        let digits = usize_to_dec_bytes(self.body.len());
        proof {
            lemma_dec_digits_of(self.body@.len());
            assert(all_ascii(digits@));
        }
        let content_length_value = ascii_to_string(digits.as_slice());
        headers_add(&mut self.headers, "Content-Length", content_length_value.as_str());
        headers_remove(&mut self.headers, "Trailer");
    }
}

impl Default for Response {
    /// A fresh response, as `Response::new` builds it.
    fn default() -> (r: Self)
        ensures
            r.body@ == Seq::<u8>::empty(),
            headers_seq(r.headers) == Seq::<(Seq<char>, Seq<char>)>::empty(),
            headers_line_limit(r.headers) is None,
            r.reason_phrase@ == "OK"@,
            r.state matches ResponseState::StatusLine,
            r.status_code == 200,
    {
        Response::new()
    }
}

} // verus!
