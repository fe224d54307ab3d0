//! The chunked transfer-coding decoder: a state machine that consumes a
//! chunked body into a decoded payload plus a trailer header block, as framed
//! by RFC 7230 section 4.1.
//!
//! The byte-level part of the machine (chunk sizes, chunk data, chunk
//! terminators) is modelled exactly by the specification interpreter
//! [`chunk_machine`]; the trailer is parsed by the header-block collaborator.

use crate::error::Error;
use crate::headers::{
    headers_line_limit, headers_new, headers_parse, headers_parse_added, headers_parse_result,
    headers_seq,
};
use crate::num::{hex_value, is_hex_digits, parse_hex};
use crate::text::bytes_to_string;
use crate::{find_crlf, is_crlf_at, spec_find_crlf};
use vstd::prelude::*;
use vstd::slice::{slice_subrange, slice_to_vec};
use vstd::string::StringSliceAdditionalSpecFns;
use vstd::utf8::{decode_utf8, decode_utf8_encode_utf8, valid_utf8};

verus! {

/// The result of feeding bytes to the decoder.
#[derive(Debug, PartialEq, Eq, Structural)]
pub enum DecodeStatus {
    /// The chunked body was fully decoded, trailer included.
    Complete,
    /// The decoder needs more input.
    Incomplete,
}

/// The result of one internal decoding step.
#[derive(Debug, PartialEq, Eq, Structural)]
enum DecodeStatusInternal {
    /// One part of the body was decoded; decoding continues.
    CompletePart,
    /// The whole body was decoded.
    CompleteWhole,
    /// More input is needed.
    Incomplete,
}

/// The sub-states of the chunked-body decoder.
#[derive(Debug, PartialEq, Eq, Structural)]
pub enum ChunkedBodyState {
    /// Copying the data bytes of a chunk.
    ChunkData,
    /// Awaiting the CRLF-terminated chunk size line.
    ChunkSize,
    /// Awaiting the CRLF that closes a chunk's data.
    ChunkTerminator,
    /// Awaiting the trailer header block after the zero-sized chunk.
    Trailer,
}

/// The number of bytes before the first `;` or carriage return in a chunk
/// size line: the size field proper, chunk extensions excluded.
pub open spec fn size_field_len(bytes: Seq<u8>) -> int
    decreases bytes.len(),
{
    if bytes.len() == 0 {
        0
    } else if bytes[0] == 59u8 || bytes[0] == 13u8 {
        0
    } else {
        1 + size_field_len(bytes.drop_first())
    }
}

/// The size field of a chunk size line: its bytes up to the first `;` or
/// carriage return.
pub open spec fn chunk_size_field(bytes: Seq<u8>) -> Seq<u8> {
    bytes.take(size_field_len(bytes))
}

/// `size_field_len` marks exactly the first `;` or carriage return.
pub proof fn lemma_size_field_len(bytes: Seq<u8>)
    ensures
        0 <= size_field_len(bytes) <= bytes.len(),
        forall|j: int|
            0 <= j < size_field_len(bytes) ==> #[trigger] bytes[j] != 59u8 && bytes[j] != 13u8,
        size_field_len(bytes) < bytes.len() ==> (bytes[size_field_len(bytes)] == 59u8
            || bytes[size_field_len(bytes)] == 13u8),
    decreases bytes.len(),
{
    if bytes.len() == 0 {
    } else if bytes[0] == 59u8 || bytes[0] == 13u8 {
    } else {
        let rest = bytes.drop_first();
        lemma_size_field_len(rest);
        assert(forall|j: int| 0 <= j < rest.len() ==> rest[j] == bytes[j + 1]);
        assert forall|j: int| 0 <= j < size_field_len(bytes) implies #[trigger] bytes[j] != 59u8
            && bytes[j] != 13u8 by {
            if j > 0 {
                assert(rest[j - 1] != 59u8 && rest[j - 1] != 13u8);
            }
        }
    }
}

/// A failure of the byte-level chunk machine.
pub enum SpecChunkErr {
    /// The chunk size line is not valid UTF-8 text.
    NotText { line: Seq<u8> },
    /// The size field is not hexadecimal digits, or does not fit in `usize`.
    BadSize { text: Seq<char> },
    /// The bytes after a chunk's data are not a carriage return and line
    /// feed.
    BadTerminator { junk: Seq<u8> },
}

/// The outcome of running the byte-level chunk machine on some input.
pub enum SpecStep {
    /// The machine failed.
    Failed { err: SpecChunkErr },
    /// The machine needs more input; the fields are its resting state.
    Stopped { state: ChunkedBodyState, needed: nat, buffer: Seq<u8>, consumed: int },
    /// The machine reached the trailer after consuming `consumed` bytes;
    /// the rest of the input belongs to the trailer header block.
    TrailerReached { buffer: Seq<u8>, consumed: int },
}

/// Add `k` to the consumed count of an outcome.
pub open spec fn add_consumed(s: SpecStep, k: int) -> SpecStep {
    match s {
        SpecStep::Failed { err } => SpecStep::Failed { err },
        SpecStep::Stopped { state, needed, buffer, consumed } => SpecStep::Stopped {
            state,
            needed,
            buffer,
            consumed: consumed + k,
        },
        SpecStep::TrailerReached { buffer, consumed } => SpecStep::TrailerReached {
            buffer,
            consumed: consumed + k,
        },
    }
}

/// Adding nothing to an outcome's consumed count changes nothing.
pub proof fn lemma_add_consumed_zero(s: SpecStep)
    ensures
        add_consumed(s, 0) == s,
{
}

/// Consumed counts compose by addition.
pub proof fn lemma_add_consumed_add(s: SpecStep, a: int, b: int)
    ensures
        add_consumed(add_consumed(s, a), b) == add_consumed(s, a + b),
{
}

/// The machine never consumes more than its input.
pub proof fn lemma_chunk_machine_consumed(
    state: ChunkedBodyState,
    needed: nat,
    buffer: Seq<u8>,
    input: Seq<u8>,
)
    ensures
        match chunk_machine(state, needed, buffer, input) {
            SpecStep::Failed { err } => true,
            SpecStep::Stopped { state, needed, buffer, consumed } => 0 <= consumed <= input.len(),
            SpecStep::TrailerReached { buffer, consumed } => 0 <= consumed <= input.len(),
        },
    decreases input.len(), state_rank(state),
{
    match state {
        ChunkedBodyState::Trailer => {},
        ChunkedBodyState::ChunkSize => {
            crate::lemma_find_crlf(input);
            match spec_find_crlf(input) {
                None => {},
                Some(i) => {
                    if 0 <= i && i + 2 <= input.len() {
                        let line = input.take(i);
                        let field = chunk_size_field(line);
                        if valid_utf8(line) && is_hex_digits(field) && hex_value(field)
                            <= usize::MAX {
                            let size = hex_value(field);
                            let next = if size == 0 {
                                ChunkedBodyState::Trailer
                            } else {
                                ChunkedBodyState::ChunkData
                            };
                            lemma_chunk_machine_consumed(next, size, buffer, input.skip(i + 2));
                        }
                    }
                },
            }
        },
        ChunkedBodyState::ChunkData => {
            if needed <= input.len() {
                lemma_chunk_machine_consumed(
                    ChunkedBodyState::ChunkTerminator,
                    0,
                    buffer + input.take(needed as int),
                    input.skip(needed as int),
                );
            }
        },
        ChunkedBodyState::ChunkTerminator => {
            if input.len() == 0 || (input.len() == 1 && input[0] == 13u8) {
            } else if input[0] == 13u8 && input[1] == 10u8 {
                lemma_chunk_machine_consumed(
                    ChunkedBodyState::ChunkSize,
                    needed,
                    buffer,
                    input.skip(2),
                );
            }
        },
    }
}

/// A measure that strictly falls on the one transition that consumes no
/// input: leaving a zero-byte data state.
pub open spec fn state_rank(s: ChunkedBodyState) -> int {
    if s == ChunkedBodyState::ChunkData {
        1
    } else {
        0
    }
}

/// The byte-level chunk machine: what the decoder does with `input` when it
/// rests in `state` with `needed` data bytes outstanding and `buffer`
/// decoded so far.  The machine stops at the trailer; trailer bytes belong
/// to the header-block collaborator.
pub open spec fn chunk_machine(
    state: ChunkedBodyState,
    needed: nat,
    buffer: Seq<u8>,
    input: Seq<u8>,
) -> SpecStep
    decreases input.len(), state_rank(state),
{
    match state {
        ChunkedBodyState::Trailer => SpecStep::TrailerReached { buffer, consumed: 0 },
        ChunkedBodyState::ChunkSize => match spec_find_crlf(input) {
            None => SpecStep::Stopped { state, needed, buffer, consumed: 0 },
            Some(i) => {
                if 0 <= i && i + 2 <= input.len() {
                    let line = input.take(i);
                    if !valid_utf8(line) {
                        SpecStep::Failed { err: SpecChunkErr::NotText { line } }
                    } else {
                        let field = chunk_size_field(line);
                        if !is_hex_digits(field) || hex_value(field) > usize::MAX {
                            SpecStep::Failed {
                                err: SpecChunkErr::BadSize { text: decode_utf8(line) },
                            }
                        } else {
                            let size = hex_value(field);
                            let next = if size == 0 {
                                ChunkedBodyState::Trailer
                            } else {
                                ChunkedBodyState::ChunkData
                            };
                            add_consumed(chunk_machine(next, size, buffer, input.skip(i + 2)), i + 2)
                        }
                    }
                } else {
                    SpecStep::Stopped { state, needed, buffer, consumed: 0 }
                }
            },
        },
        ChunkedBodyState::ChunkData => {
            if needed <= input.len() {
                add_consumed(
                    chunk_machine(
                        ChunkedBodyState::ChunkTerminator,
                        0,
                        buffer + input.take(needed as int),
                        input.skip(needed as int),
                    ),
                    needed as int,
                )
            } else {
                SpecStep::Stopped {
                    state,
                    needed: (needed - input.len()) as nat,
                    buffer: buffer + input,
                    consumed: input.len() as int,
                }
            }
        },
        ChunkedBodyState::ChunkTerminator => {
            if input.len() == 0 || (input.len() == 1 && input[0] == 13u8) {
                SpecStep::Stopped { state, needed, buffer, consumed: 0 }
            } else if input[0] == 13u8 && input[1] == 10u8 {
                add_consumed(chunk_machine(ChunkedBodyState::ChunkSize, needed, buffer, input.skip(2)), 2)
            } else {
                SpecStep::Failed { err: SpecChunkErr::BadTerminator { junk: input } }
            }
        },
    }
}

/// Read the size field of a chunk size line: the text up to the first `;`
/// (chunk extensions are tolerated and ignored) or carriage return, as a
/// base-16 integer.
pub fn parse_chunk_size(chunk_size_line: &str) -> (r: Result<usize, Error>)
    ensures
        ({
            let field = chunk_size_field(chunk_size_line.spec_bytes());
            &&& r matches Ok(n) ==> is_hex_digits(field) && n == hex_value(field)
            &&& (is_hex_digits(field) && hex_value(field) <= usize::MAX) ==> (r matches Ok(n) && n
                == hex_value(field))
            &&& r matches Err(e) ==> e matches Error::InvalidChunkSize(t) && t@
                == chunk_size_line@
        }),
{
    let bytes = chunk_size_line.as_bytes();
    proof {
        lemma_size_field_len(bytes@);
    }
    let mut i: usize = 0;
    while i < bytes.len() && bytes[i] != 59u8 && bytes[i] != 13u8
        invariant
            i <= bytes@.len(),
            forall|j: int| 0 <= j < i ==> #[trigger] bytes@[j] != 59u8 && bytes@[j] != 13u8,
        decreases bytes@.len() - i,
    {
        i = i + 1;
    }
    proof {
        lemma_size_field_len(bytes@);
        let l = size_field_len(bytes@);
        if l < i {
            assert(bytes@[l] != 59u8 && bytes@[l] != 13u8);
            assert(false);
        }
        if l > i {
            assert(i < bytes@.len());
            assert(bytes@[i as int] != 59u8 && bytes@[i as int] != 13u8);
            assert(false);
        }
    }
    let field = slice_subrange(bytes, 0, i);
    proof {
        assert(field@ =~= chunk_size_field(bytes@));
    }
    match parse_hex(field) {
        Some(n) => Ok(n),
        None => Err(Error::InvalidChunkSize(chunk_size_line.to_owned())),
    }
}

/// The chunked transfer-coding decoder.
pub struct ChunkedBody {
    /// The decoded payload accumulated so far.
    pub buffer: Vec<u8>,
    /// The data bytes still to copy for the current chunk.  The decoder
    /// maintains this field; callers should read it at most.
    pub chunk_bytes_needed: usize,
    /// The sub-state the decoder rests in.  The decoder maintains this
    /// field; callers should read it at most.
    pub state: ChunkedBodyState,
    /// The header block parsed from the trailer after the zero-sized chunk.
    pub trailer: rhymessage::MessageHeaders,
}

impl ChunkedBody {
    /// Create a decoder awaiting its first chunk size line, with an empty
    /// payload and an empty trailer.
    pub fn new() -> (r: Self)
        ensures
            r.state == ChunkedBodyState::ChunkSize,
            r.chunk_bytes_needed == 0,
            r.buffer@ == Seq::<u8>::empty(),
            headers_seq(r.trailer) == Seq::<(Seq<char>, Seq<char>)>::empty(),
            headers_line_limit(r.trailer) is None,
    {
        ChunkedBody {
            buffer: Vec::new(),
            chunk_bytes_needed: 0,
            state: ChunkedBodyState::ChunkSize,
            trailer: headers_new(),
        }
    }

    /// Borrow the decoded payload.
    pub fn as_bytes(&self) -> (r: &[u8])
        ensures
            r@ == self.buffer@,
    {
        self.buffer.as_slice()
    }

    /// Copy chunk data into the buffer: at most `chunk_bytes_needed` bytes.
    fn decode_data(&mut self, raw_message: &[u8]) -> (r: (DecodeStatusInternal, usize))
        requires
            old(self).state == ChunkedBodyState::ChunkData,
        ensures
            ({
                let take = if raw_message@.len() <= old(self).chunk_bytes_needed {
                    raw_message@.len() as int
                } else {
                    old(self).chunk_bytes_needed as int
                };
                &&& final(self).buffer@ == old(self).buffer@ + raw_message@.take(take)
                &&& final(self).chunk_bytes_needed == old(self).chunk_bytes_needed - take
                &&& final(self).trailer == old(self).trailer
                &&& final(self).state == (if take == old(self).chunk_bytes_needed {
                    ChunkedBodyState::ChunkTerminator
                } else {
                    ChunkedBodyState::ChunkData
                })
                &&& r == (
                (if take == old(self).chunk_bytes_needed {
                    DecodeStatusInternal::CompletePart
                } else {
                    DecodeStatusInternal::Incomplete
                }),
                take as usize,
                )
            }),
    {
        let consumed = if raw_message.len() < self.chunk_bytes_needed {
            raw_message.len()
        } else {
            self.chunk_bytes_needed
        };
        self.chunk_bytes_needed = self.chunk_bytes_needed - consumed;
        let part = slice_subrange(raw_message, 0, consumed);
        self.buffer.extend_from_slice(part);
        proof {
            assert(self.buffer@ =~= old(self).buffer@ + raw_message@.take(consumed as int));
        }
        if self.chunk_bytes_needed == 0 {
            self.state = ChunkedBodyState::ChunkTerminator;
            (DecodeStatusInternal::CompletePart, consumed)
        } else {
            (DecodeStatusInternal::Incomplete, consumed)
        }
    }

    /// Read the CRLF-terminated chunk size line, reserve the chunk, and move
    /// to the data state — or to the trailer for a zero-sized chunk.
    fn decode_size(&mut self, raw_message: &[u8]) -> (r: Result<
        (DecodeStatusInternal, usize),
        Error,
    >)
        ensures
            ({
                match spec_find_crlf(raw_message@) {
                    None => r == Ok::<_, Error>((DecodeStatusInternal::Incomplete, 0usize))
                        && *final(self) == *old(self),
                    Some(i) => {
                        let line = raw_message@.take(i);
                        let field = chunk_size_field(line);
                        if !valid_utf8(line) {
                            r matches Err(e) && e matches Error::ChunkSizeLineNotValidText(v)
                                && v@ == line
                        } else if !is_hex_digits(field) || hex_value(field) > usize::MAX {
                            r matches Err(e) && e matches Error::InvalidChunkSize(t) && t@
                                == decode_utf8(line)
                        } else {
                            &&& r == Ok::<_, Error>(
                                (DecodeStatusInternal::CompletePart, (i + 2) as usize),
                            )
                            &&& final(self).chunk_bytes_needed == hex_value(field)
                            &&& final(self).state == (if hex_value(field) == 0 {
                                ChunkedBodyState::Trailer
                            } else {
                                ChunkedBodyState::ChunkData
                            })
                            &&& final(self).buffer == old(self).buffer
                            &&& final(self).trailer == old(self).trailer
                        }
                    },
                }
            }),
    {
        proof {
            crate::lemma_find_crlf(raw_message@);
        }
        match find_crlf(raw_message) {
            Some(chunk_size_line_end) => {
                let line = slice_subrange(raw_message, 0, chunk_size_line_end);
                proof {
                    assert(line@ =~= raw_message@.take(chunk_size_line_end as int));
                }
                let msg_len = raw_message.len();
                proof {
                    crate::lemma_find_crlf(raw_message@);
                    assert(is_crlf_at(raw_message@, chunk_size_line_end as int));
                    assert(chunk_size_line_end + 2 <= msg_len);
                }
                match bytes_to_string(line) {
                    None => Err(Error::ChunkSizeLineNotValidText(slice_to_vec(line))),
                    Some(text) => {
                        proof {
                            decode_utf8_encode_utf8(line@);
                        }
                        let size = parse_chunk_size(text.as_str())?;
                        let consumed = chunk_size_line_end + 2;
                        self.chunk_bytes_needed = size;
                        self.state = if size == 0 {
                            ChunkedBodyState::Trailer
                        } else {
                            ChunkedBodyState::ChunkData
                        };
                        Ok((DecodeStatusInternal::CompletePart, consumed))
                    },
                }
            },
            None => Ok((DecodeStatusInternal::Incomplete, 0)),
        }
    }

    /// The two bytes after a chunk's data must be a carriage return and a
    /// line feed.
    fn decode_terminator(&mut self, raw_message: &[u8]) -> (r: Result<
        (DecodeStatusInternal, usize),
        Error,
    >)
        ensures
            ({
                if raw_message@.len() == 0 || (raw_message@.len() == 1 && raw_message@[0]
                    == 13u8) {
                    r == Ok::<_, Error>((DecodeStatusInternal::Incomplete, 0usize)) && *final(self)
                        == *old(self)
                } else if raw_message@[0] == 13u8 && raw_message@[1] == 10u8 {
                    &&& r == Ok::<_, Error>((DecodeStatusInternal::CompletePart, 2usize))
                    &&& final(self).state == ChunkedBodyState::ChunkSize
                    &&& final(self).buffer == old(self).buffer
                    &&& final(self).chunk_bytes_needed == old(self).chunk_bytes_needed
                    &&& final(self).trailer == old(self).trailer
                } else {
                    r matches Err(e) && e matches Error::InvalidChunkTerminator(v) && v@
                        == raw_message@
                }
            }),
    {
        if raw_message.len() == 0 {
            Ok((DecodeStatusInternal::Incomplete, 0))
        } else if raw_message.len() == 1 && raw_message[0] == 13u8 {
            Ok((DecodeStatusInternal::Incomplete, 0))
        } else if raw_message[0] == 13u8 && raw_message[1] == 10u8 {
            self.state = ChunkedBodyState::ChunkSize;
            Ok((DecodeStatusInternal::CompletePart, 2))
        } else {
            Err(Error::InvalidChunkTerminator(slice_to_vec(raw_message)))
        }
    }

    /// Hand the trailer bytes to the header-block collaborator, whose
    /// outcome is the named function of its line limit and those bytes.
    fn decode_trailer(&mut self, raw_message: &[u8]) -> (r: Result<
        (DecodeStatusInternal, usize),
        Error,
    >)
        ensures
            final(self).buffer == old(self).buffer,
            final(self).state == old(self).state,
            final(self).chunk_bytes_needed == old(self).chunk_bytes_needed,
            headers_line_limit(final(self).trailer) == headers_line_limit(old(self).trailer),
            headers_seq(final(self).trailer) == headers_seq(old(self).trailer)
                + headers_parse_added(headers_line_limit(old(self).trailer), raw_message@),
            ({
                match headers_parse_result(headers_line_limit(old(self).trailer), raw_message@) {
                    None => r matches Err(e) && e is Trailer,
                    Some((complete, consumed)) => 0 <= consumed <= raw_message@.len() && r == Ok::<
                        _,
                        Error,
                    >(
                        (
                            if complete {
                                DecodeStatusInternal::CompleteWhole
                            } else {
                                DecodeStatusInternal::Incomplete
                            },
                            consumed as usize,
                        ),
                    ),
                }
            }),
    {
        match headers_parse(&mut self.trailer, raw_message) {
            Ok((true, consumed)) => Ok((DecodeStatusInternal::CompleteWhole, consumed)),
            Ok((false, consumed)) => Ok((DecodeStatusInternal::Incomplete, consumed)),
            Err(e) => Err(Error::Trailer(e)),
        }
    }

    /// Feed more bytes into the decoder.  The byte-level phases behave
    /// exactly as [`chunk_machine`] says; once the trailer is reached, the
    /// remaining input is handed to the header-block collaborator, whose
    /// named outcome on those bytes decides completion, the consumed count,
    /// and the trailer headers.
    pub fn decode(&mut self, input: &[u8]) -> (r: Result<(DecodeStatus, usize), Error>)
        ensures
            ({
                let step = chunk_machine(
                    old(self).state,
                    old(self).chunk_bytes_needed as nat,
                    old(self).buffer@,
                    input@,
                );
                match step {
                    SpecStep::Failed { err } => {
                        &&& r is Err
                        &&& match err {
                            SpecChunkErr::NotText { line } => r matches Err(e) && e matches
                                Error::ChunkSizeLineNotValidText(v) && v@ == line,
                            SpecChunkErr::BadSize { text } => r matches Err(e) && e matches
                                Error::InvalidChunkSize(t) && t@ == text,
                            SpecChunkErr::BadTerminator { junk } => r matches Err(e) && e matches
                                Error::InvalidChunkTerminator(v) && v@ == junk,
                        }
                    },
                    SpecStep::Stopped { state, needed, buffer, consumed } => {
                        &&& r == Ok::<_, Error>((DecodeStatus::Incomplete, consumed as usize))
                        &&& final(self).state == state
                        &&& final(self).chunk_bytes_needed == needed
                        &&& final(self).buffer@ == buffer
                        &&& final(self).trailer == old(self).trailer
                    },
                    SpecStep::TrailerReached { buffer, consumed } => {
                        let tl = headers_line_limit(old(self).trailer);
                        let trest = input@.skip(consumed);
                        &&& final(self).state == ChunkedBodyState::Trailer
                        &&& final(self).buffer@ == buffer
                        &&& headers_line_limit(final(self).trailer) == tl
                        &&& headers_seq(final(self).trailer) == headers_seq(old(self).trailer)
                            + headers_parse_added(tl, trest)
                        &&& match headers_parse_result(tl, trest) {
                            None => r matches Err(e) && e is Trailer,
                            Some((complete, tc)) => 0 <= tc <= trest.len() && r == Ok::<_, Error>(
                                (
                                    if complete {
                                        DecodeStatus::Complete
                                    } else {
                                        DecodeStatus::Incomplete
                                    },
                                    (consumed + tc) as usize,
                                ),
                            ),
                        }
                    },
                }
            }),
    {
        let ghost step0 = chunk_machine(
            old(self).state,
            old(self).chunk_bytes_needed as nat,
            old(self).buffer@,
            input@,
        );
        let mut total_consumed: usize = 0;
        proof {
            assert(input@.skip(0) =~= input@);
            lemma_add_consumed_zero(
                chunk_machine(
                    old(self).state,
                    old(self).chunk_bytes_needed as nat,
                    old(self).buffer@,
                    input@,
                ),
            );
        }
        loop
            invariant
                total_consumed <= input@.len(),
                self.trailer == old(self).trailer,
                step0 == chunk_machine(
                    old(self).state,
                    old(self).chunk_bytes_needed as nat,
                    old(self).buffer@,
                    input@,
                ),
                step0 == add_consumed(
                    chunk_machine(
                        self.state,
                        self.chunk_bytes_needed as nat,
                        self.buffer@,
                        input@.skip(total_consumed as int),
                    ),
                    total_consumed as int,
                ),
            decreases input@.len() - total_consumed, state_rank(self.state),
        {
            let remainder = slice_subrange(input, total_consumed, input.len());
            let ghost rest = input@.skip(total_consumed as int);
            let ghost pre = *self;
            let ghost base = total_consumed as int;
            proof {
                assert(remainder@ =~= rest);
            }
            match self.state {
                ChunkedBodyState::Trailer => {
                    proof {
                        assert(chunk_machine(pre.state, pre.chunk_bytes_needed as nat, pre.buffer@, rest)
                            == SpecStep::TrailerReached { buffer: pre.buffer@, consumed: 0 });
                    }
                    let res = self.decode_trailer(remainder);
                    match res {
                        Ok((DecodeStatusInternal::CompleteWhole, consumed)) => {
                            return Ok((DecodeStatus::Complete, total_consumed + consumed));
                        },
                        Ok((_, consumed)) => {
                            return Ok((DecodeStatus::Incomplete, total_consumed + consumed));
                        },
                        Err(e) => {
                            return Err(e);
                        },
                    }
                },
                ChunkedBodyState::ChunkSize => {
                    proof {
                        crate::lemma_find_crlf(rest);
                    }
                    let res = self.decode_size(remainder);
                    match res {
                        Ok((DecodeStatusInternal::CompletePart, consumed)) => {
                            proof {
                                let i = consumed - 2;
                                assert(spec_find_crlf(rest) == Some(i as int));
                                assert(is_crlf_at(rest, i as int));
                                let inner = chunk_machine(
                                    self.state,
                                    self.chunk_bytes_needed as nat,
                                    self.buffer@,
                                    rest.skip(consumed as int),
                                );
                                assert(chunk_machine(
                                    pre.state,
                                    pre.chunk_bytes_needed as nat,
                                    pre.buffer@,
                                    rest,
                                ) == add_consumed(inner, consumed as int));
                                lemma_add_consumed_add(inner, consumed as int, base);
                                assert(rest.skip(consumed as int) =~= input@.skip(
                                    base + consumed,
                                ));
                            }
                            total_consumed = total_consumed + consumed;
                        },
                        Ok((_, consumed)) => {
                            return Ok((DecodeStatus::Incomplete, total_consumed));
                        },
                        Err(e) => {
                            return Err(e);
                        },
                    }
                },
                ChunkedBodyState::ChunkData => {
                    let (status, consumed) = self.decode_data(remainder);
                    match status {
                        DecodeStatusInternal::CompletePart => {
                            proof {
                                assert(consumed == pre.chunk_bytes_needed);
                                let inner = chunk_machine(
                                    self.state,
                                    self.chunk_bytes_needed as nat,
                                    self.buffer@,
                                    rest.skip(consumed as int),
                                );
                                assert(chunk_machine(
                                    pre.state,
                                    pre.chunk_bytes_needed as nat,
                                    pre.buffer@,
                                    rest,
                                ) == add_consumed(inner, consumed as int));
                                lemma_add_consumed_add(inner, consumed as int, base);
                                assert(rest.skip(consumed as int) =~= input@.skip(
                                    base + consumed,
                                ));
                            }
                            total_consumed = total_consumed + consumed;
                        },
                        _ => {
                            proof {
                                assert(rest =~= rest.take(rest.len() as int));
                            }
                            total_consumed = total_consumed + consumed;
                            return Ok((DecodeStatus::Incomplete, total_consumed));
                        },
                    }
                },
                ChunkedBodyState::ChunkTerminator => {
                    let res = self.decode_terminator(remainder);
                    match res {
                        Ok((DecodeStatusInternal::CompletePart, consumed)) => {
                            proof {
                                let inner = chunk_machine(
                                    self.state,
                                    self.chunk_bytes_needed as nat,
                                    self.buffer@,
                                    rest.skip(2),
                                );
                                assert(chunk_machine(
                                    pre.state,
                                    pre.chunk_bytes_needed as nat,
                                    pre.buffer@,
                                    rest,
                                ) == add_consumed(inner, 2));
                                lemma_add_consumed_add(inner, 2, base);
                                assert(rest.skip(2) =~= input@.skip(base + 2));
                            }
                            total_consumed = total_consumed + consumed;
                        },
                        Ok((_, consumed)) => {
                            return Ok((DecodeStatus::Incomplete, total_consumed));
                        },
                        Err(e) => {
                            return Err(e);
                        },
                    }
                },
            }
        }
    }
}

} // verus!
