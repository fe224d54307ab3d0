//! The general laws of the library, stated over the same specification
//! functions that the parsers' contracts use and proved from them.

use crate::chunked_body::{
    add_consumed, chunk_machine, ChunkedBodyState, lemma_add_consumed_add,
    lemma_add_consumed_zero, SpecStep,
};
use crate::headers::{
    combined_value, has_name, header_tokens_spec, lower_seq, name_eq, remove_matches,
    token_present,
};
use crate::num::dec_digits_of;
use crate::request::cl_chars;
use crate::response::{finalize_headers, te_chars, trailer_chars};
use crate::text::ascii_chars_of;
use crate::{lemma_find_crlf_append, spec_find_crlf};
use vstd::prelude::*;
use vstd::seq_lib::*;

verus! {

/// Incremental equivalence of the chunked machine: when a run over `a`
/// stops for want of input after committing `consumed` bytes, running over
/// `a` extended by any `b` is the same as resuming from the resting state on
/// the unconsumed remainder of `a` followed by `b`.  With the exact contract
/// of `ChunkedBody::decode`, feeding a chunked body in any pieces therefore
/// decodes the same payload as feeding it whole.
pub proof fn lemma_chunk_machine_incremental(
    st: ChunkedBodyState,
    needed: nat,
    buffer: Seq<u8>,
    a: Seq<u8>,
    b: Seq<u8>,
)
    requires
        (chunk_machine(st, needed, buffer, a) matches SpecStep::Stopped { .. }),
    ensures
        ({
            match chunk_machine(st, needed, buffer, a) {
                SpecStep::Stopped { state: s1, needed: n1, buffer: b1, consumed: c1 } => {
                    &&& 0 <= c1 <= a.len()
                    &&& chunk_machine(st, needed, buffer, a + b) == add_consumed(
                        chunk_machine(s1, n1, b1, a.skip(c1) + b),
                        c1,
                    )
                },
                _ => true,
            }
        }),
    decreases a.len(), crate::chunked_body::state_rank(st),
{
    crate::chunked_body::lemma_chunk_machine_consumed(st, needed, buffer, a);
    match st {
        ChunkedBodyState::Trailer => {},
        ChunkedBodyState::ChunkSize => {
            crate::lemma_find_crlf(a);
            match spec_find_crlf(a) {
                None => {
                    proof_stopped_in_place(st, needed, buffer, a, b);
                },
                Some(i) => {
                    lemma_find_crlf_append(a, b, i);
                    let line = a.take(i);
                    assert((a + b).take(i) =~= line);
                    let field = crate::chunked_body::chunk_size_field(line);
                    let ok = vstd::utf8::valid_utf8(line) && crate::num::is_hex_digits(field)
                        && crate::num::hex_value(field) <= usize::MAX;
                    assert(ok);  // a failed or trailer-reached run is not Stopped
                    let size = crate::num::hex_value(field);
                    let next = if size == 0 {
                        ChunkedBodyState::Trailer
                    } else {
                        ChunkedBodyState::ChunkData
                    };
                    assert((a + b).skip(i + 2) =~= a.skip(i + 2) + b);
                    lemma_chunk_machine_incremental(next, size, buffer, a.skip(i + 2), b);
                    match chunk_machine(next, size, buffer, a.skip(i + 2)) {
                        SpecStep::Stopped { state: s1, needed: n1, buffer: b1, consumed: c2 } => {
                            crate::chunked_body::lemma_chunk_machine_consumed(
                                next,
                                size,
                                buffer,
                                a.skip(i + 2),
                            );
                            assert(a.skip(i + 2).skip(c2) =~= a.skip(i + 2 + c2));
                            lemma_add_consumed_add(
                                chunk_machine(s1, n1, b1, a.skip(i + 2 + c2) + b),
                                c2,
                                i + 2,
                            );
                        },
                        _ => {
                            assert(false);
                        },
                    }
                },
            }
        },
        ChunkedBodyState::ChunkData => {
            if needed <= a.len() {
                assert((a + b).take(needed as int) =~= a.take(needed as int));
                assert((a + b).skip(needed as int) =~= a.skip(needed as int) + b);
                lemma_chunk_machine_incremental(
                    ChunkedBodyState::ChunkTerminator,
                    0,
                    buffer + a.take(needed as int),
                    a.skip(needed as int),
                    b,
                );
                match chunk_machine(
                    ChunkedBodyState::ChunkTerminator,
                    0,
                    buffer + a.take(needed as int),
                    a.skip(needed as int),
                ) {
                    SpecStep::Stopped { state: s1, needed: n1, buffer: b1, consumed: c2 } => {
                        crate::chunked_body::lemma_chunk_machine_consumed(
                            ChunkedBodyState::ChunkTerminator,
                            0,
                            buffer + a.take(needed as int),
                            a.skip(needed as int),
                        );
                        assert(a.skip(needed as int).skip(c2) =~= a.skip(needed + c2));
                        lemma_add_consumed_add(
                            chunk_machine(s1, n1, b1, a.skip(needed + c2) + b),
                            c2,
                            needed as int,
                        );
                    },
                    _ => {
                        assert(false);
                    },
                }
            } else {
                // the whole of `a` was copied; resuming needs the rest
                let c1 = a.len() as int;
                if needed <= (a + b).len() {
                    assert((a + b).take(needed as int) =~= a + b.take(needed - a.len()));
                    assert((a + b).skip(needed as int) =~= b.skip(needed - a.len()));
                    assert(a.skip(c1) + b =~= b);
                    assert(buffer + (a + b).take(needed as int) =~= (buffer + a) + b.take(
                        needed - a.len(),
                    ));
                    lemma_add_consumed_add(
                        chunk_machine(
                            ChunkedBodyState::ChunkTerminator,
                            0,
                            buffer + (a + b).take(needed as int),
                            (a + b).skip(needed as int),
                        ),
                        needed - a.len(),
                        c1,
                    );
                    assert(b.take(needed - a.len()) =~= b.take((needed - a.len()) as int));
                } else {
                    assert(a.skip(c1) + b =~= b);
                    assert(buffer + (a + b) =~= (buffer + a) + b);
                }
            }
        },
        ChunkedBodyState::ChunkTerminator => {
            if a.len() == 0 || (a.len() == 1 && a[0] == 13u8) {
                proof_stopped_in_place(st, needed, buffer, a, b);
            } else if a[0] == 13u8 && a[1] == 10u8 {
                assert((a + b)[0] == 13u8 && (a + b)[1] == 10u8);
                assert((a + b).skip(2) =~= a.skip(2) + b);
                lemma_chunk_machine_incremental(
                    ChunkedBodyState::ChunkSize,
                    needed,
                    buffer,
                    a.skip(2),
                    b,
                );
                match chunk_machine(ChunkedBodyState::ChunkSize, needed, buffer, a.skip(2)) {
                    SpecStep::Stopped { state: s1, needed: n1, buffer: b1, consumed: c2 } => {
                        crate::chunked_body::lemma_chunk_machine_consumed(
                            ChunkedBodyState::ChunkSize,
                            needed,
                            buffer,
                            a.skip(2),
                        );
                        assert(a.skip(2).skip(c2) =~= a.skip(2 + c2));
                        lemma_add_consumed_add(
                            chunk_machine(s1, n1, b1, a.skip(2 + c2) + b),
                            c2,
                            2,
                        );
                    },
                    _ => {
                        assert(false);
                    },
                }
            }
        },
    }
}

/// The zero-consumption resting case of the incremental law.
proof fn proof_stopped_in_place(
    st: ChunkedBodyState,
    needed: nat,
    buffer: Seq<u8>,
    a: Seq<u8>,
    b: Seq<u8>,
)
    requires
        chunk_machine(st, needed, buffer, a) == (SpecStep::Stopped {
            state: st,
            needed,
            buffer,
            consumed: 0int,
        }),
    ensures
        chunk_machine(st, needed, buffer, a + b) == add_consumed(
            chunk_machine(st, needed, buffer, a.skip(0) + b),
            0,
        ),
{
    assert(a.skip(0) + b =~= a + b);
    lemma_add_consumed_zero(chunk_machine(st, needed, buffer, a + b));
}

/// No over-consumption by the chunked machine: a run that reaches the
/// trailer commits exactly the bytes of the chunked framing; bytes appended
/// after them change neither the decoded payload nor the count consumed.
pub proof fn lemma_chunk_machine_trailing(
    st: ChunkedBodyState,
    needed: nat,
    buffer: Seq<u8>,
    a: Seq<u8>,
    b: Seq<u8>,
)
    requires
        (chunk_machine(st, needed, buffer, a) matches SpecStep::TrailerReached { .. }),
    ensures
        chunk_machine(st, needed, buffer, a + b) == chunk_machine(st, needed, buffer, a),
    decreases a.len(), crate::chunked_body::state_rank(st),
{
    match st {
        ChunkedBodyState::Trailer => {},
        ChunkedBodyState::ChunkSize => {
            crate::lemma_find_crlf(a);
            match spec_find_crlf(a) {
                None => {
                    assert(false);
                },
                Some(i) => {
                    lemma_find_crlf_append(a, b, i);
                    let line = a.take(i);
                    assert((a + b).take(i) =~= line);
                    let field = crate::chunked_body::chunk_size_field(line);
                    assert(vstd::utf8::valid_utf8(line) && crate::num::is_hex_digits(field)
                        && crate::num::hex_value(field) <= usize::MAX);
                    let size = crate::num::hex_value(field);
                    let next = if size == 0 {
                        ChunkedBodyState::Trailer
                    } else {
                        ChunkedBodyState::ChunkData
                    };
                    assert((a + b).skip(i + 2) =~= a.skip(i + 2) + b);
                    lemma_chunk_machine_trailing(next, size, buffer, a.skip(i + 2), b);
                },
            }
        },
        ChunkedBodyState::ChunkData => {
            assert(needed <= a.len());
            assert((a + b).take(needed as int) =~= a.take(needed as int));
            assert((a + b).skip(needed as int) =~= a.skip(needed as int) + b);
            lemma_chunk_machine_trailing(
                ChunkedBodyState::ChunkTerminator,
                0,
                buffer + a.take(needed as int),
                a.skip(needed as int),
                b,
            );
        },
        ChunkedBodyState::ChunkTerminator => {
            assert(!(a.len() == 0 || (a.len() == 1 && a[0] == 13u8)));
            assert(a[0] == 13u8 && a[1] == 10u8);
            assert((a + b)[0] == 13u8 && (a + b)[1] == 10u8);
            assert((a + b).skip(2) =~= a.skip(2) + b);
            lemma_chunk_machine_trailing(ChunkedBodyState::ChunkSize, needed, buffer, a.skip(2), b);
        },
    }
}

/// No header in `hs` is named `name`, so the combined lookup finds nothing.
proof fn lemma_combined_value_absent(hs: Seq<(Seq<char>, Seq<char>)>, name: Seq<char>)
    requires
        forall|i: int| 0 <= i < hs.len() ==> !name_eq(#[trigger] hs[i].0, name),
    ensures
        combined_value(hs, name) is None,
    decreases hs.len(),
{
    if hs.len() == 0 {
    } else {
        assert(!name_eq(hs[hs.len() - 1].0, name));
        lemma_combined_value_absent(hs.drop_last(), name);
    }
}

/// A header block without a name yields no tokens for it.
proof fn lemma_tokens_absent(hs: Seq<(Seq<char>, Seq<char>)>, name: Seq<char>)
    requires
        forall|i: int| 0 <= i < hs.len() ==> !name_eq(#[trigger] hs[i].0, name),
    ensures
        header_tokens_spec(hs, name) == Seq::<Seq<char>>::empty(),
    decreases hs.len(),
{
    if hs.len() == 0 {
    } else {
        assert(!name_eq(hs[0].0, name));
        assert(forall|i: int|
            0 <= i < hs.drop_first().len() ==> #[trigger] hs.drop_first()[i] == hs[i + 1]);
        lemma_tokens_absent(hs.drop_first(), name);
        assert(header_tokens_spec(hs, name) =~= Seq::<Seq<char>>::empty());
    }
}

/// The two framing header names differ, as do both from `Content-Length`.
proof fn lemma_framing_names_differ()
    ensures
        !name_eq(cl_chars(), te_chars()),
        !name_eq(cl_chars(), trailer_chars()),
    decreases 0int,
{
    reveal_strlit("Content-Length");
    reveal_strlit("Transfer-Encoding");
    reveal_strlit("Trailer");
    assert(cl_chars().len() == 14);
    assert(te_chars().len() == 17);
    assert(trailer_chars().len() == 7);
    assert(lower_seq(cl_chars()).len() == 14);
    assert(lower_seq(te_chars()).len() == 17);
    assert(lower_seq(trailer_chars()).len() == 7);
}

/// Chunked-to-fixed rewrite: when a chunked response completes and `chunked`
/// was the only transfer-coding token, the rewritten header block has no
/// `Transfer-Encoding` header and no `Trailer` header, names the decoded
/// body's length in a single `Content-Length` header, and keeps every
/// trailer header whose name is none of the framing names.
pub proof fn lemma_chunked_rewrite(
    hs: Seq<(Seq<char>, Seq<char>)>,
    trailer: Seq<(Seq<char>, Seq<char>)>,
    body_len: nat,
)
    requires
        header_tokens_spec(hs + trailer, te_chars()).len() <= 1,
        forall|i: int|
            0 <= i < (hs + trailer).len() ==> !name_eq(#[trigger] (hs + trailer)[i].0, cl_chars()),
    ensures
        ({
            let post = finalize_headers(hs, trailer, body_len);
            &&& !has_name(post, trailer_chars())
            &&& !has_name(post, te_chars())
            &&& combined_value(post, cl_chars()) == Some(ascii_chars_of(dec_digits_of(body_len)))
            &&& !token_present(post, te_chars(), "chunked"@)
            &&& forall|i: int|
                0 <= i < trailer.len() && !name_eq(#[trigger] trailer[i].0, te_chars())
                    && !name_eq(trailer[i].0, trailer_chars()) ==> post.contains(trailer[i])
        }),
{
    broadcast use Seq::lemma_filter_pred;
    broadcast use Seq::lemma_filter_contains;
    broadcast use Seq::lemma_filter_contains_rev;
    broadcast use Seq::lemma_filter_push;

    lemma_framing_names_differ();
    let merged = hs + trailer;
    let after_te = remove_matches(merged, te_chars());
    let cl_pair = (cl_chars(), ascii_chars_of(dec_digits_of(body_len)));
    assert(finalize_headers(hs, trailer, body_len) == remove_matches(
        after_te.push(cl_pair),
        trailer_chars(),
    ));
    let kept = remove_matches(after_te, trailer_chars());
    let post = kept.push(cl_pair);
    assert(finalize_headers(hs, trailer, body_len) == post);

    // no Trailer header: every kept element passed the trailer filter, and
    // the appended Content-Length is not named Trailer
    assert forall|i: int| 0 <= i < post.len() implies !name_eq(
        #[trigger] post[i].0,
        trailer_chars(),
    ) by {
        if i < kept.len() {
            assert(!name_eq(kept[i].0, trailer_chars()));
        }
    }
    assert(!has_name(post, trailer_chars()));

    // no Transfer-Encoding header: kept elements come from the TE filter
    assert forall|i: int| 0 <= i < post.len() implies !name_eq(#[trigger] post[i].0, te_chars()) by {
        if i < kept.len() {
            assert(kept.contains(kept[i]));
            assert(after_te.contains(kept[i]));
            let j = choose|j: int| 0 <= j < after_te.len() && after_te[j] == kept[i];
            assert(!name_eq(after_te[j].0, te_chars()));
        } else {
            assert(post[i] == cl_pair);
            assert(!name_eq(cl_chars(), te_chars()));
        }
    }
    assert(!has_name(post, te_chars()));

    // the lone Content-Length names the decoded length
    assert forall|i: int| 0 <= i < kept.len() implies !name_eq(
        #[trigger] kept[i].0,
        cl_chars(),
    ) by {
        assert(kept.contains(kept[i]));
        assert(after_te.contains(kept[i]));
        let j = choose|j: int| 0 <= j < after_te.len() && after_te[j] == kept[i];
        assert(merged.contains(after_te[j]));
        let k = choose|k: int| 0 <= k < merged.len() && merged[k] == after_te[j];
        assert(!name_eq(merged[k].0, cl_chars()));
    }
    lemma_combined_value_absent(kept, cl_chars());
    assert(post.drop_last() =~= kept);
    assert(post.last() == cl_pair);
    assert(name_eq(cl_chars(), cl_chars()));
    assert(combined_value(post, cl_chars()) == Some(cl_pair.1));

    // no chunked token without a Transfer-Encoding header
    lemma_tokens_absent(post, te_chars());
    assert(!token_present(post, te_chars(), "chunked"@));

    // trailer headers that are no framing headers survive the rewrite
    assert forall|i: int|
        0 <= i < trailer.len() && !name_eq(#[trigger] trailer[i].0, te_chars()) && !name_eq(
            trailer[i].0,
            trailer_chars(),
        ) implies post.contains(trailer[i]) by {
        assert(merged[hs.len() + i] == trailer[i]);
        assert(after_te.contains(trailer[i]));
        let j = choose|j: int| 0 <= j < after_te.len() && after_te[j] == trailer[i];
        assert(kept.contains(after_te[j]));
        let k = choose|k: int| 0 <= k < kept.len() && kept[k] == trailer[i];
        assert(post[k] == trailer[i]);
        assert(post.contains(trailer[i]));
    }
}

} // verus!
