//! Types for handling Hypertext Transfer Protocol (HTTP) 1.1 requests and
//! responses, as framed by IETF RFC 7230.
//!
//! To parse a request or response, construct a new [`Request`] or [`Response`]
//! value with [`Request::new`] or [`Response::new`], and then start feeding it
//! input bytes via [`Request::parse`] or [`Response::parse`].  Each call
//! consumes zero or more of the input bytes.  Input is only consumed if enough
//! is provided for the parser to successfully build up another part of the
//! message.  Any unused input should be included in the next call along with
//! additional input to continue parsing.  Parsing is complete once the end of
//! the message has been found.
//!
//! To generate a request or response, construct a new value, fill in its
//! fields, and emit the wire bytes using [`Request::generate`] or
//! [`Response::generate`].

use vstd::prelude::*;

pub mod chunked_body;
pub mod coding;
pub mod error;
pub mod headers;
pub mod laws;
pub mod num;
pub mod request;
pub mod response;
pub mod text;
pub mod uri;

pub use crate::error::Error;
pub use crate::request::Request;
pub use crate::request::ParseStatus as RequestParseStatus;
pub use crate::response::Response;
pub use crate::response::ParseStatus as ResponseParseStatus;

verus! {

/// True when the two bytes at index `i` of `s` are a carriage return
/// followed by a line feed.
pub open spec fn is_crlf_at(s: Seq<u8>, i: int) -> bool {
    &&& 0 <= i
    &&& i + 2 <= s.len()
    &&& s[i] == 13u8
    &&& s[i + 1] == 10u8
}

/// The index of the first carriage-return/line-feed pair in `s`, if any.
pub open spec fn spec_find_crlf(s: Seq<u8>) -> Option<int>
    decreases s.len(),
{
    if s.len() < 2 {
        None
    } else if s[0] == 13u8 && s[1] == 10u8 {
        Some(0)
    } else {
        match spec_find_crlf(s.drop_first()) {
            Some(i) => Some(i + 1),
            None => None,
        }
    }
}

/// `spec_find_crlf` returns exactly the least index at which a CRLF pair
/// stands, and `None` exactly when there is no such index.
pub proof fn lemma_find_crlf(s: Seq<u8>)
    ensures
        spec_find_crlf(s) matches Some(i) ==> is_crlf_at(s, i) && (forall|j: int|
            0 <= j < i ==> !is_crlf_at(s, j)),
        spec_find_crlf(s) is None ==> forall|j: int| !is_crlf_at(s, j),
    decreases s.len(),
{
    if s.len() < 2 {
    } else if s[0] == 13u8 && s[1] == 10u8 {
    } else {
        lemma_find_crlf(s.drop_first());
        let rest = s.drop_first();
        assert(forall|j: int| 0 <= j < rest.len() ==> rest[j] == s[j + 1]);
        match spec_find_crlf(rest) {
            Some(i) => {
                assert(is_crlf_at(rest, i));
                assert(is_crlf_at(s, i + 1));
                assert forall|j: int| 0 <= j < i + 1 implies !is_crlf_at(s, j) by {
                    if j == 0 {
                    } else {
                        assert(!is_crlf_at(rest, j - 1));
                    }
                }
            },
            None => {
                assert forall|j: int| !is_crlf_at(s, j) by {
                    if 1 <= j {
                        assert(!is_crlf_at(rest, j - 1));
                    }
                }
            },
        }
    }
}

/// The least index holding a CRLF pair is what `spec_find_crlf` returns.
pub proof fn lemma_find_crlf_inverse(s: Seq<u8>, i: int)
    requires
        is_crlf_at(s, i),
        forall|j: int| 0 <= j < i ==> !is_crlf_at(s, j),
    ensures
        spec_find_crlf(s) == Some(i),
{
    lemma_find_crlf(s);
    match spec_find_crlf(s) {
        Some(k) => {
            if k < i {
                assert(!is_crlf_at(s, k));
                assert(false);
            }
            if k > i {
                assert(!is_crlf_at(s, i));
                assert(false);
            }
        },
        None => {
            assert(!is_crlf_at(s, i));
            assert(false);
        },
    }
}

/// A CRLF pair found within a prefix is found at the same place in any
/// extension of it.
pub proof fn lemma_find_crlf_append(a: Seq<u8>, b: Seq<u8>, i: int)
    requires
        spec_find_crlf(a) == Some(i),
    ensures
        spec_find_crlf(a + b) == Some(i),
{
    lemma_find_crlf(a);
    assert(is_crlf_at(a, i));
    assert(is_crlf_at(a + b, i));
    assert forall|j: int| 0 <= j < i implies !is_crlf_at(a + b, j) by {
        assert(!is_crlf_at(a, j));
    }
    lemma_find_crlf_inverse(a + b, i);
}

/// Scan a byte slice for the first carriage-return/line-feed pair.
pub fn find_crlf(message: &[u8]) -> (r: Option<usize>)
    ensures
        r matches Some(i) ==> spec_find_crlf(message@) == Some(i as int),
        r is None ==> spec_find_crlf(message@) is None,
{
    proof {
        assert(message@.skip(0) =~= message@);
    }
    find_crlf_from(message, 0)
}

/// Scan a byte slice for the first carriage-return/line-feed pair at or
/// after index `from`.
pub fn find_crlf_from(message: &[u8], from: usize) -> (r: Option<usize>)
    requires
        from <= message@.len(),
    ensures
        r matches Some(i) ==> from <= i && spec_find_crlf(message@.skip(from as int)) == Some(
            i - from,
        ),
        r is None ==> spec_find_crlf(message@.skip(from as int)) is None,
{
    let ghost tail = message@.skip(from as int);
    proof {
        lemma_find_crlf(tail);
    }
    if message.len() < 2 || from > message.len() - 2 {
        return None;
    }
    let mut i: usize = from;
    while i <= message.len() - 2
        invariant
            from <= i <= message@.len(),
            message@.len() >= 2,
            i <= message@.len() - 1,
            tail == message@.skip(from as int),
            forall|j: int| 0 <= j < i - from ==> !is_crlf_at(tail, j),
        decreases message@.len() - i,
    {
        if message[i] == 13u8 && message[i + 1] == 10u8 {
            proof {
                assert(is_crlf_at(tail, i - from));
                lemma_find_crlf(tail);
                match spec_find_crlf(tail) {
                    Some(k) => {
                        if k < i - from {
                            assert(is_crlf_at(tail, k));
                            assert(false);
                        }
                        if k > i - from {
                            assert(!is_crlf_at(tail, i - from));
                            assert(false);
                        }
                    },
                    None => {
                        assert(!is_crlf_at(tail, i - from));
                        assert(false);
                    },
                }
            }
            return Some(i);
        }
        proof {
            assert(!is_crlf_at(tail, i - from));
        }
        i = i + 1;
    }
    proof {
        match spec_find_crlf(tail) {
            Some(k) => {
                assert(is_crlf_at(tail, k));
                assert(k < i - from);
                assert(false);
            },
            None => {},
        }
    }
    None
}

/// The index of the first occurrence of `x` in `s`, if any.
pub open spec fn spec_find_byte(s: Seq<u8>, x: u8) -> Option<int>
    decreases s.len(),
{
    if s.len() == 0 {
        None
    } else if s[0] == x {
        Some(0)
    } else {
        match spec_find_byte(s.drop_first(), x) {
            Some(i) => Some(i + 1),
            None => None,
        }
    }
}

/// `spec_find_byte` returns exactly the least index holding `x`, and `None`
/// exactly when `x` does not occur.
pub proof fn lemma_find_byte(s: Seq<u8>, x: u8)
    ensures
        spec_find_byte(s, x) matches Some(i) ==> 0 <= i < s.len() && s[i] == x && (forall|j: int|
            0 <= j < i ==> s[j] != x),
        spec_find_byte(s, x) is None ==> forall|j: int| 0 <= j < s.len() ==> s[j] != x,
    decreases s.len(),
{
    if s.len() == 0 {
    } else if s[0] == x {
    } else {
        lemma_find_byte(s.drop_first(), x);
        let rest = s.drop_first();
        assert(forall|j: int| 0 <= j < rest.len() ==> rest[j] == s[j + 1]);
        match spec_find_byte(rest, x) {
            Some(i) => {
                assert forall|j: int| 0 <= j < i + 1 implies s[j] != x by {
                    if j > 0 {
                        assert(rest[j - 1] != x);
                    }
                }
            },
            None => {
                assert forall|j: int| 0 <= j < s.len() implies s[j] != x by {
                    if j > 0 {
                        assert(rest[j - 1] != x);
                    }
                }
            },
        }
    }
}

/// Scan a byte slice for the first occurrence of `x`.
pub fn find_byte(s: &[u8], x: u8) -> (r: Option<usize>)
    ensures
        r matches Some(i) ==> spec_find_byte(s@, x) == Some(i as int),
        r is None ==> spec_find_byte(s@, x) is None,
{
    proof {
        lemma_find_byte(s@, x);
    }
    let mut i: usize = 0;
    while i < s.len() && s[i] != x
        invariant
            i <= s@.len(),
            forall|j: int| 0 <= j < i ==> s@[j] != x,
        decreases s@.len() - i,
    {
        i = i + 1;
    }
    if i < s.len() {
        proof {
            match spec_find_byte(s@, x) {
                Some(k) => {
                    if k < i {
                        assert(s@[k] != x);
                        assert(false);
                    }
                    if k > i {
                        assert(s@[i as int] != x);
                        assert(false);
                    }
                },
                None => {
                    assert(s@[i as int] != x);
                    assert(false);
                },
            }
        }
        Some(i)
    } else {
        proof {
            match spec_find_byte(s@, x) {
                Some(k) => {
                    assert(s@[k] == x);
                    assert(false);
                },
                None => {},
            }
        }
        None
    }
}

/// The bytes of the one protocol identifier this crate accepts, `HTTP/1.1`.
pub open spec fn http11_bytes() -> Seq<u8> {
    seq![72u8, 84u8, 84u8, 80u8, 47u8, 49u8, 46u8, 49u8]
}

/// Test a byte slice against the protocol identifier `HTTP/1.1`.
pub fn is_http11(b: &[u8]) -> (r: bool)
    ensures
        r == (b@ == http11_bytes()),
{
    if b.len() != 8 {
        proof {
            assert(b@.len() != http11_bytes().len());
        }
        return false;
    }
    let r = b[0] == 72u8 && b[1] == 84u8 && b[2] == 84u8 && b[3] == 80u8 && b[4] == 47u8 && b[5]
        == 49u8 && b[6] == 46u8 && b[7] == 49u8;
    proof {
        if r {
            assert(b@ =~= http11_bytes());
        } else {
            assert(b@ != http11_bytes());
        }
    }
    r
}

/// Compare two byte slices for equality.
pub fn bytes_eq(a: &[u8], b: &[u8]) -> (r: bool)
    ensures
        r == (a@ == b@),
{
    if a.len() != b.len() {
        assert(a@.len() != b@.len());
        return false;
    }
    let mut i: usize = 0;
    while i < a.len()
        invariant
            i <= a@.len(),
            a@.len() == b@.len(),
            forall|j: int| 0 <= j < i ==> a@[j] == b@[j],
        decreases a@.len() - i,
    {
        if a[i] != b[i] {
            return false;
        }
        i = i + 1;
    }
    proof {
        assert(a@ =~= b@);
    }
    true
}

} // verus!
