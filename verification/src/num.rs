//! Verified decimal and hexadecimal conversions for the numeric fields of a
//! message: `Content-Length` values, status codes, and chunk sizes.

use vstd::prelude::*;

verus! {

/// True when `b` is an ASCII decimal digit.
pub open spec fn is_dec_digit(b: u8) -> bool {
    48 <= b <= 57
}

/// The numeric value of the ASCII decimal digit `b`.
pub open spec fn dec_digit_val(b: u8) -> nat {
    (b - 48) as nat
}

/// True when `s` is one or more ASCII decimal digits.
pub open spec fn is_dec_digits(s: Seq<u8>) -> bool {
    s.len() > 0 && forall|i: int| 0 <= i < s.len() ==> is_dec_digit(#[trigger] s[i])
}

/// The value of `s` read as ASCII decimal digits.
pub open spec fn dec_value(s: Seq<u8>) -> nat
    decreases s.len(),
{
    if s.len() == 0 {
        0
    } else {
        dec_value(s.drop_last()) * 10 + dec_digit_val(s.last())
    }
}

/// True when `b` is an ASCII hexadecimal digit, of either case.
pub open spec fn is_hex_digit(b: u8) -> bool {
    (48 <= b <= 57) || (97 <= b <= 102) || (65 <= b <= 70)
}

/// The numeric value of the ASCII hexadecimal digit `b`.
pub open spec fn hex_digit_val(b: u8) -> nat {
    if 48 <= b <= 57 {
        (b - 48) as nat
    } else if 97 <= b <= 102 {
        (b - 87) as nat
    } else {
        (b - 55) as nat
    }
}

/// True when `s` is one or more ASCII hexadecimal digits.
pub open spec fn is_hex_digits(s: Seq<u8>) -> bool {
    s.len() > 0 && forall|i: int| 0 <= i < s.len() ==> is_hex_digit(#[trigger] s[i])
}

/// The value of `s` read as ASCII hexadecimal digits.
pub open spec fn hex_value(s: Seq<u8>) -> nat
    decreases s.len(),
{
    if s.len() == 0 {
        0
    } else {
        hex_value(s.drop_last()) * 16 + hex_digit_val(s.last())
    }
}

/// Reading more digits never decreases the value.
proof fn lemma_dec_value_prefix(s: Seq<u8>, i: int)
    requires
        0 <= i <= s.len(),
    ensures
        dec_value(s.take(i)) <= dec_value(s),
    decreases s.len() - i,
{
    if i == s.len() {
        assert(s.take(i) =~= s);
    } else {
        lemma_dec_value_prefix(s, i + 1);
        assert(s.take(i + 1).drop_last() =~= s.take(i));
        assert(dec_value(s.take(i + 1)) == dec_value(s.take(i)) * 10 + dec_digit_val(
            s.take(i + 1).last(),
        ));
    }
}

/// Reading more digits never decreases the value.
proof fn lemma_hex_value_prefix(s: Seq<u8>, i: int)
    requires
        0 <= i <= s.len(),
    ensures
        hex_value(s.take(i)) <= hex_value(s),
    decreases s.len() - i,
{
    if i == s.len() {
        assert(s.take(i) =~= s);
    } else {
        lemma_hex_value_prefix(s, i + 1);
        assert(s.take(i + 1).drop_last() =~= s.take(i));
        assert(hex_value(s.take(i + 1)) == hex_value(s.take(i)) * 16 + hex_digit_val(
            s.take(i + 1).last(),
        ));
    }
}

/// Read `s` as a non-negative decimal integer.  Returns `None` when `s` is
/// empty, holds a byte that is no decimal digit, or names a value that does
/// not fit in `usize`.
pub fn parse_decimal(s: &[u8]) -> (r: Option<usize>)
    ensures
        r matches Some(n) ==> is_dec_digits(s@) && n == dec_value(s@),
        r is None ==> !is_dec_digits(s@) || dec_value(s@) > usize::MAX,
{
    if s.len() == 0 {
        return None;
    }
    let mut acc: usize = 0;
    let mut i: usize = 0;
    while i < s.len()
        invariant
            0 < s@.len(),
            i <= s@.len(),
            forall|j: int| 0 <= j < i ==> is_dec_digit(#[trigger] s@[j]),
            acc == dec_value(s@.take(i as int)),
        decreases s@.len() - i,
    {
        let b = s[i];
        if !(48 <= b && b <= 57) {
            return None;
        }
        let d = (b - 48) as usize;
        if acc > (usize::MAX - d) / 10 {
            proof {
                assert(acc * 10 + d > usize::MAX) by (nonlinear_arith)
                    requires
                        acc > (usize::MAX - d) / 10,
                        d <= 9,
                ;
                assert(s@.take(i + 1).drop_last() =~= s@.take(i as int));
                assert(dec_value(s@.take(i + 1)) == acc * 10 + d);
                lemma_dec_value_prefix(s@, i + 1);
            }
            return None;
        }
        proof {
            assert(acc * 10 + d <= usize::MAX) by (nonlinear_arith)
                requires
                    acc <= (usize::MAX - d) / 10,
                    d <= 9,
            ;
            assert(s@.take(i + 1).drop_last() =~= s@.take(i as int));
        }
        acc = acc * 10 + d;
        i = i + 1;
    }
    proof {
        assert(s@.take(i as int) =~= s@);
    }
    Some(acc)
}

/// Read `s` as a base-16 integer.  Returns `None` when `s` is empty, holds a
/// byte that is no hexadecimal digit, or names a value that does not fit in
/// `usize`.
pub fn parse_hex(s: &[u8]) -> (r: Option<usize>)
    ensures
        r matches Some(n) ==> is_hex_digits(s@) && n == hex_value(s@),
        r is None ==> !is_hex_digits(s@) || hex_value(s@) > usize::MAX,
{
    if s.len() == 0 {
        return None;
    }
    let mut acc: usize = 0;
    let mut i: usize = 0;
    while i < s.len()
        invariant
            0 < s@.len(),
            i <= s@.len(),
            forall|j: int| 0 <= j < i ==> is_hex_digit(#[trigger] s@[j]),
            acc == hex_value(s@.take(i as int)),
        decreases s@.len() - i,
    {
        let b = s[i];
        let d: usize = if 48 <= b && b <= 57 {
            (b - 48) as usize
        } else if 97 <= b && b <= 102 {
            (b - 87) as usize
        } else if 65 <= b && b <= 70 {
            (b - 55) as usize
        } else {
            return None;
        };
        if acc > (usize::MAX - d) / 16 {
            proof {
                assert(acc * 16 + d > usize::MAX) by (nonlinear_arith)
                    requires
                        acc > (usize::MAX - d) / 16,
                        d <= 15,
                ;
                assert(s@.take(i + 1).drop_last() =~= s@.take(i as int));
                assert(hex_value(s@.take(i + 1)) == acc * 16 + d);
                lemma_hex_value_prefix(s@, i + 1);
            }
            return None;
        }
        proof {
            assert(acc * 16 + d <= usize::MAX) by (nonlinear_arith)
                requires
                    acc <= (usize::MAX - d) / 16,
                    d <= 15,
            ;
            assert(s@.take(i + 1).drop_last() =~= s@.take(i as int));
        }
        acc = acc * 16 + d;
        i = i + 1;
    }
    proof {
        assert(s@.take(i as int) =~= s@);
    }
    Some(acc)
}

/// The ASCII decimal digits of `n`, most significant first.
pub open spec fn dec_digits_of(n: nat) -> Seq<u8>
    decreases n,
{
    if n < 10 {
        seq![(48 + n) as u8]
    } else {
        dec_digits_of(n / 10).push((48 + n % 10) as u8)
    }
}

/// The digits of `n` are decimal digits and read back as `n`.
pub proof fn lemma_dec_digits_of(n: nat)
    ensures
        is_dec_digits(dec_digits_of(n)),
        dec_value(dec_digits_of(n)) == n,
    decreases n,
{
    if n < 10 {
        let s = dec_digits_of(n);
        assert(s == seq![(48 + n) as u8]);
        assert(s.drop_last() =~= Seq::<u8>::empty());
        assert(dec_value(s.drop_last()) == 0);
        assert(dec_digit_val(s.last()) == n);
    } else {
        lemma_dec_digits_of(n / 10);
        let s = dec_digits_of(n);
        assert(s.drop_last() =~= dec_digits_of(n / 10));
        assert(n % 10 < 10);
        assert(s.last() == (48 + n % 10) as u8);
        assert(dec_digit_val(s.last()) == n % 10);
        assert(dec_value(s) == (n / 10) * 10 + n % 10);
        assert((n / 10) * 10 + n % 10 == n) by (nonlinear_arith);
        assert forall|i: int| 0 <= i < s.len() implies is_dec_digit(#[trigger] s[i]) by {
            if i < s.len() - 1 {
                assert(s[i] == dec_digits_of(n / 10)[i]);
            }
        }
    }
}

/// Append the decimal digits of `n` to `out`.
fn push_dec_digits(n: usize, out: &mut Vec<u8>)
    ensures
        final(out)@ == old(out)@ + dec_digits_of(n as nat),
    decreases n,
{
    if n < 10 {
        out.push(48 + n as u8);
        assert(final(out)@ =~= old(out)@ + dec_digits_of(n as nat));
    } else {
        push_dec_digits(n / 10, out);
        out.push(48 + (n % 10) as u8);
        assert(final(out)@ =~= old(out)@ + dec_digits_of(n as nat));
    }
}

/// Render `n` as ASCII decimal digits.
pub fn usize_to_dec_bytes(n: usize) -> (r: Vec<u8>)
    ensures
        r@ == dec_digits_of(n as nat),
{
    let mut out: Vec<u8> = Vec::new();
    push_dec_digits(n, &mut out);
    proof {
        assert(out@ =~= dec_digits_of(n as nat));
    }
    out
}

} // verus!
