//! Percent-encoding of query parameter values.
//!
//! Unreserved bytes (letters, digits, `-` `.` `_` `~`) pass through;
//! every other byte of the UTF-8 text becomes `%` followed by two upper-case
//! hex digits, as a URL query expects.

use crate::ascii::{all_ascii, ascii_chars, hex_digit_byte, push_hex_digits, string_from_ascii};
use vstd::prelude::*;
use vstd::string::StringSliceAdditionalSpecFns;

verus! {

/// Bytes that pass through a URL unescaped.
pub open spec fn is_unreserved(b: u8) -> bool {
    ||| 0x41 <= b <= 0x5a
    ||| 0x61 <= b <= 0x7a
    ||| 0x30 <= b <= 0x39
    ||| b == 0x2d
    ||| b == 0x2e
    ||| b == 0x5f
    ||| b == 0x7e
}

/// The encoding of one byte: itself, or `%` and two hex digits.
pub open spec fn pct_byte(b: u8) -> Seq<u8> {
    if is_unreserved(b) {
        seq![b]
    } else {
        seq![0x25u8, hex_digit_byte(b as int / 16), hex_digit_byte(b as int % 16)]
    }
}

/// The percent-encoding of a byte sequence.
pub open spec fn pct_bytes(bytes: Seq<u8>) -> Seq<u8>
    decreases bytes.len(),
{
    if bytes.len() == 0 {
        Seq::empty()
    } else {
        pct_byte(bytes[0]) + pct_bytes(bytes.drop_first())
    }
}

/// Percent-encoding splits over concatenation.
proof fn lemma_pct_bytes_concat(a: Seq<u8>, b: Seq<u8>)
    ensures
        pct_bytes(a + b) == pct_bytes(a) + pct_bytes(b),
    decreases a.len(),
{
    if a.len() == 0 {
        assert(a + b =~= b);
        assert(pct_bytes(a) + pct_bytes(b) =~= pct_bytes(b));
    } else {
        assert((a + b).drop_first() =~= a.drop_first() + b);
        assert((a + b)[0] == a[0]);
        lemma_pct_bytes_concat(a.drop_first(), b);
        assert(pct_byte(a[0]) + (pct_bytes(a.drop_first()) + pct_bytes(b)) =~= (pct_byte(a[0])
            + pct_bytes(a.drop_first())) + pct_bytes(b));
    }
}

/// The encoding of a single byte sequence.
proof fn lemma_pct_bytes_singleton(b: u8)
    ensures
        pct_bytes(seq![b]) == pct_byte(b),
{
    assert(seq![b].drop_first() =~= Seq::<u8>::empty());
    assert(pct_bytes(Seq::<u8>::empty()) == Seq::<u8>::empty());
    assert(pct_byte(b) + Seq::<u8>::empty() =~= pct_byte(b));
}

/// An encoded sequence is pure ASCII.
proof fn lemma_pct_bytes_ascii(bytes: Seq<u8>)
    ensures
        all_ascii(pct_bytes(bytes)),
    decreases bytes.len(),
{
    if bytes.len() > 0 {
        lemma_pct_bytes_ascii(bytes.drop_first());
        assert forall|i: int| 0 <= i < pct_bytes(bytes).len() implies pct_bytes(bytes)[i]
            < 128 by {
            let head = pct_byte(bytes[0]);
            if i >= head.len() {
                assert(pct_bytes(bytes)[i] == pct_bytes(bytes.drop_first())[i - head.len()]);
            }
        }
    }
}

/// True when the byte passes through a URL unescaped.
fn unreserved(b: u8) -> (r: bool)
    ensures
        r == is_unreserved(b),
{
    (0x41 <= b && b <= 0x5a) || (0x61 <= b && b <= 0x7a) || (0x30 <= b && b <= 0x39) || b == 0x2d
        || b == 0x2e || b == 0x5f || b == 0x7e
}

/// Percent-encodes a piece of text for use as a URL query value.
pub fn encode(s: &str) -> (r: String)
    ensures
        r@ == ascii_chars(pct_bytes(s.spec_bytes())),
{
    let b = s.as_bytes();
    let mut out: Vec<u8> = Vec::new();
    proof {
        assert(b@.take(0) =~= Seq::<u8>::empty());
        assert(out@ =~= pct_bytes(b@.take(0)));
    }
    let mut i: usize = 0;
    while i < b.len()
        invariant
            i <= b@.len(),
            out@ == pct_bytes(b@.take(i as int)),
            all_ascii(out@),
        decreases b@.len() - i,
    {
        let c = b[i];
        proof {
            assert(b@.take(i as int + 1) =~= b@.take(i as int) + seq![c]);
            lemma_pct_bytes_concat(b@.take(i as int), seq![c]);
            lemma_pct_bytes_singleton(c);
        }
        if unreserved(c) {
            out.push(c);
        } else {
            out.push(0x25);
            push_hex_digits(&mut out, c);
        }
        i += 1;
    }
    proof {
        assert(b@.take(b@.len() as int) =~= b@);
    }
    string_from_ascii(out)
}

} // verus!
