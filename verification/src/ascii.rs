//! Building strings out of verified ASCII byte sequences.
//!
//! Dates, file names and request URLs are assembled as `Vec<u8>` so that
//! every byte is pinned down by a specification, and turned into a `String`
//! at the very end through one trusted conversion.

use vstd::prelude::*;

verus! {

/// The characters spelled by a sequence of ASCII bytes.
pub open spec fn ascii_chars(bytes: Seq<u8>) -> Seq<char> {
    bytes.map(|_i: int, b: u8| b as char)
}

/// Every byte is in the ASCII range.
pub open spec fn all_ascii(bytes: Seq<u8>) -> bool {
    forall|i: int| 0 <= i < bytes.len() ==> bytes[i] < 128
}

/// Relies on `String::from_utf8`: ASCII bytes are valid UTF-8 and decode to
/// one character per byte, with the same code point as the byte.
#[verifier::external_body]
pub(crate) fn string_from_ascii(bytes: Vec<u8>) -> (r: String)
    requires
        all_ascii(bytes@),
    ensures
        r@ == ascii_chars(bytes@),
{
    match String::from_utf8(bytes) {
        Ok(s) => s,
        Err(_) => String::new(),
    }
}

/// The ASCII digit for `n`.
pub open spec fn digit_byte(n: int) -> u8 {
    (0x30 + n) as u8
}

/// The ASCII digit (upper-case for 10 through 15) for one hex nibble.
pub open spec fn hex_digit_byte(n: int) -> u8 {
    if n < 10 {
        (0x30 + n) as u8
    } else {
        (0x41 + (n - 10)) as u8
    }
}

/// The UTF-8 encoding of the characters spelled by ASCII bytes is those
/// very bytes.
pub proof fn lemma_encode_utf8_of_ascii(bytes: Seq<u8>)
    requires
        all_ascii(bytes),
    ensures
        vstd::utf8::encode_utf8(ascii_chars(bytes)) == bytes,
{
    let chars = ascii_chars(bytes);
    assert(vstd::utf8::is_ascii_chars(chars)) by {
        assert forall|i: int| 0 <= i < chars.len() implies '\0' <= #[trigger] chars[i]
            <= '\u{7f}' by {
            assert(chars[i] == bytes[i] as char);
        }
    }
    vstd::utf8::is_ascii_chars_encode_utf8(chars);
    assert(vstd::utf8::encode_utf8(chars) =~= bytes);
}

/// Appends the two ASCII decimal digits of `n` (zero padded).
pub fn push_two_digits(out: &mut Vec<u8>, n: u8)
    requires
        n <= 99,
    ensures
        final(out)@ == old(out)@ + seq![digit_byte(n as int / 10), digit_byte(n as int % 10)],
{
    out.push(0x30 + n / 10);
    out.push(0x30 + n % 10);
}

/// Appends the four ASCII decimal digits of `n` (zero padded).
pub fn push_four_digits(out: &mut Vec<u8>, n: u16)
    requires
        n <= 9999,
    ensures
        final(out)@ == old(out)@ + seq![
            digit_byte(n as int / 1000),
            digit_byte(n as int / 100 % 10),
            digit_byte(n as int / 10 % 10),
            digit_byte(n as int % 10),
        ],
{
    out.push(0x30 + (n / 1000) as u8);
    out.push(0x30 + (n / 100 % 10) as u8);
    out.push(0x30 + (n / 10 % 10) as u8);
    out.push(0x30 + (n % 10) as u8);
}

/// Appends the two ASCII hex digits of `b`.
pub fn push_hex_digits(out: &mut Vec<u8>, b: u8)
    ensures
        final(out)@ == old(out)@ + seq![
            hex_digit_byte(b as int / 16),
            hex_digit_byte(b as int % 16),
        ],
{
    let hi: u8 = b / 16;
    let lo: u8 = b % 16;
    out.push(if hi < 10 { 0x30 + hi } else { 0x41 + (hi - 10) });
    out.push(if lo < 10 { 0x30 + lo } else { 0x41 + (lo - 10) });
}

} // verus!
