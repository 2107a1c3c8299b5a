//! Hexadecimal text: how key material is read and how digests are shown.

use vstd::prelude::*;
use crate::hash::Digest;

verus! {

/// `hex::FromHexError`, carried as an opaque value.
#[verifier::external_type_specification]
#[verifier::external_body]
pub struct ExFromHexError(hex::FromHexError);

/// The value of a hexadecimal digit, upper or lower case; `None` for any
/// other character.
pub open spec fn hex_digit(c: char) -> Option<u8> {
    let code = c as u32;
    if 48 <= code <= 57 {
        Some((code - 48) as u8)
    } else if 97 <= code <= 102 {
        Some((code - 87) as u8)
    } else if 65 <= code <= 70 {
        Some((code - 55) as u8)
    } else {
        None
    }
}

/// Whether `text` is an even number of hexadecimal digits.
pub open spec fn is_hex(text: Seq<char>) -> bool {
    text.len() % 2 == 0 && forall|i: int| 0 <= i < text.len() ==> hex_digit(#[trigger] text[i]).is_some()
}

/// The bytes that the hexadecimal digits of `text` spell, two digits to a
/// byte, the high digit first.
pub open spec fn hex_bytes(text: Seq<char>) -> Seq<u8> {
    Seq::new(
        text.len() / 2,
        |i: int| (16 * hex_digit(text[2 * i]).unwrap() + hex_digit(text[2 * i + 1]).unwrap()) as u8,
    )
}

/// The lower-case hexadecimal digit of a value below 16.
pub open spec fn hex_char(value: int) -> char {
    if value < 10 {
        ((48 + value) as u8) as char
    } else {
        ((87 + value) as u8) as char
    }
}

/// `bytes` as lower-case hexadecimal text: two digits to a byte, the high
/// digit first.
pub open spec fn hex_text(bytes: Seq<u8>) -> Seq<char> {
    Seq::new(
        2 * bytes.len(),
        |i: int|
            if i % 2 == 0 {
                hex_char(bytes[i / 2] as int / 16)
            } else {
                hex_char(bytes[i / 2] as int % 16)
            },
    )
}

/// Calls `hex::decode`. Trusted: it succeeds exactly on an even number of
/// hexadecimal digits, of either case, and then returns the byte that each
/// pair of digits spells, the high digit first. A character outside ASCII is
/// no digit, so any text that holds one is refused.
#[verifier::external_body]
pub(crate) fn hex_decode(text: &str) -> (out: Result<Vec<u8>, hex::FromHexError>)
    ensures
        out.is_ok() == is_hex(text@),
        out matches Ok(bytes) ==> bytes@ == hex_bytes(text@),
{
    hex::decode(text)
}

/// Calls `hex::encode`. Trusted: the result holds two lower-case hexadecimal
/// digits for each byte, the high digit first, and nothing else.
#[verifier::external_body]
fn hex_encode(bytes: &[u8]) -> (out: String)
    ensures
        out@ == hex_text(bytes@),
{
    hex::encode(bytes)
}

/// A digest as 64 lower-case hexadecimal digits.
pub fn digest_hex(digest: &Digest) -> (out: String)
    ensures
        out@ == hex_text(digest@),
        out@.len() == 64,
{
    hex_encode(digest.as_slice())
}

/// The hexadecimal text of any bytes reads back as those bytes.
pub proof fn lemma_hex_round_trip(bytes: Seq<u8>)
    ensures
        is_hex(hex_text(bytes)),
        hex_bytes(hex_text(bytes)) == bytes,
{
    let text = hex_text(bytes);
    assert forall|v: int| 0 <= v < 16 implies hex_digit(#[trigger] hex_char(v)) == Some(
        v as u8,
    ) by {}
    assert forall|i: int| 0 <= i < text.len() implies hex_digit(#[trigger] text[i]).is_some() by {
        if i % 2 == 0 {
            assert(text[i] == hex_char(bytes[i / 2] as int / 16));
        } else {
            assert(text[i] == hex_char(bytes[i / 2] as int % 16));
        }
    }
    assert forall|j: int| 0 <= j < bytes.len() implies hex_bytes(text)[j] == bytes[j] by {
        assert(text[2 * j] == hex_char(bytes[j] as int / 16));
        assert(text[2 * j + 1] == hex_char(bytes[j] as int % 16));
    }
    assert(hex_bytes(text) =~= bytes);
}

} // verus!
