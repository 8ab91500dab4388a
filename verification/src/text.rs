//! Hexadecimal text.
//!
//! The text form of a byte string has two digits per byte, high nibble
//! first. Reading accepts digits of either case; writing uses lower case.
//! The conversions themselves are done by the `hex` crate; this module says
//! what they compute and proves that reading undoes writing.

use crate::error::HexError;
use vstd::prelude::*;
use vstd::utf8::{encode_utf8, is_ascii_chars, is_ascii_chars_encode_utf8};

verus! {

/// `b` is one of `0-9`, `a-f`, `A-F`.
pub open spec fn is_hex_digit(b: u8) -> bool {
    ||| 0x30 <= b <= 0x39
    ||| 0x41 <= b <= 0x46
    ||| 0x61 <= b <= 0x66
}

/// The number that the hexadecimal digit `b` stands for.
pub open spec fn digit_value(b: u8) -> nat
    recommends
        is_hex_digit(b),
{
    if 0x30 <= b <= 0x39 {
        (b - 0x30) as nat
    } else if 0x41 <= b <= 0x46 {
        (b - 0x41 + 10) as nat
    } else {
        (b - 0x61 + 10) as nat
    }
}

/// The lower-case digit for `n`, as a byte.
pub open spec fn lower_digit(n: nat) -> u8
    recommends
        n < 16,
{
    if n < 10 {
        (0x30 + n) as u8
    } else {
        (0x61 + n - 10) as u8
    }
}

/// Every byte of `text` is a hexadecimal digit.
pub open spec fn all_hex_digits(text: Seq<u8>) -> bool {
    forall|i: int| 0 <= i < text.len() ==> is_hex_digit(#[trigger] text[i])
}

/// The position of the first byte of `text` that is no hexadecimal digit,
/// or the length of `text` if there is none.
pub open spec fn first_non_digit(text: Seq<u8>) -> nat
    decreases text.len(),
{
    if text.len() == 0 || !is_hex_digit(text[0]) {
        0
    } else {
        1 + first_non_digit(text.drop_first())
    }
}

/// The bytes that a text of hexadecimal digits stands for.
pub open spec fn hex_decoded(text: Seq<u8>) -> Seq<u8>
    recommends
        text.len() % 2 == 0,
        all_hex_digits(text),
{
    Seq::new(
        text.len() / 2,
        |i: int| (16 * digit_value(text[2 * i]) + digit_value(text[2 * i + 1])) as u8,
    )
}

/// The result of reading `text` as hexadecimal: the bytes it stands for, or
/// the reason why it stands for none. An odd length is reported before any
/// byte is looked at; otherwise the first offending byte is reported.
pub open spec fn hex_decode_outcome(text: Seq<u8>) -> Result<Seq<u8>, HexError> {
    if text.len() % 2 != 0 {
        Err(HexError::OddLength)
    } else if all_hex_digits(text) {
        Ok(hex_decoded(text))
    } else {
        let index = first_non_digit(text);
        Err(HexError::InvalidHexCharacter { c: text[index as int] as char, index: index as usize })
    }
}

/// The lower-case hexadecimal text of `data`, one byte per character.
pub open spec fn hex_encoded(data: Seq<u8>) -> Seq<u8> {
    Seq::new(
        2 * data.len(),
        |i: int|
            if i % 2 == 0 {
                lower_digit((data[i / 2] / 16) as nat)
            } else {
                lower_digit((data[i / 2] % 16) as nat)
            },
    )
}

/// The lower-case hexadecimal text of `data`, as characters.
pub open spec fn hex_string(data: Seq<u8>) -> Seq<char> {
    Seq::new(2 * data.len(), |i: int| hex_encoded(data)[i] as char)
}

/// The digit written for a nibble is a digit, and reads as that nibble.
pub proof fn lemma_lower_digit(n: nat)
    requires
        n < 16,
    ensures
        is_hex_digit(lower_digit(n)),
        digit_value(lower_digit(n)) == n,
{
}

/// If every byte is a digit, the first non-digit is past the end; if not,
/// it is the position of a byte that is no digit, and all before it are.
pub proof fn lemma_first_non_digit(text: Seq<u8>)
    ensures
        first_non_digit(text) <= text.len(),
        all_hex_digits(text) <==> first_non_digit(text) == text.len(),
        first_non_digit(text) < text.len() ==> !is_hex_digit(text[first_non_digit(text) as int]),
        forall|i: int| 0 <= i < first_non_digit(text) ==> is_hex_digit(#[trigger] text[i]),
    decreases text.len(),
{
    if text.len() > 0 && is_hex_digit(text[0]) {
        let rest = text.drop_first();
        lemma_first_non_digit(rest);
        assert forall|i: int| 0 <= i < first_non_digit(text) implies is_hex_digit(
            #[trigger] text[i],
        ) by {
            if i > 0 {
                assert(text[i] == rest[i - 1]);
            }
        }
        if all_hex_digits(text) {
            assert forall|i: int| 0 <= i < rest.len() implies is_hex_digit(
                #[trigger] rest[i],
            ) by {
                assert(rest[i] == text[i + 1]);
            }
        }
        if first_non_digit(text) < text.len() {
            assert(text[first_non_digit(text) as int] == rest[first_non_digit(rest) as int]);
        }
    }
}

/// What was written as hexadecimal reads back as the same bytes.
pub proof fn lemma_hex_round_trip(data: Seq<u8>)
    ensures
        hex_decode_outcome(hex_encoded(data)) == Ok::<Seq<u8>, HexError>(data),
{
    let text = hex_encoded(data);
    assert forall|i: int| 0 <= i < text.len() implies is_hex_digit(#[trigger] text[i]) by {
        let d = data[i / 2];
        lemma_lower_digit((d / 16) as nat);
        lemma_lower_digit((d % 16) as nat);
    }
    assert(hex_decoded(text) =~= data) by {
        assert forall|i: int| 0 <= i < data.len() implies hex_decoded(text)[i] == data[i] by {
            let d = data[i];
            lemma_lower_digit((d / 16) as nat);
            lemma_lower_digit((d % 16) as nat);
            assert((2 * i) / 2 == i && (2 * i) % 2 == 0);
            assert((2 * i + 1) / 2 == i && (2 * i + 1) % 2 == 1);
        }
    }
}

/// A hexadecimal string has one byte per character.
pub proof fn lemma_hex_string_bytes(data: Seq<u8>)
    ensures
        is_ascii_chars(hex_string(data)),
        encode_utf8(hex_string(data)) == hex_encoded(data),
{
    let chars = hex_string(data);
    assert forall|i: int| 0 <= i < chars.len() implies '\0' <= #[trigger] chars[i] <= '\u{7f}' by {
        let d = data[i / 2];
        lemma_lower_digit((d / 16) as nat);
        lemma_lower_digit((d % 16) as nat);
    }
    is_ascii_chars_encode_utf8(chars);
    assert(encode_utf8(chars) =~= hex_encoded(data));
}

/// Calls `hex::decode` on `text`.
///
/// Trusted: the result is `hex_decode_outcome(text)`. The crate refuses a
/// text of odd length with `OddLength` before it reads any byte; otherwise it
/// reads the bytes in pairs from the front, takes each pair as high and low
/// nibble, and stops at the first byte that is no digit, reporting that byte
/// and its position. It never answers `InvalidStringLength` here.
#[verifier::external_body]
pub(crate) fn hex_decode(text: &[u8]) -> (res: Result<Vec<u8>, HexError>)
    ensures
        match res {
            Ok(data) => hex_decode_outcome(text@) == Ok::<Seq<u8>, HexError>(data@),
            Err(e) => hex_decode_outcome(text@) == Err::<Seq<u8>, HexError>(e),
        },
{
    match hex::decode(text) {
        Ok(data) => Ok(data),
        Err(hex::FromHexError::InvalidHexCharacter { c, index }) => {
            Err(HexError::InvalidHexCharacter { c, index })
        },
        Err(hex::FromHexError::OddLength) => Err(HexError::OddLength),
        Err(hex::FromHexError::InvalidStringLength) => Err(HexError::InvalidStringLength),
    }
}

/// Calls `hex::encode` on `data`.
///
/// Trusted: the result is `hex_string(data)`: for each byte in turn the
/// lower-case digit of its high nibble, then that of its low nibble.
#[verifier::external_body]
pub(crate) fn hex_encode(data: &[u8]) -> (text: String)
    ensures
        text@ == hex_string(data@),
{
    hex::encode(data)
}

} // verus!
