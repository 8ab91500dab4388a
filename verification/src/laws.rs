//! What holds of identifiers whichever way they were made.

use crate::error::{Error, HexError};
use crate::generator::{lemma_minted_fields, minted, Generator};
use crate::id::{parse_outcome, wire_machine_id, wire_outcome, wire_timestamp, ObjectId};
use crate::text::{
    all_hex_digits, first_non_digit, hex_decoded, hex_string, is_hex_digit, lemma_first_non_digit,
    lemma_hex_round_trip, lemma_hex_string_bytes,
};
use vstd::prelude::*;
use vstd::utf8::encode_utf8;

verus! {

/// What a generator mints for the time `t`, unique or not and whatever its
/// counter holds, reads back from its bytes as an identifier whose timestamp
/// is `t` modulo `2^32` and whose machine id is the generator's.
pub proof fn lemma_minted_reads_back(source: &Generator, t: i64, unique: bool, counter: u32)
    ensures
        wire_outcome(minted(t, unique, source.spec_machine_id(), counter)) == Ok::<
            Seq<u8>,
            Error,
        >(minted(t, unique, source.spec_machine_id(), counter)),
        wire_timestamp(minted(t, unique, source.spec_machine_id(), counter)) == t as int
            % 0x1_0000_0000,
        wire_machine_id(minted(t, unique, source.spec_machine_id(), counter))
            == source.spec_machine_id(),
{
    source.lemma_machine_id_len();
    lemma_minted_fields(t, unique, source.spec_machine_id(), counter);
}

/// Reading the hexadecimal text of an identifier gives the identifier back.
pub proof fn lemma_text_round_trip(id: ObjectId)
    ensures
        parse_outcome(encode_utf8(hex_string(id@))) == Ok::<Seq<u8>, Error>(id@),
        ObjectId::spec_from_string(hex_string(id@)) == Ok::<ObjectId, Error>(id),
{
    id.lemma_wire_len();
    lemma_hex_string_bytes(id@);
    lemma_hex_round_trip(id@);
    ObjectId::lemma_of_wire(id@);
    id.lemma_same_wire(ObjectId::of_wire(id@));
}

/// A text is read as an identifier exactly when it is 24 hexadecimal
/// digits; the identifier is then the twelve bytes they stand for.
pub proof fn lemma_parse_accepts(text: Seq<u8>)
    ensures
        parse_outcome(text) is Ok <==> text.len() == 24 && all_hex_digits(text),
        parse_outcome(text) is Ok ==> parse_outcome(text) == Ok::<Seq<u8>, Error>(
            hex_decoded(text),
        ),
{
}

/// Hexadecimal digits that stand for some other number of bytes than twelve
/// are refused with that number.
pub proof fn lemma_parse_refuses_length(text: Seq<u8>)
    requires
        text.len() % 2 == 0,
        text.len() != 24,
        all_hex_digits(text),
    ensures
        parse_outcome(text) == Err::<Seq<u8>, Error>(
            Error::InvalidHexIdLength((text.len() / 2) as usize),
        ),
{
}

/// A text that is not hexadecimal is refused as such, whatever its length:
/// for its odd length, or else for its first byte that is no digit, which is
/// reported with its position.
pub proof fn lemma_parse_refuses_text(text: Seq<u8>)
    requires
        text.len() % 2 != 0 || !all_hex_digits(text),
        text.len() <= usize::MAX,
    ensures
        text.len() % 2 != 0 ==> parse_outcome(text) == Err::<Seq<u8>, Error>(
            Error::InvalidHexString(HexError::OddLength),
        ),
        text.len() % 2 == 0 ==> {
            &&& parse_outcome(text) matches Err(
                Error::InvalidHexString(HexError::InvalidHexCharacter { c, index }),
            )
            &&& index < text.len()
            &&& index == first_non_digit(text)
            &&& c == text[index as int] as char
            &&& !is_hex_digit(text[index as int])
            &&& forall|i: int| 0 <= i < index ==> is_hex_digit(#[trigger] text[i])
        },
{
    lemma_first_non_digit(text);
}

} // verus!
