//! The identifier: twelve bytes, read as three big-endian fields.

use crate::big_endian::{
    be_bytes, be_value, lemma_be_bytes_3, lemma_be_bytes_4, lemma_be_bytes_len,
    lemma_be_bytes_of_value, lemma_be_value_bound, lemma_be_value_concat,
    lemma_be_value_of_bytes, lemma_pow256_values,
};
use crate::error::Error;
use crate::text::{hex_decode, hex_decode_outcome, hex_encode, hex_string};
use vstd::prelude::*;
use vstd::utf8::encode_utf8;

verus! {

/// The largest value of the counter field: it has 24 bits.
pub const COUNTER_MAX: u32 = 0xFF_FFFF;

/// A 12-byte identifier.
///
/// Its view is its wire form: the twelve bytes in order. Bytes 0 to 3 are
/// the timestamp, bytes 4 to 8 the machine id, bytes 9 to 11 the counter,
/// each most significant byte first.
#[derive(Clone, Copy, Debug, Eq, Ord)]
pub struct ObjectId {
    bytes: [u8; 12],
}

impl View for ObjectId {
    type V = Seq<u8>;

    closed spec fn view(&self) -> Seq<u8> {
        self.bytes@
    }
}

/// The low 32 bits of `t`, as an unsigned number: `t` modulo `2^32`.
pub open spec fn low32(t: i64) -> nat {
    (t as int % 0x1_0000_0000) as nat
}

/// The wire form of an identifier with the given fields: the low four bytes
/// of `timestamp`, then `machine_id`, then the low three bytes of `counter`.
pub open spec fn wire_form(timestamp: nat, machine_id: Seq<u8>, counter: nat) -> Seq<u8> {
    be_bytes(timestamp, 4) + machine_id + be_bytes(counter, 3)
}

/// The timestamp field of a wire form, as a number.
pub open spec fn wire_timestamp(wire: Seq<u8>) -> nat {
    be_value(wire.subrange(0, 4))
}

/// The machine id field of a wire form, as bytes.
pub open spec fn wire_machine_id(wire: Seq<u8>) -> Seq<u8> {
    wire.subrange(4, 9)
}

/// The counter field of a wire form, as a number.
pub open spec fn wire_counter(wire: Seq<u8>) -> nat {
    be_value(wire.subrange(9, 12))
}

/// The low 32 bits of `t`.
fn truncate_time(t: i64) -> (ts: u32)
    ensures
        ts == low32(t),
{
    let ts: u32 = #[verifier::truncate] (t as u32);
    proof {
        assert(t >= 0 ==> ts == t % 0x1_0000_0000) by (bit_vector)
            requires
                ts == t as u32,
        ;
        assert(t < 0 ==> ts == 0xFFFF_FFFF - ((-(t + 1)) % 0x1_0000_0000)) by (bit_vector)
            requires
                ts == t as u32,
        ;
        if t < 0 {
            let m = (-(t + 1)) as int;
            assert((t as int) % 0x1_0000_0000 == 0xFFFF_FFFF - m % 0x1_0000_0000) by {
                assert(t as int == -m - 1);
                assert(m == 0x1_0000_0000 * (m / 0x1_0000_0000) + m % 0x1_0000_0000);
            }
        }
    }
    ts
}

/// The four bytes of `v`, most significant first.
fn u32_to_be_bytes(v: u32) -> (bs: [u8; 4])
    ensures
        bs@ == be_bytes(v as nat, 4),
{
    let bs: [u8; 4] = [
        (v / 0x100_0000) as u8,
        (v / 0x1_0000 % 0x100) as u8,
        (v / 0x100 % 0x100) as u8,
        (v % 0x100) as u8,
    ];
    proof {
        lemma_be_bytes_4(v as nat);
        assert(bs@ =~= be_bytes(v as nat, 4));
    }
    bs
}

/// The fields of an assembled wire form are the fields it was assembled
/// from, each reduced to its width.
pub proof fn lemma_wire_form_fields(timestamp: nat, machine_id: Seq<u8>, counter: nat)
    requires
        machine_id.len() == 5,
    ensures
        wire_form(timestamp, machine_id, counter).len() == 12,
        wire_timestamp(wire_form(timestamp, machine_id, counter)) == timestamp % 0x1_0000_0000,
        wire_machine_id(wire_form(timestamp, machine_id, counter)) == machine_id,
        wire_counter(wire_form(timestamp, machine_id, counter)) == counter % 0x100_0000,
{
    let wire = wire_form(timestamp, machine_id, counter);
    lemma_be_bytes_len(timestamp, 4);
    lemma_be_bytes_len(counter, 3);
    lemma_be_value_of_bytes(timestamp, 4);
    lemma_be_value_of_bytes(counter, 3);
    lemma_pow256_values();
    assert(wire.subrange(0, 4) =~= be_bytes(timestamp, 4));
    assert(wire.subrange(4, 9) =~= machine_id);
    assert(wire.subrange(9, 12) =~= be_bytes(counter, 3));
}

/// A wire form is assembled from its own fields: the three fields say all
/// there is to say about it.
pub proof fn lemma_wire_form_of_fields(wire: Seq<u8>)
    requires
        wire.len() == 12,
    ensures
        wire == wire_form(wire_timestamp(wire), wire_machine_id(wire), wire_counter(wire)),
        wire_timestamp(wire) < 0x1_0000_0000,
        wire_counter(wire) < 0x100_0000,
{
    lemma_be_bytes_of_value(wire.subrange(0, 4));
    lemma_be_bytes_of_value(wire.subrange(9, 12));
    lemma_be_value_bound(wire.subrange(0, 4));
    lemma_be_value_bound(wire.subrange(9, 12));
    lemma_pow256_values();
    assert(wire =~= wire.subrange(0, 4) + wire.subrange(4, 9) + wire.subrange(9, 12));
}

/// The result of reading the bytes `data` as a wire form: `data` itself if
/// there are twelve of them, else their number as an error.
pub open spec fn wire_outcome(data: Seq<u8>) -> Result<Seq<u8>, Error> {
    if data.len() == 12 {
        Ok(data)
    } else {
        Err(Error::InvalidHexIdLength(data.len() as usize))
    }
}

/// The result of reading hexadecimal `text`, given as bytes, as an
/// identifier: its wire form, or the reason why it is none. A text that is
/// not hexadecimal is refused as such, whatever its length.
pub open spec fn parse_outcome(text: Seq<u8>) -> Result<Seq<u8>, Error> {
    match hex_decode_outcome(text) {
        Ok(data) => wire_outcome(data),
        Err(e) => Err(Error::InvalidHexString(e)),
    }
}

impl ObjectId {
    /// Assembles an identifier from a time in seconds, a machine id and a
    /// counter value. The time is cut to its low 32 bits and the counter to
    /// its low 24 bits.
    pub fn from_parts(t: i64, machine_id: [u8; 5], counter: u32) -> (id: ObjectId)
        ensures
            id@ == wire_form(low32(t), machine_id@, counter as nat),
            wire_timestamp(id@) == low32(t),
            wire_machine_id(id@) == machine_id@,
            wire_counter(id@) == counter % 0x100_0000,
    {
        let ts = u32_to_be_bytes(truncate_time(t));
        let c = u32_to_be_bytes(counter);
        let bytes: [u8; 12] = [
            ts[0],
            ts[1],
            ts[2],
            ts[3],
            machine_id[0],
            machine_id[1],
            machine_id[2],
            machine_id[3],
            machine_id[4],
            c[1],
            c[2],
            c[3],
        ];
        proof {
            let low = be_bytes(counter as nat, 3);
            lemma_be_bytes_4(counter as nat);
            lemma_be_bytes_3(counter as nat);
            assert(low[0] == c@[1] && low[1] == c@[2] && low[2] == c@[3]);
            let wire = wire_form(low32(t), machine_id@, counter as nat);
            assert(wire.len() == 12);
            assert forall|i: int| 0 <= i < 12 implies bytes@[i] == wire[i] by {
                if i < 4 {
                    assert(wire[i] == ts@[i]);
                } else if i < 9 {
                    assert(wire[i] == machine_id@[i - 4]);
                } else {
                    assert(wire[i] == low[i - 9]);
                }
            }
            assert(bytes@ =~= wire);
            lemma_wire_form_fields(low32(t), machine_id@, counter as nat);
        }
        ObjectId { bytes }
    }

    /// Reads an identifier from its wire form.
    pub fn from_bytes(data: &[u8]) -> (res: Result<ObjectId, Error>)
        ensures
            match res {
                Ok(id) => wire_outcome(data@) == Ok::<Seq<u8>, Error>(id@),
                Err(e) => wire_outcome(data@) == Err::<Seq<u8>, Error>(e),
            },
    {
        if data.len() != 12 {
            return Err(Error::InvalidHexIdLength(data.len()));
        }
        let bytes: [u8; 12] = [
            data[0],
            data[1],
            data[2],
            data[3],
            data[4],
            data[5],
            data[6],
            data[7],
            data[8],
            data[9],
            data[10],
            data[11],
        ];
        assert(bytes@ =~= data@);
        Ok(ObjectId { bytes })
    }

    /// Reads an identifier from its hexadecimal text: 24 digits of either
    /// case.
    pub fn from_string(s: String) -> (res: Result<ObjectId, Error>)
        ensures
            match res {
                Ok(id) => parse_outcome(encode_utf8(s@)) == Ok::<Seq<u8>, Error>(id@),
                Err(e) => parse_outcome(encode_utf8(s@)) == Err::<Seq<u8>, Error>(e),
            },
    {
        match hex_decode(s.as_str().as_bytes()) {
            Ok(data) => ObjectId::from_bytes(data.as_slice()),
            Err(e) => Err(Error::InvalidHexString(e)),
        }
    }

    /// The hexadecimal text of the identifier: 24 lower-case digits.
    pub fn to_string(&self) -> (text: String)
        ensures
            text@ == hex_string(self@),
            text@.len() == 24,
    {
        hex_encode(self.bytes.as_slice())
    }

    /// The identifier whose wire form is `wire`.
    pub closed spec fn of_wire(wire: Seq<u8>) -> ObjectId
        recommends
            wire.len() == 12,
    {
        ObjectId {
            bytes: [
                wire[0],
                wire[1],
                wire[2],
                wire[3],
                wire[4],
                wire[5],
                wire[6],
                wire[7],
                wire[8],
                wire[9],
                wire[10],
                wire[11],
            ],
        }
    }

    /// The result of reading `text` as an identifier.
    pub open spec fn spec_from_string(text: Seq<char>) -> Result<ObjectId, Error> {
        match parse_outcome(encode_utf8(text)) {
            Ok(wire) => Ok(ObjectId::of_wire(wire)),
            Err(e) => Err(e),
        }
    }

    /// A wire form has twelve bytes.
    pub proof fn lemma_wire_len(self)
        ensures
            self@.len() == 12,
    {
    }

    /// Identifiers with the same wire form are the same identifier.
    pub proof fn lemma_same_wire(self, other: ObjectId)
        ensures
            self@ == other@ <==> self == other,
    {
        if self@ == other@ {
            assert(self.bytes =~= other.bytes);
        }
    }

    /// Every string of twelve bytes is the wire form of an identifier.
    pub proof fn lemma_of_wire(wire: Seq<u8>)
        requires
            wire.len() == 12,
        ensures
            ObjectId::of_wire(wire)@ == wire,
    {
        assert(ObjectId::of_wire(wire)@ =~= wire);
    }

    /// The wire form: the twelve bytes of the identifier.
    pub fn to_bytes(&self) -> (bs: [u8; 12])
        ensures
            bs@ == self@,
    {
        self.bytes
    }

    /// The timestamp field, in seconds since the epoch.
    pub fn timestamp(&self) -> (t: i64)
        ensures
            t == wire_timestamp(self@),
            0 <= t < 0x1_0000_0000,
    {
        proof {
            reveal_with_fuel(be_value, 5);
            let s = self@.subrange(0, 4);
            assert(s.drop_last() =~= self@.subrange(0, 3));
            assert(s.drop_last().drop_last() =~= self@.subrange(0, 2));
            assert(s.drop_last().drop_last().drop_last() =~= self@.subrange(0, 1));
        }
        let b = &self.bytes;
        let v: u32 = ((b[0] as u32 * 0x100 + b[1] as u32) * 0x100 + b[2] as u32) * 0x100
            + b[3] as u32;
        v as i64
    }

    /// The machine id field, as a number.
    pub fn machine_id(&self) -> (m: u64)
        ensures
            m == be_value(wire_machine_id(self@)),
            m < 0x100_0000_0000,
    {
        proof {
            reveal_with_fuel(be_value, 6);
            let s = self@.subrange(4, 9);
            assert(s.drop_last() =~= self@.subrange(4, 8));
            assert(s.drop_last().drop_last() =~= self@.subrange(4, 7));
            assert(s.drop_last().drop_last().drop_last() =~= self@.subrange(4, 6));
            assert(s.drop_last().drop_last().drop_last().drop_last() =~= self@.subrange(4, 5));
        }
        let b = &self.bytes;
        (((b[4] as u64 * 0x100 + b[5] as u64) * 0x100 + b[6] as u64) * 0x100 + b[7] as u64)
            * 0x100 + b[8] as u64
    }

    /// The identifier as one number: its wire form read as a 96-bit
    /// big-endian integer, in the high twelve of sixteen bytes.
    pub fn to_i(&self) -> (n: u128)
        ensures
            n == be_value(self@) * 0x1_0000_0000,
    {
        let t = self.timestamp() as u128;
        let m = self.machine_id() as u128;
        let c = self.counter() as u128;
        proof {
            let head = self@.subrange(0, 4) + self@.subrange(4, 9);
            assert(self@ =~= head + self@.subrange(9, 12));
            lemma_be_value_concat(self@.subrange(0, 4), self@.subrange(4, 9));
            lemma_be_value_concat(head, self@.subrange(9, 12));
            lemma_pow256_values();
            assert(be_value(self@) == (t * 0x100_0000_0000 + m) * 0x100_0000 + c);
        }
        ((t * 0x100_0000_0000 + m) * 0x100_0000 + c) * 0x1_0000_0000
    }

    /// The counter field.
    pub fn counter(&self) -> (c: u32)
        ensures
            c == wire_counter(self@),
            c <= COUNTER_MAX,
    {
        proof {
            reveal_with_fuel(be_value, 4);
            let s = self@.subrange(9, 12);
            assert(s.drop_last() =~= self@.subrange(9, 11));
            assert(s.drop_last().drop_last() =~= self@.subrange(9, 10));
        }
        let b = &self.bytes;
        (b[9] as u32 * 0x100 + b[10] as u32) * 0x100 + b[11] as u32
    }
}

impl TryFrom<String> for ObjectId {
    type Error = Error;

    fn try_from(value: String) -> (res: Result<ObjectId, Error>) {
        let res = ObjectId::from_string(value);
        proof {
            match res {
                Ok(id) => {
                    ObjectId::lemma_of_wire(id@);
                    id.lemma_same_wire(ObjectId::of_wire(id@));
                },
                Err(_) => {},
            }
        }
        res
    }
}

impl vstd::std_specs::convert::TryFromSpecImpl<String> for ObjectId {
    open spec fn obeys_try_from_spec() -> bool {
        true
    }

    open spec fn try_from_spec(value: String) -> Result<ObjectId, Error> {
        ObjectId::spec_from_string(value@)
    }
}

} // verus!
