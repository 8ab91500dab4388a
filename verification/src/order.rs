//! Equality and order of identifiers.
//!
//! Two identifiers are equal when their wire forms are equal, byte for byte.
//! They are ordered as their wire forms are in lexicographic byte order,
//! which is the order of timestamp, then machine id, then counter.

use crate::big_endian::{
    be_value, byte_order, lemma_be_value_concat, lemma_be_value_bound, lemma_be_value_injective,
    lemma_lex_less_asymmetric, lemma_lex_less_is_numeric, lemma_pow256_values, lex_less,
};
use crate::id::{wire_counter, wire_machine_id, wire_timestamp, ObjectId};
use std::cmp::Ordering;
use vstd::prelude::*;
use vstd::std_specs::cmp::PartialOrdSpec;

verus! {

impl ObjectId {
    /// Compares two identifiers by their wire forms: `-1` if `self` comes
    /// first, `0` if they are equal, `1` if `other` comes first.
    pub fn compare(&self, other: &Self) -> (r: i8)
        ensures
            r == byte_order(self@, other@),
    {
        let a = self.to_bytes();
        let b = other.to_bytes();
        let mut i: usize = 0;
        while i < 12
            invariant
                i <= 12,
                a@ == self@,
                b@ == other@,
                a@.len() == 12,
                b@.len() == 12,
                forall|k: int| 0 <= k < i ==> a@[k] == b@[k],
            decreases 12 - i,
        {
            if a[i] < b[i] {
                proof {
                    assert(a@.take(i as int) =~= b@.take(i as int));
                    assert(a@[i as int] < b@[i as int]);
                    lemma_lex_less_asymmetric(a@, b@);
                }
                return -1;
            }
            if a[i] > b[i] {
                proof {
                    assert(b@.take(i as int) =~= a@.take(i as int));
                    assert(b@[i as int] < a@[i as int]);
                    lemma_lex_less_asymmetric(b@, a@);
                }
                return 1;
            }
            i = i + 1;
        }
        assert(a@ =~= b@);
        0
    }
}

impl PartialEq for ObjectId {
    fn eq(&self, other: &Self) -> (r: bool) {
        self.compare(other) == 0
    }
}

impl vstd::std_specs::cmp::PartialEqSpecImpl for ObjectId {
    open spec fn obeys_eq_spec() -> bool {
        true
    }

    open spec fn eq_spec(&self, other: &Self) -> bool {
        self@ == other@
    }
}

impl PartialOrd for ObjectId {
    fn partial_cmp(&self, other: &Self) -> (r: Option<Ordering>) {
        let c = self.compare(other);
        if c < 0 {
            Some(Ordering::Less)
        } else if c == 0 {
            Some(Ordering::Equal)
        } else {
            Some(Ordering::Greater)
        }
    }
}

impl vstd::std_specs::cmp::PartialOrdSpecImpl for ObjectId {
    open spec fn obeys_partial_cmp_spec() -> bool {
        true
    }

    open spec fn partial_cmp_spec(&self, other: &Self) -> Option<Ordering> {
        if self@ == other@ {
            Some(Ordering::Equal)
        } else if lex_less(self@, other@) {
            Some(Ordering::Less)
        } else {
            Some(Ordering::Greater)
        }
    }
}

/// The order of identifiers is the order of their wire forms read as
/// 96-bit big-endian numbers. So it is a total order: any two identifiers
/// are comparable, and only equal ones compare as equal.
pub proof fn lemma_order_is_numeric(a: ObjectId, b: ObjectId)
    ensures
        a@ == b@ <==> be_value(a@) == be_value(b@),
        lex_less(a@, b@) <==> be_value(a@) < be_value(b@),
        byte_order(a@, b@) == -byte_order(b@, a@),
{
    a.lemma_wire_len();
    b.lemma_wire_len();
    lemma_lex_less_is_numeric(a@, b@);
    lemma_lex_less_is_numeric(b@, a@);
    if be_value(a@) == be_value(b@) {
        lemma_be_value_injective(a@, b@);
    }
}

/// The order of identifiers is transitive.
pub proof fn lemma_order_transitive(a: ObjectId, b: ObjectId, c: ObjectId)
    requires
        byte_order(a@, b@) <= 0,
        byte_order(b@, c@) <= 0,
    ensures
        byte_order(a@, c@) <= 0,
{
    lemma_order_is_numeric(a, b);
    lemma_order_is_numeric(b, c);
    lemma_order_is_numeric(a, c);
}

/// The order of identifiers is the order of their timestamps; where these
/// are equal, of their machine ids; where these are equal too, of their
/// counters.
pub proof fn lemma_order_by_fields(a: ObjectId, b: ObjectId)
    ensures
        lex_less(a@, b@) <==> {
            ||| wire_timestamp(a@) < wire_timestamp(b@)
            ||| wire_timestamp(a@) == wire_timestamp(b@) && be_value(wire_machine_id(a@))
                < be_value(wire_machine_id(b@))
            ||| wire_timestamp(a@) == wire_timestamp(b@) && be_value(wire_machine_id(a@))
                == be_value(wire_machine_id(b@)) && wire_counter(a@) < wire_counter(b@)
        },
{
    a.lemma_wire_len();
    b.lemma_wire_len();
    lemma_order_is_numeric(a, b);
    lemma_value_by_fields(a);
    lemma_value_by_fields(b);
    lemma_pow256_values();
    lemma_be_value_bound(a@.subrange(4, 9));
    lemma_be_value_bound(b@.subrange(4, 9));
    lemma_be_value_bound(a@.subrange(9, 12));
    lemma_be_value_bound(b@.subrange(9, 12));
}

/// An identifier with the smaller timestamp comes first, whatever the other
/// fields hold.
pub proof fn lemma_timestamp_dominates(a: ObjectId, b: ObjectId)
    requires
        wire_timestamp(a@) < wire_timestamp(b@),
    ensures
        lex_less(a@, b@),
        byte_order(a@, b@) == -1,
        a.partial_cmp_spec(&b) == Some(Ordering::Less),
{
    lemma_order_by_fields(a, b);
    lemma_lex_less_asymmetric(a@, b@);
}

/// The wire form as a number, from the three fields as numbers.
proof fn lemma_value_by_fields(a: ObjectId)
    ensures
        be_value(a@) == (wire_timestamp(a@) * 0x100_0000_0000 + be_value(wire_machine_id(a@)))
            * 0x100_0000 + wire_counter(a@),
{
    a.lemma_wire_len();
    let head = a@.subrange(0, 4) + a@.subrange(4, 9);
    assert(a@ =~= head + a@.subrange(9, 12));
    lemma_be_value_concat(a@.subrange(0, 4), a@.subrange(4, 9));
    lemma_be_value_concat(head, a@.subrange(9, 12));
    lemma_pow256_values();
}

} // verus!
