//! The source of new identifiers: a machine id and a shared counter.

use crate::id::{
    lemma_wire_form_fields, low32, wire_counter, wire_form, wire_machine_id, wire_timestamp,
    ObjectId,
};
use std::sync::atomic::{AtomicU32, Ordering};
use vstd::prelude::*;

verus! {

/// Calls `rand::random::<u32>()`.
///
/// Trusted: nothing is claimed of the number. The call panics if the
/// operating system gives the thread's generator no seed.
#[verifier::external_body]
fn random_u32() -> u32 {
    rand::random::<u32>()
}

/// Calls `rand::fill` on `dest`.
///
/// Trusted: nothing is claimed of the bytes left in `dest`. The call panics
/// if the operating system gives the thread's generator no seed.
#[verifier::external_body]
fn fill_random(dest: &mut [u8; 5]) {
    rand::fill(dest)
}

/// What one process mints its identifiers from: a machine id, fixed once
/// chosen, and a counter that every unique identifier takes a value from.
///
/// The counter is an atomic cell, so one generator can be shared between
/// threads. Its value at any moment is not part of the generator's model:
/// another thread may have moved it on.
#[derive(Debug)]
pub struct Generator {
    machine_id: [u8; 5],
    counter: AtomicU32,
}

/// The wire form of the identifier minted for the time `t` by a generator
/// with the machine id `machine_id`, if its counter stood at `counter`: a
/// unique identifier carries the counter's low 24 bits, another carries zero.
pub open spec fn minted(t: i64, unique: bool, machine_id: Seq<u8>, counter: u32) -> Seq<u8> {
    wire_form(
        low32(t),
        machine_id,
        if unique {
            counter as nat
        } else {
            0
        },
    )
}

impl Generator {
    /// The machine id that every identifier of this generator carries.
    pub closed spec fn spec_machine_id(&self) -> Seq<u8> {
        self.machine_id@
    }

    /// A machine id has five bytes.
    pub proof fn lemma_machine_id_len(&self)
        ensures
            self.spec_machine_id().len() == 5,
    {
    }

    /// A generator with a random machine id and a random counter.
    pub fn new() -> (generator: Generator) {
        let mut machine_id: [u8; 5] = [0, 0, 0, 0, 0];
        fill_random(&mut machine_id);
        Generator { machine_id, counter: AtomicU32::new(random_u32()) }
    }

    /// A generator with the given machine id, whose counter starts at
    /// `counter`.
    pub fn with_state(machine_id: [u8; 5], counter: u32) -> (generator: Generator)
        ensures
            generator.spec_machine_id() == machine_id@,
    {
        Generator { machine_id, counter: AtomicU32::new(counter) }
    }

    /// The machine id that every identifier of this generator carries.
    pub fn machine_id(&self) -> (machine_id: [u8; 5])
        ensures
            machine_id@ == self.spec_machine_id(),
    {
        self.machine_id
    }

    /// Takes the counter's value and moves the counter on by one, wrapping
    /// at `2^32`, as one atomic step. No order between threads is asked for:
    /// it is enough that no two calls take the same step.
    fn next_counter(&self) -> u32 {
        self.counter.fetch_add(1, Ordering::Relaxed)
    }
}

impl ObjectId {
    /// An identifier for the time `t`, in seconds since the epoch. If
    /// `unique`, it takes a counter value from `source`; if not, its counter
    /// field is zero and `source`'s counter is left alone.
    ///
    /// Which value the counter held is left open: whatever it was, the
    /// identifier is the one minted from it.
    pub fn from_time(source: &Generator, t: i64, unique: bool) -> (id: ObjectId)
        ensures
            exists|counter: u32|
                id@ == #[trigger] minted(t, unique, source.spec_machine_id(), counter),
            wire_timestamp(id@) == low32(t),
            wire_machine_id(id@) == source.spec_machine_id(),
            !unique ==> wire_counter(id@) == 0,
    {
        let counter = if unique {
            source.next_counter()
        } else {
            0
        };
        let id = ObjectId::from_parts(t, source.machine_id, counter);
        assert(id@ == minted(t, unique, source.spec_machine_id(), counter));
        id
    }

    /// A unique identifier for the time `now`, in seconds since the epoch.
    pub fn new(source: &Generator, now: i64) -> (id: ObjectId)
        ensures
            exists|counter: u32|
                id@ == #[trigger] minted(now, true, source.spec_machine_id(), counter),
            wire_timestamp(id@) == low32(now),
            wire_machine_id(id@) == source.spec_machine_id(),
    {
        ObjectId::from_time(source, now, true)
    }
}

/// What was minted has twelve bytes; its timestamp is the time modulo
/// `2^32` and its machine id the generator's. Its counter field is the
/// counter modulo `2^24` if it is unique, else zero.
pub proof fn lemma_minted_fields(t: i64, unique: bool, machine_id: Seq<u8>, counter: u32)
    requires
        machine_id.len() == 5,
    ensures
        minted(t, unique, machine_id, counter).len() == 12,
        wire_timestamp(minted(t, unique, machine_id, counter)) == t as int % 0x1_0000_0000,
        wire_machine_id(minted(t, unique, machine_id, counter)) == machine_id,
        wire_counter(minted(t, unique, machine_id, counter)) == if unique {
            counter as int % 0x100_0000
        } else {
            0
        },
{
    lemma_wire_form_fields(low32(t), machine_id, counter as nat);
    lemma_wire_form_fields(low32(t), machine_id, 0);
}

/// When the counter moves on by one, wrapping at `2^32`, the counter field
/// of what is minted moves on by one, wrapping at `2^24`: after `0xFFFFFF`
/// comes `0`.
pub proof fn lemma_minted_counter_wraps(t: i64, machine_id: Seq<u8>, counter: u32)
    requires
        machine_id.len() == 5,
    ensures
        wire_counter(minted(t, true, machine_id, ((counter + 1) % 0x1_0000_0000) as u32))
            == (wire_counter(minted(t, true, machine_id, counter)) + 1) % 0x100_0000,
{
    lemma_minted_fields(t, true, machine_id, counter);
    lemma_minted_fields(t, true, machine_id, ((counter + 1) % 0x1_0000_0000) as u32);
}

} // verus!
