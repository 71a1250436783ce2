//! Single-producer single-consumer rings.
//!
//! Each end carries, for proofs only, the whole stream of values that the ring
//! ever carries, and its own place in that stream. What is yet to come is part
//! of the stream: a proof may speak of the values that will arrive without
//! knowing them. So that no value can be made out of the stream in which it is to
//! appear, only plain values travel: those that hold nothing for proofs only.
use super::preparation::{array_bytes, layout_bytes};
use super::shared::Plain;
use rtrb::{Consumer, Producer, PushError, RingBuffer};
use vstd::prelude::*;

verus! {

#[verifier::external_type_specification]
#[verifier::external_body]
#[verifier::reject_recursive_types(T)]
pub struct ExProducer<T>(rtrb::Producer<T>);

#[verifier::external_type_specification]
#[verifier::external_body]
#[verifier::reject_recursive_types(T)]
pub struct ExConsumer<T>(rtrb::Consumer<T>);

#[verifier::external_type_specification]
#[verifier::external_body]
#[verifier::reject_recursive_types(T)]
pub struct ExRingBuffer<T>(rtrb::RingBuffer<T>);

/// The writing end of a ring.
#[verifier::reject_recursive_types(T)]
pub struct Inlet<T: Plain> {
    ring: Producer<T>,
    stream: Ghost<Seq<T>>,
    sent: Ghost<nat>,
    room: Ghost<nat>,
    limit: Ghost<nat>,
}

/// The reading end of a ring.
#[verifier::reject_recursive_types(T)]
pub struct Outlet<T: Plain> {
    ring: Consumer<T>,
    stream: Ghost<Seq<T>>,
    taken: Ghost<nat>,
    ready: Ghost<nat>,
}

impl<T: Plain> Inlet<T> {
    /// Everything that the ring ever carries.
    pub closed spec fn stream(&self) -> Seq<T> {
        self.stream@
    }

    /// How many values have been written.
    pub closed spec fn sent(&self) -> nat {
        self.sent@
    }

    /// How many values are known to fit. More may: the other end only makes room.
    pub closed spec fn room(&self) -> nat {
        self.room@
    }

    /// The capacity that the ring was made with.
    pub closed spec fn limit(&self) -> nat {
        self.limit@
    }

    /// `rtrb::Producer::push`. Claimed of it: a value for which there is room is
    /// written, behind the ones written before it; a value that does not fit comes
    /// back, and the ring is as it was. Room that is known to be there is there,
    /// because only this end uses it up.
    #[verifier::external_body]
    pub(crate) fn push(&mut self, value: T) -> (result: Result<(), T>)
        ensures
            final(self).stream() == old(self).stream(),
            final(self).limit() == old(self).limit(),
            old(self).room() > 0 ==> result is Ok,
            match result {
                Ok(_) => final(self).sent() == old(self).sent() + 1
                    && old(self).sent() < old(self).stream().len()
                    && old(self).stream()[old(self).sent() as int] == value
                    && final(self).room() == if old(self).room() > 0 {
                    (old(self).room() - 1) as nat
                } else {
                    0
                },
                Err(back) => back == value && final(self).sent() == old(self).sent()
                    && final(self).room() == 0,
            },
    {
        self.ring.push(value).map_err(|error| match error {
            PushError::Full(value) => value,
        })
    }

    /// `rtrb::RingBuffer::capacity`, through `rtrb::Producer::buffer`: the
    /// capacity that the ring was made with.
    #[verifier::external_body]
    pub(crate) fn capacity(&self) -> (capacity: usize)
        ensures
            capacity == self.limit(),
    {
        self.ring.buffer().capacity()
    }
}

impl<T: Plain> Outlet<T> {
    /// Everything that the ring ever carries.
    pub closed spec fn stream(&self) -> Seq<T> {
        self.stream@
    }

    /// How many values have been read.
    pub closed spec fn taken(&self) -> nat {
        self.taken@
    }

    /// How many values are known to have arrived. More may have.
    pub closed spec fn ready(&self) -> nat {
        self.ready@
    }

    /// The values that have not been read, whether they have arrived or not.
    pub open spec fn coming(&self) -> Seq<T> {
        self.stream().skip(self.taken() as int)
    }

    /// The place of this end lies within the stream.
    pub open spec fn placed(&self) -> bool {
        self.taken() + self.ready() <= self.stream().len()
    }

    /// `rtrb::Consumer::slots`: how many values have arrived and not been read.
    #[verifier::external_body]
    pub(crate) fn slots(&mut self) -> (slots: usize)
        ensures
            final(self).stream() == old(self).stream(),
            final(self).taken() == old(self).taken(),
            final(self).ready() == slots,
            slots >= old(self).ready(),
            old(self).placed() ==> final(self).placed(),
    {
        self.ring.slots()
    }

    /// `rtrb::Consumer::peek`: the next value, without reading it. A value that is
    /// known to have arrived is there.
    #[verifier::external_body]
    pub(crate) fn peek(&self) -> (value: Option<&T>)
        ensures
            value matches Some(v) ==> self.taken() < self.stream().len() && *v == self.coming()[0],
            value is None ==> self.ready() == 0,
    {
        self.ring.peek().ok()
    }

    /// `rtrb::Consumer::pop`: the next value, read. Values are read in the order
    /// in which they were written; one that is known to have arrived is there.
    #[verifier::external_body]
    pub(crate) fn pop(&mut self) -> (value: Option<T>)
        ensures
            final(self).stream() == old(self).stream(),
            match value {
                Some(v) => old(self).taken() < old(self).stream().len() && v == old(self).coming()[0]
                    && final(self).taken() == old(self).taken() + 1
                    && final(self).ready() == if old(self).ready() > 0 {
                    (old(self).ready() - 1) as nat
                } else {
                    0
                },
                None => old(self).ready() == 0 && final(self).ready() == 0 && final(self).taken()
                    == old(self).taken(),
            },
            old(self).placed() ==> final(self).placed(),
    {
        self.ring.pop().ok()
    }
}

impl<T: Plain> Inlet<T> {
    /// Write a value, if there is room. Otherwise it comes back.
    pub fn offer(&mut self, value: T) -> (result: Result<(), T>)
        ensures
            final(self).stream() == old(self).stream(),
            old(self).room() > 0 ==> result is Ok,
            match result {
                Ok(_) => final(self).sent() == old(self).sent() + 1
                    && old(self).stream()[old(self).sent() as int] == value,
                Err(back) => back == value && final(self).sent() == old(self).sent(),
            },
    {
        self.push(value)
    }
}

impl<T: Plain> Outlet<T> {
    /// How many values have arrived and not been read.
    pub fn waiting(&mut self) -> (count: usize)
        ensures
            final(self).stream() == old(self).stream(),
            final(self).taken() == old(self).taken(),
            final(self).ready() == count,
            count >= old(self).ready(),
            old(self).placed() ==> final(self).placed(),
    {
        self.slots()
    }

    /// Read the next value, if one has arrived.
    pub fn receive(&mut self) -> (value: Option<T>)
        ensures
            final(self).stream() == old(self).stream(),
            old(self).ready() > 0 ==> value is Some,
            match value {
                Some(v) => v == old(self).coming()[0] && final(self).taken() == old(self).taken() + 1,
                None => final(self).taken() == old(self).taken(),
            },
            old(self).placed() ==> final(self).placed(),
    {
        self.pop()
    }
}

/// Whether there can be a ring of this capacity: its slots can be allocated, and
/// its positions, of which there are twice as many, can be counted.
pub open spec fn can_ring<T>(capacity: usize) -> bool {
    &&& array_bytes::<T>(capacity) is Some
    &&& 2 * capacity <= usize::MAX
}

/// `rtrb::RingBuffer::new`: an empty ring of the given capacity. What one end
/// writes is what the other end reads. It panics where the slots are more than can
/// be allocated.
#[verifier::external_body]
pub(crate) fn ring<T: Plain>(capacity: usize) -> (ends: (Inlet<T>, Outlet<T>))
    requires
        can_ring::<T>(capacity),
    ensures
        ends.0.stream() == ends.1.stream(),
        ends.0.sent() == 0,
        ends.0.room() == capacity,
        ends.0.limit() == capacity,
        ends.1.taken() == 0,
        ends.1.ready() == 0,
        ends.1.placed(),
{
    let (ring, other) = RingBuffer::new(capacity);
    let inlet = Inlet {
        ring,
        stream: Ghost(Seq::empty()),
        sent: Ghost(0),
        room: Ghost(0),
        limit: Ghost(0),
    };
    let outlet = Outlet { ring: other, stream: Ghost(Seq::empty()), taken: Ghost(0), ready: Ghost(0) };
    (inlet, outlet)
}

/// A ring for callers that do not know whether one of this capacity can be:
/// `None` where it cannot.
pub fn channel<T: Plain>(capacity: usize) -> (ends: Option<(Inlet<T>, Outlet<T>)>)
    ensures
        ends is Some <==> can_ring::<T>(capacity),
        ends matches Some((inlet, outlet)) ==> {
            &&& inlet.stream() == outlet.stream()
            &&& inlet.sent() == 0
            &&& inlet.room() == capacity
            &&& inlet.limit() == capacity
            &&& outlet.taken() == 0
            &&& outlet.placed()
        },
{
    if capacity > usize::MAX / 2 || layout_bytes::<T>(capacity).is_none() {
        None
    } else {
        Some(ring(capacity))
    }
}

/// First in, first out: once the writing end has written its `k`-th value, that
/// is the `k`-th value that the reading end reads.
pub proof fn values_keep_their_order<T: Plain>(inlet: Inlet<T>, outlet: Outlet<T>, k: int)
    requires
        inlet.stream() == outlet.stream(),
        outlet.taken() <= k < inlet.sent() <= inlet.stream().len(),
    ensures
        outlet.coming()[k - outlet.taken()] == inlet.stream()[k],
{
}

} // verus!
