//! What the buffer asks of a packet, and the form in which it keeps one.

use crate::sequence::SequenceNumber;
use std::cmp::Ordering;
use vstd::prelude::*;

verus! {

/// A packet of a media stream.
///
/// `number` and `sample_count` name what `sequence_number` and `samples` return,
/// for use in contracts. An implementation that is verified defines them. One
/// that is not need not write them out: it stands for one that defines them as
/// what its two methods return, which have to return the same of the same packet
/// every time.
///
/// `Unpin` is asked for where a buffer is polled as a stream: Verus does not take
/// an implementation of a trait that is bound by it.
pub trait Packet: Clone {
    /// The sequence number that the packet carries.
    closed spec fn number(&self) -> u16 {
        arbitrary()
    }

    /// The number of samples that the packet carries, over all channels.
    closed spec fn sample_count(&self) -> usize {
        arbitrary()
    }

    /// The sequence number that the packet carries.
    fn sequence_number(&self) -> (number: u16)
        ensures
            number == self.number(),
    ;

    /// Where the samples of the packet start in the stream.
    fn offset(&self) -> usize;

    /// The number of samples that the packet carries, over all channels.
    fn samples(&self) -> (count: usize)
        ensures
            count == self.sample_count(),
    ;
}

/// A place in the stream: the packet that was received for it, if any, with the
/// time at which it was handed out. Times are in nanoseconds, counted from the
/// Unix epoch and negative before it.
#[derive(Debug)]
pub struct JitterPacket<P>
where
    P: Packet,
{
    pub raw: Option<P>,
    pub sequence_number: SequenceNumber,
    pub yielded_at: Option<i128>,
}

impl<P> JitterPacket<P>
where
    P: Packet,
{
    /// The packet as it waits in the buffer: received under the number that it
    /// carries, and not handed out.
    pub open spec fn received(raw: P) -> Self {
        JitterPacket {
            raw: Some(raw),
            sequence_number: SequenceNumber(raw.number()),
            yielded_at: None,
        }
    }

    /// Whether this is a packet as it waits in the buffer.
    pub open spec fn is_received(self) -> bool {
        self.raw matches Some(raw) && self == Self::received(raw)
    }

    /// Whether this packet is played before `other`.
    pub open spec fn precedes(self, other: Self) -> bool {
        self.sequence_number.precedes(other.sequence_number)
    }

    /// The packet that was received, if any.
    pub fn into(self) -> (raw: Option<P>)
        ensures
            raw == self.raw,
    {
        self.raw
    }

    /// Compares two packets by the urgency of their playback: the one that is
    /// played first is the greater one.
    pub fn cmp(&self, other: &Self) -> (ordering: Ordering)
        ensures
            ordering == other.sequence_number.order(self.sequence_number),
            ordering == Ordering::Greater <==> self.precedes(*other),
            ordering == Ordering::Less <==> other.precedes(*self),
            ordering == Ordering::Equal <==> self.sequence_number.0 == other.sequence_number.0,
    {
        proof {
            crate::sequence::law_trichotomy(self.sequence_number, other.sequence_number);
        }
        match self.sequence_number.cmp(&other.sequence_number) {
            Ordering::Less => Ordering::Greater,
            Ordering::Equal => Ordering::Equal,
            Ordering::Greater => Ordering::Less,
        }
    }
}

/// Whether `copy` is a clone of `raw`, where there is a packet.
pub open spec fn cloned_raw<P: Packet>(raw: Option<P>, copy: Option<P>) -> bool {
    match (raw, copy) {
        (Some(packet), Some(copy)) => cloned(packet, copy),
        (None, None) => true,
        _ => false,
    }
}

impl<P> Clone for JitterPacket<P>
where
    P: Packet,
{
    fn clone(&self) -> (copy: Self)
        ensures
            copy.sequence_number == self.sequence_number,
            copy.yielded_at == self.yielded_at,
            cloned_raw(self.raw, copy.raw),
            copy.raw is Some <==> self.raw is Some,
            copy.raw is Some ==> cloned(self.raw->0, copy.raw->0),
    {
        JitterPacket {
            raw: self.raw.clone(),
            sequence_number: self.sequence_number,
            yielded_at: self.yielded_at,
        }
    }
}

impl<P> From<P> for JitterPacket<P>
where
    P: Packet,
{
    fn from(raw: P) -> (packet: Self)
        ensures
            packet.raw == Some(raw),
            packet.sequence_number.0 == raw.number(),
            packet.yielded_at is None,
    {
        JitterPacket {
            sequence_number: SequenceNumber::from(raw.sequence_number()),
            yielded_at: None,
            raw: Some(raw),
        }
    }
}

impl<P> vstd::std_specs::convert::FromSpecImpl<P> for JitterPacket<P>
where
    P: Packet,
{
    open spec fn obeys_from_spec() -> bool {
        true
    }

    open spec fn from_spec(raw: P) -> Self {
        Self::received(raw)
    }
}

impl<P> PartialEq for JitterPacket<P>
where
    P: Packet,
{
    fn eq(&self, other: &Self) -> (equal: bool)
        ensures
            equal == (self.sequence_number.0 == other.sequence_number.0),
    {
        self.sequence_number == other.sequence_number
    }
}

impl<P> vstd::std_specs::cmp::PartialEqSpecImpl for JitterPacket<P>
where
    P: Packet,
{
    open spec fn obeys_eq_spec() -> bool {
        true
    }

    open spec fn eq_spec(&self, other: &Self) -> bool {
        self.sequence_number == other.sequence_number
    }
}

impl<P> Eq for JitterPacket<P>
where
    P: Packet,
{
}

impl<P> PartialOrd for JitterPacket<P>
where
    P: Packet,
{
    fn partial_cmp(&self, other: &Self) -> (ordering: Option<Ordering>)
        ensures
            ordering == Some(Ordering::Greater) <==> self.precedes(*other),
            ordering == Some(Ordering::Less) <==> other.precedes(*self),
            ordering is Some,
    {
        Some(self.cmp(other))
    }
}

impl<P> vstd::std_specs::cmp::PartialOrdSpecImpl for JitterPacket<P>
where
    P: Packet,
{
    open spec fn obeys_partial_cmp_spec() -> bool {
        true
    }

    open spec fn partial_cmp_spec(&self, other: &Self) -> Option<Ordering> {
        Some(other.sequence_number.order(self.sequence_number))
    }
}

} // verus!
