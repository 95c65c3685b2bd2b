//! The state of a jitter buffer, and the steps that it takes.

use crate::heap::{
    all_received, distinct, foremost, has_number, heap_ordered, linear_window, popped, pushed,
    replaced, Entries,
};
use crate::loss::{packets_lost, LossRatio};
use crate::packet::{cloned_raw, JitterPacket, Packet};
use crate::sequence::SequenceNumber;
use vstd::prelude::*;

verus! {

/// What became of the packet that was queued.
#[derive(Debug, Clone, Copy, PartialEq, Eq, Structural)]
pub enum Flush {
    /// There was none.
    Idle,
    /// It stays queued, since the buffer has no room for any packet.
    Full,
    /// It was discarded, since it or a newer packet was already played back.
    Stale,
    /// It was discarded, since it is already buffered.
    Duplicate,
    /// It was buffered.
    Stored,
    /// It was buffered in place of the first packet, which was discarded since
    /// the buffer was full.
    Replaced,
    /// It was buffered after everything else was discarded, since it is too far
    /// ahead of the packets that were buffered.
    Restarted,
}

/// What the consumer is to do.
#[derive(Debug)]
pub enum Next<P> {
    /// Wake the producer and wait, since nothing is buffered.
    Starved,
    /// Play this packet.
    Yield(Option<P>),
    /// Wait for the delay that was started.
    AwaitDelay,
    /// Start a delay and wait for it.
    StartDelay,
}

/// What a delay is worked out from.
#[derive(Debug, Clone, Copy, PartialEq, Eq, Structural)]
pub struct DelayPlan {
    /// The samples of all packets that are buffered, over all channels.
    pub buffered_samples: usize,
    pub sample_rate: usize,
    pub loss: LossRatio,
    /// The samples in one channel of the packet that is being played.
    pub samples: usize,
}

/// The samples of the packet, over all channels: none where none was received.
pub open spec fn samples_of<P: Packet>(raw: Option<P>) -> usize {
    match raw {
        Some(raw) => raw.sample_count(),
        None => 0,
    }
}

/// The samples of the first `n` entries.
pub open spec fn total_samples<P: Packet>(s: Entries<P>, n: int) -> int
    decreases n,
{
    if n <= 0 {
        0
    } else {
        total_samples(s, n - 1) + samples_of(s[n - 1].raw)
    }
}

/// The time from `since` to `now`: none where the clock was set back.
pub open spec fn elapsed(since: int, now: int) -> int {
    if since < now {
        now - since
    } else {
        0
    }
}

/// Whether a packet with the number `number` is late for `first`: it is played
/// earlier, and lies less than half of all numbers before it.
pub open spec fn late_for(first: SequenceNumber, number: SequenceNumber) -> bool {
    number.precedes(first) && number.places_to(first) < 0x8000
}

/// Whether a packet with the number `number` is too far ahead of `first` for a
/// buffer of `capacity` packets: it comes after the number that lies `capacity`
/// places on, lies more than `capacity` places on itself, and is not late.
pub open spec fn too_far_ahead(
    first: SequenceNumber,
    number: SequenceNumber,
    capacity: int,
) -> bool {
    &&& first.plus(capacity).precedes(number)
    &&& first.places_to(number) > capacity
    &&& !late_for(first, number)
}

/// What is played for the number `due` when the entries are `s`: the root of the
/// heap where it has that number, else nothing.
pub open spec fn slot_output<P: Packet>(s: Entries<P>, due: SequenceNumber) -> Option<P> {
    if s[0].sequence_number == due {
        s[0].raw
    } else {
        None
    }
}

/// What is left of the entries then.
pub open spec fn slot_rest<P: Packet>(s: Entries<P>, due: SequenceNumber) -> Entries<P> {
    if s[0].sequence_number == due {
        popped(s)
    } else {
        s
    }
}

/// The state of a jitter buffer.
#[verifier::ext_equal]
pub struct BufferState<P>
where
    P: Packet,
{
    /// The place in the stream that was played last.
    pub last: Option<JitterPacket<P>>,
    /// Whether a delay was started that has not run out.
    pub delayed: bool,
    /// The packet that was sent and is not buffered.
    pub queued: Option<P>,
    /// The packets that are buffered, as they lie in the heap.
    pub entries: Entries<P>,
    pub sample_rate: usize,
    pub channels: usize,
}

impl<P> BufferState<P>
where
    P: Packet,
{
    /// A buffer that nothing was sent to.
    pub open spec fn fresh(sample_rate: usize, channels: usize) -> Self {
        BufferState {
            last: None,
            delayed: false,
            queued: None,
            entries: Seq::empty(),
            sample_rate,
            channels,
        }
    }

    /// What holds of every buffer: it holds no more than `capacity` packets, no
    /// two of them with the same number and all of them as they were received,
    /// it knows when the last one was played, and its heap is in order before the
    /// first one is, unless the order of playback runs in a circle.
    pub open spec fn valid(self, capacity: int) -> bool {
        &&& self.entries.len() <= capacity
        &&& distinct(self.entries)
        &&& all_received(self.entries)
        &&& self.last matches Some(last) ==> last.yielded_at is Some
        &&& self.last is None && linear_window(self.entries) ==> heap_ordered(self.entries)
    }

    /// What becomes of the packet that is queued.
    pub open spec fn flush_outcome(self, capacity: int) -> Flush {
        match self.queued {
            None => Flush::Idle,
            Some(packet) => {
                let number = SequenceNumber(packet.number());
                if capacity <= 0 {
                    Flush::Full
                } else if self.last matches Some(last) && !last.sequence_number.precedes(number) {
                    Flush::Stale
                } else if has_number(self.entries, number) {
                    Flush::Duplicate
                } else if self.entries.len() > 0 && too_far_ahead(
                    foremost(self.entries, self.entries.len() as int).sequence_number,
                    number,
                    capacity,
                ) {
                    Flush::Restarted
                } else if self.entries.len() >= capacity {
                    Flush::Replaced
                } else {
                    Flush::Stored
                }
            },
        }
    }

    /// The state after the queued packet was dealt with.
    pub open spec fn flushed(self, capacity: int) -> Self {
        let packet = JitterPacket::received(self.queued->0);
        match self.flush_outcome(capacity) {
            Flush::Idle => self,
            Flush::Full => self,
            Flush::Stale => BufferState { queued: None, ..self },
            Flush::Duplicate => BufferState { queued: None, ..self },
            Flush::Stored => BufferState {
                queued: None,
                entries: pushed(self.entries, packet),
                ..self
            },
            Flush::Replaced => BufferState {
                queued: None,
                entries: replaced(self.entries, packet),
                ..self
            },
            Flush::Restarted => BufferState {
                queued: None,
                last: None,
                entries: pushed(Seq::empty(), packet),
                ..self
            },
        }
    }

    /// What the consumer is to do.
    pub open spec fn next_outcome(self) -> Next<P> {
        if self.entries.len() == 0 {
            Next::Starved
        } else if self.last is None {
            Next::Yield(self.entries[0].raw)
        } else if self.delayed {
            Next::AwaitDelay
        } else {
            Next::StartDelay
        }
    }

    /// Whether `last` is what is remembered of playing `raw` for the number
    /// `number` at the time `now`. The packet is remembered as a clone.
    pub open spec fn remembers(
        last: Option<JitterPacket<P>>,
        raw: Option<P>,
        number: SequenceNumber,
        now: i128,
    ) -> bool {
        &&& last matches Some(played)
        &&& played.sequence_number == number
        &&& played.yielded_at == Some(now)
        &&& cloned_raw(raw, played.raw)
    }

    /// Whether `next` is the state after the first packet was played at `now`.
    pub open spec fn plays_first(self, next: Self, now: i128) -> bool {
        &&& Self::remembers(
            next.last,
            self.entries[0].raw,
            self.entries[0].sequence_number,
            now,
        )
        &&& next == BufferState { last: next.last, entries: popped(self.entries), ..self }
    }

    /// The number that is due to be played, after the last one.
    pub open spec fn due(self) -> SequenceNumber {
        self.last->0.sequence_number.next()
    }

    /// Whether `next` is the state after the number that is due was played, or
    /// passed over, at `now`.
    pub open spec fn plays_due(self, next: Self, now: i128) -> bool {
        &&& Self::remembers(next.last, slot_output(self.entries, self.due()), self.due(), now)
        &&& next == BufferState {
            last: next.last,
            delayed: false,
            entries: slot_rest(self.entries, self.due()),
            ..self
        }
    }

    /// The samples that the packet being played has, over all channels: where it
    /// was not received, as many as the one at the root of the heap.
    pub open spec fn playing_samples(self) -> usize {
        if self.last matches Some(last) && last.raw is Some {
            samples_of(self.last->0.raw)
        } else if self.entries.len() > 0 {
            samples_of(self.entries[0].raw)
        } else {
            0
        }
    }

    /// How many packets were lost among those that are buffered.
    pub open spec fn lost(self) -> int {
        packets_lost(self.entries)
    }

    /// The samples of all packets that are buffered.
    pub open spec fn buffered_samples(self) -> int {
        total_samples(self.entries, self.entries.len() as int)
    }

    /// Whether a delay can be worked out: there is a channel to play, and the
    /// samples can be counted.
    pub open spec fn plan_fits(self) -> bool {
        &&& self.channels != 0
        &&& self.buffered_samples() <= usize::MAX
    }

    /// What the delay is worked out from, where it can be.
    pub open spec fn plan(self) -> DelayPlan {
        DelayPlan {
            buffered_samples: self.buffered_samples() as usize,
            sample_rate: self.sample_rate,
            loss: LossRatio { lost: self.lost() as u16, buffered: self.entries.len() as usize },
            samples: self.playing_samples() / self.channels,
        }
    }

    /// What is left at `now`, in nanoseconds, of the `playback` milliseconds that
    /// the last packet plays for.
    pub open spec fn remaining_delay(self, playback: int, now: int) -> int {
        let gone = elapsed(self.last->0.yielded_at->0 as int, now);
        if gone < playback * 1_000_000 {
            playback * 1_000_000 - gone
        } else {
            0
        }
    }
}

impl Flush {
    /// Whether the packet is still queued.
    pub open spec fn pending(self) -> bool {
        self is Full
    }

    /// Whether the packet was buffered.
    pub open spec fn wakes(self) -> bool {
        self is Stored || self is Replaced || self is Restarted
    }

    /// Whether the producer has to wait until it is woken.
    pub fn is_pending(self) -> (pending: bool)
        ensures
            pending == self.pending(),
            pending == (self is Full),
    {
        match self {
            Flush::Full => true,
            _ => false,
        }
    }

    /// Whether the consumer is to be woken, since a packet was buffered.
    pub fn wakes_consumer(self) -> (wakes: bool)
        ensures
            wakes == self.wakes(),
            wakes == (self is Stored || self is Replaced || self is Restarted),
    {
        match self {
            Flush::Stored => true,
            Flush::Replaced => true,
            Flush::Restarted => true,
            _ => false,
        }
    }
}

} // verus!
