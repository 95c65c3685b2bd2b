//! The jitter buffer itself.

use crate::buffer_laws::{
    law_due_packet_keeps_valid, law_first_packet_keeps_valid, law_flush_keeps_valid,
};
use crate::flush_laws::{
    law_flush_needs_a_packet_and_room, law_what_a_packet_changes, law_what_becomes_of_a_packet,
};
use crate::heap::{linear_window, Entries, PacketHeap};
use crate::heap_laws::law_root_is_played_first;
use crate::loss::{count_lost, missing_places, LossRatio};
use crate::packet::{JitterPacket, Packet};
use crate::plan_laws::{
    law_each_channel_gets_its_share, law_lost_packets_in_every_state,
    law_plan_states_what_is_buffered,
};
use crate::sequence::SequenceNumber;
use crate::slot_laws::{law_every_slot_is_remembered, law_first_packet_is_remembered};
use crate::state::{
    elapsed, slot_output, too_far_ahead, total_samples, BufferState, DelayPlan, Flush, Next,
};
use vstd::prelude::*;

verus! {

/// Zero latency jitter buffer for real time udp/rtp streams
///
/// Packets are sent in by `start_send` and `poll_flush`, and come out by
/// `poll_next`. What takes time is left to the caller: to wake the other side,
/// to read the clock, and to wait for a delay that `poll_next` asks for.
pub struct JitterBuffer<P, const S: u8>
where
    P: Packet,
{
    last: Option<JitterPacket<P>>,
    delayed: bool,
    queued: Option<P>,
    heap: PacketHeap<P>,
    sample_rate: usize,
    channels: usize,
}

impl<P, const S: u8> View for JitterBuffer<P, S>
where
    P: Packet,
{
    type V = BufferState<P>;

    closed spec fn view(&self) -> BufferState<P> {
        BufferState {
            last: self.last,
            delayed: self.delayed,
            queued: self.queued,
            entries: self.heap@,
            sample_rate: self.sample_rate,
            channels: self.channels,
        }
    }
}

/// The nanoseconds from `since` to `now`: none where the clock was set back.
fn elapsed_nanos(since: i128, now: i128) -> (nanos: u128)
    ensures
        nanos == elapsed(since as int, now as int),
        since <= now ==> since + nanos == now,
        since > now ==> nanos == 0,
{
    if now <= since {
        0
    } else if since >= 0 || now < 0 {
        (now - since) as u128
    } else {
        now as u128 + (-(since + 1)) as u128 + 1
    }
}

/// Whether a packet is too far ahead of the first one for a buffer of `capacity`
/// packets.
fn is_too_far_ahead(first: SequenceNumber, number: SequenceNumber, capacity: u16) -> (ahead: bool)
    ensures
        ahead == too_far_ahead(first, number, capacity as int),
        first.0 + capacity < number.0 && !(first.0 <= 8 && number.0 >= 65527) ==> ahead,
        first.0 <= number.0 <= first.0 + capacity ==> !ahead,
        number.0 < first.0 && first.0 - number.0 < 32768 ==> !ahead,
{
    let late = number < first && number.count_places(first) < 0x8000;
    first.advanced(capacity) < number && first.count_places(number) > capacity && !late
}

impl<P, const S: u8> JitterBuffer<P, S>
where
    P: Packet,
{
    /// The longest delay, in milliseconds, that lost packets are made up for.
    pub const MAX_DELAY_MILLIS: u64 = 200;

    /// What holds of every buffer.
    pub open spec fn wf(&self) -> bool {
        self@.valid(S as int)
    }

    /// A buffer for up to `S` packets of sound, with `sample_rate` samples in a
    /// second of each of `channels` channels.
    pub fn new(sample_rate: usize, channels: usize) -> (buffer: Self)
        ensures
            buffer.wf(),
            buffer@ == BufferState::<P>::fresh(sample_rate, channels),
            buffer@.sample_rate == sample_rate,
            buffer@.channels == channels,
            buffer@.entries.len() == 0,
            buffer@.last is None && buffer@.queued is None && !buffer@.delayed,
    {
        JitterBuffer {
            last: None,
            delayed: false,
            queued: None,
            heap: PacketHeap::with_capacity(S as usize),
            sample_rate,
            channels,
        }
    }

    /// Whether a packet can be sent: none is queued.
    pub fn poll_ready(&self) -> (ready: bool)
        ensures
            ready == (self@.queued is None),
    {
        self.queued.is_none()
    }

    /// Queues a packet, unless one is queued already.
    pub fn start_send(&mut self, item: P) -> (result: Result<(), ()>)
        requires
            old(self).wf(),
        ensures
            final(self).wf(),
            result is Err <==> old(self)@.queued is Some,
            result is Err ==> final(self)@ == old(self)@,
            result is Ok ==> final(self)@ == (BufferState { queued: Some(item), ..old(self)@ }),
    {
        if self.queued.is_some() {
            return Err(());
        }
        self.queued = Some(item);
        Ok(())
    }

    /// Moves the queued packet into the buffer, or discards it. A packet that is
    /// too far ahead clears the buffer first, and in a full buffer the first
    /// packet makes room.
    pub fn poll_flush(&mut self) -> (outcome: Flush)
        requires
            old(self).wf(),
        ensures
            final(self).wf(),
            outcome == old(self)@.flush_outcome(S as int),
            final(self)@ == old(self)@.flushed(S as int),
            outcome == Flush::Idle <==> old(self)@.queued is None,
            outcome == Flush::Full <==> old(self)@.queued is Some && S == 0,
            outcome == Flush::Idle || outcome == Flush::Full ==> final(self)@ == old(self)@,
            outcome == Flush::Stale <==> {
                &&& old(self)@.queued is Some
                &&& S > 0
                &&& old(self)@.last is Some
                &&& !old(self)@.last->0.sequence_number.precedes(
                    SequenceNumber(old(self)@.queued->0.number()),
                )
            },
            outcome == Flush::Duplicate <==> {
                &&& old(self)@.queued is Some
                &&& S > 0
                &&& old(self)@.last is Some ==> old(self)@.last->0.sequence_number.precedes(
                    SequenceNumber(old(self)@.queued->0.number()),
                )
                &&& exists|i: int|
                    0 <= i < old(self)@.entries.len() && (
                    #[trigger] old(self)@.entries[i]).sequence_number.0
                        == old(self)@.queued->0.number()
            },
            outcome == Flush::Stored ==> old(self)@.entries.len() < S,
            outcome == Flush::Replaced ==> old(self)@.entries.len() >= S,
            outcome == Flush::Restarted ==> final(self)@.last is None
                && final(self)@.entries.len() == 1,
            outcome != Flush::Restarted ==> final(self)@.last == old(self)@.last,
    {
        proof {
            law_flush_keeps_valid(self@, S as int);
            law_flush_needs_a_packet_and_room(self@, S as int);
            if self@.queued is Some && S > 0 {
                law_what_becomes_of_a_packet(self@, S as int);
                law_what_a_packet_changes(self@, S as int);
            }
        }
        let packet = match self.queued.take() {
            None => {
                return Flush::Idle;
            },
            Some(packet) => packet,
        };
        if S == 0 {
            self.queued = Some(packet);
            return Flush::Full;
        }
        let number = SequenceNumber::from(packet.sequence_number());
        if let Some(last) = &self.last {
            if last.sequence_number >= number {
                return Flush::Stale;
            }
        }
        if self.heap.contains(number) {
            return Flush::Duplicate;
        }
        if let Some(max) = self.heap.max() {
            if is_too_far_ahead(max.sequence_number, number, S as u16) {
                self.last = None;
                self.heap.clear();
                self.heap.push(JitterPacket::from(packet));
                return Flush::Restarted;
            }
        }
        if self.heap.len() >= S as usize {
            self.heap.replace(JitterPacket::from(packet));
            Flush::Replaced
        } else {
            self.heap.push(JitterPacket::from(packet));
            Flush::Stored
        }
    }

    /// Flushes the queued packet before the producer leaves.
    pub fn poll_close(&mut self) -> (outcome: Flush)
        requires
            old(self).wf(),
        ensures
            final(self).wf(),
            outcome == old(self)@.flush_outcome(S as int),
            final(self)@ == old(self)@.flushed(S as int),
            outcome == Flush::Idle <==> old(self)@.queued is None,
            outcome == Flush::Full <==> old(self)@.queued is Some && S == 0,
            outcome == Flush::Idle || outcome == Flush::Full ==> final(self)@ == old(self)@,
            outcome == Flush::Stale <==> {
                &&& old(self)@.queued is Some
                &&& S > 0
                &&& old(self)@.last is Some
                &&& !old(self)@.last->0.sequence_number.precedes(
                    SequenceNumber(old(self)@.queued->0.number()),
                )
            },
            outcome == Flush::Duplicate <==> {
                &&& old(self)@.queued is Some
                &&& S > 0
                &&& old(self)@.last is Some ==> old(self)@.last->0.sequence_number.precedes(
                    SequenceNumber(old(self)@.queued->0.number()),
                )
                &&& exists|i: int|
                    0 <= i < old(self)@.entries.len() && (
                    #[trigger] old(self)@.entries[i]).sequence_number.0
                        == old(self)@.queued->0.number()
            },
            outcome == Flush::Stored ==> old(self)@.entries.len() < S,
            outcome == Flush::Replaced ==> old(self)@.entries.len() >= S,
            outcome == Flush::Restarted ==> final(self)@.last is None
                && final(self)@.entries.len() == 1,
            outcome != Flush::Restarted ==> final(self)@.last == old(self)@.last,
    {
        self.poll_flush()
    }

    /// Decides what the consumer is to do at the time `now`. The first packet is
    /// played at once, and takes the root out of the heap. From then on there is
    /// a delay between packets, and nothing changes until it is over. No packet
    /// that is buffered comes before the first one, unless the order of playback
    /// runs in a circle.
    pub fn poll_next(&mut self, now: i128) -> (next: Next<P>)
        requires
            old(self).wf(),
        ensures
            final(self).wf(),
            if old(self)@.entries.len() == 0 {
                next == Next::<P>::Starved && final(self)@ == old(self)@
            } else if old(self)@.last is None {
                &&& next == Next::Yield(old(self)@.entries[0].raw)
                &&& old(self)@.plays_first(final(self)@, now)
            } else if old(self)@.delayed {
                next == Next::<P>::AwaitDelay && final(self)@ == old(self)@
            } else {
                next == Next::<P>::StartDelay && final(self)@ == old(self)@
            },
            next == old(self)@.next_outcome(),
            next is Yield ==> {
                &&& final(self)@.last is Some
                &&& final(self)@.last->0.sequence_number.0
                    == old(self)@.entries[0].sequence_number.0
                &&& final(self)@.last->0.yielded_at == Some(now)
                &&& final(self)@.entries.to_multiset().insert(old(self)@.entries[0])
                    == old(self)@.entries.to_multiset()
            },
            next is Yield && linear_window(old(self)@.entries) ==> forall|i: int|
                0 <= i < old(self)@.entries.len() ==> !(#[trigger] old(self)@.entries[i]).precedes(
                    old(self)@.entries[0],
                ),
    {
        if self.heap.is_empty() {
            return Next::Starved;
        }
        if self.last.is_none() {
            // no need to delay until the last packet is played back since
            // we are yielding the first packet right now
            proof {
                if linear_window(self@.entries) {
                    assert forall|i: int| 0 <= i < self@.entries.len() implies !(
                    #[trigger] self@.entries[i]).precedes(self@.entries[0]) by {
                        law_root_is_played_first(self@.entries, i);
                    }
                }
            }
            let mut packet = self.heap.pop().unwrap();
            packet.yielded_at = Some(now);
            self.last = Some(packet.clone());
            proof {
                law_first_packet_keeps_valid(old(self)@, self@, S as int, now);
                law_first_packet_is_remembered(old(self)@, self@, now);
            }
            return Next::Yield(packet.into());
        }
        if self.delayed {
            Next::AwaitDelay
        } else {
            Next::StartDelay
        }
    }

    /// Plays the packet that is due, once the delay after the last one is over at
    /// the time `now`. Where it is not the next one in the heap it is passed over:
    /// then nothing is played in its place.
    pub fn delay_elapsed(&mut self, now: i128) -> (packet: Option<P>)
        requires
            old(self).wf(),
            old(self)@.delayed,
            old(self)@.last is Some,
            old(self)@.entries.len() > 0,
        ensures
            final(self).wf(),
            packet == slot_output(old(self)@.entries, old(self)@.due()),
            old(self)@.plays_due(final(self)@, now),
            old(self)@.entries[0].sequence_number.0 == (old(self)@.last->0.sequence_number.0 + 1)
                % 65536 ==> {
                &&& packet == old(self)@.entries[0].raw
                &&& final(self)@.entries.to_multiset().insert(old(self)@.entries[0])
                    == old(self)@.entries.to_multiset()
            },
            old(self)@.entries[0].sequence_number.0 != (old(self)@.last->0.sequence_number.0 + 1)
                % 65536 ==> packet is None && final(self)@.entries == old(self)@.entries,
            final(self)@.last is Some,
            final(self)@.last->0.sequence_number.0 == (old(self)@.last->0.sequence_number.0 + 1)
                % 65536,
            final(self)@.last->0.yielded_at == Some(now),
            final(self)@.last->0.raw is Some <==> packet is Some,
            !final(self)@.delayed,
    {
        self.delayed = false;
        let due = self.last.as_ref().unwrap().sequence_number.advanced(1);
        let mut packet: Option<P> = None;
        if self.heap.get(0).sequence_number == due {
            packet = self.heap.pop().unwrap().into();
        }
        self.last = Some(
            JitterPacket { raw: packet.clone(), sequence_number: due, yielded_at: Some(now) },
        );
        proof {
            law_due_packet_keeps_valid(old(self)@, self@, S as int, now);
            law_every_slot_is_remembered(old(self)@, self@, now);
        }
        packet
    }

    /// Starts the delay until the last packet has played for `playback`
    /// milliseconds. Gives what is left of it at the time `now`, in nanoseconds.
    pub fn start_delay(&mut self, playback: u64, now: i128) -> (nanos: u128)
        requires
            old(self).wf(),
            old(self)@.last is Some,
        ensures
            final(self).wf(),
            nanos == old(self)@.remaining_delay(playback as int, now as int),
            now <= old(self)@.last->0.yielded_at->0 ==> nanos == playback * 1_000_000,
            0 <= now - old(self)@.last->0.yielded_at->0 <= playback * 1_000_000 ==> now + nanos
                == old(self)@.last->0.yielded_at->0 + playback * 1_000_000,
            now - old(self)@.last->0.yielded_at->0 >= playback * 1_000_000 ==> nanos == 0,
            final(self)@ == (BufferState { delayed: true, ..old(self)@ }),
    {
        let mut gone: u128 = 0;
        if let Some(last) = &self.last {
            if let Some(yielded_at) = last.yielded_at {
                gone = elapsed_nanos(yielded_at, now);
            }
        }
        self.delayed = true;
        let whole: u128 = playback as u128 * 1_000_000;
        whole.saturating_sub(gone)
    }

    /// Returns the calculated packet loss ratio in this moment
    pub fn plr(&self) -> (ratio: LossRatio)
        requires
            self.wf(),
        ensures
            ratio.lost == self@.lost(),
            self@.entries.len() == 0 ==> ratio.lost == 0,
            self@.entries.len() > 0 ==> missing_places(self@.entries).finite() && ratio.lost
                == missing_places(self@.entries).len(),
            ratio.buffered == self@.entries.len(),
    {
        proof {
            law_lost_packets_in_every_state(self@);
        }
        LossRatio { lost: count_lost(&self.heap), buffered: self.heap.len() }
    }

    /// The samples of all packets that are buffered, where the sum fits.
    fn sum_samples(&self) -> (sum: Option<usize>)
        ensures
            sum is Some <==> self@.buffered_samples() <= usize::MAX,
            sum matches Some(sum) ==> sum == self@.buffered_samples(),
    {
        let mut sum: usize = 0;
        let mut n: usize = 0;
        while n < self.heap.len()
            invariant
                n <= self@.entries.len(),
                self@.entries == self.heap@,
                sum == total_samples(self@.entries, n as int),
            decreases self@.entries.len() - n,
        {
            let samples: usize = match &self.heap.get(n).raw {
                Some(raw) => raw.samples(),
                None => 0,
            };
            proof {
                lemma_total_samples_grows(self@.entries, n + 1, self@.entries.len() as int);
            }
            match sum.checked_add(samples) {
                Some(more) => {
                    sum = more;
                },
                None => {
                    return None;
                },
            }
            n = n + 1;
        }
        Some(sum)
    }

    /// What the delay after the last packet is worked out from.
    pub fn delay_plan(&self) -> (plan: DelayPlan)
        requires
            self.wf(),
            self@.plan_fits(),
        ensures
            plan == self@.plan(),
            plan.buffered_samples == self@.buffered_samples(),
            plan.sample_rate == self@.sample_rate,
            plan.loss.buffered == self@.entries.len(),
            self@.entries.len() > 0 ==> plan.loss.lost == missing_places(self@.entries).len(),
            self@.last is Some && self@.last->0.raw is Some ==> {
                &&& plan.samples * self@.channels <= self@.last->0.raw->0.sample_count()
                &&& self@.last->0.raw->0.sample_count() < (plan.samples + 1) * self@.channels
            },
            (self@.last is None || self@.last->0.raw is None) && self@.entries.len() > 0 ==> {
                &&& plan.samples * self@.channels <= self@.entries[0].raw->0.sample_count()
                &&& self@.entries[0].raw->0.sample_count() < (plan.samples + 1) * self@.channels
            },
    {
        proof {
            law_each_channel_gets_its_share(self@);
            law_plan_states_what_is_buffered(self@);
            assert(self@.entries.len() > 0 ==> self@.entries[0].is_received());
        }
        let playing: usize = match &self.last {
            Some(JitterPacket { raw: Some(raw), .. }) => raw.samples(),
            _ => match self.heap.peek() {
                Some(packet) => match &packet.raw {
                    Some(raw) => raw.samples(),
                    None => 0,
                },
                None => 0,
            },
        };
        DelayPlan {
            buffered_samples: self.sum_samples().unwrap(),
            sample_rate: self.sample_rate,
            loss: self.plr(),
            samples: playing / self.channels,
        }
    }

    /// What the delay after the last packet is worked out from, where there is a
    /// channel to play and the samples can be counted.
    pub fn checked_delay_plan(&self) -> (plan: Option<DelayPlan>)
        requires
            self.wf(),
        ensures
            plan is Some <==> self@.plan_fits(),
            plan is Some <==> self@.channels > 0 && self@.buffered_samples() <= usize::MAX,
            plan matches Some(plan) ==> plan == self@.plan(),
    {
        if self.channels == 0 || self.sum_samples().is_none() {
            None
        } else {
            Some(self.delay_plan())
        }
    }

    /// How many packets are left to play at least, and at most where that is
    /// known.
    pub fn size_hint(&self) -> (bounds: (usize, Option<usize>))
        ensures
            bounds.0 == self@.entries.len(),
            bounds.1 is None,
    {
        (self.heap.len(), None)
    }

    /// The packet that is queued.
    pub fn queued(&self) -> (queued: Option<&P>)
        ensures
            self@.queued is None <==> queued is None,
            queued matches Some(queued) ==> Some(*queued) == self@.queued,
    {
        self.queued.as_ref()
    }

    /// The place in the stream that was played last.
    pub fn last(&self) -> (last: Option<&JitterPacket<P>>)
        ensures
            self@.last is None <==> last is None,
            last matches Some(last) ==> Some(*last) == self@.last,
    {
        self.last.as_ref()
    }

    /// The packets that are buffered.
    pub fn heap(&self) -> (heap: &PacketHeap<P>)
        ensures
            heap@ == self@.entries,
    {
        &self.heap
    }

    /// The packets that are buffered, taken out of the buffer.
    pub fn into_heap(self) -> (heap: PacketHeap<P>)
        ensures
            heap@ == self@.entries,
    {
        self.heap
    }
}

proof fn lemma_total_samples_grows<P: Packet>(s: Entries<P>, n: int, m: int)
    requires
        n <= m,
    ensures
        0 <= total_samples(s, n) <= total_samples(s, m),
    decreases m,
{
    if m > 0 {
        if n < m {
            lemma_total_samples_grows(s, n, m - 1);
        } else {
            lemma_total_samples_grows(s, n - 1, m - 1);
        }
    }
}

} // verus!
