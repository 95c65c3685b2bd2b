//! What is played in a slot and when, said of the numbers and of the times.

use crate::buffer_laws::{in_step, law_due_packet_is_played};
use crate::flush_laws::{law_flush_needs_a_packet_and_room, law_what_a_packet_changes};
use crate::heap::has_number;
use crate::heap_laws::law_pop_removes_the_root;
use crate::packet::Packet;
use crate::sequence::law_places_in_numbers;
use crate::state::{slot_output, BufferState, Flush, Next};
use vstd::prelude::*;

verus! {

/// A new buffer has played nothing, holds nothing and waits for nothing. It keeps
/// the sample rate and the channels that it was made with.
pub proof fn law_a_new_buffer_is_empty<P: Packet>(sample_rate: usize, channels: usize)
    ensures
        ({
            let state = BufferState::<P>::fresh(sample_rate, channels);
            &&& state.last is None
            &&& state.queued is None
            &&& state.entries.len() == 0
            &&& !state.delayed
            &&& state.sample_rate == sample_rate
            &&& state.channels == channels
        }),
{
}

/// The first packet that is played is the root of the heap. It leaves the buffer
/// and is remembered with its number and the time, and nothing else changes.
pub proof fn law_first_packet_is_remembered<P: Packet>(
    state: BufferState<P>,
    next: BufferState<P>,
    now: i128,
)
    requires
        state.entries.len() > 0,
        state.plays_first(next, now),
    ensures
        next.last is Some,
        next.last->0.sequence_number.0 == state.entries[0].sequence_number.0,
        next.last->0.yielded_at == Some(now),
        next.last->0.raw is Some <==> state.entries[0].raw is Some,
        next.last->0.raw is Some ==> cloned(state.entries[0].raw->0, next.last->0.raw->0),
        next.entries.len() == state.entries.len() - 1,
        next.entries.to_multiset().insert(state.entries[0]) == state.entries.to_multiset(),
        next.delayed == state.delayed,
        next.queued == state.queued,
        next.sample_rate == state.sample_rate,
        next.channels == state.channels,
{
    law_pop_removes_the_root(state.entries);
}

/// A slot is for the number after the last one, and for 0 after 65535. Where the
/// root of the heap has it, that packet is played and leaves the buffer, else
/// nothing is played and nothing leaves. Either way the number and the time are
/// remembered, the delay is over, and nothing else changes.
pub proof fn law_every_slot_is_remembered<P: Packet>(
    state: BufferState<P>,
    next: BufferState<P>,
    now: i128,
)
    requires
        state.last is Some,
        state.entries.len() > 0,
        state.plays_due(next, now),
    ensures
        ({
            let before = state.last->0.sequence_number.0;
            let number = if before == 65535 {
                0
            } else {
                before + 1
            };
            let root = state.entries[0];
            let output = slot_output(state.entries, state.due());
            &&& next.last is Some
            &&& next.last->0.sequence_number.0 == number
            &&& next.last->0.yielded_at == Some(now)
            &&& !next.delayed
            &&& next.queued == state.queued
            &&& next.sample_rate == state.sample_rate
            &&& next.channels == state.channels
            &&& next.last->0.raw is Some <==> output is Some
            &&& output is Some ==> cloned(output->0, next.last->0.raw->0)
            &&& root.sequence_number.0 == number ==> output == root.raw
            &&& root.sequence_number.0 == number ==> next.entries.len() == state.entries.len() - 1
                && next.entries.to_multiset().insert(root) == state.entries.to_multiset()
            &&& root.sequence_number.0 != number ==> output is None
            &&& root.sequence_number.0 != number ==> next.entries == state.entries
        }),
{
    law_places_in_numbers(state.last->0.sequence_number, state.last->0.sequence_number, 1);
    law_pop_removes_the_root(state.entries);
}

/// A packet that is buffered is played in the slot for its number, wherever it
/// lies in the heap.
pub proof fn law_buffered_packets_are_played<P: Packet>(
    state: BufferState<P>,
    capacity: int,
    i: int,
)
    requires
        in_step(state),
        state.valid(capacity),
        state.last is Some,
        0 <= i < state.entries.len(),
        state.entries[i].sequence_number.0 == (state.last->0.sequence_number.0 + 1) % 65536,
    ensures
        slot_output(state.entries, state.due()) == state.entries[i].raw,
        state.entries[i].raw is Some,
{
    law_due_packet_is_played(state, capacity);
    assert(state.entries[i].sequence_number == state.due());
    assert(has_number(state.entries, state.due()));
}

/// What the consumer is to do follows from the steps before. A new buffer starves
/// it, and a buffer that has played nothing yields the packet at the root of the
/// heap. Once a packet was played there is a delay: it is started after the slot
/// before, and once started it is waited for until the next slot.
pub proof fn law_consumer_goes_on<P: Packet>(
    state: BufferState<P>,
    next: BufferState<P>,
    capacity: int,
    now: i128,
)
    ensures
        BufferState::<P>::fresh(state.sample_rate, state.channels).next_outcome() is Starved,
        state.next_outcome() is Starved <==> state.entries.len() == 0,
        state.next_outcome() is Yield <==> state.entries.len() > 0 && state.last is None,
        state.next_outcome() is Yield ==> state.next_outcome()->Yield_0 == state.entries[0].raw,
        state.entries.len() > 0 && state.last is Some ==> (BufferState {
            delayed: true,
            ..state
        }).next_outcome() is AwaitDelay,
        state.last is Some && state.plays_due(next, now) && next.entries.len() > 0
            ==> next.next_outcome() is StartDelay,
        state.flush_outcome(capacity) == Flush::Restarted ==> state.flushed(
            capacity,
        ).next_outcome() == Next::Yield(state.queued),
        state.last is None && state.flush_outcome(capacity) == Flush::Stored ==> state.flushed(
            capacity,
        ).next_outcome() is Yield,
{
    law_flush_needs_a_packet_and_room(state, capacity);
    if state.queued is Some && capacity > 0 {
        law_what_a_packet_changes(state, capacity);
    }
}

/// The whole playback time is left at the very time of a slot or of the first
/// packet, whether a packet was played or passed over. It runs out from that time
/// on, does not grow when the clock is set back, and then nothing is left.
pub proof fn law_playback_starts_with_the_slot<P: Packet>(
    state: BufferState<P>,
    next: BufferState<P>,
    now: i128,
    playback: nat,
    later: int,
)
    requires
        state.entries.len() > 0,
        state.plays_first(next, now) || (state.last is Some && state.plays_due(next, now)),
    ensures
        next.remaining_delay(playback as int, now as int) == playback * 1_000_000,
        later <= now ==> next.remaining_delay(playback as int, later) == playback * 1_000_000,
        now <= later <= now + playback * 1_000_000 ==> later + next.remaining_delay(
            playback as int,
            later,
        ) == now + playback * 1_000_000,
        later >= now + playback * 1_000_000 ==> next.remaining_delay(playback as int, later) == 0,
{
}

/// Slots are spaced by the playback time over a whole run, whatever is received
/// in between and whether a packet is played in each of them or not. Slot `j` is
/// at `times[j]`. The delay after it is started at `started[j]`, in the state
/// `states[j]`, and is waited for until the next slot. `waiting[j]` is the state
/// by then, in which still no other place in the stream was played.
pub proof fn law_slots_are_spaced_by_the_playback<P: Packet>(
    states: Seq<BufferState<P>>,
    waiting: Seq<BufferState<P>>,
    times: Seq<i128>,
    started: Seq<i128>,
    playback: nat,
    k: int,
)
    requires
        states.len() == times.len(),
        waiting.len() == started.len(),
        times.len() == started.len() + 1,
        states[0].last is Some,
        states[0].last->0.yielded_at == Some(times[0]),
        forall|j: int|
            0 <= j < started.len() ==> {
                &&& times[j] <= #[trigger] started[j] <= times[j] + playback * 1_000_000
                &&& times[j + 1] == started[j] + states[j].remaining_delay(
                    playback as int,
                    started[j] as int,
                )
                &&& waiting[j].last == states[j].last
                &&& waiting[j].entries.len() > 0
                &&& waiting[j].plays_due(states[j + 1], times[j + 1])
            },
        0 <= k < times.len(),
    ensures
        times[k] == times[0] + k * (playback * 1_000_000),
        states[k].last is Some,
        states[k].last->0.yielded_at == Some(times[k]),
    decreases k,
{
    if k > 0 {
        law_slots_are_spaced_by_the_playback(states, waiting, times, started, playback, k - 1);
        assert(times[k - 1] <= started[k - 1]);
        assert(times[k] == times[k - 1] + playback * 1_000_000);
        assert(k * (playback * 1_000_000) == (k - 1) * (playback * 1_000_000) + playback
            * 1_000_000) by (nonlinear_arith);
    }
}

} // verus!
