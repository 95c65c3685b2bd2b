//! What becomes of a packet that is sent, said of its number, of the numbers that
//! are buffered and of the number that was played last.

use crate::buffer_laws::{in_step, law_valid_is_in_step};
use crate::heap::{foremost, linear_window, Entries};
use crate::heap_laws::{
    law_nothing_precedes_the_foremost, law_push_adds_the_packet, law_replace_exchanges_the_root,
    law_root_is_played_first, lemma_same_number,
};
use crate::packet::{JitterPacket, Packet};
use crate::sequence::SequenceNumber;
use crate::state::{too_far_ahead, BufferState, Flush};
use vstd::prelude::*;

verus! {

/// Which numbers are too far ahead of the first one. A greater number is if it is
/// greater by more than the capacity, whatever the distance, unless it lies before
/// the wrap and the first one after it. A lesser number is only if it is lesser by
/// half of all numbers or more, so that it lies ahead across the wrap: if it lies
/// more than the capacity ahead, where the first number and the capacity reach
/// across the wrap themselves, and if it is one of the first 9 numbers, where they
/// reach to one of the last 9.
pub proof fn law_too_far_ahead_in_numbers(
    first: SequenceNumber,
    number: SequenceNumber,
    capacity: int,
)
    requires
        0 <= capacity <= u8::MAX,
    ensures
        first.0 <= number.0 && !(first.0 <= 8 && number.0 >= 65527) ==> (too_far_ahead(
            first,
            number,
            capacity,
        ) <==> number.0 - first.0 > capacity),
        first.0 <= 8 && number.0 >= 65527 ==> !too_far_ahead(first, number, capacity),
        number.0 < first.0 && first.0 - number.0 < 32768 ==> !too_far_ahead(
            first,
            number,
            capacity,
        ),
        first.0 - number.0 >= 32768 && first.0 + capacity > 65535 ==> (too_far_ahead(
            first,
            number,
            capacity,
        ) <==> number.0 + 65536 - first.0 > capacity),
        first.0 - number.0 >= 32768 && first.0 + capacity <= 65535 ==> (too_far_ahead(
            first,
            number,
            capacity,
        ) <==> first.0 + capacity >= 65527 && number.0 <= 8),
{
}

/// The entry that a pass finds is one of the entries.
proof fn lemma_foremost_is_there<P: Packet>(s: Entries<P>, n: int) -> (k: int)
    requires
        1 <= n <= s.len(),
    ensures
        0 <= k < n,
        foremost(s, n) == s[k],
    decreases n,
{
    if n == 1 {
        0
    } else {
        let k = lemma_foremost_is_there(s, n - 1);
        if foremost(s, n - 1).precedes(s[n - 1]) {
            k
        } else {
            n - 1
        }
    }
}

/// Without a packet that is queued nothing happens, and in a buffer without room
/// the packet stays queued. In all other buffers it does not.
pub proof fn law_flush_needs_a_packet_and_room<P: Packet>(state: BufferState<P>, capacity: int)
    ensures
        state.flush_outcome(capacity) == Flush::Idle <==> state.queued is None,
        state.flush_outcome(capacity) == Flush::Full <==> state.queued is Some && capacity <= 0,
        state.queued is None || capacity <= 0 ==> state.flushed(capacity) == state,
        capacity > 0 ==> state.flushed(capacity).queued is None,
{
}

/// A packet is stale if and only if its number does not come after the one that
/// was played last, and a duplicate if and only if it is not stale and its number
/// is buffered. All other packets are buffered: in a place of their own as long as
/// there are fewer packets than there is room for, else in place of the first, and
/// only a packet that is too far ahead of one that is buffered clears the buffer.
pub proof fn law_what_becomes_of_a_packet<P: Packet>(state: BufferState<P>, capacity: int)
    requires
        state.queued is Some,
        capacity > 0,
    ensures
        ({
            let number = state.queued->0.number();
            let outcome = state.flush_outcome(capacity);
            let played = state.last matches Some(last) && !last.sequence_number.precedes(
                SequenceNumber(number),
            );
            let buffered = exists|i: int|
                0 <= i < state.entries.len() && (#[trigger] state.entries[i]).sequence_number.0
                    == number;
            &&& outcome == Flush::Stale <==> played
            &&& outcome == Flush::Duplicate <==> !played && buffered
            &&& outcome == Flush::Stored ==> state.entries.len() < capacity
            &&& outcome == Flush::Replaced ==> state.entries.len() >= capacity
            &&& outcome == Flush::Restarted ==> exists|i: int|
                0 <= i < state.entries.len() && too_far_ahead(
                    (#[trigger] state.entries[i]).sequence_number,
                    SequenceNumber(number),
                    capacity,
                )
        }),
{
    let number = SequenceNumber(state.queued->0.number());
    if exists|i: int|
        0 <= i < state.entries.len() && (#[trigger] state.entries[i]).sequence_number.0
            == number.0 {
        let i = choose|i: int|
            0 <= i < state.entries.len() && (#[trigger] state.entries[i]).sequence_number.0
                == number.0;
        assert(state.entries[i].sequence_number == number);
    }
    if state.entries.len() > 0 {
        let k = lemma_foremost_is_there(state.entries, state.entries.len() as int);
        assert(state.entries[k].sequence_number == state.entries[k].sequence_number);
    }
}

/// A packet that comes after the last one played, that is not buffered and that is
/// no more than the capacity ahead of any packet that is buffered, is stored
/// whenever there are fewer packets than there is room for. It joins the others,
/// and nothing else changes.
pub proof fn law_packets_within_reach_are_stored<P: Packet>(state: BufferState<P>, capacity: int)
    requires
        state.queued is Some,
        0 < capacity <= u8::MAX,
        state.last matches Some(last) ==> last.sequence_number.precedes(
            SequenceNumber(state.queued->0.number()),
        ),
        forall|i: int|
            0 <= i < state.entries.len() ==> (#[trigger] state.entries[i]).sequence_number.0
                != state.queued->0.number(),
        forall|i: int|
            0 <= i < state.entries.len() ==> ({
                let number = state.queued->0.number();
                let other = (#[trigger] state.entries[i]).sequence_number.0;
                ||| other < number && number - other <= capacity
                ||| other <= 8 && number >= 65527
                ||| number < other && other - number < 32768
                ||| number < other && number + 65536 - other <= capacity
            }),
        state.entries.len() < capacity,
    ensures
        state.flush_outcome(capacity) == Flush::Stored,
        state.flushed(capacity).entries.len() == state.entries.len() + 1,
        state.flushed(capacity).entries.to_multiset() == state.entries.to_multiset().insert(
            JitterPacket {
                raw: state.queued,
                sequence_number: SequenceNumber(state.queued->0.number()),
                yielded_at: None,
            },
        ),
        state.flushed(capacity).last == state.last,
        state.flushed(capacity).delayed == state.delayed,
        state.flushed(capacity).sample_rate == state.sample_rate,
        state.flushed(capacity).channels == state.channels,
{
    let number = SequenceNumber(state.queued->0.number());
    law_what_becomes_of_a_packet(state, capacity);
    law_push_adds_the_packet(state.entries, JitterPacket::received(state.queued->0));
    if state.entries.len() > 0 {
        let k = lemma_foremost_is_there(state.entries, state.entries.len() as int);
        law_too_far_ahead_in_numbers(state.entries[k].sequence_number, number, capacity);
    }
}

/// Whether a packet that comes after the last one played and is not buffered
/// clears the buffer, in plain numbers: it does if its number is greater than the
/// first one by more than the capacity, and does not if it is no more than that
/// ahead, or late. On entries that are not played in a circle the first one is the
/// one that no other comes before.
pub proof fn law_packets_too_far_ahead_restart<P: Packet>(
    state: BufferState<P>,
    capacity: int,
    f: int,
)
    requires
        state.queued is Some,
        0 < capacity <= u8::MAX,
        state.last matches Some(last) ==> last.sequence_number.precedes(
            SequenceNumber(state.queued->0.number()),
        ),
        forall|i: int|
            0 <= i < state.entries.len() ==> (#[trigger] state.entries[i]).sequence_number.0
                != state.queued->0.number(),
        linear_window(state.entries),
        0 <= f < state.entries.len(),
        forall|i: int|
            0 <= i < state.entries.len() ==> !(
            #[trigger] state.entries[i]).sequence_number.precedes(state.entries[f].sequence_number),
    ensures
        ({
            let first = state.entries[f].sequence_number.0;
            let number = state.queued->0.number();
            let restarted = state.flush_outcome(capacity) == Flush::Restarted;
            &&& first + capacity < number && !(first <= 8 && number >= 65527) ==> restarted
            &&& first < number <= first + capacity ==> !restarted
            &&& first <= 8 && number >= 65527 ==> !restarted
            &&& number < first && first - number < 32768 ==> !restarted
            &&& first - number >= 32768 && number + 65536 <= first + capacity ==> !restarted
            &&& first - number >= 32768 && 65535 < first + capacity < number + 65536 ==> restarted
            &&& first - number >= 32768 && 65527 <= first + capacity <= 65535 ==> (restarted
                <==> number <= 8)
            &&& first - number >= 32768 && first + capacity < 65527 ==> !restarted
            &&& !restarted ==> (state.flush_outcome(capacity) == Flush::Stored
                <==> state.entries.len() < capacity)
            &&& !restarted ==> (state.flush_outcome(capacity) == Flush::Replaced
                <==> state.entries.len() >= capacity)
        }),
{
    let number = SequenceNumber(state.queued->0.number());
    law_what_becomes_of_a_packet(state, capacity);
    law_nothing_precedes_the_foremost(state.entries);
    let k = lemma_foremost_is_there(state.entries, state.entries.len() as int);
    lemma_same_number(state.entries[k].sequence_number, state.entries[f].sequence_number);
    law_too_far_ahead_in_numbers(state.entries[f].sequence_number, number, capacity);
}

/// A packet that is too far ahead of every packet that is buffered clears the
/// buffer, though they are played in a circle.
pub proof fn law_packets_ahead_of_all_restart<P: Packet>(state: BufferState<P>, capacity: int)
    requires
        state.queued is Some,
        0 < capacity <= u8::MAX,
        state.entries.len() > 0,
        state.last matches Some(last) ==> last.sequence_number.precedes(
            SequenceNumber(state.queued->0.number()),
        ),
        forall|i: int|
            0 <= i < state.entries.len() ==> too_far_ahead(
                (#[trigger] state.entries[i]).sequence_number,
                SequenceNumber(state.queued->0.number()),
                capacity,
            ),
    ensures
        state.flush_outcome(capacity) == Flush::Restarted,
{
    let number = SequenceNumber(state.queued->0.number());
    assert forall|i: int| 0 <= i < state.entries.len() implies (
    #[trigger] state.entries[i]).sequence_number.0 != number.0 by {
        law_too_far_ahead_in_numbers(state.entries[i].sequence_number, number, capacity);
    }
    law_what_becomes_of_a_packet(state, capacity);
    let k = lemma_foremost_is_there(state.entries, state.entries.len() as int);
    assert(too_far_ahead(state.entries[k].sequence_number, number, capacity));
}

/// What a packet changes, for each thing that can become of it. Where it is
/// discarded nothing changes but that it is not queued. Where it is buffered it
/// joins the others, takes the place of the root of the heap, or is left alone in
/// a buffer that has played nothing.
pub proof fn law_what_a_packet_changes<P: Packet>(state: BufferState<P>, capacity: int)
    requires
        state.queued is Some,
        capacity > 0,
    ensures
        ({
            let outcome = state.flush_outcome(capacity);
            let next = state.flushed(capacity);
            let packet = JitterPacket {
                raw: state.queued,
                sequence_number: SequenceNumber(state.queued->0.number()),
                yielded_at: None,
            };
            &&& next.queued is None
            &&& next.delayed == state.delayed
            &&& next.sample_rate == state.sample_rate
            &&& next.channels == state.channels
            &&& outcome == Flush::Restarted ==> next.last is None
            &&& outcome != Flush::Restarted ==> next.last == state.last
            &&& outcome == Flush::Stale || outcome == Flush::Duplicate ==> next.entries
                == state.entries
            &&& outcome == Flush::Stored ==> next.entries.len() == state.entries.len() + 1
                && next.entries.to_multiset() == state.entries.to_multiset().insert(packet)
            &&& outcome == Flush::Replaced ==> next.entries.len() == state.entries.len()
                && next.entries.to_multiset().insert(state.entries[0])
                == state.entries.to_multiset().insert(packet)
            &&& outcome == Flush::Restarted ==> next.entries == seq![packet]
        }),
{
    let packet = JitterPacket::received(state.queued->0);
    law_what_becomes_of_a_packet(state, capacity);
    law_push_adds_the_packet(state.entries, packet);
    assert(Entries::<P>::empty().push(packet) =~= seq![packet]);
    if state.entries.len() > 0 {
        law_replace_exchanges_the_root(state.entries, packet);
    }
}

/// The producer has to wait if and only if its packet is still queued, and the
/// consumer is woken if and only if the packets that are buffered are others than
/// before.
pub proof fn law_both_sides_are_told<P: Packet>(state: BufferState<P>, capacity: int)
    ensures
        state.flush_outcome(capacity).pending() <==> state.flushed(capacity).queued is Some,
        state.flush_outcome(capacity).wakes() <==> state.flushed(capacity).entries
            != state.entries,
{
    law_flush_needs_a_packet_and_room(state, capacity);
    if state.queued is Some && capacity > 0 {
        let packet = JitterPacket {
            raw: state.queued,
            sequence_number: SequenceNumber(state.queued->0.number()),
            yielded_at: None,
        };
        let next = state.flushed(capacity);
        law_what_becomes_of_a_packet(state, capacity);
        law_what_a_packet_changes(state, capacity);
        if state.flush_outcome(capacity).wakes() && next.entries == state.entries {
            broadcast use vstd::seq_lib::group_to_multiset_ensures;
            broadcast use vstd::multiset::group_multiset_axioms;

            if state.flush_outcome(capacity) == Flush::Replaced {
                assert(next.entries.to_multiset().insert(state.entries[0]).count(packet) > 0);
                assert(next.entries.to_multiset().count(packet) > 0 || packet == state.entries[0]);
                assert(state.entries.contains(packet));
            } else if state.flush_outcome(capacity) == Flush::Restarted {
                assert(state.entries[0] == packet);
            }
            let i = choose|i: int| 0 <= i < state.entries.len() && state.entries[i] == packet;
            assert(state.entries[i].sequence_number.0 == packet.sequence_number.0);
        }
    }
}

/// The packet that makes room in a full buffer is one that no other comes before:
/// before the first packet was played, and as long as the buffer is in step.
pub proof fn law_the_first_packet_makes_room<P: Packet>(
    state: BufferState<P>,
    capacity: int,
    i: int,
)
    requires
        0 <= i < state.entries.len(),
        in_step(state) || (state.valid(capacity) && state.last is None && linear_window(
            state.entries,
        )),
    ensures
        !state.entries[i].sequence_number.precedes(state.entries[0].sequence_number),
{
    if !in_step(state) {
        law_valid_is_in_step(state, capacity);
    }
    law_root_is_played_first(state.entries, i);
}

} // verus!
