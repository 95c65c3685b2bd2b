//! What holds of the jitter buffer over its steps: what comes out is in order,
//! nothing that is buffered is passed over, and nothing that was played or is
//! buffered gets in again.

use crate::heap::{
    all_received, distinct, has_number, heap_ordered, linear_window, popped, pushed, replaced,
    Entries,
};
use crate::heap_laws::{
    law_greatest_is_root, law_pop_keeps_distinct, law_pop_keeps_order, law_pop_removes_the_root,
    law_push_adds_the_packet, law_push_keeps_distinct, law_push_keeps_order,
    law_replace_exchanges_the_root, law_replace_keeps_distinct, law_replaced_is_in_order,
    law_root_is_played_first, lemma_linear_before_push, lemma_popped_entry, lemma_popped_number,
    lemma_pushed_entry, lemma_replaced_entry,
};
use crate::packet::{JitterPacket, Packet};
use crate::sequence::{law_beyond_next, law_nothing_between, law_trichotomy, SequenceNumber};
use crate::state::{late_for, slot_output, slot_rest, too_far_ahead, BufferState, Flush};
use vstd::prelude::*;

verus! {

/// Whether all entries are played after `last`.
pub open spec fn all_after<P: Packet>(s: Entries<P>, last: SequenceNumber) -> bool {
    forall|i: int| 0 <= i < s.len() ==> last.precedes((#[trigger] s[i]).sequence_number)
}

/// Whether the heap is in order, and everything in it is played after what was
/// played last.
pub open spec fn in_step<P: Packet>(state: BufferState<P>) -> bool {
    &&& heap_ordered(state.entries)
    &&& linear_window(state.entries)
    &&& state.last matches Some(last) ==> all_after(state.entries, last.sequence_number)
}

/// The number that is due in slot `k` after `last` was played.
pub open spec fn slot_number(last: SequenceNumber, k: int) -> SequenceNumber {
    last.plus(k + 1)
}

/// What is played in the next `n` slots, from the number `due` on, when nothing
/// more is received. It ends with the last packet.
pub open spec fn playout<P: Packet>(s: Entries<P>, due: SequenceNumber, n: nat) -> Seq<Option<P>>
    decreases n,
{
    if n == 0 || s.len() == 0 {
        Seq::empty()
    } else {
        seq![slot_output(s, due)] + playout(slot_rest(s, due), due.next(), (n - 1) as nat)
    }
}

/// A buffer that nothing was sent to is in step.
pub proof fn law_fresh_is_in_step<P: Packet>(sample_rate: usize, channels: usize)
    ensures
        in_step(BufferState::<P>::fresh(sample_rate, channels)),
{
}

/// Entries within ten numbers in a row do not run in a circle, wherever the row
/// starts.
pub proof fn law_short_window_is_linear<P: Packet>(s: Entries<P>, start: SequenceNumber)
    requires
        forall|i: int|
            0 <= i < s.len() ==> exists|d: int|
                0 <= d < 10 && (#[trigger] s[i]).sequence_number == #[trigger] start.plus(d),
    ensures
        linear_window(s),
{
    if start.before_wrap() {
        assert forall|i: int| 0 <= i < s.len() implies (
        #[trigger] s[i]).sequence_number.before_wrap() || s[i].sequence_number.after_wrap() by {
            let d = choose|d: int|
                0 <= d < 10 && s[i].sequence_number == #[trigger] start.plus(d);
        }
    } else if start.after_wrap() {
        assert forall|i: int| 0 <= i < s.len() implies !(
        #[trigger] s[i]).sequence_number.before_wrap() by {
            let d = choose|d: int|
                0 <= d < 10 && s[i].sequence_number == #[trigger] start.plus(d);
        }
    } else {
        assert forall|i: int| 0 <= i < s.len() implies !(
        #[trigger] s[i]).sequence_number.after_wrap() by {
            let d = choose|d: int|
                0 <= d < 10 && s[i].sequence_number == #[trigger] start.plus(d);
        }
    }
}

/// A packet that was sent again after it was played, or after a later one was,
/// does not get into the buffer.
pub proof fn law_played_packets_are_discarded<P: Packet>(state: BufferState<P>, capacity: int)
    requires
        state.queued is Some,
        state.last is Some,
        !state.last->0.sequence_number.precedes(SequenceNumber(state.queued->0.number())),
    ensures
        state.flushed(capacity).entries == state.entries,
        capacity > 0 ==> state.flush_outcome(capacity) == Flush::Stale,
        capacity > 0 ==> state.flushed(capacity).queued is None,
{
}

/// A packet that was played in one of the last ten slots does not get into the
/// buffer again, across the wrap neither.
pub proof fn law_replays_are_discarded<P: Packet>(state: BufferState<P>, capacity: int, k: int)
    requires
        state.queued is Some,
        state.last is Some,
        0 <= k < 10,
        state.last->0.sequence_number == SequenceNumber(state.queued->0.number()).plus(k),
    ensures
        state.flushed(capacity).entries == state.entries,
        capacity > 0 ==> state.flush_outcome(capacity) == Flush::Stale,
{
    law_played_packets_are_discarded(state, capacity);
}

/// A packet that is buffered and is sent again does not get into the buffer.
pub proof fn law_duplicates_are_discarded<P: Packet>(state: BufferState<P>, capacity: int)
    requires
        state.queued is Some,
        has_number(state.entries, SequenceNumber(state.queued->0.number())),
    ensures
        state.flushed(capacity).entries == state.entries,
        capacity > 0 ==> state.flushed(capacity).queued is None,
{
}

/// A packet that is stored is in the buffer after it, beside all that was there.
pub proof fn law_stored_packets_are_buffered<P: Packet>(state: BufferState<P>, capacity: int)
    requires
        state.flush_outcome(capacity) == Flush::Stored,
    ensures
        state.flushed(capacity).entries.len() == state.entries.len() + 1,
        state.flushed(capacity).entries.to_multiset() == state.entries.to_multiset().insert(
            JitterPacket::received(state.queued->0),
        ),
{
    law_push_adds_the_packet(state.entries, JitterPacket::received(state.queued->0));
}

/// A packet too far ahead is the only one in the buffer after it, and the first
/// to be played.
pub proof fn law_restart_keeps_only_the_packet<P: Packet>(state: BufferState<P>, capacity: int)
    requires
        state.flush_outcome(capacity) == Flush::Restarted,
    ensures
        state.flushed(capacity).entries == seq![JitterPacket::received(state.queued->0)],
        state.flushed(capacity).last is None,
        in_step(state.flushed(capacity)),
{
    let entries = state.flushed(capacity).entries;
    assert(entries =~= seq![JitterPacket::received(state.queued->0)]);
}

/// In a buffer that is in step, everything is discarded for a packet just where it
/// is too far ahead of the packet to be played next.
pub proof fn law_too_far_ahead<P: Packet>(state: BufferState<P>, capacity: int)
    requires
        in_step(state),
        state.queued is Some,
        state.entries.len() > 0,
    ensures
        ({
            let number = SequenceNumber(state.queued->0.number());
            state.flush_outcome(capacity) == Flush::Restarted <==> {
                &&& capacity > 0
                &&& state.last is None || state.last->0.sequence_number.precedes(number)
                &&& !has_number(state.entries, number)
                &&& too_far_ahead(state.entries[0].sequence_number, number, capacity)
            }
        }),
{
    law_greatest_is_root(state.entries);
}

/// A packet that is late for the one to be played next is not too far ahead.
pub proof fn law_late_packets_are_not_too_far_ahead<P: Packet>(
    state: BufferState<P>,
    capacity: int,
)
    requires
        in_step(state),
        state.queued is Some,
        state.entries.len() > 0,
        late_for(state.entries[0].sequence_number, SequenceNumber(state.queued->0.number())),
    ensures
        state.flush_outcome(capacity) != Flush::Restarted,
{
    law_greatest_is_root(state.entries);
}

/// A packet that lies no more places on than the buffer holds packets is not too
/// far ahead, across the wrap neither.
pub proof fn law_near_packets_are_not_too_far_ahead(
    first: SequenceNumber,
    number: SequenceNumber,
    capacity: int,
)
    requires
        first.places_to(number) <= capacity,
    ensures
        !too_far_ahead(first, number, capacity),
{
}

/// In a full buffer the first packet makes room: it is discarded, the packet that
/// was sent is buffered, and all others stay.
pub proof fn law_a_full_buffer_discards_the_first<P: Packet>(state: BufferState<P>, capacity: int)
    requires
        state.flush_outcome(capacity) == Flush::Replaced,
    ensures
        state.flushed(capacity).entries.len() == state.entries.len(),
        state.flushed(capacity).entries.contains(JitterPacket::received(state.queued->0)),
        state.flushed(capacity).entries.to_multiset().insert(state.entries[0])
            == state.entries.to_multiset().insert(JitterPacket::received(state.queued->0)),
        state.flushed(capacity).queued is None,
{
    broadcast use vstd::multiset::group_multiset_axioms;
    broadcast use vstd::seq_lib::group_to_multiset_ensures;

    let packet = JitterPacket::received(state.queued->0);
    let rest = state.entries.drop_first();
    law_replace_exchanges_the_root(state.entries, packet);
    law_push_adds_the_packet(crate::heap::rebuilt(rest), packet);
    assert(replaced(state.entries, packet).to_multiset().count(packet) > 0);
}

/// A packet that is sent is dealt with at once, unless the buffer has no room for
/// any: where it is neither discarded as played nor as a duplicate, it is buffered.
pub proof fn law_sent_packets_are_dealt_with<P: Packet>(state: BufferState<P>, capacity: int)
    requires
        state.queued is Some,
        capacity > 0,
    ensures
        state.flushed(capacity).queued is None,
        state.flush_outcome(capacity) == Flush::Stale || state.flush_outcome(capacity)
            == Flush::Duplicate || state.flushed(capacity).entries.contains(
            JitterPacket::received(state.queued->0),
        ),
{
    broadcast use vstd::multiset::group_multiset_axioms;
    broadcast use vstd::seq_lib::group_to_multiset_ensures;

    let packet = JitterPacket::received(state.queued->0);
    if state.flush_outcome(capacity) == Flush::Stored {
        law_push_adds_the_packet(state.entries, packet);
        assert(pushed(state.entries, packet).to_multiset().count(packet) > 0);
    } else if state.flush_outcome(capacity) == Flush::Restarted {
        law_restart_keeps_only_the_packet(state, capacity);
        assert(state.flushed(capacity).entries[0] == packet);
    } else if state.flush_outcome(capacity) == Flush::Replaced {
        law_a_full_buffer_discards_the_first(state, capacity);
    }
}

/// What holds of every buffer holds after a flush.
pub proof fn law_flush_keeps_valid<P: Packet>(state: BufferState<P>, capacity: int)
    requires
        state.valid(capacity),
    ensures
        state.flushed(capacity).valid(capacity),
{
    let s = state.entries;
    let packet = JitterPacket::received(state.queued->0);
    let t = state.flushed(capacity).entries;
    if state.flush_outcome(capacity) == Flush::Stored {
        law_push_adds_the_packet(s, packet);
        law_push_keeps_distinct(s, packet);
        assert forall|i: int| 0 <= i < t.len() implies (#[trigger] t[i]).is_received() by {
            lemma_pushed_entry(s, packet, i);
        }
        if state.last is None && linear_window(t) {
            lemma_linear_before_push(s, packet);
            law_push_keeps_order(s, packet);
        }
    } else if state.flush_outcome(capacity) == Flush::Replaced {
        law_replace_exchanges_the_root(s, packet);
        law_replace_keeps_distinct(s, packet);
        assert forall|i: int| 0 <= i < t.len() implies (#[trigger] t[i]).is_received() by {
            lemma_replaced_entry(s, packet, i);
        }
        if linear_window(t) {
            law_replaced_is_in_order(s, packet);
        }
    } else if state.flush_outcome(capacity) == Flush::Restarted {
        law_restart_keeps_only_the_packet(state, capacity);
    }
}

/// What holds of every buffer holds after the first packet was played.
pub proof fn law_first_packet_keeps_valid<P: Packet>(
    state: BufferState<P>,
    next: BufferState<P>,
    capacity: int,
    now: i128,
)
    requires
        state.valid(capacity),
        state.entries.len() > 0,
        state.plays_first(next, now),
    ensures
        next.valid(capacity),
{
    lemma_popped_is_valid(state.entries);
}

/// What holds of every buffer holds after the packet that is due was played, or
/// passed over.
pub proof fn law_due_packet_keeps_valid<P: Packet>(
    state: BufferState<P>,
    next: BufferState<P>,
    capacity: int,
    now: i128,
)
    requires
        state.valid(capacity),
        state.entries.len() > 0,
        state.plays_due(next, now),
    ensures
        next.valid(capacity),
{
    lemma_popped_is_valid(state.entries);
}

proof fn lemma_popped_is_valid<P: Packet>(s: Entries<P>)
    requires
        s.len() > 0,
        distinct(s),
        all_received(s),
    ensures
        popped(s).len() == s.len() - 1,
        distinct(popped(s)),
        all_received(popped(s)),
{
    law_pop_removes_the_root(s);
    law_pop_keeps_distinct(s);
    assert forall|i: int| 0 <= i < popped(s).len() implies (#[trigger] popped(s)[i]).is_received() by {
        lemma_popped_entry(s, i);
    }
}

proof fn lemma_popped_has<P: Packet>(s: Entries<P>, i: int)
    requires
        0 <= i < s.len(),
        s[i] != s[0],
    ensures
        popped(s).contains(s[i]),
{
    broadcast use vstd::multiset::group_multiset_axioms;
    broadcast use vstd::seq_lib::group_to_multiset_ensures;

    law_pop_removes_the_root(s);
    assert(s.contains(s[i]));
    assert(s.to_multiset().count(s[i]) > 0);
    assert(popped(s).to_multiset().count(s[i]) > 0);
}

/// Where everything follows one number, or has it, the order does not run in a
/// circle.
proof fn lemma_linear_from<P: Packet>(s: Entries<P>, start: SequenceNumber)
    requires
        forall|i: int|
            0 <= i < s.len() ==> (#[trigger] s[i]).sequence_number == start || start.precedes(
                s[i].sequence_number,
            ),
    ensures
        linear_window(s),
{
    if start.before_wrap() {
        assert forall|i: int| 0 <= i < s.len() implies (
        #[trigger] s[i]).sequence_number.before_wrap() || s[i].sequence_number.after_wrap() by {}
    } else if start.after_wrap() {
        assert forall|i: int| 0 <= i < s.len() implies !(
        #[trigger] s[i]).sequence_number.before_wrap() by {}
    } else {
        assert forall|i: int| 0 <= i < s.len() implies !(
        #[trigger] s[i]).sequence_number.after_wrap() by {}
    }
}

/// A buffer from which nothing was played is in step, unless the order of playback
/// runs in a circle on what is buffered.
pub proof fn law_valid_is_in_step<P: Packet>(state: BufferState<P>, capacity: int)
    requires
        state.valid(capacity),
        state.last is None,
        linear_window(state.entries),
    ensures
        in_step(state),
{
}

/// To flush the queued packet keeps the buffer in step. Before the first packet is
/// played, this is so as long as the order of playback does not run in a circle on
/// what is buffered then.
pub proof fn law_flush_keeps_step<P: Packet>(state: BufferState<P>, capacity: int)
    requires
        in_step(state),
        state.last is None ==> linear_window(state.flushed(capacity).entries),
    ensures
        in_step(state.flushed(capacity)),
{
    let outcome = state.flush_outcome(capacity);
    let packet = JitterPacket::received(state.queued->0);
    let s = state.entries;
    let t = state.flushed(capacity).entries;
    if outcome == Flush::Stored || outcome == Flush::Replaced {
        if outcome == Flush::Stored {
            law_push_adds_the_packet(s, packet);
        } else {
            law_replace_exchanges_the_root(s, packet);
        }
        if state.last is Some {
            let last = state.last->0.sequence_number;
            assert forall|i: int| 0 <= i < t.len() implies last.precedes(
                (#[trigger] t[i]).sequence_number,
            ) by {
                if outcome == Flush::Stored {
                    lemma_pushed_entry(s, packet, i);
                } else {
                    lemma_replaced_entry(s, packet, i);
                }
            }
            lemma_linear_from(t, last);
        }
        if outcome == Flush::Stored {
            lemma_linear_before_push(s, packet);
            law_push_keeps_order(s, packet);
        } else {
            law_replaced_is_in_order(s, packet);
        }
    } else if outcome == Flush::Restarted {
        law_restart_keeps_only_the_packet(state, capacity);
    }
}

/// The first packet to be played is the one that comes before all others in the
/// buffer.
pub proof fn law_first_packet_is_foremost<P: Packet>(state: BufferState<P>, i: int)
    requires
        in_step(state),
        distinct(state.entries),
        0 < i < state.entries.len(),
    ensures
        state.entries[0].precedes(state.entries[i]),
{
    law_root_is_played_first(state.entries, i);
    law_trichotomy(state.entries[0].sequence_number, state.entries[i].sequence_number);
}

/// To play the first packet keeps the buffer in step.
pub proof fn law_first_packet_keeps_step<P: Packet>(
    state: BufferState<P>,
    next: BufferState<P>,
    now: i128,
)
    requires
        in_step(state),
        distinct(state.entries),
        state.entries.len() > 0,
        state.plays_first(next, now),
    ensures
        in_step(next),
{
    let s = state.entries;
    law_pop_keeps_order(s);
    law_pop_removes_the_root(s);
    assert forall|i: int| 0 <= i < popped(s).len() implies s[0].sequence_number.precedes(
        (#[trigger] popped(s)[i]).sequence_number,
    ) by {
        lemma_popped_entry(s, i);
        lemma_popped_number(s, i);
        let j = choose|j: int| 0 <= j < s.len() && s[j] == popped(s)[i];
        law_first_packet_is_foremost(state, j);
    }
}

proof fn lemma_slot<P: Packet>(s: Entries<P>, last: SequenceNumber)
    requires
        heap_ordered(s),
        linear_window(s),
        distinct(s),
        all_received(s),
        all_after(s, last),
        s.len() > 0,
    ensures
        has_number(s, last.next()) <==> s[0].sequence_number == last.next(),
        heap_ordered(slot_rest(s, last.next())),
        linear_window(slot_rest(s, last.next())),
        distinct(slot_rest(s, last.next())),
        all_received(slot_rest(s, last.next())),
        all_after(slot_rest(s, last.next()), last.next()),
        forall|i: int|
            0 <= i < s.len() && (#[trigger] s[i]).sequence_number != last.next() ==> slot_rest(
                s,
                last.next(),
            ).contains(s[i]),
        forall|i: int|
            0 <= i < slot_rest(s, last.next()).len() ==> s.contains(
                #[trigger] slot_rest(s, last.next())[i],
            ),
{
    let due = last.next();
    let rest = slot_rest(s, due);
    if has_number(s, due) && s[0].sequence_number != due {
        let i = choose|i: int| 0 <= i < s.len() && (#[trigger] s[i]).sequence_number == due;
        law_root_is_played_first(s, i);
        law_trichotomy(s[0].sequence_number, s[i].sequence_number);
        law_nothing_between(last, s[0].sequence_number);
    }
    if s[0].sequence_number == due {
        law_pop_keeps_order(s);
        law_pop_keeps_distinct(s);
        law_pop_removes_the_root(s);
        assert forall|i: int| 0 <= i < rest.len() implies s.contains(#[trigger] rest[i]) by {
            lemma_popped_entry(s, i);
        }
        assert forall|i: int| 0 <= i < s.len() && (#[trigger] s[i]).sequence_number
            != due implies rest.contains(s[i]) by {
            lemma_popped_has(s, i);
        }
    }
    assert forall|i: int| 0 <= i < rest.len() implies due.precedes(
        (#[trigger] rest[i]).sequence_number,
    ) by {
        assert(s.contains(rest[i]));
        let j = choose|j: int| 0 <= j < s.len() && s[j] == rest[i];
        if s[0].sequence_number == due {
            lemma_popped_number(s, i);
        } else {
            assert(s[j].sequence_number != due);
        }
        law_beyond_next(last, s[j].sequence_number);
    }
}

/// To play the packet that is due, or to pass it over, keeps the buffer in step.
pub proof fn law_due_packet_keeps_step<P: Packet>(
    state: BufferState<P>,
    next: BufferState<P>,
    capacity: int,
    now: i128,
)
    requires
        in_step(state),
        state.valid(capacity),
        state.last is Some,
        state.entries.len() > 0,
        state.plays_due(next, now),
    ensures
        in_step(next),
{
    lemma_slot(state.entries, state.last->0.sequence_number);
}

/// The number that is due is passed over only where no packet with that number is
/// buffered. Where one is, it is played.
pub proof fn law_due_packet_is_played<P: Packet>(state: BufferState<P>, capacity: int)
    requires
        in_step(state),
        state.valid(capacity),
        state.last is Some,
        state.entries.len() > 0,
    ensures
        slot_output(state.entries, state.due()) is None <==> !has_number(
            state.entries,
            state.due(),
        ),
        slot_output(state.entries, state.due()) matches Some(packet) ==> packet.number()
            == state.due().0,
{
    lemma_slot(state.entries, state.last->0.sequence_number);
    assert(state.entries[0].is_received());
}

proof fn lemma_playout_len<P: Packet>(s: Entries<P>, due: SequenceNumber, n: nat)
    ensures
        playout(s, due, n).len() <= n,
    decreases n,
{
    if n > 0 && s.len() > 0 {
        lemma_playout_len(slot_rest(s, due), due.next(), (n - 1) as nat);
    }
}

proof fn lemma_playout<P: Packet>(s: Entries<P>, last: SequenceNumber, n: nat)
    requires
        heap_ordered(s),
        linear_window(s),
        distinct(s),
        all_received(s),
        all_after(s, last),
        n <= u16::MAX,
    ensures
        forall|k: int, i: int|
            0 <= k < n && 0 <= i < s.len() && (#[trigger] s[i]).sequence_number
                == #[trigger] slot_number(last, k) ==> k < playout(s, last.next(), n).len()
                && playout(s, last.next(), n)[k] == s[i].raw,
        forall|k: int|
            0 <= k < playout(s, last.next(), n).len() && (#[trigger] playout(s, last.next(), n)[k])
                is Some ==> has_number(s, slot_number(last, k)),
    decreases n,
{
    let due = last.next();
    let out = playout(s, due, n);
    if n > 0 && s.len() > 0 {
        lemma_slot(s, last);
        let rest = slot_rest(s, due);
        let m = (n - 1) as nat;
        let later = playout(rest, due.next(), m);
        lemma_playout(rest, due, m);
        lemma_playout_len(rest, due.next(), m);
        assert(out =~= seq![slot_output(s, due)] + later);
        assert forall|k: int, i: int|
            0 <= k < n && 0 <= i < s.len() && (#[trigger] s[i]).sequence_number
                == #[trigger] slot_number(last, k) implies k < out.len() && out[k] == s[i].raw by {
            if k == 0 {
                assert(has_number(s, due));
                assert(s[0].sequence_number == s[i].sequence_number);
                assert(i == 0);
            } else {
                assert(slot_number(due, k - 1) == slot_number(last, k));
                assert(s[i].sequence_number != due);
                assert(rest.contains(s[i]));
                let j = choose|j: int| 0 <= j < rest.len() && rest[j] == s[i];
                assert(later[k - 1] == rest[j].raw);
                assert(out[k] == later[k - 1]);
            }
        }
        assert forall|k: int| 0 <= k < out.len() && (#[trigger] out[k]) is Some implies has_number(
            s,
            slot_number(last, k),
        ) by {
            if k > 0 {
                assert(out[k] == later[k - 1]);
                assert(slot_number(due, k - 1) == slot_number(last, k));
                let j = choose|j: int|
                    0 <= j < rest.len() && (#[trigger] rest[j]).sequence_number == slot_number(
                        last,
                        k,
                    );
                assert(s.contains(rest[j]));
            }
        }
    }
}

/// After a packet was played, the slots that follow play the buffered packets
/// each in the slot of its own number, whatever order they were received in, and
/// play nothing in the slots of the numbers that were lost. This holds for as
/// long as numbers do not come round again.
pub proof fn law_playout<P: Packet>(state: BufferState<P>, capacity: int, n: nat)
    requires
        in_step(state),
        state.valid(capacity),
        state.last is Some,
        n <= u16::MAX,
    ensures
        ({
            let last = state.last->0.sequence_number;
            let out = playout(state.entries, state.due(), n);
            &&& forall|k: int, i: int|
                0 <= k < n && 0 <= i < state.entries.len() && (
                #[trigger] state.entries[i]).sequence_number == #[trigger] slot_number(last, k) ==> k
                    < out.len() && out[k] == state.entries[i].raw
            &&& forall|k: int|
                0 <= k < out.len() && (#[trigger] out[k]) is Some ==> has_number(
                    state.entries,
                    slot_number(last, k),
                )
        }),
{
    lemma_playout(state.entries, state.last->0.sequence_number, n);
}

/// Each slot plays what comes first in the playout, and leaves the rest of it.
pub proof fn law_slots_follow_the_playout<P: Packet>(
    state: BufferState<P>,
    next: BufferState<P>,
    n: nat,
    now: i128,
)
    requires
        state.entries.len() > 0,
        state.plays_due(next, now),
        n > 0,
    ensures
        playout(state.entries, state.due(), n) == seq![slot_output(state.entries, state.due())]
            + playout(next.entries, next.due(), (n - 1) as nat),
{
}

/// One playout is no longer than the other of the same packets, and agrees with
/// it.
proof fn lemma_playouts_agree<P: Packet>(
    s: Entries<P>,
    t: Entries<P>,
    last: SequenceNumber,
    n: nat,
)
    requires
        heap_ordered(s),
        linear_window(s),
        distinct(s),
        all_received(s),
        all_after(s, last),
        heap_ordered(t),
        linear_window(t),
        distinct(t),
        all_received(t),
        all_after(t, last),
        s.to_multiset() == t.to_multiset(),
    ensures
        playout(s, last.next(), n).len() <= playout(t, last.next(), n).len(),
        forall|k: int|
            0 <= k < playout(s, last.next(), n).len() ==> #[trigger] playout(s, last.next(), n)[k]
                == playout(t, last.next(), n)[k],
    decreases n,
{
    broadcast use vstd::multiset::group_multiset_axioms;
    broadcast use vstd::seq_lib::group_to_multiset_ensures;

    if n > 0 && s.len() > 0 {
        let due = last.next();
        vstd::seq_lib::to_multiset_len(s);
        vstd::seq_lib::to_multiset_len(t);
        lemma_slot(s, last);
        lemma_slot(t, last);
        assert forall|i: int| 0 <= i < s.len() implies t.contains(#[trigger] s[i]) by {
            assert(s.contains(s[i]));
            assert(s.to_multiset().count(s[i]) > 0);
        }
        assert forall|i: int| 0 <= i < t.len() implies s.contains(#[trigger] t[i]) by {
            assert(t.contains(t[i]));
            assert(t.to_multiset().count(t[i]) > 0);
        }
        if s[0].sequence_number == due {
            let j = choose|j: int| 0 <= j < t.len() && t[j] == s[0];
            assert(has_number(t, due));
            assert(j == 0);
            law_pop_removes_the_root(s);
            law_pop_removes_the_root(t);
            assert(popped(s).to_multiset() =~= popped(t).to_multiset()) by {
                assert(popped(s).to_multiset() =~= s.to_multiset().remove(s[0]));
                assert(popped(t).to_multiset() =~= t.to_multiset().remove(t[0]));
            }
        } else if t[0].sequence_number == due {
            let j = choose|j: int| 0 <= j < s.len() && s[j] == t[0];
            assert(has_number(s, due));
        }
        lemma_playouts_agree(slot_rest(s, due), slot_rest(t, due), due, (n - 1) as nat);
        let out_s = playout(s, due, n);
        let out_t = playout(t, due, n);
        assert forall|k: int| 0 <= k < out_s.len() implies #[trigger] out_s[k] == out_t[k] by {
            if k > 0 {
                assert(out_s[k] == playout(slot_rest(s, due), due.next(), (n - 1) as nat)[k - 1]);
                assert(out_t[k] == playout(slot_rest(t, due), due.next(), (n - 1) as nat)[k - 1]);
            }
        }
    }
}

/// What is played does not depend on the order in which the packets came in: two
/// buffers that hold the same packets after the same number play the same.
pub proof fn law_arrival_order_does_not_matter<P: Packet>(
    a: BufferState<P>,
    b: BufferState<P>,
    capacity: int,
    n: nat,
)
    requires
        in_step(a),
        in_step(b),
        a.valid(capacity),
        b.valid(capacity),
        a.last is Some,
        b.last is Some,
        a.last->0.sequence_number == b.last->0.sequence_number,
        a.entries.to_multiset() == b.entries.to_multiset(),
    ensures
        playout(a.entries, a.due(), n) == playout(b.entries, b.due(), n),
{
    let last = a.last->0.sequence_number;
    lemma_playouts_agree(a.entries, b.entries, last, n);
    lemma_playouts_agree(b.entries, a.entries, last, n);
    assert(playout(a.entries, a.due(), n) =~= playout(b.entries, b.due(), n));
}

/// A packet that is played leaves the buffer, and all others stay.
pub proof fn law_played_packets_leave<P: Packet>(
    state: BufferState<P>,
    next: BufferState<P>,
    now: i128,
)
    requires
        state.entries.len() > 0,
        state.plays_first(next, now) || (state.plays_due(next, now)
            && state.entries[0].sequence_number == state.due()),
    ensures
        next.entries.len() == state.entries.len() - 1,
        next.entries.to_multiset().insert(state.entries[0]) == state.entries.to_multiset(),
{
    law_pop_removes_the_root(state.entries);
}

/// A delay lasts until the last packet has played for its time, counted from when
/// it was handed out, and is over at once where that has passed.
pub proof fn law_delay_lasts_for_the_playback<P: Packet>(
    state: BufferState<P>,
    playback: nat,
    now: int,
)
    requires
        state.last is Some,
        state.last->0.yielded_at is Some,
        state.last->0.yielded_at->0 <= now,
    ensures
        ({
            let end = state.last->0.yielded_at->0 + playback * 1_000_000;
            let remaining = state.remaining_delay(playback as int, now);
            &&& now <= end ==> now + remaining == end
            &&& now >= end ==> remaining == 0
        }),
{
}

/// A step of the producer or of the consumer, after the first packet was played.
pub enum Step<P> {
    /// The packet is sent, when none is queued.
    Send(P),
    /// The queued packet is dealt with, and the buffer is not cleared for it.
    Flush,
    /// The consumer has to wait.
    Wait,
    /// The consumer starts a delay.
    StartDelay,
    /// The delay is over at `now`, and `output` is played.
    Slot { output: Option<P>, now: i128 },
}

/// Whether `next` is the state after `step`.
pub open spec fn takes<P: Packet>(
    state: BufferState<P>,
    step: Step<P>,
    next: BufferState<P>,
    capacity: int,
) -> bool {
    match step {
        Step::Send(packet) => state.queued is None && next == (BufferState {
            queued: Some(packet),
            ..state
        }),
        Step::Flush => state.flush_outcome(capacity) != Flush::Restarted && next == state.flushed(
            capacity,
        ),
        Step::Wait => next == state,
        Step::StartDelay => next == (BufferState { delayed: true, ..state }),
        Step::Slot { output, now } => {
            &&& state.delayed
            &&& state.entries.len() > 0
            &&& output == slot_output(state.entries, state.due())
            &&& state.plays_due(next, now)
        },
    }
}

/// Whether the steps lead from each state to the next.
pub open spec fn is_run<P: Packet>(
    states: Seq<BufferState<P>>,
    steps: Seq<Step<P>>,
    capacity: int,
) -> bool {
    &&& states.len() == steps.len() + 1
    &&& forall|j: int|
        0 <= j < steps.len() ==> takes(states[j], #[trigger] steps[j], states[j + 1], capacity)
}

/// How many of the first `n` steps are slots.
pub open spec fn count_slots<P: Packet>(steps: Seq<Step<P>>, n: int) -> int
    decreases n,
{
    if n <= 0 {
        0
    } else {
        count_slots(steps, n - 1) + if steps[n - 1] is Slot {
            1int
        } else {
            0
        }
    }
}

proof fn lemma_first_packet_starts_in_step<P: Packet>(
    start: BufferState<P>,
    next: BufferState<P>,
    capacity: int,
    now: i128,
)
    requires
        start.valid(capacity),
        start.last is None,
        start.entries.len() > 0,
        start.plays_first(next, now),
        all_after(next.entries, start.entries[0].sequence_number),
    ensures
        in_step(next),
{
    let s = start.entries;
    let number = s[0].sequence_number;
    assert forall|i: int| 0 <= i < s.len() implies (#[trigger] s[i]).sequence_number == number
        || number.precedes(s[i].sequence_number) by {
        if s[i] != s[0] {
            lemma_popped_has(s, i);
            let j = choose|j: int| 0 <= j < popped(s).len() && popped(s)[j] == s[i];
            assert(number.precedes(next.entries[j].sequence_number));
        }
    }
    lemma_linear_from(s, number);
    law_pop_keeps_order(s);
}

proof fn lemma_run<P: Packet>(
    start: BufferState<P>,
    states: Seq<BufferState<P>>,
    steps: Seq<Step<P>>,
    capacity: int,
    now: i128,
    n: int,
)
    requires
        start.valid(capacity),
        start.last is None,
        start.entries.len() > 0,
        start.plays_first(states[0], now),
        all_after(states[0].entries, start.entries[0].sequence_number),
        is_run(states, steps, capacity),
        0 <= n <= steps.len(),
    ensures
        states[n].valid(capacity),
        in_step(states[n]),
        states[n].last is Some,
        states[n].last->0.sequence_number == start.entries[0].sequence_number.plus(
            count_slots(steps, n),
        ),
        count_slots(steps, n) >= 0,
    decreases n,
{
    if n == 0 {
        law_first_packet_keeps_valid(start, states[0], capacity, now);
        lemma_first_packet_starts_in_step(start, states[0], capacity, now);
    } else {
        lemma_run(start, states, steps, capacity, now, n - 1);
        let (state, step, next) = (states[n - 1], steps[n - 1], states[n]);
        assert(takes(state, step, next, capacity));
        match step {
            Step::Flush => {
                law_flush_keeps_valid(state, capacity);
                law_flush_keeps_step(state, capacity);
            },
            Step::Slot { output, now: then } => {
                law_due_packet_keeps_valid(state, next, capacity, then);
                law_due_packet_keeps_step(state, next, capacity, then);
            },
            _ => {},
        }
    }
}

/// After the first packet was played with nothing before it left in the buffer,
/// whatever mix of sends and polls follows, as long as the buffer is not cleared:
/// the slots are for the numbers after the first one, each for the next. A slot
/// plays the packet with its number, and plays nothing just where that number is
/// not buffered then. So no number is played twice, out of order or skipped.
pub proof fn law_every_slot_is_for_the_next_number<P: Packet>(
    start: BufferState<P>,
    states: Seq<BufferState<P>>,
    steps: Seq<Step<P>>,
    capacity: int,
    now: i128,
    j: int,
)
    requires
        start.valid(capacity),
        start.last is None,
        start.entries.len() > 0,
        start.plays_first(states[0], now),
        all_after(states[0].entries, start.entries[0].sequence_number),
        is_run(states, steps, capacity),
        0 <= j < steps.len(),
        steps[j] is Slot,
    ensures
        ({
            let k = count_slots(steps, j + 1);
            let number = start.entries[0].sequence_number.plus(k);
            let output = steps[j]->output;
            &&& output matches Some(packet) ==> packet.number() == number.0
            &&& output is None <==> !has_number(states[j].entries, number)
            &&& states[j + 1].last is Some
            &&& states[j + 1].last->0.sequence_number == number
        }),
{
    lemma_run(start, states, steps, capacity, now, j);
    lemma_run(start, states, steps, capacity, now, j + 1);
    assert(takes(states[j], steps[j], states[j + 1], capacity));
    law_due_packet_is_played(states[j], capacity);
}

} // verus!
