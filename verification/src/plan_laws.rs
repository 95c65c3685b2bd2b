//! What the delay is worked out from, said of the packets that are buffered and of
//! the one that is being played.

use crate::heap::{distinct, linear_window, Entries};
use crate::heap_laws::{law_pop_removes_the_root, law_push_adds_the_packet};
use crate::loss::{law_lost_between_first_and_last, law_lost_packets_are_missing, missing_places};
use crate::packet::{JitterPacket, Packet};
use crate::sequence::law_places_in_numbers;
use crate::state::{samples_of, total_samples, BufferState, Flush};
use vstd::prelude::*;

verus! {

/// In every state of a buffer, the packets lost are the places between the first
/// packet and the last one that no packet takes up. An empty buffer has lost none.
pub proof fn law_lost_packets_in_every_state<P: Packet>(state: BufferState<P>)
    requires
        distinct(state.entries),
    ensures
        state.entries.len() == 0 ==> state.lost() == 0,
        state.entries.len() > 0 ==> missing_places(state.entries).finite() && state.lost()
            == missing_places(state.entries).len(),
        0 <= state.lost() <= u16::MAX,
{
    if state.entries.len() > 0 {
        law_lost_packets_are_missing(state.entries);
    }
}

/// With the packets lost, those that are buffered fill the numbers from the first
/// one to the last one, across the wrap too. No packet comes before the first and
/// none after the last, and they are not played in a circle.
pub proof fn law_lost_packets_fill_the_gaps<P: Packet>(
    state: BufferState<P>,
    first: int,
    last: int,
)
    requires
        linear_window(state.entries),
        0 <= first < state.entries.len(),
        0 <= last < state.entries.len(),
        forall|i: int|
            0 <= i < state.entries.len() ==> !(
            #[trigger] state.entries[i]).sequence_number.precedes(
                state.entries[first].sequence_number,
            ),
        forall|i: int|
            0 <= i < state.entries.len() ==> !state.entries[last].sequence_number.precedes(
                (#[trigger] state.entries[i]).sequence_number,
            ),
    ensures
        ({
            let from = state.entries[first].sequence_number.0;
            let to = state.entries[last].sequence_number.0;
            &&& from <= to ==> state.lost() + state.entries.len() == to - from + 1
            &&& from > to ==> state.lost() + state.entries.len() == to + 65536 - from + 1
        }),
{
    law_lost_between_first_and_last(state.entries, first, last);
    law_places_in_numbers(
        state.entries[first].sequence_number,
        state.entries[last].sequence_number,
        0,
    );
}

/// What was lost is a matter of the packets that are buffered alone: not of what
/// was played, of what is queued, of a delay, of the sample rate or of the channels.
pub proof fn law_only_buffered_packets_count<P: Packet>(a: BufferState<P>, b: BufferState<P>)
    requires
        a.entries == b.entries,
    ensures
        a.lost() == b.lost(),
        a.buffered_samples() == b.buffered_samples(),
{
}

/// The samples that are played are as many as each channel gets whole: the packet
/// has at least that many for every channel, and fewer than one more for every
/// channel. It is the last one that was played, where it was received, else the
/// one at the root of the heap. Where neither is there, there are none.
pub proof fn law_each_channel_gets_its_share<P: Packet>(state: BufferState<P>)
    requires
        state.channels != 0,
    ensures
        state.last is Some && state.last->0.raw is Some ==> {
            &&& state.plan().samples * state.channels <= state.last->0.raw->0.sample_count()
            &&& state.last->0.raw->0.sample_count() < (state.plan().samples + 1) * state.channels
        },
        (state.last is None || state.last->0.raw is None) && state.entries.len() > 0
            && state.entries[0].raw is Some ==> {
            &&& state.plan().samples * state.channels <= state.entries[0].raw->0.sample_count()
            &&& state.entries[0].raw->0.sample_count() < (state.plan().samples + 1)
                * state.channels
        },
        (state.last is None || state.last->0.raw is None) && (state.entries.len() == 0
            || state.entries[0].raw is None) ==> state.plan().samples == 0,
{
    let playing = state.playing_samples() as int;
    let channels = state.channels as int;
    vstd::arithmetic::div_mod::lemma_fundamental_div_mod(playing, channels);
    vstd::arithmetic::div_mod::lemma_mod_bound(playing, channels);
    let share = playing / channels;
    assert(share * channels <= playing < (share + 1) * channels) by (nonlinear_arith)
        requires
            playing == channels * share + playing % channels,
            0 <= playing % channels < channels,
    ;
    if playing == 0 {
        assert(share == 0) by (nonlinear_arith)
            requires
                share * channels <= 0,
                0 < (share + 1) * channels,
                channels > 0,
        ;
    }
}

/// A plan can be made if and only if there is a channel and the samples can be
/// counted. It states the samples and the packets that are buffered, the packets
/// lost among them, and the sample rate that the buffer was made with.
pub proof fn law_plan_states_what_is_buffered<P: Packet>(state: BufferState<P>)
    requires
        distinct(state.entries),
        state.entries.len() <= u8::MAX,
    ensures
        state.plan_fits() <==> state.channels > 0 && state.buffered_samples() <= usize::MAX,
        state.plan_fits() ==> state.plan().buffered_samples == state.buffered_samples(),
        state.plan().sample_rate == state.sample_rate,
        state.plan().loss.buffered == state.entries.len(),
        state.entries.len() == 0 ==> state.plan().loss.lost == 0,
        state.entries.len() > 0 ==> state.plan().loss.lost == missing_places(
            state.entries,
        ).len(),
{
    law_lost_packets_in_every_state(state);
    lemma_totals(state.entries, state.entries, state.entries.len() as int);
}

/// Samples are counted by the packet: those of some packets and of others are
/// together as many as those of all, and a packet alone has its own.
pub proof fn law_samples_add_up<P: Packet>(
    s: Entries<P>,
    t: Entries<P>,
    packet: JitterPacket<P>,
)
    ensures
        total_samples(Entries::<P>::empty(), 0) == 0,
        packet.raw matches Some(raw) ==> total_samples(seq![packet], 1) == raw.sample_count(),
        packet.raw is None ==> total_samples(seq![packet], 1) == 0,
        total_samples(s + t, (s + t).len() as int) == total_samples(s, s.len() as int)
            + total_samples(t, t.len() as int),
    decreases t.len(),
{
    reveal_with_fuel(total_samples, 2);
    if t.len() == 0 {
        assert(s + t =~= s);
    } else {
        law_samples_add_up(s, t.drop_last(), packet);
        lemma_totals(t, t.drop_last(), t.len() - 1);
        lemma_totals(s + t, s + t.drop_last(), s.len() + t.len() - 1);
        assert((s + t)[s.len() + t.len() - 1] == t[t.len() - 1]);
    }
}

/// The count goes by the entries that it covers, and is not negative.
proof fn lemma_totals<P: Packet>(s: Entries<P>, t: Entries<P>, n: int)
    requires
        forall|i: int| 0 <= i < n ==> #[trigger] s[i] == t[i],
    ensures
        total_samples(s, n) == total_samples(t, n),
        0 <= total_samples(s, n),
    decreases n,
{
    if n > 0 {
        lemma_totals(s, t, n - 1);
        assert(s[n - 1] == t[n - 1]);
    }
}

proof fn lemma_total_without<P: Packet>(s: Entries<P>, i: int)
    requires
        0 <= i < s.len(),
    ensures
        total_samples(s, s.len() as int) == total_samples(s.remove(i), s.len() - 1) + samples_of(
            s[i].raw,
        ),
    decreases s.len(),
{
    let n = s.len() - 1;
    if i == n {
        lemma_totals(s, s.remove(i), n);
    } else {
        let shorter = s.drop_last();
        lemma_total_without(shorter, i);
        lemma_totals(s, shorter, n);
        lemma_totals(s.remove(i), shorter.remove(i), n - 1);
        assert(s.remove(i)[n - 1] == s[n]);
    }
}

/// The samples that are buffered do not depend on the order in which the packets
/// lie in the heap.
pub proof fn law_samples_ignore_the_order<P: Packet>(s: Entries<P>, t: Entries<P>)
    requires
        s.to_multiset() == t.to_multiset(),
    ensures
        total_samples(s, s.len() as int) == total_samples(t, t.len() as int),
    decreases s.len(),
{
    broadcast use vstd::seq_lib::group_to_multiset_ensures;

    vstd::seq_lib::to_multiset_len(s);
    vstd::seq_lib::to_multiset_len(t);
    if s.len() > 0 {
        let last = s[s.len() - 1];
        assert(s.contains(last));
        assert(s.to_multiset().count(last) > 0);
        assert(t.contains(last));
        let i = choose|i: int| 0 <= i < t.len() && t[i] == last;
        lemma_total_without(s, s.len() - 1);
        lemma_total_without(t, i);
        vstd::seq_lib::to_multiset_remove(s, s.len() - 1);
        vstd::seq_lib::to_multiset_remove(t, i);
        law_samples_ignore_the_order(s.remove(s.len() - 1), t.remove(i));
    }
}

/// A packet that is stored adds its samples to those that are buffered, and one
/// that is played takes its samples along.
pub proof fn law_packets_bring_their_samples<P: Packet>(
    state: BufferState<P>,
    next: BufferState<P>,
    capacity: int,
    now: i128,
)
    ensures
        state.queued is Some && state.flush_outcome(capacity) == Flush::Stored ==> state.flushed(
            capacity,
        ).buffered_samples() == state.buffered_samples() + state.queued->0.sample_count(),
        state.entries.len() > 0 && state.plays_first(next, now) && state.entries[0].raw is Some
            ==> next.buffered_samples() + state.entries[0].raw->0.sample_count()
            == state.buffered_samples(),
{
    if state.queued is Some && state.flush_outcome(capacity) == Flush::Stored {
        let packet = JitterPacket::received(state.queued->0);
        law_push_adds_the_packet(state.entries, packet);
        vstd::seq_lib::to_multiset_build(state.entries, packet);
        law_samples_ignore_the_order(
            state.flushed(capacity).entries,
            state.entries.push(packet),
        );
        lemma_totals(state.entries, state.entries.push(packet), state.entries.len() as int);
    }
    if state.entries.len() > 0 && state.plays_first(next, now) {
        law_pop_removes_the_root(state.entries);
        vstd::seq_lib::to_multiset_build(next.entries, state.entries[0]);
        law_samples_ignore_the_order(next.entries.push(state.entries[0]), state.entries);
        lemma_totals(
            next.entries,
            next.entries.push(state.entries[0]),
            next.entries.len() as int,
        );
    }
}

} // verus!
