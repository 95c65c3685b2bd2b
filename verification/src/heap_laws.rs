//! What holds of the heap of packets: it neither loses nor makes up a packet,
//! and it hands its packets out in the order of playback.
//!
//! The order of sequence numbers runs in a circle on numbers from before the
//! wrap, after it and away from it. What is said of order here is said of
//! entries on which it does not.

use crate::heap::{
    distinct, exchanged, first_child, foremost, has_number, heap_ordered,
    linear_window, moved_up, parent, placed, popped, pushed, rebuilt, replaced, sunk, Entries,
};
use crate::packet::{JitterPacket, Packet};
use crate::sequence::{linear, law_transitive, law_trichotomy, SequenceNumber};
use vstd::prelude::*;

verus! {

/// The packets in the order in which they come out when the heap is emptied.
pub open spec fn drained<P: Packet>(s: Entries<P>) -> Entries<P>
    decreases s.len(),
{
    if s.len() == 0 {
        Seq::empty()
    } else {
        proof {
            law_pop_removes_the_root(s);
        }
        seq![s[0]] + drained(popped(s))
    }
}

proof fn lemma_exchanged<P: Packet>(s: Entries<P>, i: int, j: int)
    requires
        0 <= i < s.len(),
        0 <= j < s.len(),
    ensures
        exchanged(s, i, j).len() == s.len(),
        exchanged(s, i, j).to_multiset() == s.to_multiset(),
        distinct(s) ==> distinct(exchanged(s, i, j)),
        linear_window(s) ==> linear_window(exchanged(s, i, j)),
{
    broadcast use vstd::multiset::group_multiset_axioms;
    broadcast use vstd::seq_lib::group_to_multiset_ensures;

    let t = s.update(i, s[j]);
    vstd::seq_lib::to_multiset_update(s, i, s[j]);
    vstd::seq_lib::to_multiset_update(t, j, s[i]);
    assert(t[i] == s[j]);
    assert(exchanged(s, i, j).to_multiset() =~= s.to_multiset());
}

proof fn lemma_moved_up<P: Packet>(s: Entries<P>, pos: int)
    requires
        0 <= pos < s.len(),
    ensures
        moved_up(s, pos).len() == s.len(),
        moved_up(s, pos).to_multiset() == s.to_multiset(),
        distinct(s) ==> distinct(moved_up(s, pos)),
        linear_window(s) ==> linear_window(moved_up(s, pos)),
    decreases pos,
{
    if pos > 0 && s[pos].precedes(s[parent(pos)]) {
        lemma_exchanged(s, parent(pos), pos);
        lemma_moved_up(exchanged(s, parent(pos), pos), parent(pos));
    }
}

proof fn lemma_sunk<P: Packet>(s: Entries<P>, pos: int)
    requires
        0 <= pos < s.len(),
    ensures
        sunk(s, pos).0.len() == s.len(),
        pos <= sunk(s, pos).1 < s.len(),
        2 * sunk(s, pos).1 + 1 >= s.len(),
        sunk(s, pos).0.to_multiset() == s.to_multiset(),
        distinct(s) ==> distinct(sunk(s, pos).0),
        linear_window(s) ==> linear_window(sunk(s, pos).0),
    decreases s.len() - pos,
{
    if 2 * pos + 1 < s.len() {
        let child = first_child(s, pos);
        lemma_exchanged(s, pos, child);
        lemma_sunk(exchanged(s, pos, child), child);
    }
}

/// A push adds the packet, and nothing else changes but the places.
pub proof fn law_push_adds_the_packet<P: Packet>(s: Entries<P>, packet: JitterPacket<P>)
    ensures
        pushed(s, packet).len() == s.len() + 1,
        pushed(s, packet).to_multiset() == s.to_multiset().insert(packet),
{
    broadcast use vstd::seq_lib::group_to_multiset_ensures;

    lemma_moved_up(s.push(packet), s.len() as int);
}

/// A pop removes the root, and nothing else changes but the places.
pub proof fn law_pop_removes_the_root<P: Packet>(s: Entries<P>)
    requires
        s.len() > 0,
    ensures
        popped(s).len() == s.len() - 1,
        popped(s).to_multiset().insert(s[0]) == s.to_multiset(),
{
    broadcast use vstd::multiset::group_multiset_axioms;
    broadcast use vstd::seq_lib::group_to_multiset_ensures;

    let t = s.update(0, s.last());
    vstd::seq_lib::to_multiset_update(s, 0, s.last());
    vstd::seq_lib::to_multiset_remove(t, s.len() - 1);
    assert(t.remove(s.len() - 1) =~= t.drop_last());
    assert(t[s.len() - 1] == s.last());
    if s.len() == 1 {
        assert(s =~= seq![s[0]]);
        assert(popped(s).push(s[0]) =~= s);
    } else {
        lemma_sunk(t.drop_last(), 0);
        let (u, pos) = sunk(t.drop_last(), 0);
        lemma_moved_up(u, pos);
        assert(s.contains(s[0]));
        assert(s.to_multiset().count(s[0]) > 0);
        assert(t.drop_last().to_multiset().insert(s[0]) =~= s.to_multiset());
    }
}

/// A push keeps numbers distinct, unless the number of the packet is there.
pub proof fn law_push_keeps_distinct<P: Packet>(s: Entries<P>, packet: JitterPacket<P>)
    requires
        distinct(s),
        !has_number(s, packet.sequence_number),
    ensures
        distinct(pushed(s, packet)),
{
    let t = s.push(packet);
    assert forall|i: int, j: int| 0 <= i < j < t.len() implies (#[trigger] t[i]).sequence_number
        != (#[trigger] t[j]).sequence_number by {
        assert(t[i] == s[i]);
    }
    lemma_moved_up(t, s.len() as int);
}

/// A pop keeps numbers distinct.
pub proof fn law_pop_keeps_distinct<P: Packet>(s: Entries<P>)
    requires
        distinct(s),
    ensures
        distinct(popped(s)),
{
    if s.len() > 1 {
        let t = s.update(0, s.last()).drop_last();
        lemma_sunk(t, 0);
        lemma_moved_up(sunk(t, 0).0, sunk(t, 0).1);
    }
}

/// The entries after a push are those from before and the packet.
pub proof fn lemma_pushed_entry<P: Packet>(s: Entries<P>, packet: JitterPacket<P>, i: int)
    requires
        0 <= i < s.len() + 1,
    ensures
        pushed(s, packet)[i] == packet || s.contains(pushed(s, packet)[i]),
{
    broadcast use vstd::multiset::group_multiset_axioms;
    broadcast use vstd::seq_lib::group_to_multiset_ensures;

    law_push_adds_the_packet(s, packet);
    let entry = pushed(s, packet)[i];
    assert(pushed(s, packet).contains(entry));
    assert(pushed(s, packet).to_multiset().count(entry) > 0);
}

/// All that was there before a push, and the packet, is there after it.
pub proof fn lemma_pushed_has<P: Packet>(s: Entries<P>, packet: JitterPacket<P>, i: int)
    requires
        0 <= i < s.len() + 1,
    ensures
        pushed(s, packet).contains(s.push(packet)[i]),
{
    broadcast use vstd::multiset::group_multiset_axioms;
    broadcast use vstd::seq_lib::group_to_multiset_ensures;

    law_push_adds_the_packet(s, packet);
    let entry = s.push(packet)[i];
    assert(s.push(packet).contains(entry));
    assert(s.push(packet).to_multiset().count(entry) > 0);
    assert(pushed(s, packet).to_multiset().count(entry) > 0);
}

/// The entries after a pop were there before.
pub proof fn lemma_popped_entry<P: Packet>(s: Entries<P>, i: int)
    requires
        0 <= i < s.len() - 1,
    ensures
        s.contains(popped(s)[i]),
{
    broadcast use vstd::multiset::group_multiset_axioms;
    broadcast use vstd::seq_lib::group_to_multiset_ensures;

    law_pop_removes_the_root(s);
    let entry = popped(s)[i];
    assert(popped(s).contains(entry));
    assert(popped(s).to_multiset().count(entry) > 0);
    assert(s.to_multiset().count(entry) > 0);
}

/// With distinct numbers, no entry after a pop has the number of the root.
pub proof fn lemma_popped_number<P: Packet>(s: Entries<P>, i: int)
    requires
        distinct(s),
        0 <= i < s.len() - 1,
    ensures
        popped(s)[i].sequence_number != s[0].sequence_number,
{
    broadcast use vstd::multiset::group_multiset_axioms;
    broadcast use vstd::seq_lib::group_to_multiset_ensures;

    law_pop_removes_the_root(s);
    let entry = popped(s)[i];
    assert(popped(s).contains(entry));
    assert(popped(s).to_multiset().count(entry) > 0);
    lemma_popped_entry(s, i);
    let j = choose|j: int| 0 <= j < s.len() && s[j] == entry;
    if j == 0 {
        assert(s.no_duplicates());
        s.lemma_multiset_has_no_duplicates();
        assert(s.to_multiset().count(entry) == 1);
        assert(s.to_multiset().count(entry) == popped(s).to_multiset().count(entry) + 1);
    }
}

proof fn lemma_window_is_linear<P: Packet>(s: Entries<P>, i: int, j: int, k: int)
    requires
        linear_window(s),
        0 <= i < s.len(),
        0 <= j < s.len(),
        0 <= k < s.len(),
    ensures
        linear(s[i].sequence_number, s[j].sequence_number, s[k].sequence_number),
{
}

proof fn lemma_not_before_transitive(a: SequenceNumber, b: SequenceNumber, c: SequenceNumber)
    requires
        linear(a, b, c),
        !b.precedes(a),
        !c.precedes(b),
    ensures
        !c.precedes(a),
{
    law_trichotomy(a, b);
    law_trichotomy(b, c);
    if a != b && b != c {
        law_transitive(a, b, c);
        law_trichotomy(a, c);
    }
}

pub proof fn lemma_same_number(a: SequenceNumber, b: SequenceNumber)
    requires
        !a.precedes(b),
        !b.precedes(a),
    ensures
        a == b,
{
    law_trichotomy(a, b);
}

/// All entries are placed but the one at `pos`, whose children may be hung under
/// its parent.
spec fn ordered_but<P: Packet>(s: Entries<P>, pos: int) -> bool {
    &&& forall|i: int| 0 < i < s.len() && i != pos ==> #[trigger] placed(s, i)
    &&& pos > 0 ==> forall|c: int|
        0 < c < s.len() && parent(c) == pos ==> !(#[trigger] s[c]).precedes(s[parent(pos)])
}

/// The same, with the children of `pos` not placed either.
spec fn ordered_around<P: Packet>(s: Entries<P>, pos: int) -> bool {
    &&& forall|i: int|
        0 < i < s.len() && i != pos && parent(i) != pos ==> #[trigger] placed(s, i)
    &&& pos > 0 ==> forall|c: int|
        0 < c < s.len() && parent(c) == pos ==> !(#[trigger] s[c]).precedes(s[parent(pos)])
}

proof fn lemma_moved_up_is_ordered<P: Packet>(s: Entries<P>, pos: int)
    requires
        0 <= pos < s.len(),
        linear_window(s),
        ordered_but(s, pos),
    ensures
        heap_ordered(moved_up(s, pos)),
    decreases pos,
{
    let up = parent(pos);
    if pos > 0 && s[pos].precedes(s[up]) {
        let t = exchanged(s, up, pos);
        lemma_exchanged(s, up, pos);
        law_trichotomy(s[pos].sequence_number, s[up].sequence_number);
        assert forall|i: int| 0 < i < t.len() && i != up implies #[trigger] placed(t, i) by {
            if i != pos {
                assert(placed(s, i));
                if parent(i) == up {
                    lemma_window_is_linear(s, pos, up, i);
                    lemma_not_before_transitive(
                        s[pos].sequence_number,
                        s[up].sequence_number,
                        s[i].sequence_number,
                    );
                }
            }
        }
        if up > 0 {
            assert(placed(s, up));
            assert forall|c: int| 0 < c < t.len() && parent(c) == up implies !(
            #[trigger] t[c]).precedes(t[parent(up)]) by {
                if c != pos {
                    assert(placed(s, c));
                    lemma_window_is_linear(s, parent(up), up, c);
                    lemma_not_before_transitive(
                        s[parent(up)].sequence_number,
                        s[up].sequence_number,
                        s[c].sequence_number,
                    );
                }
            }
        }
        lemma_moved_up_is_ordered(t, up);
    } else {
        assert forall|i: int| 0 < i < s.len() implies #[trigger] placed(s, i) by {}
    }
}

proof fn lemma_sunk_is_ordered<P: Packet>(s: Entries<P>, pos: int)
    requires
        0 <= pos < s.len(),
        ordered_around(s, pos),
    ensures
        ordered_but(sunk(s, pos).0, sunk(s, pos).1),
    decreases s.len() - pos,
{
    if 2 * pos + 1 < s.len() {
        let child = first_child(s, pos);
        let t = exchanged(s, pos, child);
        assert forall|i: int|
            0 < i < t.len() && i != child && parent(i) != child implies #[trigger] placed(t, i) by {
            if i == pos {
                assert(!s[child].precedes(s[parent(pos)]));
            } else if parent(i) == pos {
                law_trichotomy(s[i].sequence_number, s[child].sequence_number);
            } else {
                assert(placed(s, i));
            }
        }
        assert forall|c: int| 0 < c < t.len() && parent(c) == child implies !(
        #[trigger] t[c]).precedes(t[parent(child)]) by {
            assert(placed(s, c));
        }
        lemma_sunk_is_ordered(t, child);
    } else {
        assert forall|i: int| 0 < i < s.len() && i != pos implies #[trigger] placed(s, i) by {
            assert(parent(i) != pos);
        }
    }
}

/// A push keeps the heap in order.
pub proof fn law_push_keeps_order<P: Packet>(s: Entries<P>, packet: JitterPacket<P>)
    requires
        heap_ordered(s),
        linear_window(s.push(packet)),
    ensures
        heap_ordered(pushed(s, packet)),
        linear_window(pushed(s, packet)),
{
    let t = s.push(packet);
    let pos = s.len() as int;
    assert forall|i: int| 0 < i < t.len() && i != pos implies #[trigger] placed(t, i) by {
        assert(placed(s, i));
    }
    lemma_moved_up(t, pos);
    lemma_moved_up_is_ordered(t, pos);
}

/// A pop keeps the heap in order.
pub proof fn law_pop_keeps_order<P: Packet>(s: Entries<P>)
    requires
        heap_ordered(s),
        linear_window(s),
    ensures
        heap_ordered(popped(s)),
        linear_window(popped(s)),
{
    if s.len() > 1 {
        let t = s.update(0, s.last()).drop_last();
        assert forall|i: int| 0 < i < t.len() && parent(i) != 0 implies #[trigger] placed(t, i) by {
            assert(placed(s, i));
        }
        assert(linear_window(t));
        lemma_sunk(t, 0);
        lemma_sunk_is_ordered(t, 0);
        lemma_moved_up(sunk(t, 0).0, sunk(t, 0).1);
        lemma_moved_up_is_ordered(sunk(t, 0).0, sunk(t, 0).1);
    }
}

/// Where the order runs straight after a push, it did so before.
pub proof fn lemma_linear_before_push<P: Packet>(s: Entries<P>, packet: JitterPacket<P>)
    requires
        linear_window(pushed(s, packet)),
    ensures
        linear_window(s.push(packet)),
        linear_window(s),
{
    let t = s.push(packet);
    assert forall|i: int| 0 <= i < t.len() implies pushed(s, packet).contains(#[trigger] t[i]) by {
        lemma_pushed_has(s, packet, i);
    }
    assert(linear_window(t));
    assert forall|i: int| 0 <= i < s.len() implies #[trigger] s[i] == t[i] by {}
}

/// To put entries in afresh changes nothing but the places.
pub proof fn lemma_rebuilt<P: Packet>(s: Entries<P>)
    ensures
        rebuilt(s).len() == s.len(),
        rebuilt(s).to_multiset() == s.to_multiset(),
    decreases s.len(),
{
    broadcast use vstd::multiset::group_multiset_axioms;
    broadcast use vstd::seq_lib::group_to_multiset_ensures;

    if s.len() > 0 {
        let rest = s.drop_first();
        lemma_rebuilt(rest);
        law_push_adds_the_packet(rebuilt(rest), s[0]);
        assert(s =~= rest.insert(0, s[0]));
        vstd::seq_lib::to_multiset_insert(rest, 0, s[0]);
    } else {
        assert(rebuilt(s) =~= s);
    }
}

/// The entries put in afresh are the same ones.
pub proof fn lemma_rebuilt_entry<P: Packet>(s: Entries<P>, i: int)
    requires
        0 <= i < s.len(),
    ensures
        s.contains(rebuilt(s)[i]),
{
    broadcast use vstd::multiset::group_multiset_axioms;
    broadcast use vstd::seq_lib::group_to_multiset_ensures;

    lemma_rebuilt(s);
    assert(rebuilt(s).contains(rebuilt(s)[i]));
    assert(rebuilt(s).to_multiset().count(rebuilt(s)[i]) > 0);
}

/// To put entries in afresh keeps numbers distinct.
pub proof fn lemma_rebuilt_is_distinct<P: Packet>(s: Entries<P>)
    requires
        distinct(s),
    ensures
        distinct(rebuilt(s)),
    decreases s.len(),
{
    if s.len() > 0 {
        let rest = s.drop_first();
        assert forall|i: int| 0 <= i < rest.len() implies #[trigger] rest[i] == s[i + 1] by {}
        lemma_rebuilt_is_distinct(rest);
        lemma_rebuilt(rest);
        if has_number(rebuilt(rest), s[0].sequence_number) {
            let i = choose|i: int|
                0 <= i < rest.len() && (#[trigger] rebuilt(rest)[i]).sequence_number
                    == s[0].sequence_number;
            lemma_rebuilt_entry(rest, i);
            let j = choose|j: int| 0 <= j < rest.len() && rest[j] == rebuilt(rest)[i];
            assert(s[j + 1].sequence_number == s[0].sequence_number);
        }
        law_push_keeps_distinct(rebuilt(rest), s[0]);
    }
}

/// Entries put in afresh are in order, whatever order they were in.
pub proof fn law_rebuilt_is_in_order<P: Packet>(s: Entries<P>)
    requires
        linear_window(rebuilt(s)),
    ensures
        heap_ordered(rebuilt(s)),
    decreases s.len(),
{
    if s.len() > 0 {
        let rest = s.drop_first();
        lemma_linear_before_push(rebuilt(rest), s[0]);
        law_rebuilt_is_in_order(rest);
        law_push_keeps_order(rebuilt(rest), s[0]);
    }
}

/// The root makes room for a packet, and all others stay.
pub proof fn law_replace_exchanges_the_root<P: Packet>(s: Entries<P>, packet: JitterPacket<P>)
    requires
        s.len() > 0,
    ensures
        replaced(s, packet).len() == s.len(),
        replaced(s, packet).to_multiset().insert(s[0]) == s.to_multiset().insert(packet),
{
    broadcast use vstd::multiset::group_multiset_axioms;

    let rest = s.drop_first();
    lemma_rebuilt(rest);
    law_push_adds_the_packet(rebuilt(rest), packet);
    assert(s =~= rest.insert(0, s[0]));
    vstd::seq_lib::to_multiset_insert(rest, 0, s[0]);
    assert(replaced(s, packet).to_multiset().insert(s[0]) =~= s.to_multiset().insert(packet));
}

/// The entries after the root has made room are the packet and those from before.
pub proof fn lemma_replaced_entry<P: Packet>(s: Entries<P>, packet: JitterPacket<P>, i: int)
    requires
        0 <= i < s.len(),
    ensures
        replaced(s, packet)[i] == packet || s.contains(replaced(s, packet)[i]),
{
    let rest = s.drop_first();
    lemma_rebuilt(rest);
    lemma_pushed_entry(rebuilt(rest), packet, i);
    let entry = replaced(s, packet)[i];
    if entry != packet {
        let j = choose|j: int| 0 <= j < rest.len() && rebuilt(rest)[j] == entry;
        lemma_rebuilt_entry(rest, j);
        let k = choose|k: int| 0 <= k < rest.len() && rest[k] == entry;
        assert(s[k + 1] == entry);
    }
}

/// To let the root make room keeps numbers distinct, unless the number of the
/// packet is there.
pub proof fn law_replace_keeps_distinct<P: Packet>(s: Entries<P>, packet: JitterPacket<P>)
    requires
        distinct(s),
        s.len() > 0,
        !has_number(s, packet.sequence_number),
    ensures
        distinct(replaced(s, packet)),
{
    let rest = s.drop_first();
    assert forall|i: int| 0 <= i < rest.len() implies #[trigger] rest[i] == s[i + 1] by {}
    lemma_rebuilt(rest);
    lemma_rebuilt_is_distinct(rest);
    if has_number(rebuilt(rest), packet.sequence_number) {
        let i = choose|i: int|
            0 <= i < rest.len() && (#[trigger] rebuilt(rest)[i]).sequence_number
                == packet.sequence_number;
        lemma_rebuilt_entry(rest, i);
        let j = choose|j: int| 0 <= j < rest.len() && rest[j] == rebuilt(rest)[i];
        assert(s[j + 1].sequence_number == packet.sequence_number);
    }
    law_push_keeps_distinct(rebuilt(rest), packet);
}

/// After the root has made room the heap is in order, whatever order it was in.
pub proof fn law_replaced_is_in_order<P: Packet>(s: Entries<P>, packet: JitterPacket<P>)
    requires
        s.len() > 0,
        linear_window(replaced(s, packet)),
    ensures
        heap_ordered(replaced(s, packet)),
{
    let rest = s.drop_first();
    lemma_linear_before_push(rebuilt(rest), packet);
    law_rebuilt_is_in_order(rest);
    law_push_keeps_order(rebuilt(rest), packet);
}

/// In a heap that is in order, nothing is played before the root.
pub proof fn law_root_is_played_first<P: Packet>(s: Entries<P>, i: int)
    requires
        heap_ordered(s),
        linear_window(s),
        0 <= i < s.len(),
    ensures
        !s[i].precedes(s[0]),
    decreases i,
{
    if i > 0 {
        law_root_is_played_first(s, parent(i));
        assert(placed(s, i));
        lemma_window_is_linear(s, 0, parent(i), i);
        lemma_not_before_transitive(
            s[0].sequence_number,
            s[parent(i)].sequence_number,
            s[i].sequence_number,
        );
    } else {
        law_trichotomy(s[0].sequence_number, s[0].sequence_number);
    }
}

/// A pass over the first entries finds one of them, and none of them is played
/// before it.
proof fn lemma_foremost<P: Packet>(s: Entries<P>, n: int) -> (k: int)
    requires
        linear_window(s),
        1 <= n <= s.len(),
    ensures
        0 <= k < n,
        foremost(s, n) == s[k],
        forall|i: int| 0 <= i < n ==> !(#[trigger] s[i]).precedes(s[k]),
    decreases n,
{
    if n == 1 {
        law_trichotomy(s[0].sequence_number, s[0].sequence_number);
        0
    } else {
        let k = lemma_foremost(s, n - 1);
        law_trichotomy(s[k].sequence_number, s[n - 1].sequence_number);
        if s[k].precedes(s[n - 1]) {
            k
        } else {
            assert forall|i: int| 0 <= i < n implies !(#[trigger] s[i]).precedes(s[n - 1]) by {
                if i < n - 1 {
                    lemma_window_is_linear(s, n - 1, k, i);
                    lemma_not_before_transitive(
                        s[n - 1].sequence_number,
                        s[k].sequence_number,
                        s[i].sequence_number,
                    );
                } else {
                    law_trichotomy(s[i].sequence_number, s[i].sequence_number);
                }
            }
            n - 1
        }
    }
}

/// Nothing is played before the entry that a pass over all of them finds, whether
/// the heap is in order or not.
pub proof fn law_nothing_precedes_the_foremost<P: Packet>(s: Entries<P>)
    requires
        linear_window(s),
        s.len() > 0,
    ensures
        s.contains(foremost(s, s.len() as int)),
        forall|i: int|
            0 <= i < s.len() ==> !(#[trigger] s[i]).precedes(foremost(s, s.len() as int)),
{
    let k = lemma_foremost(s, s.len() as int);
    assert(s[k] == foremost(s, s.len() as int));
}

/// In a heap that is in order, the greatest packet has the number of the root.
pub proof fn law_greatest_is_root<P: Packet>(s: Entries<P>)
    requires
        heap_ordered(s),
        linear_window(s),
        s.len() > 0,
    ensures
        foremost(s, s.len() as int).sequence_number == s[0].sequence_number,
{
    let k = lemma_foremost(s, s.len() as int);
    law_root_is_played_first(s, k);
    lemma_same_number(s[0].sequence_number, s[k].sequence_number);
}

/// A heap that is emptied hands out what is in it, no more and no less.
pub proof fn law_drained_entries<P: Packet>(s: Entries<P>)
    ensures
        drained(s).len() == s.len(),
        drained(s).to_multiset() == s.to_multiset(),
    decreases s.len(),
{
    broadcast use vstd::multiset::group_multiset_axioms;
    broadcast use vstd::seq_lib::group_to_multiset_ensures;

    if s.len() > 0 {
        law_pop_removes_the_root(s);
        law_drained_entries(popped(s));
        let rest = drained(popped(s));
        assert(drained(s) =~= rest.insert(0, s[0]));
        vstd::seq_lib::to_multiset_insert(rest, 0, s[0]);
    } else {
        assert(drained(s) =~= s);
    }
}

/// A heap that is in order and is emptied hands its packets out in the order of
/// playback.
pub proof fn law_drained_in_order<P: Packet>(s: Entries<P>)
    requires
        heap_ordered(s),
        linear_window(s),
        distinct(s),
    ensures
        forall|i: int, j: int|
            0 <= i < j < s.len() ==> (#[trigger] drained(s)[i]).precedes(#[trigger] drained(s)[j]),
    decreases s.len(),
{
    broadcast use vstd::multiset::group_multiset_axioms;
    broadcast use vstd::seq_lib::group_to_multiset_ensures;

    if s.len() > 0 {
        let t = popped(s);
        law_pop_removes_the_root(s);
        law_pop_keeps_order(s);
        law_pop_keeps_distinct(s);
        law_drained_in_order(t);
        law_drained_entries(t);
        let rest = drained(t);
        assert forall|i: int, j: int| 0 <= i < j < s.len() implies (
        #[trigger] drained(s)[i]).precedes(#[trigger] drained(s)[j]) by {
            assert(drained(s)[j] == rest[j - 1]);
            if i == 0 {
                assert(rest.contains(rest[j - 1]));
                assert(rest.to_multiset().count(rest[j - 1]) > 0);
                assert(t.contains(rest[j - 1]));
                let k = choose|k: int| 0 <= k < t.len() && t[k] == rest[j - 1];
                lemma_popped_entry(s, k);
                lemma_popped_number(s, k);
                let m = choose|m: int| 0 <= m < s.len() && s[m] == t[k];
                law_root_is_played_first(s, m);
                law_trichotomy(s[0].sequence_number, s[m].sequence_number);
            } else {
                assert(drained(s)[i] == rest[i - 1]);
            }
        }
    }
}

/// Entries of which none is numbered from 65527 on, or none up to 8, or none in
/// between, are not played in a circle.
pub proof fn law_circles_take_three<P: Packet>(s: Entries<P>)
    requires
        forall|i: int, j: int, k: int|
            0 <= i < s.len() && 0 <= j < s.len() && 0 <= k < s.len() ==> !((
            #[trigger] s[i]).sequence_number.0 >= 65527 && (#[trigger] s[j]).sequence_number.0 <= 8
                && 8 < (#[trigger] s[k]).sequence_number.0 < 65527),
    ensures
        linear_window(s),
{
    if !linear_window(s) {
        let i = choose|i: int| 0 <= i < s.len() && (#[trigger] s[i]).sequence_number.before_wrap();
        let j = choose|j: int| 0 <= j < s.len() && (#[trigger] s[j]).sequence_number.after_wrap();
        let k = choose|k: int|
            0 <= k < s.len() && !((#[trigger] s[k]).sequence_number.before_wrap()
                || s[k].sequence_number.after_wrap());
        assert(s[i].sequence_number.0 >= 65527 && s[j].sequence_number.0 <= 8);
    }
}

/// The greatest entry of one more is the one more, unless the greatest of the
/// others is played before it: on a circle too.
pub proof fn law_greatest_of_one_more<P: Packet>(s: Entries<P>, packet: JitterPacket<P>)
    ensures
        foremost(s.push(packet), s.len() as int + 1) == if s.len() > 0 && foremost(
            s,
            s.len() as int,
        ).sequence_number.precedes(packet.sequence_number) {
            foremost(s, s.len() as int)
        } else {
            packet
        },
{
    if s.len() > 0 {
        lemma_foremost_of_prefix(s, packet, s.len() as int);
    }
}

proof fn lemma_foremost_of_prefix<P: Packet>(s: Entries<P>, packet: JitterPacket<P>, n: int)
    requires
        1 <= n <= s.len(),
    ensures
        foremost(s.push(packet), n) == foremost(s, n),
    decreases n,
{
    if n > 1 {
        lemma_foremost_of_prefix(s, packet, n - 1);
    }
}

/// Packets that are put into an empty heap and taken out again come out in the
/// order of playback, all of them and no others, whatever the order in which they
/// went in. Their numbers differ, and are not from both sides of the wrap and from
/// away from it at once.
pub proof fn law_packets_come_out_in_order<P: Packet>(s: Entries<P>)
    requires
        forall|i: int, j: int|
            0 <= i < j < s.len() ==> (#[trigger] s[i]).sequence_number.0 != (
            #[trigger] s[j]).sequence_number.0,
        forall|i: int, j: int, k: int|
            0 <= i < s.len() && 0 <= j < s.len() && 0 <= k < s.len() ==> !((
            #[trigger] s[i]).sequence_number.0 >= 65527 && (#[trigger] s[j]).sequence_number.0 <= 8
                && 8 < (#[trigger] s[k]).sequence_number.0 < 65527),
    ensures
        drained(rebuilt(s)).to_multiset() == s.to_multiset(),
        drained(rebuilt(s)).len() == s.len(),
        forall|i: int, j: int|
            0 <= i < j < s.len() ==> (
            #[trigger] drained(rebuilt(s))[i]).sequence_number.precedes(
                (#[trigger] drained(rebuilt(s))[j]).sequence_number,
            ),
{
    let t = rebuilt(s);
    lemma_rebuilt(s);
    lemma_rebuilt_is_distinct(s);
    assert forall|i: int| 0 <= i < t.len() implies s.contains(#[trigger] t[i]) by {
        lemma_rebuilt_entry(s, i);
    }
    assert forall|i: int, j: int, k: int|
        0 <= i < t.len() && 0 <= j < t.len() && 0 <= k < t.len() implies !((
    #[trigger] t[i]).sequence_number.0 >= 65527 && (#[trigger] t[j]).sequence_number.0 <= 8 && 8 < (
    #[trigger] t[k]).sequence_number.0 < 65527) by {
        let a = choose|a: int| 0 <= a < s.len() && s[a] == t[i];
        let b = choose|b: int| 0 <= b < s.len() && s[b] == t[j];
        let c = choose|c: int| 0 <= c < s.len() && s[c] == t[k];
        assert(s[a] == t[i] && s[b] == t[j] && s[c] == t[k]);
    }
    law_circles_take_three(t);
    law_rebuilt_is_in_order(s);
    law_drained_entries(t);
    law_drained_in_order(t);
    assert forall|i: int, j: int| 0 <= i < j < s.len() implies (
    #[trigger] drained(t)[i]).sequence_number.precedes(
        (#[trigger] drained(t)[j]).sequence_number,
    ) by {
        assert(drained(t)[i].precedes(drained(t)[j]));
    }
}

} // verus!
