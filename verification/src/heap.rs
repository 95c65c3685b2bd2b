//! The binary heap in which received packets wait for their playback.
//!
//! The heap is an array in which the entry at `i` has its children at `2 * i + 1`
//! and `2 * i + 2`. An entry is pushed at the end and moves up while it is played
//! before its parent. When the root is taken, the entry from the end goes in its
//! place, sinks to the bottom along the children that are played first, and moves
//! up from there.

use crate::heap_laws::{
    law_nothing_precedes_the_foremost, law_pop_removes_the_root, law_push_adds_the_packet,
    law_replace_exchanges_the_root,
};
use crate::packet::{JitterPacket, Packet};
use crate::sequence::SequenceNumber;
use vstd::prelude::*;

verus! {

/// The entries of a heap, in the order of its array.
pub type Entries<P> = Seq<JitterPacket<P>>;

/// The position of the parent of position `i`.
pub open spec fn parent(i: int) -> int {
    (i - 1) / 2
}

/// The entries with those at `i` and `j` exchanged.
pub open spec fn exchanged<P: Packet>(s: Entries<P>, i: int, j: int) -> Entries<P> {
    s.update(i, s[j]).update(j, s[i])
}

/// The entries after the one at `pos` has moved up to its place.
pub open spec fn moved_up<P: Packet>(s: Entries<P>, pos: int) -> Entries<P>
    decreases pos,
{
    if pos <= 0 || !s[pos].precedes(s[parent(pos)]) {
        s
    } else {
        moved_up(exchanged(s, parent(pos), pos), parent(pos))
    }
}

/// The child of `pos` that an entry sinks to: the one that is played first.
/// There is at least one.
pub open spec fn first_child<P: Packet>(s: Entries<P>, pos: int) -> int {
    if 2 * pos + 2 < s.len() && !s[2 * pos + 1].precedes(s[2 * pos + 2]) {
        2 * pos + 2
    } else {
        2 * pos + 1
    }
}

/// The entries after the one at `pos` has sunk to the bottom, and the position
/// that it has reached there.
pub open spec fn sunk<P: Packet>(s: Entries<P>, pos: int) -> (Entries<P>, int)
    decreases s.len() - pos,
{
    if pos < 0 || 2 * pos + 1 >= s.len() {
        (s, pos)
    } else {
        sunk(exchanged(s, pos, first_child(s, pos)), first_child(s, pos))
    }
}

/// The entries after `packet` has been pushed.
pub open spec fn pushed<P: Packet>(s: Entries<P>, packet: JitterPacket<P>) -> Entries<P> {
    moved_up(s.push(packet), s.len() as int)
}

/// The entries after the root has been taken.
pub open spec fn popped<P: Packet>(s: Entries<P>) -> Entries<P> {
    if s.len() <= 1 {
        Seq::empty()
    } else {
        let (t, pos) = sunk(s.update(0, s.last()).drop_last(), 0);
        moved_up(t, pos)
    }
}

/// The entries `s` put into an empty heap, from the last one to the first.
pub open spec fn rebuilt<P: Packet>(s: Entries<P>) -> Entries<P>
    decreases s.len(),
{
    if s.len() == 0 {
        Seq::empty()
    } else {
        pushed(rebuilt(s.drop_first()), s[0])
    }
}

/// The entries after the root has made room for `packet`. The others are put in
/// afresh, so that their places owe nothing to the entry that has left.
pub open spec fn replaced<P: Packet>(s: Entries<P>, packet: JitterPacket<P>) -> Entries<P> {
    pushed(rebuilt(s.drop_first()), packet)
}

/// The entry that a pass over the first `n` entries finds to be played first.
pub open spec fn foremost<P: Packet>(s: Entries<P>, n: int) -> JitterPacket<P>
    decreases n,
{
    if n <= 1 {
        s[0]
    } else if foremost(s, n - 1).precedes(s[n - 1]) {
        foremost(s, n - 1)
    } else {
        s[n - 1]
    }
}

/// Whether a packet with the number `number` is among the entries.
pub open spec fn has_number<P: Packet>(s: Entries<P>, number: SequenceNumber) -> bool {
    exists|i: int| 0 <= i < s.len() && (#[trigger] s[i]).sequence_number == number
}

/// Whether no two entries have the same number.
pub open spec fn distinct<P: Packet>(s: Entries<P>) -> bool {
    forall|i: int, j: int|
        0 <= i < j < s.len() ==> (#[trigger] s[i]).sequence_number != (
        #[trigger] s[j]).sequence_number
}

/// Whether all entries are packets as they were received.
pub open spec fn all_received<P: Packet>(s: Entries<P>) -> bool {
    forall|i: int| 0 <= i < s.len() ==> (#[trigger] s[i]).is_received()
}

/// Whether the order of playback does not run in a circle on the entries: none
/// lies before the wrap, or none after it, or none away from it.
pub open spec fn linear_window<P: Packet>(s: Entries<P>) -> bool {
    ||| forall|i: int| 0 <= i < s.len() ==> !(#[trigger] s[i]).sequence_number.before_wrap()
    ||| forall|i: int| 0 <= i < s.len() ==> !(#[trigger] s[i]).sequence_number.after_wrap()
    ||| forall|i: int|
        0 <= i < s.len() ==> (#[trigger] s[i]).sequence_number.before_wrap()
            || s[i].sequence_number.after_wrap()
}

/// Whether the entry at `i` is not played before its parent.
pub open spec fn placed<P: Packet>(s: Entries<P>, i: int) -> bool {
    !s[i].precedes(s[parent(i)])
}

/// Whether no entry is played before its parent.
pub open spec fn heap_ordered<P: Packet>(s: Entries<P>) -> bool {
    forall|i: int| 0 < i < s.len() ==> #[trigger] placed(s, i)
}

/// The packets that wait for their playback.
pub struct PacketHeap<P>
where
    P: Packet,
{
    entries: Vec<JitterPacket<P>>,
}

impl<P> View for PacketHeap<P>
where
    P: Packet,
{
    type V = Entries<P>;

    closed spec fn view(&self) -> Entries<P> {
        self.entries@
    }
}

/// Calls `Vec::capacity`: how many entries the vector can hold before it has to
/// allocate again, which is at least as many as it holds. How many more is up to
/// the allocator, and left open.
#[verifier::external_body]
fn allocated<P: Packet>(entries: &Vec<JitterPacket<P>>) -> (capacity: usize)
    ensures
        capacity >= entries@.len(),
{
    entries.capacity()
}

impl<P> PacketHeap<P>
where
    P: Packet,
{
    /// An empty heap with room for `capacity` packets.
    pub fn with_capacity(capacity: usize) -> (heap: Self)
        ensures
            heap@ == Entries::<P>::empty(),
    {
        PacketHeap { entries: Vec::with_capacity(capacity) }
    }

    /// How many packets there is room for without a new allocation.
    pub fn capacity(&self) -> (capacity: usize)
        ensures
            capacity >= self@.len(),
    {
        allocated(&self.entries)
    }

    pub fn len(&self) -> (len: usize)
        ensures
            len == self@.len(),
    {
        self.entries.len()
    }

    pub fn is_empty(&self) -> (empty: bool)
        ensures
            empty == (self@.len() == 0),
    {
        self.entries.len() == 0
    }

    /// The entry at position `i`.
    pub fn get(&self, i: usize) -> (entry: &JitterPacket<P>)
        requires
            i < self@.len(),
        ensures
            *entry == self@[i as int],
    {
        &self.entries[i]
    }

    /// The root, which the next `pop` takes.
    pub fn peek(&self) -> (root: Option<&JitterPacket<P>>)
        ensures
            self@.len() == 0 <==> root is None,
            root matches Some(entry) ==> *entry == self@[0],
    {
        if self.entries.len() == 0 {
            None
        } else {
            Some(&self.entries[0])
        }
    }

    /// The greatest of the entries in the order of packets, found by a pass over
    /// all of them.
    pub fn max(&self) -> (greatest: Option<&JitterPacket<P>>)
        ensures
            self@.len() == 0 <==> greatest is None,
            greatest matches Some(entry) ==> *entry == foremost(self@, self@.len() as int),
            greatest is Some && linear_window(self@) ==> self@.contains(*greatest->0) && forall|
                i: int,
            |
                0 <= i < self@.len() ==> !(#[trigger] self@[i]).sequence_number.precedes(
                    greatest->0.sequence_number,
                ),
    {
        proof {
            if self@.len() > 0 && linear_window(self@) {
                law_nothing_precedes_the_foremost(self@);
                assert forall|i: int| 0 <= i < self@.len() implies !(
                #[trigger] self@[i]).sequence_number.precedes(
                    foremost(self@, self@.len() as int).sequence_number,
                ) by {
                    assert(!self@[i].precedes(foremost(self@, self@.len() as int)));
                }
            }
        }
        if self.entries.len() == 0 {
            return None;
        }
        let mut best: usize = 0;
        let mut n: usize = 1;
        while n < self.entries.len()
            invariant
                best < n <= self@.len(),
                self@[best as int] == foremost(self@, n as int),
            decreases self@.len() - n,
        {
            if self.entries[best] <= self.entries[n] {
                best = n;
            }
            n = n + 1;
        }
        Some(&self.entries[best])
    }

    /// Whether a packet with the number `number` waits in the heap.
    pub fn contains(&self, number: SequenceNumber) -> (found: bool)
        ensures
            found == has_number(self@, number),
            found == exists|i: int|
                0 <= i < self@.len() && (#[trigger] self@[i]).sequence_number.0 == number.0,
    {
        let mut i: usize = 0;
        while i < self.entries.len()
            invariant
                i <= self@.len(),
                forall|j: int| 0 <= j < i ==> (#[trigger] self@[j]).sequence_number != number,
            decreases self@.len() - i,
        {
            if self.entries[i].sequence_number == number {
                assert(self@[i as int].sequence_number == number);
                return true;
            }
            i = i + 1;
        }
        false
    }

    /// Takes all packets out.
    pub fn clear(&mut self)
        ensures
            final(self)@ == Entries::<P>::empty(),
    {
        self.entries.clear();
    }

    /// Puts a packet in.
    pub fn push(&mut self, packet: JitterPacket<P>)
        ensures
            final(self)@ == pushed(old(self)@, packet),
            final(self)@.len() == old(self)@.len() + 1,
            final(self)@.to_multiset() == old(self)@.to_multiset().insert(packet),
    {
        proof {
            law_push_adds_the_packet(self@, packet);
        }
        let pos: usize = self.entries.len();
        self.entries.push(packet);
        self.move_up(pos);
    }

    /// Takes the root out.
    pub fn pop(&mut self) -> (root: Option<JitterPacket<P>>)
        ensures
            old(self)@.len() == 0 <==> root is None,
            root matches Some(entry) ==> entry == old(self)@[0],
            final(self)@ == popped(old(self)@),
            root matches Some(entry) ==> final(self)@.len() == old(self)@.len() - 1
                && final(self)@.to_multiset().insert(entry) == old(self)@.to_multiset(),
            root is None ==> final(self)@ == old(self)@,
    {
        proof {
            if self@.len() > 0 {
                law_pop_removes_the_root(self@);
            }
        }
        if self.entries.len() == 0 {
            return None;
        }
        let root = self.entries.swap_remove(0);
        if self.entries.len() > 0 {
            let pos = self.sink();
            self.move_up(pos);
        }
        Some(root)
    }

    /// Takes the root out and puts a packet in.
    pub fn replace(&mut self, packet: JitterPacket<P>)
        requires
            old(self)@.len() > 0,
        ensures
            final(self)@ == replaced(old(self)@, packet),
            final(self)@.len() == old(self)@.len(),
            final(self)@.to_multiset().insert(old(self)@[0]) == old(self)@.to_multiset().insert(
                packet,
            ),
    {
        proof {
            law_replace_exchanges_the_root(self@, packet);
        }
        let mut afresh: PacketHeap<P> = PacketHeap::with_capacity(self.entries.len());
        assert(old(self)@.skip(old(self)@.len() as int) =~= Seq::empty());
        while self.entries.len() > 1
            invariant
                1 <= self@.len() <= old(self)@.len(),
                self@ == old(self)@.take(self@.len() as int),
                afresh@ == rebuilt(old(self)@.skip(self@.len() as int)),
            decreases self@.len(),
        {
            let ghost len = self@.len() as int;
            let entry = self.entries.pop().unwrap();
            afresh.push(entry);
            assert(old(self)@.skip(len - 1).drop_first() =~= old(self)@.skip(len));
        }
        assert(old(self)@.skip(1) =~= old(self)@.drop_first());
        afresh.push(packet);
        self.entries = afresh.entries;
    }

    fn exchange(&mut self, i: usize, j: usize)
        requires
            i < j < old(self)@.len(),
        ensures
            final(self)@ == exchanged(old(self)@, i as int, j as int),
    {
        let (front, back) = self.entries.as_mut_slice().split_at_mut(j);
        core::mem::swap(&mut front[i], &mut back[0]);
    }

    fn move_up(&mut self, start: usize)
        requires
            start < old(self)@.len(),
        ensures
            final(self)@ == moved_up(old(self)@, start as int),
    {
        let mut pos: usize = start;
        while pos > 0
            invariant
                pos < self@.len(),
                moved_up(self@, pos as int) == moved_up(old(self)@, start as int),
            decreases pos,
        {
            let up: usize = (pos - 1) / 2;
            if self.entries[pos] <= self.entries[up] {
                return;
            }
            self.exchange(up, pos);
            pos = up;
        }
    }

    fn sink(&mut self) -> (pos: usize)
        requires
            old(self)@.len() > 0,
        ensures
            (final(self)@, pos as int) == sunk(old(self)@, 0),
            pos < final(self)@.len(),
    {
        let mut pos: usize = 0;
        while pos < self.entries.len() / 2
            invariant
                pos < self@.len(),
                sunk(self@, pos as int) == sunk(old(self)@, 0),
            decreases self@.len() - pos,
        {
            let mut child: usize = 2 * pos + 1;
            if child + 1 < self.entries.len() && self.entries[child] <= self.entries[child + 1] {
                child = child + 1;
            }
            self.exchange(pos, child);
            pos = child;
        }
        pos
    }
}

} // verus!
