//! The count of packets that were lost among those that are buffered.

use crate::heap::{distinct, linear_window, Entries, PacketHeap};
use crate::packet::Packet;
use crate::sequence::SequenceNumber;
use vstd::prelude::*;

verus! {

/// Whether numbers from shortly before the wrap and from shortly after it are
/// among the entries.
pub open spec fn straddles_wrap<P: Packet>(s: Entries<P>) -> bool {
    &&& exists|i: int| 0 <= i < s.len() && (#[trigger] s[i]).sequence_number.before_wrap()
    &&& exists|i: int| 0 <= i < s.len() && (#[trigger] s[i]).sequence_number.after_wrap()
}

/// The place of a number on a line: the number itself, but in a stream that is at
/// the wrap the upper half of the numbers lies below 0.
pub open spec fn place(number: SequenceNumber, at_wrap: bool) -> int {
    if at_wrap && number.0 >= 0x8000 {
        number.0 - 0x10000
    } else {
        number.0 as int
    }
}

/// The place of the entry at `i` among the entries.
pub open spec fn place_of<P: Packet>(s: Entries<P>, i: int) -> int {
    place(s[i].sequence_number, straddles_wrap(s))
}

/// The lowest place of the first `n` entries.
pub open spec fn lowest<P: Packet>(s: Entries<P>, n: int) -> int
    decreases n,
{
    if n <= 1 || place_of(s, n - 1) < lowest(s, n - 1) {
        place_of(s, n - 1)
    } else {
        lowest(s, n - 1)
    }
}

/// The highest place of the first `n` entries.
pub open spec fn highest<P: Packet>(s: Entries<P>, n: int) -> int
    decreases n,
{
    if n <= 1 || place_of(s, n - 1) > highest(s, n - 1) {
        place_of(s, n - 1)
    } else {
        highest(s, n - 1)
    }
}

/// How many packets were lost: as many as there are places from the lowest to the
/// highest, but for those that the entries take up.
pub open spec fn packets_lost<P: Packet>(s: Entries<P>) -> int {
    if s.len() == 0 {
        0
    } else {
        highest(s, s.len() as int) - lowest(s, s.len() as int) + 1 - s.len()
    }
}

/// The places from the lowest to the highest that no entry takes up.
pub open spec fn missing_places<P: Packet>(s: Entries<P>) -> Set<int> {
    Set::new(
        |p: int|
            lowest(s, s.len() as int) <= p <= highest(s, s.len() as int) && !exists|i: int|
                0 <= i < s.len() && #[trigger] place_of(s, i) == p,
    )
}

/// A share of packets: `lost` of them to `buffered` that wait in the buffer.
#[derive(Debug, Clone, Copy, PartialEq, Eq, Structural)]
pub struct LossRatio {
    pub lost: u16,
    pub buffered: usize,
}

proof fn lemma_lowest<P: Packet>(s: Entries<P>, n: int)
    requires
        1 <= n <= s.len(),
    ensures
        forall|i: int| 0 <= i < n ==> lowest(s, n) <= #[trigger] place_of(s, i),
        exists|i: int| 0 <= i < n && #[trigger] place_of(s, i) == lowest(s, n),
    decreases n,
{
    if n > 1 {
        lemma_lowest(s, n - 1);
        let i = choose|i: int| 0 <= i < n - 1 && #[trigger] place_of(s, i) == lowest(s, n - 1);
        assert(place_of(s, i) == lowest(s, n) || place_of(s, n - 1) == lowest(s, n));
    } else {
        assert(place_of(s, 0) == lowest(s, n));
    }
}

proof fn lemma_highest<P: Packet>(s: Entries<P>, n: int)
    requires
        1 <= n <= s.len(),
    ensures
        forall|i: int| 0 <= i < n ==> highest(s, n) >= #[trigger] place_of(s, i),
        exists|i: int| 0 <= i < n && #[trigger] place_of(s, i) == highest(s, n),
    decreases n,
{
    if n > 1 {
        lemma_highest(s, n - 1);
        let i = choose|i: int| 0 <= i < n - 1 && #[trigger] place_of(s, i) == highest(s, n - 1);
        assert(place_of(s, i) == highest(s, n) || place_of(s, n - 1) == highest(s, n));
    } else {
        assert(place_of(s, 0) == highest(s, n));
    }
}

/// The count of lost packets is the number of places that no packet takes up. It
/// fits a `u16`.
pub proof fn law_lost_packets_are_missing<P: Packet>(s: Entries<P>)
    requires
        distinct(s),
        s.len() > 0,
    ensures
        missing_places(s).finite(),
        packets_lost(s) == missing_places(s).len(),
        0 <= packets_lost(s) <= u16::MAX,
{
    let len = s.len() as int;
    let (low, high) = (lowest(s, len), highest(s, len));
    lemma_lowest(s, len);
    lemma_highest(s, len);
    let places = Seq::new(s.len(), |i: int| place_of(s, i));
    assert forall|i: int, j: int| 0 <= i < j < places.len() implies places[i] != places[j] by {
        assert(s[i].sequence_number != s[j].sequence_number);
        assert(s[i].sequence_number.0 != s[j].sequence_number.0);
    }
    assert(places.no_duplicates());
    places.unique_seq_to_set();
    vstd::seq_lib::seq_to_set_is_finite(places);
    let taken = places.to_set();
    let span = vstd::set_lib::set_int_range(low, high + 1);
    vstd::set_lib::lemma_int_range(low, high + 1);
    assert(missing_places(s) =~= span.difference(taken)) by {
        assert forall|p: int| missing_places(s).contains(p) <==> span.difference(taken).contains(
            p,
        ) by {
            if taken.contains(p) {
                let i = choose|i: int| 0 <= i < places.len() && places[i] == p;
                assert(place_of(s, i) == p);
            }
            if exists|i: int| 0 <= i < s.len() && #[trigger] place_of(s, i) == p {
                let i = choose|i: int| 0 <= i < s.len() && #[trigger] place_of(s, i) == p;
                assert(places[i] == p);
                assert(taken.contains(p));
            }
        }
    }
    assert(span.intersect(taken) =~= taken) by {
        assert forall|p: int| taken.contains(p) implies span.contains(p) by {
            let i = choose|i: int| 0 <= i < places.len() && places[i] == p;
            assert(place_of(s, i) == p);
        }
    }
    vstd::set_lib::lemma_set_difference_len(span, taken);
    assert(low <= place_of(s, 0) <= high);
}

/// Where the order does not run in a circle, places are in the order of playback.
proof fn lemma_places_are_in_order<P: Packet>(s: Entries<P>, i: int, j: int)
    requires
        linear_window(s),
        0 <= i < s.len(),
        0 <= j < s.len(),
    ensures
        s[i].precedes(s[j]) <==> place_of(s, i) < place_of(s, j),
{
    if s[i].sequence_number.before_wrap() && s[j].sequence_number.after_wrap() {
        assert(straddles_wrap(s));
    }
    if s[j].sequence_number.before_wrap() && s[i].sequence_number.after_wrap() {
        assert(straddles_wrap(s));
    }
}

/// Where the order of playback does not run in a circle, what was lost is what is
/// missing from the first packet to the last one: as many as there are numbers
/// from one to the other, but for the packets that are buffered.
pub proof fn law_lost_between_first_and_last<P: Packet>(s: Entries<P>, first: int, last: int)
    requires
        linear_window(s),
        0 <= first < s.len(),
        0 <= last < s.len(),
        forall|i: int| 0 <= i < s.len() ==> !(#[trigger] s[i]).precedes(s[first]),
        forall|i: int| 0 <= i < s.len() ==> !s[last].precedes(#[trigger] s[i]),
    ensures
        packets_lost(s) == s[first].sequence_number.places_to(s[last].sequence_number) + 1
            - s.len(),
{
    let len = s.len() as int;
    lemma_lowest(s, len);
    lemma_highest(s, len);
    let i = choose|i: int| 0 <= i < len && #[trigger] place_of(s, i) == lowest(s, len);
    let j = choose|j: int| 0 <= j < len && #[trigger] place_of(s, j) == highest(s, len);
    assert(!s[i].precedes(s[first]));
    assert(!s[last].precedes(s[j]));
    lemma_places_are_in_order(s, i, first);
    lemma_places_are_in_order(s, last, j);
    assert(lowest(s, len) <= place_of(s, first));
    assert(highest(s, len) >= place_of(s, last));
    assert(place_of(s, first) <= place_of(s, last));
}

/// Where numbers from both sides of the wrap are buffered, the numbers from 32768
/// on come before 0. What was lost is what is missing from the first packet to the
/// last one then, on a circle too.
pub proof fn law_lost_across_the_wrap<P: Packet>(
    s: Entries<P>,
    before: int,
    after: int,
    first: int,
    last: int,
)
    requires
        0 <= before < s.len(),
        0 <= after < s.len(),
        0 <= first < s.len(),
        0 <= last < s.len(),
        s[before].sequence_number.0 >= 65527,
        s[after].sequence_number.0 <= 8,
        s[first].sequence_number.0 >= 32768,
        s[last].sequence_number.0 < 32768,
        forall|i: int|
            0 <= i < s.len() ==> (#[trigger] s[i]).sequence_number.0 < 32768
                || s[i].sequence_number.0 >= s[first].sequence_number.0,
        forall|i: int|
            0 <= i < s.len() ==> (#[trigger] s[i]).sequence_number.0 >= 32768
                || s[i].sequence_number.0 <= s[last].sequence_number.0,
    ensures
        packets_lost(s) + s.len() == s[last].sequence_number.0 + 65536
            - s[first].sequence_number.0 + 1,
{
    let len = s.len() as int;
    assert(s[before].sequence_number.before_wrap());
    assert(s[after].sequence_number.after_wrap());
    assert(straddles_wrap(s));
    lemma_lowest(s, len);
    lemma_highest(s, len);
    let i = choose|i: int| 0 <= i < len && #[trigger] place_of(s, i) == lowest(s, len);
    let j = choose|j: int| 0 <= j < len && #[trigger] place_of(s, j) == highest(s, len);
    assert(s[i].sequence_number.0 < 32768 || s[i].sequence_number.0
        >= s[first].sequence_number.0);
    assert(s[j].sequence_number.0 >= 32768 || s[j].sequence_number.0 <= s[last].sequence_number.0);
    assert(lowest(s, len) <= place_of(s, first));
    assert(highest(s, len) >= place_of(s, last));
}

/// What was lost depends on the packets that are buffered, and not on the order in
/// which they came in.
pub proof fn law_loss_ignores_arrival_order<P: Packet>(s: Entries<P>, t: Entries<P>)
    requires
        s.to_multiset() == t.to_multiset(),
    ensures
        packets_lost(s) == packets_lost(t),
{
    broadcast use vstd::seq_lib::group_to_multiset_ensures;

    vstd::seq_lib::to_multiset_len(s);
    vstd::seq_lib::to_multiset_len(t);
    assert forall|i: int| 0 <= i < s.len() implies t.contains(#[trigger] s[i]) by {
        assert(s.contains(s[i]));
        assert(s.to_multiset().count(s[i]) > 0);
    }
    assert forall|i: int| 0 <= i < t.len() implies s.contains(#[trigger] t[i]) by {
        assert(t.contains(t[i]));
        assert(t.to_multiset().count(t[i]) > 0);
    }
    if s.len() > 0 {
        lemma_no_wider(s, t);
        lemma_no_wider(t, s);
    }
}

proof fn lemma_no_wider<P: Packet>(s: Entries<P>, t: Entries<P>)
    requires
        s.len() > 0,
        forall|i: int| 0 <= i < s.len() ==> t.contains(#[trigger] s[i]),
        forall|i: int| 0 <= i < t.len() ==> s.contains(#[trigger] t[i]),
        t.len() == s.len(),
    ensures
        lowest(t, t.len() as int) <= lowest(s, s.len() as int),
        highest(s, s.len() as int) <= highest(t, t.len() as int),
{
    let len = s.len() as int;
    lemma_same_wrap(s, t);
    lemma_same_wrap(t, s);
    lemma_lowest(s, len);
    lemma_lowest(t, len);
    lemma_highest(s, len);
    lemma_highest(t, len);
    let i = choose|i: int| 0 <= i < len && #[trigger] place_of(s, i) == lowest(s, len);
    assert(t.contains(s[i]));
    let j = choose|j: int| 0 <= j < len && t[j] == s[i];
    assert(place_of(t, j) == place_of(s, i));
    let k = choose|k: int| 0 <= k < len && #[trigger] place_of(s, k) == highest(s, len);
    assert(t.contains(s[k]));
    let m = choose|m: int| 0 <= m < len && t[m] == s[k];
    assert(place_of(t, m) == place_of(s, k));
}

proof fn lemma_same_wrap<P: Packet>(s: Entries<P>, t: Entries<P>)
    requires
        forall|i: int| 0 <= i < s.len() ==> t.contains(#[trigger] s[i]),
    ensures
        straddles_wrap(s) ==> straddles_wrap(t),
{
    if straddles_wrap(s) {
        let i = choose|i: int|
            0 <= i < s.len() && (#[trigger] s[i]).sequence_number.before_wrap();
        let j = choose|j: int| 0 <= j < s.len() && (#[trigger] s[j]).sequence_number.after_wrap();
        assert(t.contains(s[i]));
        assert(t.contains(s[j]));
    }
}

/// Whether numbers from both sides of the wrap are in the heap.
fn is_at_wrap<P: Packet>(heap: &PacketHeap<P>) -> (at_wrap: bool)
    ensures
        at_wrap == straddles_wrap(heap@),
{
    let mut before: bool = false;
    let mut after: bool = false;
    let mut i: usize = 0;
    while i < heap.len()
        invariant
            i <= heap@.len(),
            before == exists|j: int|
                0 <= j < i && (#[trigger] heap@[j]).sequence_number.before_wrap(),
            after == exists|j: int|
                0 <= j < i && (#[trigger] heap@[j]).sequence_number.after_wrap(),
        decreases heap@.len() - i,
    {
        let number = heap.get(i).sequence_number;
        assert(heap@[i as int].sequence_number == number);
        if number.0 >= SequenceNumber::WRAPPING_WINDOW_START {
            before = true;
        }
        if number.0 <= SequenceNumber::WRAPPING_WINDOW_END {
            after = true;
        }
        i = i + 1;
    }
    before && after
}

fn find_place(number: SequenceNumber, at_wrap: bool) -> (p: i32)
    ensures
        p == place(number, at_wrap),
{
    if at_wrap && number.0 >= 0x8000 {
        number.0 as i32 - 0x10000
    } else {
        number.0 as i32
    }
}

/// How many packets were lost among those in the heap.
pub(crate) fn count_lost<P: Packet>(heap: &PacketHeap<P>) -> (lost: u16)
    requires
        distinct(heap@),
    ensures
        lost == packets_lost(heap@),
{
    if heap.is_empty() {
        return 0;
    }
    let at_wrap = is_at_wrap(heap);
    let mut low: i32 = find_place(heap.get(0).sequence_number, at_wrap);
    let mut high: i32 = low;
    let mut n: usize = 1;
    while n < heap.len()
        invariant
            1 <= n <= heap@.len(),
            at_wrap == straddles_wrap(heap@),
            low == lowest(heap@, n as int),
            high == highest(heap@, n as int),
        decreases heap@.len() - n,
    {
        let p: i32 = find_place(heap.get(n).sequence_number, at_wrap);
        if p < low {
            low = p;
        }
        if p > high {
            high = p;
        }
        n = n + 1;
    }
    proof {
        law_lost_packets_are_missing(heap@);
        lemma_lowest(heap@, heap@.len() as int);
        lemma_highest(heap@, heap@.len() as int);
        assert(low <= place_of(heap@, 0) <= high);
    }
    let span: u32 = (high - low) as u32;
    (span + 1 - heap.len() as u32) as u16
}

} // verus!
