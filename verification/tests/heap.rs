use jittr::{JitterPacket, Packet, PacketHeap, SequenceNumber};
use std::cmp::Ordering;
use std::collections::BinaryHeap;

#[derive(Debug, Clone, PartialEq)]
struct Numbered(u16);

impl Packet for Numbered {
    fn sequence_number(&self) -> u16 {
        self.0
    }

    fn offset(&self) -> usize {
        0
    }

    fn samples(&self) -> usize {
        960
    }
}

/// The same order of packets, for the heap of the standard library.
#[derive(Debug, Clone, Copy, PartialEq, Eq)]
struct Entry(u16);

impl PartialOrd for Entry {
    fn partial_cmp(&self, other: &Self) -> Option<Ordering> {
        Some(self.cmp(other))
    }
}

impl Ord for Entry {
    fn cmp(&self, other: &Self) -> Ordering {
        SequenceNumber(self.0).cmp(&SequenceNumber(other.0)).reverse()
    }
}

fn entry(number: u16) -> JitterPacket<Numbered> {
    JitterPacket::from(Numbered(number))
}

fn heap_of(numbers: &[u16]) -> PacketHeap<Numbered> {
    let mut heap = PacketHeap::with_capacity(numbers.len());
    for number in numbers {
        heap.push(entry(*number));
    }
    heap
}

fn layout(heap: &PacketHeap<Numbered>) -> Vec<u16> {
    (0..heap.len()).map(|i| heap.get(i).sequence_number.0).collect()
}

fn drain(mut heap: PacketHeap<Numbered>) -> Vec<u16> {
    let mut out = Vec::new();
    while let Some(packet) = heap.pop() {
        out.push(packet.sequence_number.0);
    }
    assert!(heap.is_empty());
    out
}

#[test]
fn hands_packets_out_in_order() {
    assert_eq!(drain(heap_of(&[5, 3, 9, 1, 7, 2])), vec![1, 2, 3, 5, 7, 9]);
    assert_eq!(drain(heap_of(&[2, 65535, 0, 65533, 1, 65534])), vec![65533, 65534, 65535, 0, 1, 2]);
}

#[test]
fn keeps_the_places_of_a_binary_heap() {
    assert_eq!(layout(&heap_of(&[1, 3, 2])), vec![1, 3, 2]);
    assert_eq!(
        layout(&heap_of(&[60000, 50000, 40000, 30000, 20000, 10000])),
        vec![10000, 30000, 20000, 60000, 40000, 50000]
    );
}

#[test]
fn a_circle_brings_the_last_packet_up() {
    assert_eq!(layout(&heap_of(&[65535, 0, 9])), vec![9, 0, 65535]);
    assert_eq!(drain(heap_of(&[65535, 0, 9])), vec![9, 65535, 0]);
}

#[test]
fn agrees_with_the_heap_of_the_standard_library() {
    let mut seed: u32 = 1;
    let mut random = |below: u32| {
        seed = seed.wrapping_mul(1664525).wrapping_add(1013904223);
        (seed >> 8) % below
    };
    for round in 0..400 {
        let mut ours: PacketHeap<Numbered> = PacketHeap::with_capacity(10);
        let mut theirs: BinaryHeap<Entry> = BinaryHeap::with_capacity(10);
        for _ in 0..120 {
            if random(5) < 3 {
                // numbers around the wrap in half of the rounds, all over in the others
                let number = if round % 2 == 0 {
                    65520u16.wrapping_add(random(40) as u16)
                } else {
                    random(65536) as u16
                };
                ours.push(entry(number));
                theirs.push(Entry(number));
            } else {
                assert_eq!(
                    ours.pop().map(|packet| packet.sequence_number.0),
                    theirs.pop().map(|entry| entry.0)
                );
            }
            let expected: Vec<u16> = theirs.iter().map(|entry| entry.0).collect();
            assert_eq!(layout(&ours), expected);
            assert_eq!(ours.len(), theirs.len());
            assert_eq!(
                ours.peek().map(|packet| packet.sequence_number.0),
                theirs.peek().map(|entry| entry.0)
            );
            assert_eq!(
                ours.max().map(|packet| packet.sequence_number.0),
                theirs.iter().max().map(|entry| entry.0)
            );
        }
    }
}

#[test]
fn the_root_makes_room() {
    let mut heap = heap_of(&[5, 3, 9, 1, 7]);
    heap.replace(entry(4));
    assert_eq!(heap.len(), 5);
    assert_eq!(drain(heap), vec![3, 4, 5, 7, 9]);
    let mut heap = heap_of(&[8]);
    heap.replace(entry(2));
    assert_eq!(drain(heap), vec![2]);
    // once the circle is broken up, order is restored
    let mut heap = heap_of(&[65535, 0, 9, 2, 1]);
    assert_eq!(heap.peek().unwrap().sequence_number.0, 9);
    heap.replace(entry(65534));
    assert_eq!(drain(heap), vec![65534, 65535, 0, 1, 2]);
}

#[test]
fn finds_numbers_and_clears() {
    let mut heap = heap_of(&[4, 6, 5]);
    assert!(heap.contains(SequenceNumber(6)));
    assert!(!heap.contains(SequenceNumber(7)));
    heap.clear();
    assert_eq!(heap.len(), 0);
    assert!(heap.peek().is_none());
    assert!(heap.max().is_none());
    assert!(heap.pop().is_none());
}

#[test]
fn the_packet_played_first_is_the_greater_one() {
    assert_eq!(entry(1).cmp(&entry(2)), Ordering::Greater);
    assert_eq!(entry(2).cmp(&entry(1)), Ordering::Less);
    assert_eq!(entry(2).cmp(&entry(2)), Ordering::Equal);
    assert_eq!(entry(65535).partial_cmp(&entry(0)), Some(Ordering::Greater));
    assert!(entry(1) > entry(2));
}

#[test]
fn packets_are_equal_by_their_number() {
    let mut played = entry(3);
    played.raw = None;
    played.yielded_at = Some(17);
    assert_eq!(played, entry(3));
    assert_ne!(played, entry(4));
    assert_eq!(played.clone().into(), None);
    assert_eq!(played.clone().yielded_at, Some(17));
    assert_eq!(entry(3).into(), Some(Numbered(3)));
    assert_eq!(entry(3).yielded_at, None);
}
