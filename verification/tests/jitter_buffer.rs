use jittr::{DelayPlan, Flush, JitterBuffer, JitterPacket, LossRatio, Next, Packet};

const SAMPLE_RATE: usize = 48000;
const CHANNELS: usize = 2;

#[derive(Debug, Clone, PartialEq)]
struct RTP {
    seq: u16,
    offset: usize,
}

impl Packet for RTP {
    fn sequence_number(&self) -> u16 {
        self.seq
    }

    fn offset(&self) -> usize {
        self.offset
    }

    fn samples(&self) -> usize {
        960
    }
}

/// A buffer with a clock that moves on only while it waits for a delay.
struct Player {
    jitter: JitterBuffer<RTP, 10>,
    now: i128,
    delay_end: i128,
}

impl Player {
    fn new() -> Self {
        Player {
            jitter: JitterBuffer::new(SAMPLE_RATE, CHANNELS),
            now: 1_000_000_000,
            delay_end: 0,
        }
    }

    fn send(&mut self, packet: RTP) -> Flush {
        assert!(self.jitter.poll_ready());
        self.jitter.start_send(packet).unwrap();
        let outcome = self.jitter.poll_flush();
        assert!(!outcome.is_pending());
        outcome
    }

    fn next(&mut self) -> Option<RTP> {
        loop {
            match self.jitter.poll_next(self.now) {
                Next::Starved => panic!("there is nothing to play"),
                Next::Yield(packet) => return packet,
                Next::AwaitDelay => {
                    self.now = self.now.max(self.delay_end);
                    return self.jitter.delay_elapsed(self.now);
                }
                Next::StartDelay => {
                    let plan = self.jitter.checked_delay_plan().unwrap();
                    let fraction = plan.samples as f32 / plan.sample_rate as f32;
                    let playback = (fraction * 1000.0f32) as u64;
                    let nanos = self.jitter.start_delay(playback, self.now);
                    self.delay_end = self.now + nanos as i128;
                }
            }
        }
    }

    fn millis_since(&self, start: i128) -> i128 {
        (self.now - start) / 1_000_000
    }

    fn last(&self) -> &RTP {
        self.jitter.last().unwrap().raw.as_ref().unwrap()
    }
}

fn numbered(seq: u16) -> RTP {
    RTP { seq, offset: 960 * seq as usize }
}

#[test]
fn const_capacity() {
    let jitter = JitterBuffer::<RTP, 10>::new(SAMPLE_RATE, CHANNELS);
    assert_eq!(jitter.heap().capacity(), 10);
}

#[test]
fn send() {
    let mut player = Player::new();
    let packet = RTP { seq: 0, offset: 0 };
    player.send(packet.clone());
    assert_eq!(player.jitter.heap().peek(), Some(&packet.into()));
}

#[test]
fn playback_according_to_sample_rate() {
    let mut player = Player::new();

    player.send(RTP { seq: 0, offset: 0 });
    player.send(RTP { seq: 1, offset: 960 });
    player.send(RTP { seq: 2, offset: 960 * 2 });

    assert_eq!(player.jitter.heap().len(), 3);
    assert!(player.jitter.last().is_none());

    let start = player.now;

    assert_eq!(player.next(), Some(RTP { seq: 0, offset: 0 }));
    assert_eq!(player.millis_since(start), 0);
    assert_eq!(player.jitter.heap().len(), 2);
    assert_eq!(player.last().sequence_number(), 0);
    assert_eq!(player.last().offset(), 0);

    assert_eq!(player.next(), Some(RTP { seq: 1, offset: 960 }));
    assert_eq!(player.millis_since(start), 10);
    assert_eq!(player.jitter.heap().len(), 1);
    assert_eq!(player.last().sequence_number(), 1);
    assert_eq!(player.last().offset(), 960);

    assert_eq!(player.next(), Some(RTP { seq: 2, offset: 960 * 2 }));
    assert_eq!(player.millis_since(start), 20);

    assert_eq!(player.jitter.heap().len(), 0);
    assert_eq!(player.last().sequence_number(), 2);
    assert_eq!(player.last().offset(), 960 * 2);
}

#[test]
fn reorders_racing_packets() {
    let mut player = Player::new();

    player.send(RTP { seq: 0, offset: 0 });
    assert_eq!(player.next(), Some(RTP { seq: 0, offset: 0 }));

    player.send(RTP { seq: 2, offset: 960 * 2 });
    player.send(RTP { seq: 1, offset: 960 });

    assert_eq!(player.next(), Some(RTP { seq: 1, offset: 960 }));
    assert_eq!(player.next(), Some(RTP { seq: 2, offset: 960 * 2 }));
}

#[test]
fn discards_already_played_packets() {
    let mut player = Player::new();

    player.send(RTP { seq: 0, offset: 0 });
    assert_eq!(player.next(), Some(RTP { seq: 0, offset: 0 }));

    assert_eq!(player.send(RTP { seq: 0, offset: 0 }), Flush::Stale);

    player.send(RTP { seq: 1, offset: 960 });
    assert_eq!(player.next(), Some(RTP { seq: 1, offset: 960 }));
}

#[test]
fn discards_duplicated_packets() {
    let mut player = Player::new();

    assert_eq!(player.send(RTP { seq: 0, offset: 0 }), Flush::Stored);
    assert_eq!(player.send(RTP { seq: 0, offset: 0 }), Flush::Duplicate);
    player.send(RTP { seq: 0, offset: 0 });
    player.send(RTP { seq: 0, offset: 0 });
    player.send(RTP { seq: 0, offset: 0 });

    assert_eq!(player.next(), Some(RTP { seq: 0, offset: 0 }));
    assert_eq!(player.jitter.heap().len(), 0);
}

#[test]
fn handles_packet_loss_correctly() {
    let mut player = Player::new();

    player.send(RTP { seq: 0, offset: 0 });
    player.send(RTP { seq: 1, offset: 960 });
    player.send(RTP { seq: 2, offset: 960 * 2 });
    player.send(RTP { seq: 3, offset: 960 * 3 });
    player.send(RTP { seq: 5, offset: 960 * 5 });

    assert_eq!(player.next(), Some(RTP { seq: 0, offset: 0 }));
    assert_eq!(player.next(), Some(RTP { seq: 1, offset: 960 }));
    assert_eq!(player.next(), Some(RTP { seq: 2, offset: 960 * 2 }));
    assert_eq!(player.next(), Some(RTP { seq: 3, offset: 960 * 3 }));
    assert_eq!(player.next(), None);
    assert_eq!(player.next(), Some(RTP { seq: 5, offset: 960 * 5 }));
}

#[test]
fn handles_wrapping_sequence_numbers() {
    let mut player = Player::new();

    let rtp = |seq, logical_seq: usize| RTP { seq, offset: 960 * logical_seq };

    player.send(rtp(u16::MAX - 2, 0));
    player.send(rtp(u16::MAX - 1, 1));
    player.send(rtp(u16::MAX, 2));
    player.send(rtp(u16::MIN, 3));
    player.send(rtp(u16::MIN + 1, 4));
    player.send(rtp(u16::MIN + 2, 5));

    assert_eq!(player.jitter.heap().len(), 6);
    let mut heap = player.jitter.into_heap();
    let mut pop_seq = || heap.pop().unwrap().sequence_number.0;

    assert_eq!(pop_seq(), u16::MAX - 2);
    assert_eq!(pop_seq(), u16::MAX - 1);
    assert_eq!(pop_seq(), u16::MAX);
    assert_eq!(pop_seq(), u16::MIN);
    assert_eq!(pop_seq(), u16::MIN + 1);
    assert_eq!(pop_seq(), u16::MIN + 2);
    assert_eq!(heap.len(), 0);
}

#[test]
fn plays_across_the_wrap_with_a_gap() {
    let mut player = Player::new();
    for seq in [65534, 1, 65535, 2] {
        player.send(numbered(seq));
    }
    assert_eq!(player.next(), Some(numbered(65534)));
    assert_eq!(player.next(), Some(numbered(65535)));
    assert_eq!(player.next(), None);
    assert_eq!(player.next(), Some(numbered(1)));
    assert_eq!(player.next(), Some(numbered(2)));
    assert!(matches!(player.jitter.poll_next(player.now), Next::Starved));
}

#[test]
fn arrival_order_does_not_matter() {
    let orders: [[u16; 4]; 3] = [[101, 104, 102, 105], [105, 104, 102, 101], [104, 101, 105, 102]];
    for order in orders {
        let mut player = Player::new();
        player.send(numbered(100));
        assert_eq!(player.next(), Some(numbered(100)));
        for seq in order {
            assert_eq!(player.send(numbered(seq)), Flush::Stored);
        }
        let played: Vec<Option<u16>> = (0..5).map(|_| player.next().map(|p| p.seq)).collect();
        assert_eq!(played, vec![Some(101), Some(102), None, Some(104), Some(105)]);
    }
}

#[test]
fn replays_are_discarded_across_the_wrap() {
    let mut player = Player::new();
    player.send(numbered(65532));
    assert_eq!(player.next(), Some(numbered(65532)));
    for seq in [65533, 65534, 65535, 0, 1, 2, 3, 4, 5] {
        assert_eq!(player.send(numbered(seq)), Flush::Stored);
        assert_eq!(player.next(), Some(numbered(seq)));
        assert_eq!(player.send(numbered(65532)), Flush::Stale);
        assert_eq!(player.send(numbered(seq)), Flush::Stale);
    }
}

#[test]
fn a_full_buffer_discards_the_first_packet() {
    let mut player = Player::new();
    for seq in 1..=10 {
        assert_eq!(player.send(numbered(seq)), Flush::Stored);
    }
    assert_eq!(player.jitter.size_hint(), (10, None));
    assert_eq!(player.send(numbered(11)), Flush::Replaced);
    assert!(player.jitter.poll_ready());
    assert_eq!(player.jitter.size_hint(), (10, None));
    // what is buffered is not sent twice, full or not
    assert_eq!(player.send(numbered(5)), Flush::Duplicate);
    for seq in 2..=11 {
        assert_eq!(player.next(), Some(numbered(seq)));
    }
    assert_eq!(player.send(numbered(11)), Flush::Stale);
}

#[test]
fn a_full_buffer_is_cleared_for_a_packet_too_far_ahead() {
    let mut player = Player::new();
    for seq in 1..=10 {
        player.send(numbered(seq));
    }
    assert_eq!(player.send(numbered(12)), Flush::Restarted);
    assert_eq!(player.jitter.heap().len(), 1);
}

#[test]
fn a_full_buffer_plays_nothing_for_what_it_discarded() {
    let mut jitter = JitterBuffer::<RTP, 2>::new(SAMPLE_RATE, CHANNELS);
    let mut send = |jitter: &mut JitterBuffer<RTP, 2>, seq| {
        jitter.start_send(numbered(seq)).unwrap();
        jitter.poll_close()
    };
    assert_eq!(send(&mut jitter, 4), Flush::Stored);
    assert!(matches!(jitter.poll_next(0), Next::Yield(Some(RTP { seq: 4, .. }))));
    assert_eq!(send(&mut jitter, 5), Flush::Stored);
    assert_eq!(send(&mut jitter, 6), Flush::Stored);
    assert_eq!(send(&mut jitter, 7), Flush::Replaced);
    jitter.start_delay(0, 0);
    assert_eq!(jitter.delay_elapsed(0), None);
    jitter.start_delay(0, 0);
    assert_eq!(jitter.delay_elapsed(0), Some(numbered(6)));
}

#[test]
fn one_packet_is_queued_at_a_time() {
    let mut jitter = JitterBuffer::<RTP, 2>::new(SAMPLE_RATE, CHANNELS);
    assert!(jitter.queued().is_none());
    jitter.start_send(numbered(6)).unwrap();
    assert!(!jitter.poll_ready());
    assert_eq!(jitter.start_send(numbered(7)), Err(()));
    assert_eq!(jitter.queued(), Some(&numbered(6)));
    assert_eq!(jitter.poll_flush(), Flush::Stored);
    assert!(jitter.poll_ready());
    assert_eq!(jitter.poll_flush(), Flush::Idle);
}

#[test]
fn a_buffer_without_room_takes_nothing() {
    let mut jitter = JitterBuffer::<RTP, 0>::new(SAMPLE_RATE, CHANNELS);
    jitter.start_send(numbered(4)).unwrap();
    assert_eq!(jitter.poll_flush(), Flush::Full);
    assert!(Flush::Full.is_pending());
    assert_eq!(jitter.queued(), Some(&numbered(4)));
    assert!(matches!(jitter.poll_next(0), Next::Starved));
}

#[test]
fn a_packet_too_far_ahead_starts_over() {
    let mut player = Player::new();
    player.send(numbered(20));
    assert_eq!(player.next(), Some(numbered(20)));
    player.send(numbered(22));
    assert_eq!(player.send(numbered(32)), Flush::Stored);
    assert_eq!(player.send(numbered(33)), Flush::Restarted);
    assert_eq!(player.jitter.heap().len(), 1);
    assert!(player.jitter.last().is_none());
    assert_eq!(player.next(), Some(numbered(33)));

    // an earlier packet is never too far ahead
    let mut player = Player::new();
    player.send(numbered(1000));
    assert_eq!(player.send(numbered(3)), Flush::Stored);
    assert_eq!(player.next(), Some(numbered(3)));
}

#[test]
fn reorders_late_packets_at_the_wrap() {
    let mut player = Player::new();
    player.send(numbered(65535));
    assert_eq!(player.send(numbered(65534)), Flush::Stored);
    assert_eq!(player.jitter.heap().len(), 2);
    assert_eq!(player.next(), Some(numbered(65534)));
    assert_eq!(player.next(), Some(numbered(65535)));
}

#[test]
fn takes_packets_in_order_up_to_the_wrap() {
    let mut jitter = JitterBuffer::<RTP, 20>::new(SAMPLE_RATE, CHANNELS);
    for seq in 65527..=65535 {
        jitter.start_send(numbered(seq)).unwrap();
        assert_eq!(jitter.poll_flush(), Flush::Stored);
    }
    assert_eq!(jitter.heap().len(), 9);
}

#[test]
fn packets_across_the_wrap_can_be_too_far_ahead() {
    let mut player = Player::new();
    player.send(numbered(65530));
    assert_eq!(player.send(numbered(4)), Flush::Stored);
    assert_eq!(player.send(numbered(5)), Flush::Restarted);
    assert_eq!(player.next(), Some(numbered(5)));
}

#[test]
fn packets_beyond_the_wrap_can_be_too_far_ahead() {
    let mut player = Player::new();
    player.send(numbered(65530));
    assert_eq!(player.send(numbered(34)), Flush::Restarted);
    assert_eq!(player.jitter.heap().len(), 1);
    // the bound is taken around the wrap
    let mut player = Player::new();
    player.send(numbered(65520));
    assert_eq!(player.send(numbered(5)), Flush::Restarted);
    // and a packet from just before the wrap is late, not ahead
    let mut player = Player::new();
    player.send(numbered(0));
    assert_eq!(player.send(numbered(65535)), Flush::Stored);
    assert_eq!(player.next(), Some(numbered(65535)));
    assert_eq!(player.next(), Some(numbered(0)));
}

#[test]
fn recovers_from_a_stray_packet() {
    let mut player = Player::new();
    player.send(numbered(20));
    assert_eq!(player.next(), Some(numbered(20)));
    assert_eq!(player.send(numbered(65530)), Flush::Stored);
    assert_eq!(player.send(numbered(21)), Flush::Restarted);
    assert!(player.jitter.last().is_none());
    assert_eq!(player.next(), Some(numbered(21)));
    assert_eq!(player.send(numbered(22)), Flush::Stored);
    assert_eq!(player.next(), Some(numbered(22)));
}

#[test]
fn any_mix_of_sends_and_polls_plays_number_after_number() {
    let mut player = Player::new();
    player.send(numbered(65531));
    player.send(numbered(65533));
    assert_eq!(player.next(), Some(numbered(65531)));
    player.send(numbered(65535));
    assert_eq!(player.next(), None);
    player.send(numbered(65532));
    player.send(numbered(1));
    assert_eq!(player.next(), Some(numbered(65533)));
    player.send(numbered(65534));
    assert_eq!(player.next(), Some(numbered(65534)));
    assert_eq!(player.next(), Some(numbered(65535)));
    assert_eq!(player.next(), None);
    player.send(numbered(2));
    assert_eq!(player.next(), Some(numbered(1)));
    assert_eq!(player.next(), Some(numbered(2)));
}

#[test]
fn only_buffered_packets_wake_the_consumer() {
    assert!(Flush::Stored.wakes_consumer());
    assert!(Flush::Replaced.wakes_consumer());
    assert!(Flush::Restarted.wakes_consumer());
    for outcome in [Flush::Idle, Flush::Full, Flush::Stale, Flush::Duplicate] {
        assert!(!outcome.wakes_consumer());
    }
    for outcome in [Flush::Idle, Flush::Stale, Flush::Duplicate, Flush::Stored, Flush::Replaced] {
        assert!(!outcome.is_pending());
    }
}

#[test]
fn a_delay_counts_from_the_last_packet() {
    let mut jitter = JitterBuffer::<RTP, 10>::new(SAMPLE_RATE, CHANNELS);
    for seq in [1, 2] {
        jitter.start_send(numbered(seq)).unwrap();
        jitter.poll_flush();
    }
    assert!(matches!(jitter.poll_next(-5_000_000), Next::Yield(Some(_))));
    assert_eq!(jitter.last().unwrap().yielded_at, Some(-5_000_000));
    assert!(matches!(jitter.poll_next(0), Next::StartDelay));
    assert_eq!(jitter.start_delay(20, 2_000_000), 13_000_000);
    assert!(matches!(jitter.poll_next(0), Next::AwaitDelay));
    // over already, and a clock that was set back
    assert_eq!(jitter.start_delay(20, 15_000_000), 0);
    assert_eq!(jitter.start_delay(20, 99_000_000), 0);
    assert_eq!(jitter.start_delay(20, -6_000_000), 20_000_000);
    assert_eq!(jitter.start_delay(u64::MAX, i128::MAX), 0);
}

#[test]
fn the_longest_time_span_is_measured() {
    let mut jitter = JitterBuffer::<RTP, 10>::new(SAMPLE_RATE, CHANNELS);
    jitter.start_send(numbered(1)).unwrap();
    jitter.poll_flush();
    assert!(matches!(jitter.poll_next(i128::MIN), Next::Yield(Some(_))));
    assert_eq!(jitter.start_delay(3, i128::MAX), 0);
    assert_eq!(jitter.start_delay(3, i128::MIN + 1_000_000), 2_000_000);
}

#[test]
fn plans_a_delay_from_what_is_buffered() {
    let mut player = Player::new();
    for seq in [10, 11, 13] {
        player.send(numbered(seq));
    }
    assert_eq!(player.next(), Some(numbered(10)));
    assert_eq!(
        player.jitter.checked_delay_plan(),
        Some(DelayPlan {
            buffered_samples: 1920,
            sample_rate: 48000,
            loss: LossRatio { lost: 1, buffered: 2 },
            samples: 480,
        })
    );
    assert_eq!(player.jitter.delay_plan(), player.jitter.checked_delay_plan().unwrap());

    // for a packet that was passed over, the next one is taken for the measure
    assert_eq!(player.next(), Some(numbered(11)));
    assert_eq!(player.next(), None);
    assert_eq!(player.jitter.last().unwrap().sequence_number.0, 12);
    assert_eq!(player.jitter.last().unwrap().raw, None);
    assert_eq!(player.jitter.delay_plan().samples, 480);
    assert_eq!(player.jitter.delay_plan().loss, LossRatio { lost: 0, buffered: 1 });
    assert_eq!(JitterBuffer::<RTP, 10>::MAX_DELAY_MILLIS, 200);
}

#[test]
fn no_delay_is_planned_without_channels() {
    let jitter = JitterBuffer::<RTP, 10>::new(SAMPLE_RATE, 0);
    assert_eq!(jitter.checked_delay_plan(), None);
}

#[derive(Debug, Clone)]
struct Huge(u16);

impl Packet for Huge {
    fn sequence_number(&self) -> u16 {
        self.0
    }

    fn offset(&self) -> usize {
        0
    }

    fn samples(&self) -> usize {
        usize::MAX / 2 + 1
    }
}

#[test]
fn no_delay_is_planned_for_too_many_samples() {
    let mut jitter = JitterBuffer::<Huge, 10>::new(SAMPLE_RATE, CHANNELS);
    for seq in [1, 2] {
        assert!(jitter.checked_delay_plan().is_some());
        jitter.start_send(Huge(seq)).unwrap();
        jitter.poll_flush();
    }
    assert_eq!(jitter.checked_delay_plan(), None);
}

fn ratio_of(numbers: &[u16]) -> LossRatio {
    let mut jitter = JitterBuffer::<RTP, 10>::new(SAMPLE_RATE, CHANNELS);
    for seq in numbers {
        jitter.start_send(numbered(*seq)).unwrap();
        assert_eq!(jitter.poll_flush(), Flush::Stored);
    }
    jitter.plr()
}

#[test]
fn counts_the_numbers_that_are_missing() {
    assert_eq!(ratio_of(&[]), LossRatio { lost: 0, buffered: 0 });
    assert_eq!(ratio_of(&[7]), LossRatio { lost: 0, buffered: 1 });
    assert_eq!(ratio_of(&[5, 6, 7, 8]), LossRatio { lost: 0, buffered: 4 });
    assert_eq!(ratio_of(&[1, 4]), LossRatio { lost: 2, buffered: 2 });
    assert_eq!(ratio_of(&[0, 5]), LossRatio { lost: 4, buffered: 2 });
    assert_eq!(ratio_of(&[0, 7, 3]), LossRatio { lost: 5, buffered: 3 });
    // across the wrap: 5 up to the end, and 3 from the start
    assert_eq!(ratio_of(&[65530, 3]), LossRatio { lost: 8, buffered: 2 });
    assert_eq!(ratio_of(&[65535, 0]), LossRatio { lost: 0, buffered: 2 });
    assert_eq!(ratio_of(&[65534, 2]), LossRatio { lost: 3, buffered: 2 });
    // on numbers that run in a circle too
    assert_eq!(ratio_of(&[65535, 0, 9]), LossRatio { lost: 8, buffered: 3 });
}

#[test]
fn loss_does_not_depend_on_the_order_of_arrival() {
    for numbers in [[1, 2, 3], [1, 3, 2], [2, 1, 3], [2, 3, 1], [3, 1, 2], [3, 2, 1]] {
        assert_eq!(ratio_of(&numbers), LossRatio { lost: 0, buffered: 3 });
    }
    for numbers in [[65534, 1, 65535], [65535, 65534, 1], [65534, 65535, 1]] {
        assert_eq!(ratio_of(&numbers), LossRatio { lost: 1, buffered: 3 });
    }
}

#[test]
fn counts_widely_spread_packets() {
    assert_eq!(
        ratio_of(&[60000, 50000, 40000, 30000, 20000, 10000]),
        LossRatio { lost: 49995, buffered: 6 }
    );
    assert_eq!(ratio_of(&[65526, 32800]), LossRatio { lost: 32725, buffered: 2 });
}

#[test]
fn a_played_packet_is_kept_as_a_clone() {
    let mut player = Player::new();
    player.send(numbered(3));
    assert_eq!(player.next(), Some(numbered(3)));
    let last: &JitterPacket<RTP> = player.jitter.last().unwrap();
    assert_eq!(last.raw, Some(numbered(3)));
    assert_eq!(last.sequence_number.0, 3);
}
