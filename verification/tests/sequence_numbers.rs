use jittr::SequenceNumber as S;
use std::cmp::Ordering::{Equal, Greater, Less};

#[test]
fn preserves_u16_ordering_for_non_wrapping_nums() {
    // Preserves normal ordering when not encountering wrapping
    // 1..-1 since otherwise the checks would wrap
    for i in 1..u16::MAX - 1 {
        assert_eq!(S(i - 1).cmp(&S(i)), Less);
        assert_eq!(S(i - 1).cmp(&S(i + 1)), Less);
        assert_eq!(S(i).cmp(&S(i - 1)), Greater);
        assert_eq!(S(i).cmp(&S(i)), Equal);
        assert_eq!(S(i).cmp(&S(i + 1)), Less);
        assert_eq!(S(i + 1).cmp(&S(i - 1)), Greater);
        assert_eq!(S(i + 1).cmp(&S(i)), Greater);
    }
}

#[test]
fn inverts_ordering_if_wrapped() {
    for i in S::WRAPPING_WINDOW_START..u16::MAX {
        for j in u16::MIN..S::WRAPPING_WINDOW_END {
            assert_eq!(S(i).cmp(&S(j)), Less);
            assert_eq!(S(j).cmp(&S(i)), Greater);
        }
    }
}

#[test]
fn respects_window() {
    for i in S::WRAPPING_WINDOW_START..u16::MAX {
        for j in S::WRAPPING_WINDOW_END + 1..S::WRAPPING_WINDOW_END + 8 {
            assert_eq!(S(i).cmp(&S(j)), Greater);
            assert_eq!(S(j).cmp(&S(i)), Less);
        }
    }
}

#[test]
fn window_reaches_eight_numbers_to_either_side() {
    assert_eq!(S::WRAPPING_WINDOW_SIZE, 16);
    assert_eq!(S::WRAPPING_WINDOW_START, 65527);
    assert_eq!(S::WRAPPING_WINDOW_END, 8);
    assert!(S(65527).did_wrap(S(8)));
    assert!(S(65535).did_wrap(S(0)));
    assert!(!S(65526).did_wrap(S(8)));
    assert!(!S(65527).did_wrap(S(9)));
    assert!(!S(8).did_wrap(S(65527)));
}

#[test]
fn exactly_one_of_two_numbers_precedes_the_other() {
    let numbers = [0, 1, 7, 8, 9, 10, 300, 65525, 65526, 65527, 65528, 65534, 65535];
    for a in numbers {
        for b in numbers {
            let expected = match S(b).cmp(&S(a)) {
                Less => Greater,
                Equal => Equal,
                Greater => Less,
            };
            assert_eq!(S(a).cmp(&S(b)), expected);
            assert_eq!(S(a).partial_cmp(&S(b)), Some(expected));
            assert_eq!(S(a) < S(b), expected == Less);
            assert_eq!(S(a) == S(b), a == b);
        }
    }
}

#[test]
fn every_number_precedes_the_next() {
    for i in 0..=u16::MAX {
        assert!(S(i) < S(i.wrapping_add(1)));
    }
}

#[test]
fn what_follows_a_number_follows_the_next_too() {
    for a in (0..20u16).chain(65510..=65535) {
        let next = a.wrapping_add(1);
        for x in (0..40u16).chain(1000..1010).chain(65490..=65535) {
            if S(a) < S(x) {
                assert!(!(S(x) < S(next)));
                assert_eq!(S(next) < S(x), x != next);
            }
        }
    }
}

#[test]
fn order_is_transitive_off_the_circle() {
    assert!(S(65534) < S(65535) && S(65535) < S(3) && S(65534) < S(3));
    assert!(S(3) < S(9) && S(9) < S(65000) && S(3) < S(65000));
}

#[test]
fn order_runs_in_a_circle_around_the_wrap() {
    assert!(S(65535) < S(0));
    assert!(S(0) < S(9));
    assert!(S(9) < S(65535));
}

#[test]
fn converts_to_and_from_u16() {
    assert_eq!(S::from(513), S(513));
    assert_eq!(u16::from(S(513)), 513);
}
