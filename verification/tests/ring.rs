use chord::ring::{finger_start, is_between, successor_pos, HashPos, HashRingKey, RING_BITS};

/// The arc test, by walking the ring from `a` to `b`.
fn on_arc_by_walking(p: u8, a: u8, b: u8, left_open: bool, right_open: bool) -> bool {
    if a == b {
        return !left_open && p == a;
    }
    let mut at = a;
    loop {
        if at == p {
            return !((at == a && left_open) || (at == b && right_open));
        }
        if at == b {
            return false;
        }
        at = at.wrapping_add(1);
    }
}

#[test]
fn between_plain_interval() {
    assert!(is_between(5, 1, 10, false, false));
    assert!(is_between(1, 1, 10, false, false));
    assert!(is_between(10, 1, 10, false, false));
    assert!(!is_between(1, 1, 10, true, false));
    assert!(!is_between(10, 1, 10, false, true));
    assert!(!is_between(11, 1, 10, false, false));
    assert!(!is_between(0, 1, 10, false, false));
}

#[test]
fn between_wraps_around() {
    assert!(is_between(250, 200, 5, true, false));
    assert!(is_between(0, 200, 5, true, false));
    assert!(is_between(5, 200, 5, true, false));
    assert!(!is_between(5, 200, 5, true, true));
    assert!(!is_between(200, 200, 5, true, false));
    assert!(is_between(200, 200, 5, false, false));
    assert!(!is_between(100, 200, 5, false, false));
    assert!(is_between(255, 255, 0, false, false));
    assert!(is_between(0, 255, 0, false, false));
    assert!(!is_between(1, 255, 0, false, false));
}

#[test]
fn between_equal_ends() {
    assert!(is_between(7, 7, 7, false, false));
    assert!(is_between(7, 7, 7, false, true));
    assert!(!is_between(7, 7, 7, true, false));
    assert!(!is_between(7, 7, 7, true, true));
    assert!(!is_between(8, 7, 7, false, false));
    assert!(!is_between(6, 7, 7, false, false));
    assert!(is_between(0, 0, 0, false, false));
    assert!(is_between(255, 255, 255, false, false));
}

#[test]
fn between_is_the_arc_everywhere() {
    for a in 0..=255u8 {
        for b in [0u8, 1, 2, 5, 100, 127, 128, 200, 254, 255, a, a.wrapping_add(1), a.wrapping_sub(1)] {
            for p in 0..=255u8 {
                for (left_open, right_open) in
                    [(false, false), (false, true), (true, false), (true, true)]
                {
                    assert_eq!(
                        is_between(p, a, b, left_open, right_open),
                        on_arc_by_walking(p, a, b, left_open, right_open),
                        "p={} a={} b={} lo={} ro={}",
                        p,
                        a,
                        b,
                        left_open,
                        right_open
                    );
                }
            }
        }
    }
}

#[test]
fn whole_ring_from_behind_a_node_to_the_node() {
    for own in [0u8, 1, 17, 254, 255] {
        for p in 0..=255u8 {
            assert!(is_between(p, own.wrapping_add(1), own, false, false));
        }
    }
}

#[test]
fn finger_starts_are_powers_of_two_ahead() {
    assert_eq!(finger_start(0, 0), 1);
    assert_eq!(finger_start(0, 1), 2);
    assert_eq!(finger_start(0, 7), 128);
    assert_eq!(finger_start(10, 3), 18);
    assert_eq!(finger_start(200, 6), 8);
    assert_eq!(finger_start(255, 0), 0);
    assert_eq!(finger_start(255, 7), 127);
    assert_eq!(finger_start(128, 7), 0);
}

#[test]
fn finger_starts_beyond_the_last_finger_are_the_node() {
    for index in [8usize, 9, 31, 32, 64, usize::MAX] {
        assert_eq!(finger_start(10, index), 10);
        assert_eq!(finger_start(255, index), 255);
    }
}

#[test]
fn successor_pos_wraps() {
    assert_eq!(successor_pos(0), 1);
    assert_eq!(successor_pos(41), 42);
    assert_eq!(successor_pos(255), 0);
}

#[test]
fn ring_key_constants() {
    assert_eq!(<HashPos as HashRingKey>::size(), 1);
    assert_eq!(<HashPos as HashRingKey>::one(), 1);
    assert_eq!(<HashPos as HashRingKey>::two(), 2);
    assert_eq!(<HashPos as HashRingKey>::finger_count(), 8);
    assert_eq!(RING_BITS, 8);
}
