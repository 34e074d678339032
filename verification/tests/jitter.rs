use jamurust::jitter::JitterBuffer;

#[test]
fn jitter_buffer_works() {
    let mut buffer = JitterBuffer::new(3);
    assert_eq!(buffer.put_in("A", 20), None);
    assert_eq!(buffer.put_in("B", 21), None);
    assert_eq!(buffer.put_in("C", 22), None);
    assert_eq!(buffer.put_in("D", 23), Some("A"));
    assert_eq!(buffer.put_in("E", 24), Some("B"));
    assert_eq!(buffer.put_in("F", 25), Some("C"));
}

#[test]
fn jitter_buffer_can_handle_jitter() {
    let mut buffer = JitterBuffer::new(3);
    assert_eq!(buffer.put_in("C", 22), None);
    assert_eq!(buffer.put_in("B", 21), None);
    assert_eq!(buffer.put_in("A", 20), None);
    assert_eq!(buffer.put_in("E", 24), Some("A"));
    assert_eq!(buffer.put_in("F", 25), Some("B"));
    assert_eq!(buffer.put_in("D", 23), Some("C"));
}

#[test]
fn jitter_buffer_works_at_u8_boundary() {
    let mut buffer = JitterBuffer::new(3);
    assert_eq!(buffer.put_in("A", 253), None);
    assert_eq!(buffer.put_in("D", 0), None);
    assert_eq!(buffer.put_in("C", 255), None);
    assert_eq!(buffer.put_in("B", 254), Some("A"));
    assert_eq!(buffer.put_in("F", 2), Some("B"));
    assert_eq!(buffer.put_in("E", 1), Some("C"));
}

#[test]
fn jitter_buffer_fill_phase_returns_nothing() {
    let mut buffer = JitterBuffer::new(96);
    for number in 0..96u32 {
        assert_eq!(buffer.put_in(number, (number * 7 % 256) as u8), None);
    }
    assert!(buffer.put_in(96, 0).is_some());
}

#[test]
fn jitter_buffer_is_fifo_under_ordered_input() {
    let capacity = 96usize;
    let start = 200u8;
    let mut buffer = JitterBuffer::new(capacity);
    for at in 0..(2 * capacity) {
        let number = start.wrapping_add(at as u8);
        let evicted = buffer.put_in(at, number);
        if at < capacity {
            assert_eq!(evicted, None);
        } else {
            assert_eq!(evicted, Some(at - capacity));
        }
    }
}

#[test]
fn jitter_buffer_stays_fifo_beyond_two_rounds() {
    let mut buffer = JitterBuffer::new(128);
    for at in 0..1000usize {
        let evicted = buffer.put_in(at, (at % 256) as u8);
        if at < 128 {
            assert_eq!(evicted, None);
        } else {
            assert_eq!(evicted, Some(at - 128));
        }
    }
}

#[test]
fn jitter_buffer_first_eviction_measures_from_zero() {
    // The first window reaches across sequence number 128, so the frame
    // that lies farthest behind 0 is the last one, not the first.
    let mut buffer = JitterBuffer::new(3);
    assert_eq!(buffer.put_in("A", 127), None);
    assert_eq!(buffer.put_in("B", 128), None);
    assert_eq!(buffer.put_in("C", 129), None);
    assert_eq!(buffer.put_in("D", 130), Some("C"));
}

#[test]
fn jitter_buffer_of_one_hands_back_the_previous_frame() {
    let mut buffer = JitterBuffer::new(1);
    assert_eq!(buffer.put_in(10, 5), None);
    assert_eq!(buffer.put_in(11, 6), Some(10));
    assert_eq!(buffer.put_in(12, 200), Some(11));
}

#[test]
fn jitter_buffer_breaks_ties_by_first_slot() {
    let mut buffer = JitterBuffer::new(3);
    assert_eq!(buffer.put_in("first", 9), None);
    assert_eq!(buffer.put_in("second", 9), None);
    assert_eq!(buffer.put_in("third", 9), None);
    assert_eq!(buffer.put_in("fourth", 9), Some("first"));
    assert_eq!(buffer.put_in("fifth", 9), Some("fourth"));
}

#[test]
fn distance_is_the_signed_difference_on_the_circle() {
    assert_eq!(JitterBuffer::<u8>::distance(25, 22), 3);
    assert_eq!(JitterBuffer::<u8>::distance(22, 25), -3);
    assert_eq!(JitterBuffer::<u8>::distance(0, 0), 0);
    assert_eq!(JitterBuffer::<u8>::distance(2, 255), 3);
    assert_eq!(JitterBuffer::<u8>::distance(255, 2), -3);
    assert_eq!(JitterBuffer::<u8>::distance(0, 253), 3);
    assert_eq!(JitterBuffer::<u8>::distance(127, 0), 127);
    assert_eq!(JitterBuffer::<u8>::distance(0, 127), -127);
}

#[test]
fn distance_of_half_the_circle_counts_as_ahead() {
    assert_eq!(JitterBuffer::<u8>::distance(128, 0), -128);
    assert_eq!(JitterBuffer::<u8>::distance(0, 128), -128);
    assert_eq!(JitterBuffer::<u8>::distance(200, 72), -128);

    // A frame half the circle away is the last to leave.
    let mut buffer = JitterBuffer::new(2);
    assert_eq!(buffer.put_in("opposite", 128), None);
    assert_eq!(buffer.put_in("near", 255), None);
    assert_eq!(buffer.put_in("next", 1), Some("near"));
}

#[test]
fn distance_stays_in_range_for_every_pair() {
    for latest in 0..=255u8 {
        for number in 0..=255u8 {
            let behind = JitterBuffer::<u8>::distance(latest, number);
            assert!((-128..=127).contains(&behind));
            assert_eq!((behind as i32).rem_euclid(256), (latest as i32 - number as i32).rem_euclid(256));
        }
    }
}
