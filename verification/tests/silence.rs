use jamurust::silence::SilentOpusStream;

#[test]
fn first_packet_counts_from_zero() {
    let mut stream = SilentOpusStream::new();
    let packet = stream.next();
    assert_eq!(packet.len(), 332);
    assert_eq!(&packet[0..3], &[0x04, 0xff, 0xfe]);
    assert_eq!(&packet[166..169], &[0x04, 0xff, 0xfe]);
    assert_eq!(packet[165], 0);
    assert_eq!(packet[331], 1);
    for (at, byte) in packet.iter().enumerate() {
        if ![0, 1, 2, 165, 166, 167, 168, 331].contains(&at) {
            assert_eq!(*byte, 0, "byte {}", at);
        }
    }
}

#[test]
fn packets_count_on_by_two_and_wrap() {
    let mut stream = SilentOpusStream::new();
    let mut previous = stream.next();
    for _ in 0..300 {
        let packet = stream.next();
        assert_eq!(packet[331], packet[165].wrapping_add(1));
        assert_eq!(packet[165], previous[165].wrapping_add(2));
        assert_eq!(&packet[0..3], &[0x04, 0xff, 0xfe]);
        assert_eq!(&packet[166..169], &[0x04, 0xff, 0xfe]);
        previous = packet;
    }
}

#[test]
fn counter_wraps_after_255() {
    let mut stream = SilentOpusStream::new();
    for _ in 0..127 {
        stream.next();
    }
    let packet = stream.next();
    assert_eq!(packet[165], 254);
    assert_eq!(packet[331], 255);
    let packet = stream.next();
    assert_eq!(packet[165], 0);
    assert_eq!(packet[331], 1);
}

#[test]
fn write_stamps_one_half_and_leaves_the_rest() {
    let mut stream = SilentOpusStream::new();
    let mut buffer = [0x77u8; 200];
    stream.write(&mut buffer);
    assert_eq!(&buffer[0..3], &[0x04, 0xff, 0xfe]);
    assert_eq!(buffer[165], 0);
    assert_eq!(buffer[3], 0x77);
    assert_eq!(buffer[164], 0x77);
    assert_eq!(buffer[166], 0x77);
    stream.write(&mut buffer[10..]);
    assert_eq!(buffer[175], 1);
    assert_eq!(&buffer[10..13], &[0x04, 0xff, 0xfe]);
}
