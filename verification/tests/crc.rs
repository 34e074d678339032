use jamurust::crc::crc;

#[test]
fn crc_of_the_standard_check_string() {
    assert_eq!(crc(b"123456789"), 0xd64e);
}

#[test]
fn crc_of_nothing_is_zero() {
    assert_eq!(crc(&[]), 0x0000);
}

#[test]
fn crc_of_small_inputs() {
    assert_eq!(crc(&[0x00]), 0x1e0f);
    assert_eq!(crc(&[0, 0, 0, 0, 0, 0, 0]), 0x0e31);
}

#[test]
fn crc_of_a_known_envelope() {
    // An acknowledgement of message 11 under counter 9, without its trailer.
    let body = [0x00, 0x00, 0x01, 0x00, 0x09, 0x02, 0x00, 0x0b, 0x00];
    assert_eq!(crc(&body), 0xc602);
}

#[test]
fn crc_is_the_same_every_time() {
    let bytes: Vec<u8> = (0..=255u8).collect();
    assert_eq!(crc(&bytes), crc(&bytes));
}

#[test]
fn crc_notices_every_single_bit() {
    let bytes: Vec<u8> = vec![0x00, 0x00, 0x18, 0x00, 0x05, 0x03, 0x00, 0xde, 0xad, 0xbe];
    let sum = crc(&bytes);
    for index in 0..bytes.len() {
        for bit in 0..8 {
            let mut flipped = bytes.clone();
            flipped[index] ^= 1 << bit;
            assert_ne!(crc(&flipped), sum);
        }
    }
}
