use jamurust::message::{EncodeError, Message, ParseError};

const ACK_OF_11: [u8; 11] = [0x00, 0x00, 0x01, 0x00, 0x09, 0x02, 0x00, 0x0b, 0x00, 0x02, 0xc6];

#[test]
fn to_bytes_frames_a_message() {
    let msg = Message { id: 1, counter: 9, data: &[0x0b, 0x00] };
    assert_eq!(msg.to_bytes(), Ok(ACK_OF_11.to_vec()));
}

#[test]
fn to_bytes_frames_an_empty_message() {
    let msg = Message { id: 1010, counter: 1, data: &[] };
    assert_eq!(
        msg.to_bytes(),
        Ok(vec![0x00, 0x00, 0xf2, 0x03, 0x01, 0x00, 0x00, 0x08, 0xd9])
    );
}

#[test]
fn to_bytes_takes_the_longest_data() {
    let data = vec![0x5a; 65535];
    let msg = Message { id: 7, counter: 0, data: &data };
    let bytes = msg.to_bytes().unwrap();
    assert_eq!(bytes.len(), 65535 + 9);
    assert_eq!(&bytes[5..7], &[0xff, 0xff]);
    let (rest, back) = Message::parse(&bytes).unwrap();
    assert!(rest.is_empty());
    assert_eq!(back.data, &data[..]);
}

#[test]
fn to_bytes_refuses_data_that_is_too_long() {
    let data = vec![0; 65536];
    let msg = Message { id: 7, counter: 0, data: &data };
    assert_eq!(msg.to_bytes(), Err(EncodeError::DataTooLong));
}

#[test]
fn parse_reads_a_message() {
    let (rest, msg) = Message::parse(&ACK_OF_11).unwrap();
    assert!(rest.is_empty());
    assert_eq!(msg.id, 1);
    assert_eq!(msg.counter, 9);
    assert_eq!(msg.data, &[0x0b, 0x00]);
}

#[test]
fn parse_leaves_what_follows() {
    let mut bytes = ACK_OF_11.to_vec();
    bytes.extend_from_slice(&[1, 2, 3]);
    let (rest, msg) = Message::parse(&bytes).unwrap();
    assert_eq!(rest, &[1, 2, 3]);
    assert_eq!(msg.id, 1);
}

#[test]
fn parse_round_trips() {
    for id in [0u16, 1, 24, 999, 1000, 1010, 65535] {
        for counter in [0u8, 1, 127, 255] {
            for len in [0usize, 1, 2, 19, 300] {
                let data: Vec<u8> = (0..len).map(|at| (at * 31 + id as usize) as u8).collect();
                let bytes = Message { id, counter, data: &data }.to_bytes().unwrap();
                let (rest, msg) = Message::parse(&bytes).unwrap();
                assert!(rest.is_empty());
                assert_eq!(msg.id, id);
                assert_eq!(msg.counter, counter);
                assert_eq!(msg.data, &data[..]);
            }
        }
    }
}

#[test]
fn parse_refuses_a_wrong_tag() {
    let mut bytes = ACK_OF_11.to_vec();
    bytes[1] = 1;
    assert_eq!(Message::parse(&bytes).err(), Some(ParseError::Tag));
    assert_eq!(Message::parse(&[]).err(), Some(ParseError::Tag));
    assert_eq!(Message::parse(&[0]).err(), Some(ParseError::Tag));
    assert_eq!(Message::parse(&[4, 0xff, 0xfe]).err(), Some(ParseError::Tag));
}

#[test]
fn parse_refuses_a_short_header() {
    assert_eq!(Message::parse(&[0, 0]).err(), Some(ParseError::Eof));
    assert_eq!(Message::parse(&[0, 0, 1, 0, 9, 2]).err(), Some(ParseError::Eof));
}

#[test]
fn parse_refuses_missing_data() {
    assert_eq!(Message::parse(&ACK_OF_11[..8]).err(), Some(ParseError::Eof));
    assert_eq!(Message::parse(&[0, 0, 1, 0, 9, 0xff, 0xff]).err(), Some(ParseError::Eof));
}

#[test]
fn parse_refuses_a_missing_or_wrong_checksum() {
    assert_eq!(Message::parse(&ACK_OF_11[..9]).err(), Some(ParseError::Checksum));
    assert_eq!(Message::parse(&ACK_OF_11[..10]).err(), Some(ParseError::Checksum));
    let mut swapped = ACK_OF_11.to_vec();
    swapped.swap(9, 10);
    assert_eq!(Message::parse(&swapped).err(), Some(ParseError::Checksum));
}

#[test]
fn parse_refuses_every_flipped_bit() {
    let data = [0xde, 0xad, 0xbe, 0xef, 0x00, 0xff];
    let bytes = Message { id: 24, counter: 5, data: &data }.to_bytes().unwrap();
    for index in 0..bytes.len() {
        for bit in 0..8 {
            let mut flipped = bytes.clone();
            flipped[index] ^= 1 << bit;
            assert!(Message::parse(&flipped).is_err(), "byte {} bit {}", index, bit);
        }
    }
}

#[test]
fn parse_reads_a_shortened_envelope_whose_data_holds_a_checksum() {
    // The data is the checksum of the seven header bytes of an empty
    // message. Clearing the one set bit of the length makes it the trailer.
    let bytes = Message { id: 0, counter: 0, data: &[0x31, 0x0e] }.to_bytes().unwrap();
    assert_eq!(
        bytes,
        vec![0x00, 0x00, 0x00, 0x00, 0x00, 0x02, 0x00, 0x31, 0x0e, 0x8f, 0xdd]
    );
    let mut flipped = bytes.clone();
    flipped[5] ^= 1 << 1;
    let (rest, msg) = Message::parse(&flipped).unwrap();
    assert_eq!(rest, &[0x8f, 0xdd]);
    assert_eq!(msg.id, 0);
    assert!(msg.data.is_empty());
}
