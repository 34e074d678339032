use jamurust::client_info::ClientInfo;
use jamurust::text::{decode_text, PayloadError};

const RECORDS: [u8; 42] = [
    0x03, 0x14, 0x01, 0x0a, 0x00, 0x00, 0x00, 0x02, 0x7f, 0x00, 0x00, 0x01, 0x04, 0x00, 0x5a, 0x6f,
    0xc3, 0xab, 0x03, 0x00, 0x52, 0x6f, 0x6d, 0x07, 0x00, 0x00, 0x19, 0x00, 0x00, 0x00, 0x03, 0x7f,
    0x00, 0x00, 0x01, 0x03, 0x00, 0x62, 0x6f, 0x62, 0x00, 0x00,
];

#[test]
fn parse_client_reads_one_record() {
    let (rest, client) = ClientInfo::parse_client(&RECORDS).unwrap();
    assert_eq!(client.channel_id, 3);
    assert_eq!(client.country_id, 276);
    assert_eq!(client.instrument_id, 10);
    assert_eq!(client.skill_level, 2);
    assert_eq!(client.name, "Zoë");
    assert_eq!(client.city, "Rom");
    assert_eq!(rest, &RECORDS[23..]);
}

#[test]
fn parse_all_reads_every_record() {
    let clients = ClientInfo::parse_all(&RECORDS).unwrap();
    assert_eq!(clients.len(), 2);
    assert_eq!(clients[0].channel_id, 3);
    assert_eq!(clients[0].name, "Zoë");
    assert_eq!(clients[1].channel_id, 7);
    assert_eq!(clients[1].country_id, 0);
    assert_eq!(clients[1].instrument_id, 25);
    assert_eq!(clients[1].skill_level, 3);
    assert_eq!(clients[1].name, "bob");
    assert_eq!(clients[1].city, "");
}

#[test]
fn parse_all_of_nothing_is_empty() {
    assert_eq!(ClientInfo::parse_all(&[]).unwrap().len(), 0);
}

#[test]
fn parse_all_refuses_a_truncated_list() {
    for len in 1..RECORDS.len() {
        if len == 23 {
            continue;
        }
        assert_eq!(
            ClientInfo::parse_all(&RECORDS[..len]).err(),
            Some(PayloadError::Eof),
            "length {}",
            len
        );
    }
    assert_eq!(ClientInfo::parse_all(&RECORDS[..23]).unwrap().len(), 1);
}

#[test]
fn parse_client_refuses_a_name_that_is_not_text() {
    let mut bytes = RECORDS.to_vec();
    bytes[16] = 0xff;
    assert_eq!(ClientInfo::parse_client(&bytes).err(), Some(PayloadError::Utf8));
    assert_eq!(ClientInfo::parse_all(&bytes).err(), Some(PayloadError::Utf8));
}

#[test]
fn parse_client_refuses_a_city_that_is_not_text() {
    let mut bytes = RECORDS.to_vec();
    bytes[21] = 0x80;
    assert_eq!(ClientInfo::parse_client(&bytes).err(), Some(PayloadError::Utf8));
}

#[test]
fn parse_client_checks_the_name_before_the_city() {
    // The name is not text and the city is cut off: the name is reported.
    let mut bytes = RECORDS[..19].to_vec();
    bytes[16] = 0xff;
    assert_eq!(ClientInfo::parse_client(&bytes).err(), Some(PayloadError::Utf8));
}

#[test]
fn parse_all_fails_as_a_whole_on_a_bad_second_record() {
    let mut bytes = RECORDS.to_vec();
    bytes[38] = 0xc0;
    assert_eq!(ClientInfo::parse_all(&bytes).err(), Some(PayloadError::Utf8));
}

#[test]
fn decode_text_reads_utf8_and_nothing_else() {
    assert_eq!(decode_text("grüße".as_bytes()), Ok("grüße"));
    assert_eq!(decode_text(&[]), Ok(""));
    assert_eq!(decode_text(&[0xc3]), Err(PayloadError::Utf8));
    assert_eq!(decode_text(&[0xed, 0xa0, 0x80]), Err(PayloadError::Utf8));
    assert_eq!(decode_text(&[0xc0, 0x80]), Err(PayloadError::Utf8));
}
