//! The dialogue with the server: message ids, the payloads this client
//! answers with, and what each inbound datagram is.

use vstd::prelude::*;
use vstd::slice::slice_subrange;
use vstd::utf8::{decode_utf8, encode_utf8, encode_utf8_decode_utf8, valid_utf8};
use crate::text::{decode_text, PayloadError};
use crate::wire::{push_all, push_le16, push_le32, spec_le16, spec_le32};

verus! {

/// An acknowledgement.
pub const ID_ACK: u16 = 1;

/// The jitter buffer size this client reports.
pub const ID_JITTER_BUFFER_SIZE: u16 = 10;

/// The server asks for the jitter buffer size.
pub const ID_REQUEST_JITTER_BUFFER_SIZE: u16 = 11;

/// The gain this client wants for one channel.
pub const ID_CHANNEL_GAIN: u16 = 13;

/// A line of chat.
pub const ID_CHAT_TEXT: u16 = 18;

/// The network properties of this client.
pub const ID_NETWORK_PROPERTIES: u16 = 20;

/// The server asks for the network properties.
pub const ID_REQUEST_NETWORK_PROPERTIES: u16 = 21;

/// The server asks who this client is.
pub const ID_REQUEST_CHANNEL_INFO: u16 = 23;

/// The list of connected clients.
pub const ID_CLIENT_LIST: u16 = 24;

/// Who this client is.
pub const ID_CHANNEL_INFO: u16 = 25;

/// The channel the server gave this client.
pub const ID_CLIENT_ID: u16 = 32;

/// The server asks whether split messages are understood.
pub const ID_REQUEST_SPLIT_MESSAGES: u16 = 34;

/// This client leaves.
pub const ID_DISCONNECT: u16 = 1010;

/// Ids from here on are never acknowledged.
pub const FIRST_UNACKNOWLEDGED_ID: u16 = 1000;

/// The jitter buffer size reported to the server, in blocks.
pub const REPORTED_JITTER_BLOCKS: u16 = 4;

/// Unit gain.
pub const GAIN_UNITY: u16 = 0x8000;

/// The instrument code of a listener.
pub const INSTRUMENT_LISTENER: u32 = 25;

/// The skill level this client announces.
pub const SKILL_LEVEL: u8 = 3;

/// The payload that reports the jitter buffer size.
pub open spec fn spec_jitter_buffer_size() -> Seq<u8> {
    spec_le16(4)
}

/// The network properties: bytes per audio half (166), blocks per packet
/// (2), channels (2), sample rate (48000), codec Opus (2), flags with
/// sequence numbers (1), no codec options (0).
pub open spec fn spec_network_properties() -> Seq<u8> {
    spec_le32(166) + spec_le16(2) + seq![2u8] + spec_le32(48000) + spec_le16(2) + spec_le16(1)
        + spec_le32(0)
}

/// Who this client is: no country, a listener, the skill level, the name
/// behind its length, and an empty city. A name of more than 65535 bytes
/// announces its length modulo 65536.
pub open spec fn spec_channel_info(name: Seq<char>) -> Seq<u8> {
    let text = encode_utf8(name);
    spec_le16(0) + spec_le32(25) + seq![3u8] + spec_le16((text.len() % 65536) as u16) + text
        + spec_le16(0)
}

/// The request to hear `channel_id` at unit gain.
pub open spec fn spec_unmute(channel_id: u8) -> Seq<u8> {
    seq![channel_id] + spec_le16(0x8000)
}

/// The payload of the acknowledgement of message `id`.
pub open spec fn spec_ack_payload(id: u16) -> Seq<u8> {
    spec_le16(id)
}

/// The text of a chat payload: what follows the two length bytes.
pub open spec fn spec_chat_text(data: Seq<u8>) -> Result<Seq<char>, PayloadError> {
    if data.len() < 2 {
        Err(PayloadError::Eof)
    } else if !valid_utf8(data.subrange(2, data.len() as int)) {
        Err(PayloadError::Utf8)
    } else {
        Ok(decode_utf8(data.subrange(2, data.len() as int)))
    }
}

/// The two halves of an audio datagram: each an Opus frame of 165 bytes and
/// the sequence number behind it. Nothing for a datagram of another length.
pub open spec fn spec_audio_halves(packet: Seq<u8>) -> Option<((Seq<u8>, u8), (Seq<u8>, u8))> {
    if packet.len() == 332 {
        Some(((packet.subrange(0, 165), packet[165]), (packet.subrange(166, 331), packet[331])))
    } else {
        None
    }
}

/// Builds the payload that reports the jitter buffer size.
pub fn jitter_buffer_size() -> (payload: Vec<u8>)
    ensures
        payload@ == spec_jitter_buffer_size(),
{
    let mut bytes: Vec<u8> = Vec::with_capacity(2);
    push_le16(&mut bytes, REPORTED_JITTER_BLOCKS);
    assert(bytes@ =~= spec_jitter_buffer_size());
    bytes
}

/// Builds the nineteen bytes of network properties.
pub fn network_properties() -> (payload: Vec<u8>)
    ensures
        payload@ == spec_network_properties(),
        payload@.len() == 19,
{
    let mut bytes: Vec<u8> = Vec::with_capacity(19);
    push_le32(&mut bytes, 166);
    push_le16(&mut bytes, 2);
    bytes.push(2);
    push_le32(&mut bytes, 48000);
    push_le16(&mut bytes, 2);
    push_le16(&mut bytes, 1);
    push_le32(&mut bytes, 0);
    assert(bytes@ =~= spec_network_properties());
    bytes
}

/// Builds the channel info of a listener called `name`.
pub fn channel_info(name: &str) -> (payload: Vec<u8>)
    ensures
        payload@ == spec_channel_info(name@),
{
    let text = name.as_bytes();
    let mut bytes: Vec<u8> = Vec::new();
    push_le16(&mut bytes, 0);
    push_le32(&mut bytes, INSTRUMENT_LISTENER);
    bytes.push(SKILL_LEVEL);
    push_le16(&mut bytes, (text.len() % 65536) as u16);
    push_all(&mut bytes, text);
    push_le16(&mut bytes, 0);
    assert(bytes@ =~= spec_channel_info(name@));
    bytes
}

/// Builds the request to hear `channel_id` at unit gain.
pub fn unmute(channel_id: u8) -> (payload: Vec<u8>)
    ensures
        payload@ == spec_unmute(channel_id),
        payload@.len() == 3,
{
    let mut bytes: Vec<u8> = Vec::with_capacity(3);
    bytes.push(channel_id);
    push_le16(&mut bytes, GAIN_UNITY);
    assert(bytes@ =~= spec_unmute(channel_id));
    bytes
}

/// Builds the payload of the acknowledgement of message `id`.
pub fn ack_payload(id: u16) -> (payload: Vec<u8>)
    ensures
        payload@ == spec_ack_payload(id),
        payload@.len() == 2,
{
    let mut bytes: Vec<u8> = Vec::with_capacity(2);
    push_le16(&mut bytes, id);
    assert(bytes@ =~= spec_ack_payload(id));
    bytes
}

/// Reads the text of a chat payload.
pub fn chat_text(data: &[u8]) -> (outcome: Result<&str, PayloadError>)
    ensures
        match outcome {
            Ok(text) => spec_chat_text(data@) == Ok::<Seq<char>, PayloadError>(text@),
            Err(e) => spec_chat_text(data@) == Err::<Seq<char>, PayloadError>(e),
        },
{
    broadcast use encode_utf8_decode_utf8;

    if data.len() < 2 {
        return Err(PayloadError::Eof);
    }
    decode_text(slice_subrange(data, 2, data.len()))
}

/// Splits an audio datagram into its two halves.
pub fn audio_halves<'a>(packet: &'a [u8]) -> (halves: Option<((&'a [u8], u8), (&'a [u8], u8))>)
    ensures
        match halves {
            Some(((first, first_number), (second, second_number))) => spec_audio_halves(packet@)
                == Some(((first@, first_number), (second@, second_number))),
            None => spec_audio_halves(packet@) is None,
        },
{
    if packet.len() == 332 {
        let first = slice_subrange(packet, 0, 165);
        let second = slice_subrange(packet, 166, 331);
        Some(((first, packet[165]), (second, packet[331])))
    } else {
        None
    }
}

} // verus!
