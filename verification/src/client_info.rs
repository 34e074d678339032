//! The peer roster: the payload of a client-list message, one record per
//! connected client.

use vstd::prelude::*;
use vstd::slice::slice_subrange;
use vstd::utf8::{decode_utf8, encode_utf8_decode_utf8, valid_utf8};
use crate::text::{decode_text, PayloadError};
use crate::wire::{read_le16, read_le32, spec_read_le16, spec_read_le32};

verus! {

/// Bytes of a record up to and including the length of the name.
pub const FIXED_LEN: usize = 14;

/// One connected client as the server describes it.
#[derive(Debug)]
pub struct ClientInfo {
    pub channel_id: u8,
    pub country_id: u16,
    pub instrument_id: u32,
    pub skill_level: u8,
    pub name: String,
    pub city: String,
}

/// What a record is, as plain values.
pub struct ClientInfoView {
    pub channel_id: u8,
    pub country_id: u16,
    pub instrument_id: u32,
    pub skill_level: u8,
    pub name: Seq<char>,
    pub city: Seq<char>,
}

impl View for ClientInfo {
    type V = ClientInfoView;

    open spec fn view(&self) -> ClientInfoView {
        ClientInfoView {
            channel_id: self.channel_id,
            country_id: self.country_id,
            instrument_id: self.instrument_id,
            skill_level: self.skill_level,
            name: self.name@,
            city: self.city@,
        }
    }
}

/// Reading one record from the front of `bytes`: the record and the number
/// of bytes it takes, or the first thing that is wrong.
///
/// A record is the channel id, the country (16 bits), the instrument (32
/// bits), the skill level, four address bytes that are skipped, and two
/// texts, each behind its 16-bit length. The name is checked before the
/// city is looked at.
pub open spec fn spec_parse_client(bytes: Seq<u8>) -> Result<(ClientInfoView, int), PayloadError> {
    if bytes.len() < 14 {
        Err(PayloadError::Eof)
    } else {
        let name_len = spec_read_le16(bytes, 12) as int;
        if bytes.len() < 14 + name_len {
            Err(PayloadError::Eof)
        } else if !valid_utf8(bytes.subrange(14, 14 + name_len)) {
            Err(PayloadError::Utf8)
        } else if bytes.len() < 16 + name_len {
            Err(PayloadError::Eof)
        } else {
            let city_len = spec_read_le16(bytes, 14 + name_len) as int;
            if bytes.len() < 16 + name_len + city_len {
                Err(PayloadError::Eof)
            } else if !valid_utf8(bytes.subrange(16 + name_len, 16 + name_len + city_len)) {
                Err(PayloadError::Utf8)
            } else {
                Ok(
                    (
                        ClientInfoView {
                            channel_id: bytes[0],
                            country_id: spec_read_le16(bytes, 1),
                            instrument_id: spec_read_le32(bytes, 3),
                            skill_level: bytes[7],
                            name: decode_utf8(bytes.subrange(14, 14 + name_len)),
                            city: decode_utf8(
                                bytes.subrange(16 + name_len, 16 + name_len + city_len),
                            ),
                        },
                        16 + name_len + city_len,
                    ),
                )
            }
        }
    }
}

/// Reading records until `bytes` is used up: all of them, or the error of
/// the first record that cannot be read.
///
/// A record that reads takes at least sixteen bytes (see
/// `lemma_parse_client_taken`), so the test on `taken` never fails; it
/// stands here to show that the reading comes to an end.
pub open spec fn spec_parse_all(bytes: Seq<u8>) -> Result<Seq<ClientInfoView>, PayloadError>
    decreases bytes.len(),
{
    if bytes.len() == 0 {
        Ok(Seq::empty())
    } else {
        match spec_parse_client(bytes) {
            Err(e) => Err(e),
            Ok((client, taken)) => {
                if 0 < taken <= bytes.len() {
                    match spec_parse_all(bytes.subrange(taken, bytes.len() as int)) {
                        Err(e) => Err(e),
                        Ok(others) => Ok(seq![client] + others),
                    }
                } else {
                    Err(PayloadError::Eof)
                }
            },
        }
    }
}

/// A record that reads takes at least its sixteen fixed bytes and no more
/// than there are.
pub proof fn lemma_parse_client_taken(bytes: Seq<u8>)
    requires
        spec_parse_client(bytes) is Ok,
    ensures
        16 <= spec_parse_client(bytes)->Ok_0.1 <= bytes.len(),
{
}

/// The views of the records in `clients`, in order.
pub open spec fn spec_views(clients: Seq<ClientInfo>) -> Seq<ClientInfoView> {
    Seq::new(clients.len(), |at: int| clients[at]@)
}

impl ClientInfo {
    /// Reads one record from the front of `bytes` and returns it with the
    /// bytes after it.
    pub fn parse_client<'a>(bytes: &'a [u8]) -> (outcome: Result<
        (&'a [u8], ClientInfo),
        PayloadError,
    >)
        ensures
            match outcome {
                Ok((rest, client)) => spec_parse_client(bytes@) == Ok::<
                    (ClientInfoView, int),
                    PayloadError,
                >((client@, bytes@.len() - rest@.len())) && rest@ == bytes@.subrange(
                    bytes@.len() - rest@.len(),
                    bytes@.len() as int,
                ),
                Err(e) => spec_parse_client(bytes@) == Err::<(ClientInfoView, int), PayloadError>(
                    e,
                ),
            },
    {
        broadcast use encode_utf8_decode_utf8;

        if bytes.len() < FIXED_LEN {
            return Err(PayloadError::Eof);
        }
        let channel_id = bytes[0];
        let country_id = read_le16(bytes, 1);
        let instrument_id = read_le32(bytes, 3);
        let skill_level = bytes[7];
        let name_len = read_le16(bytes, 12) as usize;
        if bytes.len() - FIXED_LEN < name_len {
            return Err(PayloadError::Eof);
        }
        let name_end = FIXED_LEN + name_len;
        let name = match decode_text(slice_subrange(bytes, FIXED_LEN, name_end)) {
            Ok(text) => text,
            Err(e) => {
                return Err(e);
            },
        };
        if bytes.len() - name_end < 2 {
            return Err(PayloadError::Eof);
        }
        let city_len = read_le16(bytes, name_end) as usize;
        let city_start = name_end + 2;
        if bytes.len() - city_start < city_len {
            return Err(PayloadError::Eof);
        }
        let city_end = city_start + city_len;
        let city = match decode_text(slice_subrange(bytes, city_start, city_end)) {
            Ok(text) => text,
            Err(e) => {
                return Err(e);
            },
        };
        let rest = slice_subrange(bytes, city_end, bytes.len());
        let client = ClientInfo {
            channel_id,
            country_id,
            instrument_id,
            skill_level,
            name: name.to_owned(),
            city: city.to_owned(),
        };
        Ok((rest, client))
    }

    /// Reads records until `bytes` is used up. One record that cannot be
    /// read fails the whole list.
    pub fn parse_all(bytes: &[u8]) -> (outcome: Result<Vec<ClientInfo>, PayloadError>)
        ensures
            match outcome {
                Ok(clients) => spec_parse_all(bytes@) == Ok::<Seq<ClientInfoView>, PayloadError>(
                    spec_views(clients@),
                ),
                Err(e) => spec_parse_all(bytes@) == Err::<Seq<ClientInfoView>, PayloadError>(e),
            },
    {
        let mut clients: Vec<ClientInfo> = Vec::new();
        let mut rest = bytes;
        assert(seq![] + spec_views(clients@) =~= spec_views(clients@));
        loop
            invariant
                rest@.len() <= bytes@.len(),
                spec_parse_all(bytes@) == spec_prepend(
                    spec_views(clients@),
                    spec_parse_all(rest@),
                ),
            ensures
                rest@.len() == 0,
                spec_parse_all(bytes@) == spec_prepend(
                    spec_views(clients@),
                    spec_parse_all(rest@),
                ),
            decreases rest@.len(),
        {
            if rest.len() <= 0 {
                break ;
            }
            let ghost parsed = spec_views(clients@);
            let ghost pending = rest@;
            match Self::parse_client(rest) {
                Err(e) => {
                    return Err(e);
                },
                Ok((next, client)) => {
                    proof {
                        lemma_parse_client_taken(pending);
                        let tail = spec_parse_all(next@);
                        assert(spec_views(clients@.push(client)) =~= parsed + seq![client@]);
                        if tail is Ok {
                            assert(parsed + (seq![client@] + tail->Ok_0) =~= (parsed
                                + seq![client@]) + tail->Ok_0);
                        }
                    }
                    clients.push(client);
                    rest = next;
                },
            }
        }
        assert(spec_views(clients@) + Seq::<ClientInfoView>::empty() =~= spec_views(clients@));
        Ok(clients)
    }
}

/// The outcome of a list whose front part read as `parsed` and whose rest
/// came out as `tail`.
pub open spec fn spec_prepend(
    parsed: Seq<ClientInfoView>,
    tail: Result<Seq<ClientInfoView>, PayloadError>,
) -> Result<Seq<ClientInfoView>, PayloadError> {
    match tail {
        Err(e) => Err(e),
        Ok(others) => Ok(parsed + others),
    }
}

} // verus!
