//! The control envelope: a zero tag, the message id, a counter, the length
//! of the data, the data, and the checksum of all that came before.

use vstd::prelude::*;
use crate::crc::{crc, lemma_crc_detects_bit_flip, spec_crc, spec_flip};
use crate::wire::{push_all, push_le16, read_le16, spec_le16, spec_read_le16};

verus! {

/// The largest data length that the 16-bit length field can announce.
pub const MAX_DATA_LEN: usize = 65535;

/// Bytes of an envelope before its data.
pub const HEADER_LEN: usize = 7;

/// Bytes of an envelope besides its data: header and checksum.
pub const FRAME_OVERHEAD: usize = 9;

/// One control message, borrowing its data.
#[derive(Debug)]
pub struct Message<'a> {
    pub id: u16,
    pub counter: u8,
    pub data: &'a [u8],
}

/// What a message is, as plain values.
pub struct MessageView {
    pub id: u16,
    pub counter: u8,
    pub data: Seq<u8>,
}

impl<'a> View for Message<'a> {
    type V = MessageView;

    open spec fn view(&self) -> MessageView {
        MessageView { id: self.id, counter: self.counter, data: self.data@ }
    }
}

/// Why a message cannot be put on the wire.
#[derive(Debug, PartialEq, Eq)]
pub enum EncodeError {
    /// The data is longer than the length field can announce.
    DataTooLong,
}

/// Why a datagram is not a control message.
#[derive(Debug, PartialEq, Eq)]
pub enum ParseError {
    /// The datagram does not start with the two zero bytes.
    Tag,
    /// The datagram ends inside the header or before the announced data does.
    Eof,
    /// The two bytes after the data are missing or are not the checksum.
    Checksum,
}

/// The seven header bytes of an envelope that announces `length` data bytes.
pub open spec fn spec_header(id: u16, counter: u8, length: u16) -> Seq<u8> {
    seq![0u8, 0u8] + spec_le16(id) + seq![counter] + spec_le16(length)
}

/// Header and data: the span that the checksum covers.
pub open spec fn spec_body(msg: MessageView) -> Seq<u8> {
    spec_header(msg.id, msg.counter, msg.data.len() as u16) + msg.data
}

/// The envelope of `msg` on the wire.
pub open spec fn spec_envelope(msg: MessageView) -> Seq<u8>
    recommends
        msg.data.len() <= MAX_DATA_LEN,
{
    spec_body(msg) + spec_le16(spec_crc(spec_body(msg)))
}

/// Reading `input` as an envelope: the message and the bytes that follow it,
/// or the first thing that is wrong.
pub open spec fn spec_parse(input: Seq<u8>) -> Result<(MessageView, Seq<u8>), ParseError> {
    if input.len() < 2 || input[0] != 0 || input[1] != 0 {
        Err(ParseError::Tag)
    } else if input.len() < 7 {
        Err(ParseError::Eof)
    } else {
        let length = spec_read_le16(input, 5) as int;
        if input.len() < 7 + length {
            Err(ParseError::Eof)
        } else if input.len() < 9 + length || input.subrange(7 + length, 9 + length) != spec_le16(
            spec_crc(input.subrange(0, 7 + length)),
        ) {
            Err(ParseError::Checksum)
        } else {
            Ok(
                (
                    MessageView {
                        id: spec_read_le16(input, 2),
                        counter: input[4],
                        data: input.subrange(7, 7 + length),
                    },
                    input.subrange(9 + length, input.len() as int),
                ),
            )
        }
    }
}

/// Where the fields of an envelope stand.
proof fn lemma_envelope_layout(msg: MessageView, rest: Seq<u8>)
    requires
        msg.data.len() <= MAX_DATA_LEN,
    ensures
        ({
            let input = spec_envelope(msg) + rest;
            let length = msg.data.len() as int;
            &&& spec_envelope(msg).len() == 9 + length
            &&& input[0] == 0
            &&& input[1] == 0
            &&& spec_read_le16(input, 2) == msg.id
            &&& input[4] == msg.counter
            &&& spec_read_le16(input, 5) == length
            &&& input.subrange(0, 7 + length) == spec_body(msg)
            &&& input.subrange(7, 7 + length) == msg.data
            &&& input.subrange(7 + length, 9 + length) == spec_le16(spec_crc(spec_body(msg)))
            &&& input.subrange(9 + length, input.len() as int) == rest
        }),
{
    let input = spec_envelope(msg) + rest;
    let length = msg.data.len() as int;
    let body = spec_body(msg);
    assert(body.len() == 7 + length);
    assert(input[2] == spec_le16(msg.id)[0]);
    assert(input[3] == spec_le16(msg.id)[1]);
    assert(input[5] == spec_le16(length as u16)[0]);
    assert(input[6] == spec_le16(length as u16)[1]);
    assert(input.subrange(0, 7 + length) =~= body);
    assert(input.subrange(7, 7 + length) =~= msg.data);
    assert(input.subrange(7 + length, 9 + length) =~= spec_le16(spec_crc(body)));
    assert(input.subrange(9 + length, input.len() as int) =~= rest);
}

/// Round trip: an envelope reads back as the message it was made from, and
/// what stands behind it is left over untouched.
pub proof fn lemma_parse_of_envelope(msg: MessageView, rest: Seq<u8>)
    requires
        msg.data.len() <= MAX_DATA_LEN,
    ensures
        spec_parse(spec_envelope(msg) + rest) == Ok::<(MessageView, Seq<u8>), ParseError>(
            (msg, rest),
        ),
{
    lemma_envelope_layout(msg, rest);
}

/// An envelope alone reads back as its message, with nothing left over.
pub proof fn lemma_round_trip(msg: MessageView)
    requires
        msg.data.len() <= MAX_DATA_LEN,
    ensures
        spec_parse(spec_envelope(msg)) == Ok::<(MessageView, Seq<u8>), ParseError>(
            (msg, Seq::empty()),
        ),
{
    lemma_parse_of_envelope(msg, Seq::empty());
    assert(spec_envelope(msg) + Seq::<u8>::empty() =~= spec_envelope(msg));
}

/// The one way an envelope with a bit turned over can still read: the bit
/// lies in the length field, the length it now announces is shorter, and the
/// two bytes behind the shorter data happen to be the checksum of what now
/// stands before them.
pub open spec fn spec_reads_shortened(msg: MessageView, index: int, bit: u8) -> bool {
    let flipped = spec_flip(spec_envelope(msg), index, bit);
    let shorter = spec_read_le16(flipped, 5) as int;
    &&& index == 5 || index == 6
    &&& shorter < msg.data.len()
    &&& flipped.subrange(7 + shorter, 9 + shorter) == spec_le16(
        spec_crc(flipped.subrange(0, 7 + shorter)),
    )
}

/// A bit turned over in the tag: the datagram no longer starts with zeros.
proof fn lemma_flip_in_tag(msg: MessageView, index: int, bit: u8)
    requires
        msg.data.len() <= MAX_DATA_LEN,
        0 <= index < 2,
        bit < 8,
    ensures
        spec_parse(spec_flip(spec_envelope(msg), index, bit)) is Err,
{
    let whole = spec_envelope(msg);
    lemma_envelope_layout(msg, Seq::empty());
    assert(whole + Seq::<u8>::empty() =~= whole);
    let byte = whole[index];
    assert(bit < 8 ==> byte ^ (1u8 << bit) != byte) by (bit_vector);
}

/// A bit turned over in the length field: the announced length changes,
/// and a longer one reaches past the end.
proof fn lemma_flip_in_length(msg: MessageView, index: int, bit: u8)
    requires
        msg.data.len() <= MAX_DATA_LEN,
        index == 5 || index == 6,
        bit < 8,
    ensures
        spec_parse(spec_flip(spec_envelope(msg), index, bit)) is Err <==> !spec_reads_shortened(
            msg,
            index,
            bit,
        ),
{
    let whole = spec_envelope(msg);
    let flipped = spec_flip(whole, index, bit);
    let length = msg.data.len() as int;
    lemma_envelope_layout(msg, Seq::empty());
    assert(whole + Seq::<u8>::empty() =~= whole);
    let byte = whole[index];
    assert(bit < 8 ==> byte ^ (1u8 << bit) != byte) by (bit_vector);
    assert(flipped.len() == 9 + length);
    assert(flipped[0] == 0 && flipped[1] == 0);
    let shorter = spec_read_le16(flipped, 5) as int;
    assert(shorter == flipped[5] + 256 * flipped[6]);
    assert(length == whole[5] + 256 * whole[6]);
    assert(shorter != length);
}

/// A bit turned over in what the checksum covers, outside the length
/// field: the checksum behind it no longer fits.
proof fn lemma_flip_in_body(msg: MessageView, index: int, bit: u8)
    requires
        msg.data.len() <= MAX_DATA_LEN,
        2 <= index < 7 + msg.data.len(),
        index != 5,
        index != 6,
        bit < 8,
    ensures
        spec_parse(spec_flip(spec_envelope(msg), index, bit)) == Err::<
            (MessageView, Seq<u8>),
            ParseError,
        >(ParseError::Checksum),
{
    let whole = spec_envelope(msg);
    let flipped = spec_flip(whole, index, bit);
    let length = msg.data.len() as int;
    let body = spec_body(msg);
    lemma_envelope_layout(msg, Seq::empty());
    assert(whole + Seq::<u8>::empty() =~= whole);
    assert(flipped.len() == 9 + length);
    assert(flipped[0] == 0 && flipped[1] == 0);
    assert(flipped[5] == whole[5] && flipped[6] == whole[6]);
    assert(spec_read_le16(flipped, 5) == length);
    assert(flipped.subrange(0, 7 + length) =~= spec_flip(body, index, bit));
    lemma_crc_detects_bit_flip(body, index, bit);
    let sum = spec_crc(body);
    let other = spec_crc(spec_flip(body, index, bit));
    assert(flipped.subrange(7 + length, 9 + length) =~= spec_le16(sum));
    if spec_le16(sum) == spec_le16(other) {
        assert(spec_le16(sum)[0] == spec_le16(other)[0]);
        assert(spec_le16(sum)[1] == spec_le16(other)[1]);
    }
}

/// A bit turned over in the checksum itself: it no longer is the checksum.
proof fn lemma_flip_in_trailer(msg: MessageView, index: int, bit: u8)
    requires
        msg.data.len() <= MAX_DATA_LEN,
        7 + msg.data.len() <= index < 9 + msg.data.len(),
        bit < 8,
    ensures
        spec_parse(spec_flip(spec_envelope(msg), index, bit)) == Err::<
            (MessageView, Seq<u8>),
            ParseError,
        >(ParseError::Checksum),
{
    let whole = spec_envelope(msg);
    let flipped = spec_flip(whole, index, bit);
    let length = msg.data.len() as int;
    let body = spec_body(msg);
    lemma_envelope_layout(msg, Seq::empty());
    assert(whole + Seq::<u8>::empty() =~= whole);
    let byte = whole[index];
    assert(bit < 8 ==> byte ^ (1u8 << bit) != byte) by (bit_vector);
    assert(flipped.len() == 9 + length);
    assert(flipped[0] == 0 && flipped[1] == 0);
    assert(flipped[5] == whole[5] && flipped[6] == whole[6]);
    assert(spec_read_le16(flipped, 5) == length);
    assert(flipped.subrange(0, 7 + length) =~= body);
    let trailer = flipped.subrange(7 + length, 9 + length);
    let sum = whole.subrange(7 + length, 9 + length);
    assert(trailer[index - 7 - length] == flipped[index]);
    assert(sum[index - 7 - length] == whole[index]);
}

/// A single bit turned over anywhere in an envelope makes it unreadable,
/// unless the envelope reads shortened.
pub proof fn lemma_bit_flip_is_refused(msg: MessageView, index: int, bit: u8)
    requires
        msg.data.len() <= MAX_DATA_LEN,
        0 <= index < spec_envelope(msg).len(),
        bit < 8,
    ensures
        spec_parse(spec_flip(spec_envelope(msg), index, bit)) is Err <==> !spec_reads_shortened(
            msg,
            index,
            bit,
        ),
{
    lemma_envelope_layout(msg, Seq::empty());
    if index < 2 {
        lemma_flip_in_tag(msg, index, bit);
    } else if index == 5 || index == 6 {
        lemma_flip_in_length(msg, index, bit);
    } else if index < 7 + msg.data.len() {
        lemma_flip_in_body(msg, index, bit);
    } else {
        lemma_flip_in_trailer(msg, index, bit);
    }
}

impl<'a> Message<'a> {
    /// Reads one envelope from the front of `input`.
    ///
    /// Returns the message and the bytes after it. Nothing is kept from a
    /// datagram that is refused.
    pub fn parse(input: &'a [u8]) -> (outcome: Result<(&'a [u8], Message<'a>), ParseError>)
        ensures
            match outcome {
                Ok((rest, msg)) => spec_parse(input@) == Ok::<(MessageView, Seq<u8>), ParseError>(
                    (msg@, rest@),
                ),
                Err(e) => spec_parse(input@) == Err::<(MessageView, Seq<u8>), ParseError>(e),
            },
    {
        if input.len() < 2 || input[0] != 0 || input[1] != 0 {
            return Err(ParseError::Tag);
        }
        if input.len() < HEADER_LEN {
            return Err(ParseError::Eof);
        }
        let id = read_le16(input, 2);
        let counter = input[4];
        let length = read_le16(input, 5) as usize;
        if input.len() - HEADER_LEN < length {
            return Err(ParseError::Eof);
        }
        let data_end = HEADER_LEN + length;
        if input.len() - data_end < 2 {
            return Err(ParseError::Checksum);
        }
        let expected = crc(vstd::slice::slice_subrange(input, 0, data_end));
        if input[data_end] != (expected % 256) as u8 || input[data_end + 1] != (expected / 256) as u8 {
            proof {
                let trailer = input@.subrange(data_end as int, data_end + 2);
                assert(trailer[0] == input@[data_end as int]);
                assert(trailer[1] == input@[data_end + 1]);
            }
            return Err(ParseError::Checksum);
        }
        assert(input@.subrange(data_end as int, data_end + 2) =~= spec_le16(expected));
        let data = vstd::slice::slice_subrange(input, HEADER_LEN, data_end);
        let rest = vstd::slice::slice_subrange(input, data_end + 2, input.len());
        Ok((rest, Message { id, counter, data }))
    }

    /// Puts the message on the wire.
    ///
    /// Fails exactly when the data is longer than 65535 bytes.
    pub fn to_bytes(&self) -> (outcome: Result<Vec<u8>, EncodeError>)
        ensures
            self.data@.len() <= MAX_DATA_LEN ==> outcome is Ok && outcome->Ok_0@ == spec_envelope(
                self@,
            ),
            self.data@.len() > MAX_DATA_LEN ==> outcome == Err::<Vec<u8>, EncodeError>(
                EncodeError::DataTooLong,
            ),
    {
        if self.data.len() > MAX_DATA_LEN {
            return Err(EncodeError::DataTooLong);
        }
        let mut bytes: Vec<u8> = Vec::with_capacity(FRAME_OVERHEAD + self.data.len());
        bytes.push(0);
        bytes.push(0);
        push_le16(&mut bytes, self.id);
        bytes.push(self.counter);
        push_le16(&mut bytes, self.data.len() as u16);
        push_all(&mut bytes, self.data);
        assert(bytes@ =~= spec_body(self@));
        let sum = crc(bytes.as_slice());
        push_le16(&mut bytes, sum);
        Ok(bytes)
    }
}

} // verus!
