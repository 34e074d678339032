//! Filler audio for the upstream direction: datagrams of two Opus frames
//! that decode to silence, numbered by a rolling counter.

use vstd::prelude::*;

verus! {

/// Bytes of one audio datagram.
pub const PACKET_LEN: usize = 332;

/// Bytes of one half of it: an Opus frame and its sequence number.
pub const HALF_LEN: usize = 166;

/// Bytes of the Opus frame in a half; also where the sequence number stands.
pub const OPUS_LEN: usize = 165;

/// The generator: the sequence number that the next half will carry.
pub struct SilentOpusStream {
    counter: u8,
}

/// A silent half that carries `sequence_number`.
pub open spec fn spec_silent_half(sequence_number: u8) -> Seq<u8> {
    Seq::new(
        166,
        |at: int|
            if at == 0 {
                0x04u8
            } else if at == 1 {
                0xffu8
            } else if at == 2 {
                0xfeu8
            } else if at == 165 {
                sequence_number
            } else {
                0u8
            },
    )
}

/// What `write` leaves in a buffer: the three leading bytes of a silent
/// frame and the sequence number, all else untouched.
pub open spec fn spec_stamp(buffer: Seq<u8>, sequence_number: u8) -> Seq<u8> {
    buffer.update(0, 0x04u8).update(1, 0xffu8).update(2, 0xfeu8).update(165, sequence_number)
}

/// The sequence number after `counter`, wrapping from 255 to 0.
pub open spec fn spec_after(counter: u8) -> u8 {
    ((counter + 1) % 256) as u8
}

/// The silent datagram whose first half carries `counter`.
pub open spec fn spec_silent_packet(counter: u8) -> Seq<u8> {
    spec_silent_half(counter) + spec_silent_half(spec_after(counter))
}

/// The shape of silence: a datagram is 332 bytes long, each half opens
/// with the three bytes of a silent frame, the second half carries the
/// sequence number after that of the first, and the datagram after this one
/// starts two sequence numbers further on.
pub proof fn lemma_silent_packet_shape(counter: u8)
    ensures
        ({
            let packet = spec_silent_packet(counter);
            let following = spec_silent_packet(spec_after(spec_after(counter)));
            &&& packet.len() == 332
            &&& packet[0] == 0x04 && packet[1] == 0xff && packet[2] == 0xfe
            &&& packet[166] == 0x04 && packet[167] == 0xff && packet[168] == 0xfe
            &&& packet[165] == counter
            &&& packet[331] == (packet[165] + 1) % 256
            &&& following[165] == (packet[165] + 2) % 256
        }),
{
}

impl View for SilentOpusStream {
    type V = u8;

    closed spec fn view(&self) -> u8 {
        self.counter
    }
}

impl SilentOpusStream {
    /// A generator whose first half carries sequence number 0.
    pub fn new() -> (stream: Self)
        ensures
            stream@ == 0,
    {
        SilentOpusStream { counter: 0 }
    }

    /// The next silent datagram. Its halves carry the current counter and
    /// the one after it; the counter moves on by two.
    pub fn next(&mut self) -> (packet: [u8; 332])
        ensures
            packet@ == spec_silent_packet(old(self)@),
            final(self)@ == spec_after(spec_after(old(self)@)),
    {
        let mut packet: [u8; 332] = [0; 332];
        let (first, second) = packet.split_at_mut(HALF_LEN);
        self.write(first);
        self.write(second);
        assert(packet@ =~= spec_silent_packet(old(self)@));
        packet
    }

    /// Stamps one silent half into the front of `slice` and moves the
    /// counter on by one.
    pub fn write(&mut self, slice: &mut [u8])
        requires
            old(slice)@.len() >= HALF_LEN,
        ensures
            final(slice)@ == spec_stamp(old(slice)@, old(self)@),
            final(self)@ == spec_after(old(self)@),
    {
        slice[0] = 0x04;
        slice[1] = 0xff;
        slice[2] = 0xfe;
        slice[OPUS_LEN] = self.counter;
        self.counter = self.counter.wrapping_add(1);
    }
}

} // verus!
