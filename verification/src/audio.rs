//! The audio path between the session and the decoder: Opus frames wait in
//! a jitter buffer, and decoded samples become the bytes of the PCM stream.

use vstd::prelude::*;
use vstd::slice::slice_to_vec;
use crate::jitter::{
    lemma_put_in_maps,
    spec_fresh,
    spec_map_payloads,
    spec_put_in,
    JitterBuffer,
    JitterView,
};
use crate::wire::{push_le16, spec_le16};

verus! {

/// Samples per second and channel.
pub const SAMPLE_RATE: u32 = 48000;

/// Channels, interleaved.
pub const CHANNELS: u8 = 2;

/// Samples per channel in one Opus frame.
pub const FRAME_SIZE: u32 = 128;

/// Frames the jitter buffer holds unless the host says otherwise.
pub const DEFAULT_JITTER_CAPACITY: usize = 96;

/// The 16 bits of `sample` as an unsigned number: its two's complement.
pub open spec fn spec_twos_complement(sample: i16) -> u16 {
    if sample < 0 {
        (sample + 65536) as u16
    } else {
        sample as u16
    }
}

/// The PCM stream of `samples`: two bytes per sample, low byte first.
pub open spec fn spec_pcm(samples: Seq<i16>) -> Seq<u8>
    decreases samples.len(),
{
    if samples.len() == 0 {
        Seq::empty()
    } else {
        spec_pcm(samples.drop_last()) + spec_le16(spec_twos_complement(samples.last()))
    }
}

/// Turns what the decoder produced into bytes for the sink: the first
/// `decoded` samples of each of the two channels, as they lie interleaved at
/// the front of `output`.
pub fn pcm_bytes(output: &[i16], decoded: usize) -> (bytes: Vec<u8>)
    requires
        2 * decoded <= output@.len(),
    ensures
        bytes@ == spec_pcm(output@.take(2 * decoded)),
{
    let available = output.len();
    let count = decoded * 2;
    let mut bytes: Vec<u8> = Vec::new();
    let mut at: usize = 0;
    while at < count
        invariant
            at <= count <= available == output@.len(),
            bytes@ == spec_pcm(output@.take(at as int)),
        decreases count - at,
    {
        let sample = output[at];
        assert(sample as u16 == spec_twos_complement(sample)) by (bit_vector);
        push_le16(&mut bytes, sample as u16);
        proof {
            let upto = output@.take(at + 1);
            assert(upto.drop_last() =~= output@.take(at as int));
            assert(upto.last() == sample);
        }
        at = at + 1;
    }
    bytes
}

/// The frames that wait to be decoded, and whether the sink has failed.
pub struct AudioPath {
    jitter_buffer: JitterBuffer<Vec<u8>>,
    dead: bool,
}

/// What an audio path is, as plain values.
pub struct AudioPathView {
    pub buffer: JitterView<Seq<u8>>,
    pub dead: bool,
}

/// Taking one frame in: the path afterwards and the frame that is due for
/// decoding. A path whose sink has failed takes nothing in.
pub open spec fn spec_accept(path: AudioPathView, packet: Seq<u8>, sequence_number: u8) -> (
    AudioPathView,
    Option<Seq<u8>>,
) {
    if path.dead {
        (path, None)
    } else {
        let put = spec_put_in(path.buffer, packet, sequence_number);
        (AudioPathView { buffer: put.0, dead: false }, put.1)
    }
}

impl View for AudioPath {
    type V = AudioPathView;

    closed spec fn view(&self) -> AudioPathView {
        AudioPathView {
            buffer: spec_map_payloads(self.jitter_buffer@, |frame: Vec<u8>| frame@),
            dead: self.dead,
        }
    }
}

impl AudioPath {
    /// The jitter buffer holds no more than its capacity.
    pub closed spec fn wf(&self) -> bool {
        self.jitter_buffer.wf()
    }

    /// An audio path whose jitter buffer holds `capacity` frames.
    pub fn new(capacity: usize) -> (path: Self)
        requires
            capacity >= 1,
        ensures
            path.wf(),
            path@ == (AudioPathView { buffer: spec_fresh(capacity as nat), dead: false }),
    {
        let path = AudioPath { jitter_buffer: JitterBuffer::new(capacity), dead: false };
        assert(path@.buffer.frames =~= Seq::empty());
        path
    }

    /// Takes in one Opus frame and returns the frame that is now due for
    /// decoding, if any.
    pub fn accept(&mut self, packet: &[u8], sequence_number: u8) -> (due: Option<Vec<u8>>)
        requires
            old(self).wf(),
        ensures
            final(self).wf(),
            final(self)@ == spec_accept(old(self)@, packet@, sequence_number).0,
            match due {
                Some(frame) => spec_accept(old(self)@, packet@, sequence_number).1 == Some(frame@),
                None => spec_accept(old(self)@, packet@, sequence_number).1 is None,
            },
    {
        if self.dead {
            return None;
        }
        let frame = slice_to_vec(packet);
        proof {
            lemma_put_in_maps(
                self.jitter_buffer@,
                frame,
                sequence_number,
                |frame: Vec<u8>| frame@,
            );
        }
        self.jitter_buffer.put_in(frame, sequence_number)
    }

    /// Records that the sink has failed: from now on frames are dropped.
    pub fn sink_failed(&mut self)
        ensures
            final(self).wf() == old(self).wf(),
            final(self)@ == (AudioPathView { dead: true, ..old(self)@ }),
    {
        self.dead = true;
    }

    /// Whether the sink has failed.
    pub fn is_dead(&self) -> (dead: bool)
        ensures
            dead == self@.dead,
    {
        self.dead
    }
}

} // verus!
