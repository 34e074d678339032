//! A fixed-capacity reorder buffer over an 8-bit sequence space.
//!
//! While it fills, frames are only stored. Once it is full, every frame put
//! in pushes out the frame that lies farthest behind the last frame that was
//! put into the full buffer, and takes its slot.

use vstd::prelude::*;

verus! {

/// One stored frame.
struct Frame<T> {
    sequence_number: u8,
    payload: T,
}

/// The buffer: its capacity, its frames in slot order, and the sequence
/// number that ages are measured from.
pub struct JitterBuffer<T> {
    size: usize,
    frames: Vec<Frame<T>>,
    latest_sequence_number: u8,
}

/// What a buffer is, as plain values. A frame is its sequence number and its
/// payload.
pub struct JitterView<T> {
    pub capacity: nat,
    pub frames: Seq<(u8, T)>,
    pub latest: u8,
}

/// How far `sequence_number` lies behind `latest` on the circle of 256
/// sequence numbers: the difference modulo 256, read as a signed byte.
pub open spec fn spec_distance(latest: u8, sequence_number: u8) -> int {
    let forward = (latest - sequence_number) % 256;
    if forward >= 128 {
        forward - 256
    } else {
        forward
    }
}

/// Slot `slot` holds the oldest frame: none lies farther behind `latest`,
/// and every frame in an earlier slot lies less far behind.
pub open spec fn spec_is_oldest<T>(frames: Seq<(u8, T)>, latest: u8, slot: int) -> bool {
    &&& 0 <= slot < frames.len()
    &&& forall|other: int|
        0 <= other < frames.len() ==> spec_distance(latest, #[trigger] frames[other].0)
            <= spec_distance(latest, frames[slot].0)
    &&& forall|earlier: int|
        0 <= earlier < slot ==> spec_distance(latest, #[trigger] frames[earlier].0)
            < spec_distance(latest, frames[slot].0)
}

/// The slot of the oldest frame.
pub open spec fn spec_oldest<T>(frames: Seq<(u8, T)>, latest: u8) -> int {
    choose|slot: int| spec_is_oldest(frames, latest, slot)
}

/// At most one slot holds the oldest frame.
pub proof fn lemma_oldest_unique<T>(frames: Seq<(u8, T)>, latest: u8, slot: int)
    requires
        spec_is_oldest(frames, latest, slot),
    ensures
        spec_oldest(frames, latest) == slot,
{
    let chosen = spec_oldest(frames, latest);
    assert(spec_is_oldest(frames, latest, chosen));
    if chosen < slot {
        assert(spec_distance(latest, frames[chosen].0) < spec_distance(latest, frames[slot].0));
        assert(spec_distance(latest, frames[slot].0) <= spec_distance(latest, frames[chosen].0));
    } else if slot < chosen {
        assert(spec_distance(latest, frames[slot].0) < spec_distance(latest, frames[chosen].0));
        assert(spec_distance(latest, frames[chosen].0) <= spec_distance(latest, frames[slot].0));
    }
}

/// Where there is a frame, one slot holds the oldest.
pub proof fn lemma_oldest_exists<T>(frames: Seq<(u8, T)>, latest: u8)
    requires
        frames.len() > 0,
    ensures
        spec_is_oldest(frames, latest, spec_oldest(frames, latest)),
    decreases frames.len(),
{
    if frames.len() == 1 {
        assert(spec_is_oldest(frames, latest, 0));
    } else {
        let earlier = frames.drop_last();
        lemma_oldest_exists(earlier, latest);
        let slot = spec_oldest(earlier, latest);
        let last = frames.len() - 1;
        assert forall|other: int| 0 <= other < last implies #[trigger] frames[other]
            == earlier[other] by {}
        if spec_distance(latest, frames[last].0) > spec_distance(latest, earlier[slot].0) {
            assert(spec_is_oldest(frames, latest, last));
        } else {
            assert(spec_is_oldest(frames, latest, slot));
        }
    }
}

/// A buffer with a capacity of at least one that holds no more than it.
pub open spec fn spec_valid<T>(buffer: JitterView<T>) -> bool {
    1 <= buffer.capacity && buffer.frames.len() <= buffer.capacity
}

/// The empty buffer of the given capacity.
pub open spec fn spec_fresh<T>(capacity: nat) -> JitterView<T> {
    JitterView { capacity, frames: Seq::empty(), latest: 0 }
}

/// Putting one frame in: the buffer afterwards and the payload pushed out.
pub open spec fn spec_put_in<T>(buffer: JitterView<T>, payload: T, sequence_number: u8) -> (
    JitterView<T>,
    Option<T>,
) {
    if buffer.frames.len() < buffer.capacity {
        (
            JitterView {
                capacity: buffer.capacity,
                frames: buffer.frames.push((sequence_number, payload)),
                latest: buffer.latest,
            },
            None,
        )
    } else {
        let slot = spec_oldest(buffer.frames, buffer.latest);
        (
            JitterView {
                capacity: buffer.capacity,
                frames: buffer.frames.update(slot, (sequence_number, payload)),
                latest: sequence_number,
            },
            Some(buffer.frames[slot].1),
        )
    }
}

/// The buffer that holds `convert` of each payload in place of the payload.
pub open spec fn spec_map_payloads<T, U>(buffer: JitterView<T>, convert: spec_fn(T) -> U)
    -> JitterView<U> {
    JitterView {
        capacity: buffer.capacity,
        frames: Seq::new(
            buffer.frames.len(),
            |slot: int| (buffer.frames[slot].0, convert(buffer.frames[slot].1)),
        ),
        latest: buffer.latest,
    }
}

/// Which frame leaves depends on the sequence numbers alone: putting a
/// frame in and then converting the payloads gives what converting first and
/// putting the converted frame in gives.
pub proof fn lemma_put_in_maps<T, U>(
    buffer: JitterView<T>,
    payload: T,
    sequence_number: u8,
    convert: spec_fn(T) -> U,
)
    requires
        spec_valid(buffer),
    ensures
        spec_put_in(spec_map_payloads(buffer, convert), convert(payload), sequence_number).0
            == spec_map_payloads(spec_put_in(buffer, payload, sequence_number).0, convert),
        spec_put_in(spec_map_payloads(buffer, convert), convert(payload), sequence_number).1
            == match spec_put_in(buffer, payload, sequence_number).1 {
            Some(evicted) => Some(convert(evicted)),
            None => None,
        },
{
    let mapped = spec_map_payloads(buffer, convert);
    let direct = spec_put_in(mapped, convert(payload), sequence_number);
    let inner = spec_put_in(buffer, payload, sequence_number);
    if buffer.frames.len() < buffer.capacity {
        assert(direct.0.frames =~= spec_map_payloads(inner.0, convert).frames);
    } else {
        lemma_oldest_exists(buffer.frames, buffer.latest);
        let slot = spec_oldest(buffer.frames, buffer.latest);
        assert(spec_is_oldest(mapped.frames, mapped.latest, slot)) by {
            assert forall|other: int| 0 <= other < mapped.frames.len() implies #[trigger] mapped.frames[other].0
                == buffer.frames[other].0 by {}
        }
        lemma_oldest_unique(mapped.frames, mapped.latest, slot);
        assert(direct.0.frames =~= spec_map_payloads(inner.0, convert).frames);
    }
}

/// Putting frames in one after another: the buffer afterwards and what
/// each frame pushed out. A frame is given as its payload and its sequence
/// number.
pub open spec fn spec_put_all<T>(buffer: JitterView<T>, frames: Seq<(T, u8)>) -> (
    JitterView<T>,
    Seq<Option<T>>,
)
    decreases frames.len(),
{
    if frames.len() == 0 {
        (buffer, Seq::empty())
    } else {
        let earlier = spec_put_all(buffer, frames.drop_last());
        let last = spec_put_in(earlier.0, frames.last().0, frames.last().1);
        (last.0, earlier.1.push(last.1))
    }
}

/// The frames that carry `payloads` under consecutive sequence numbers from
/// `start` on, wrapping after 255.
pub open spec fn spec_in_order<T>(payloads: Seq<T>, start: u8) -> Seq<(T, u8)> {
    Seq::new(payloads.len(), |at: int| (payloads[at], ((start + at) % 256) as u8))
}

/// Every frame put in gives one result, and what the first `count` frames
/// push out does not depend on the frames after them.
pub proof fn lemma_put_all_prefix<T>(buffer: JitterView<T>, frames: Seq<(T, u8)>, count: int)
    requires
        0 <= count <= frames.len(),
    ensures
        spec_put_all(buffer, frames).1.len() == frames.len(),
        spec_put_all(buffer, frames.take(count)).1 == spec_put_all(buffer, frames).1.take(count),
    decreases frames.len(),
{
    if frames.len() == 0 {
        assert(frames.take(count) =~= frames);
        assert(spec_put_all(buffer, frames).1.take(count) =~= spec_put_all(buffer, frames).1);
    } else {
        lemma_put_all_prefix(buffer, frames.drop_last(), frames.len() - 1);
        if count == frames.len() {
            assert(frames.take(count) =~= frames);
            assert(spec_put_all(buffer, frames).1.take(count) =~= spec_put_all(buffer, frames).1);
        } else {
            lemma_put_all_prefix(buffer, frames.drop_last(), count);
            assert(frames.drop_last().take(count) =~= frames.take(count));
            assert(spec_put_all(buffer, frames.drop_last()).1.take(count) =~= spec_put_all(
                buffer,
                frames,
            ).1.take(count));
        }
    }
}

/// Fill phase: a fresh buffer takes as many frames as its capacity without
/// pushing any out. It then holds them in the order they came, and still
/// measures ages from sequence number 0.
pub proof fn lemma_fill_phase<T>(capacity: nat, frames: Seq<(T, u8)>)
    requires
        frames.len() <= capacity,
    ensures
        spec_put_all(spec_fresh::<T>(capacity), frames).0 == (JitterView {
            capacity,
            frames: Seq::new(frames.len(), |slot: int| (frames[slot].1, frames[slot].0)),
            latest: 0,
        }),
        spec_put_all(spec_fresh::<T>(capacity), frames).1 == Seq::new(
            frames.len(),
            |at: int| None::<T>,
        ),
    decreases frames.len(),
{
    let filled = spec_put_all(spec_fresh::<T>(capacity), frames);
    if frames.len() > 0 {
        lemma_fill_phase(capacity, frames.drop_last());
    }
    assert(filled.0.frames =~= Seq::new(
        frames.len(),
        |slot: int| (frames[slot].1, frames[slot].0),
    ));
    assert(filled.1 =~= Seq::new(frames.len(), |at: int| None::<T>));
}

/// The state of a buffer that was fed in order, after `count` frames, with
/// the slot of every frame it holds and the frame of every slot.
proof fn lemma_ordered_state<T>(capacity: nat, payloads: Seq<T>, start: u8, count: int) -> (places:
    (Seq<int>, Seq<int>))
    requires
        1 <= capacity <= 128,
        spec_distance(0, start) >= capacity - 129,
        capacity <= count <= payloads.len(),
    ensures
        ({
            let frames = spec_in_order(payloads, start);
            let reached = spec_put_all(spec_fresh::<T>(capacity), frames.take(count));
            let slot_of = places.0;
            let frame_in = places.1;
            &&& reached.0.capacity == capacity
            &&& reached.0.frames.len() == capacity
            &&& reached.0.latest == if count == capacity {
                0u8
            } else {
                frames[count - 1].1
            }
            &&& slot_of.len() == count
            &&& frame_in.len() == capacity
            &&& forall|frame: int|
                count - capacity <= frame < count ==> 0 <= #[trigger] slot_of[frame] < capacity
                    && reached.0.frames[slot_of[frame]] == (frames[frame].1, frames[frame].0)
                    && frame_in[slot_of[frame]] == frame
            &&& forall|slot: int|
                0 <= slot < capacity ==> count - capacity <= #[trigger] frame_in[slot] < count
                    && slot_of[frame_in[slot]] == slot
            &&& reached.1.len() == count
            &&& forall|at: int|
                0 <= at < count ==> #[trigger] reached.1[at] == if at < capacity {
                    None
                } else {
                    Some(payloads[at - capacity])
                }
        }),
    decreases count,
{
    let frames = spec_in_order(payloads, start);
    let fed = frames.take(count);
    let reached = spec_put_all(spec_fresh::<T>(capacity), fed);
    if count == capacity {
        lemma_fill_phase(capacity, fed);
        let slot_of = Seq::new(capacity, |frame: int| frame);
        let frame_in = Seq::new(capacity, |slot: int| slot);
        (slot_of, frame_in)
    } else {
        let before = lemma_ordered_state(capacity, payloads, start, count - 1);
        assert(fed.drop_last() =~= frames.take(count - 1));
        let earlier = spec_put_all(spec_fresh::<T>(capacity), frames.take(count - 1));
        let buffer = earlier.0;
        let leaving = count - 1 - capacity;
        let slot = before.0[leaving];
        let latest = buffer.latest;
        assert(fed.last() == frames[count - 1]);
        assert(spec_is_oldest(buffer.frames, latest, slot)) by {
            assert forall|other: int| 0 <= other < buffer.frames.len() implies spec_distance(
                latest,
                #[trigger] buffer.frames[other].0,
            ) <= spec_distance(latest, buffer.frames[slot].0) && (other != slot ==> spec_distance(
                latest,
                buffer.frames[other].0,
            ) < spec_distance(latest, buffer.frames[slot].0)) by {
                let frame = before.1[other];
                assert(before.0[frame] == other);
                assert(buffer.frames[other].0 == frames[frame].1);
                assert(buffer.frames[slot].0 == frames[leaving].1);
                lemma_ordered_distance(capacity as int, start, count - 1, frame);
                lemma_ordered_distance(capacity as int, start, count - 1, leaving);
            }
        }
        lemma_oldest_unique(buffer.frames, latest, slot);
        let slot_of = before.0.push(slot);
        let frame_in = before.1.update(slot, count - 1);
        assert forall|frame: int| count - capacity <= frame < count implies 0 <= #[trigger] slot_of[frame]
            < capacity && reached.0.frames[slot_of[frame]] == (frames[frame].1, frames[frame].0)
            && frame_in[slot_of[frame]] == frame by {
            if frame < count - 1 {
                assert(before.0[frame] != slot) by {
                    assert(before.1[before.0[frame]] == frame);
                    assert(before.1[before.0[leaving]] == leaving);
                }
            }
        }
        assert forall|place: int| 0 <= place < capacity implies count - capacity
            <= #[trigger] frame_in[place] < count && slot_of[frame_in[place]] == place by {
            if place != slot {
                assert(before.0[before.1[place]] == place);
            }
        }
        assert forall|at: int| 0 <= at < count implies #[trigger] reached.1[at] == if at < capacity {
            None
        } else {
            Some(payloads[at - capacity])
        } by {
            if at < count - 1 {
                assert(reached.1[at] == earlier.1[at]);
            }
        }
        (slot_of, frame_in)
    }
}

/// How far frame number `frame` lies behind the sequence number that ages
/// are measured from, once `count` frames of an ordered feed are in: the
/// later the frame, the less far, one step per frame.
proof fn lemma_ordered_distance(capacity: int, start: u8, count: int, frame: int)
    requires
        1 <= capacity <= 128,
        spec_distance(0, start) >= capacity - 129,
        capacity <= count,
        count - capacity <= frame < count,
    ensures
        count == capacity ==> spec_distance(0, ((start + frame) % 256) as u8) == spec_distance(
            0,
            start,
        ) - frame,
        count > capacity ==> spec_distance(
            ((start + count - 1) % 256) as u8,
            ((start + frame) % 256) as u8,
        ) == count - 1 - frame,
{
    if count == capacity {
        let behind = spec_distance(0, start);
        assert((0 - start - behind) % 256 == 0);
        lemma_distance_of_residues(0, start + frame, behind - frame);
    } else {
        lemma_distance_of_residues(start + count - 1, start + frame, count - 1 - frame);
    }
}

/// The distance between two sequence numbers is the one number from -128
/// to 127 that differs from their difference by a multiple of 256.
proof fn lemma_distance_of_residues(latest: int, number: int, behind: int)
    requires
        -128 <= behind <= 127,
        (latest - number - behind) % 256 == 0,
    ensures
        spec_distance((latest % 256) as u8, (number % 256) as u8) == behind,
{
    let a = latest % 256;
    let b = number % 256;
    assert(0 <= a < 256 && 0 <= b < 256);
    assert((a - b - behind) % 256 == 0);
    let forward = (a - b) % 256;
    assert(forward == behind % 256);
}

/// FIFO under ordered input: when frames come under consecutive sequence
/// numbers, the first `capacity` of them push nothing out and every later
/// one pushes out the payload that came `capacity` frames before it.
///
/// This holds for capacities up to 128 whose first window does not reach
/// across sequence number 128, the point opposite to 0, from which the
/// very first eviction measures ages.
pub proof fn lemma_fifo_under_ordered_input<T>(
    capacity: nat,
    payloads: Seq<T>,
    start: u8,
    at: int,
)
    requires
        1 <= capacity <= 128,
        spec_distance(0, start) >= capacity - 129,
        0 <= at < payloads.len(),
    ensures
        spec_put_all(spec_fresh::<T>(capacity), spec_in_order(payloads, start)).1[at] == if at
            < capacity {
            None
        } else {
            Some(payloads[at - capacity])
        },
{
    let frames = spec_in_order(payloads, start);
    let all = spec_put_all(spec_fresh::<T>(capacity), frames);
    lemma_put_all_prefix(spec_fresh::<T>(capacity), frames, at + 1);
    assert(all.1[at] == all.1.take(at + 1)[at]);
    if at < capacity {
        lemma_fill_phase(capacity, frames.take(at + 1));
    } else {
        let places = lemma_ordered_state(capacity, payloads, start, at + 1);
    }
}

impl<T> View for JitterBuffer<T> {
    type V = JitterView<T>;

    closed spec fn view(&self) -> JitterView<T> {
        JitterView {
            capacity: self.size as nat,
            frames: Seq::new(
                self.frames@.len(),
                |slot: int| (self.frames@[slot].sequence_number, self.frames@[slot].payload),
            ),
            latest: self.latest_sequence_number,
        }
    }
}

impl<T> JitterBuffer<T> {
    /// The buffer holds no more frames than its capacity, which is at least
    /// one.
    pub open spec fn wf(&self) -> bool {
        spec_valid(self@)
    }

    /// An empty buffer for `size` frames.
    pub fn new(size: usize) -> (buffer: JitterBuffer<T>)
        requires
            size >= 1,
        ensures
            buffer.wf(),
            buffer@ == spec_fresh::<T>(size as nat),
    {
        let buffer = JitterBuffer {
            size: size,
            frames: Vec::with_capacity(size),
            latest_sequence_number: 0,
        };
        assert(buffer@.frames =~= Seq::empty());
        buffer
    }

    /// Stores `frame` under `sequence_number`.
    ///
    /// Returns nothing while the buffer fills. From a full buffer it returns
    /// the payload of the oldest frame, whose slot the new frame takes.
    pub fn put_in(&mut self, frame: T, sequence_number: u8) -> (evicted: Option<T>)
        requires
            old(self).wf(),
        ensures
            final(self).wf(),
            (final(self)@, evicted) == spec_put_in(old(self)@, frame, sequence_number),
    {
        if self.frames.len() == self.size {
            let latest = self.latest_sequence_number;
            let ghost before = self@.frames;
            let mut oldest: usize = 0;
            let mut farthest: i16 = Self::distance(latest, self.frames[0].sequence_number);
            let mut slot: usize = 1;
            while slot < self.frames.len()
                invariant
                    *self == *old(self),
                    before == self@.frames,
                    before.len() == self.frames.len(),
                    oldest < slot <= self.frames.len(),
                    farthest == spec_distance(latest, before[oldest as int].0),
                    forall|other: int|
                        0 <= other < slot ==> spec_distance(latest, #[trigger] before[other].0)
                            <= farthest,
                    forall|earlier: int|
                        0 <= earlier < oldest ==> spec_distance(
                            latest,
                            #[trigger] before[earlier].0,
                        ) < farthest,
                decreases self.frames.len() - slot,
            {
                let behind = Self::distance(latest, self.frames[slot].sequence_number);
                if behind > farthest {
                    farthest = behind;
                    oldest = slot;
                }
                slot = slot + 1;
            }
            proof {
                lemma_oldest_unique(before, latest, oldest as int);
            }
            self.frames.push(Frame { sequence_number: sequence_number, payload: frame });
            let leaving = self.frames.swap_remove(oldest);
            self.latest_sequence_number = sequence_number;
            assert(self@.frames =~= before.update(oldest as int, (sequence_number, frame)));
            Some(leaving.payload)
        } else {
            self.frames.push(Frame { sequence_number: sequence_number, payload: frame });
            assert(self@.frames =~= old(self)@.frames.push((sequence_number, frame)));
            None
        }
    }

    /// How far `sequence_number` lies behind `latest_sequence_number`, from
    /// -128 to 127; negative when it lies ahead.
    pub fn distance(latest_sequence_number: u8, sequence_number: u8) -> (behind: i16)
        ensures
            behind == spec_distance(latest_sequence_number, sequence_number),
            -128 <= behind <= 127,
    {
        let mut diff: i16 = (latest_sequence_number as i16) - (sequence_number as i16);
        if diff < -128 {
            diff = diff + 256;
        }
        if diff >= 128 {
            diff = diff - 256;
        }
        diff
    }
}

} // verus!
