//! The 16-bit checksum that closes every control envelope.
//!
//! Generator polynomial x^16 + x^12 + x^5 + 1, register preset to all ones,
//! bytes fed most significant bit first, result transmitted inverted.

use vstd::prelude::*;

verus! {

/// The register after one more message bit has been shifted in.
pub open spec fn spec_feed_bit(state: u16, bit: bool) -> u16 {
    if ((state & 0x8000) != 0) != bit {
        (state << 1) ^ 0x1021
    } else {
        state << 1
    }
}

/// Whether bit `index` of `byte` is set, bit 0 being the least significant.
pub open spec fn spec_bit(byte: u8, index: nat) -> bool {
    (byte >> index) & 1 == 1
}

/// The register after the `count` most significant bits of `byte` have been
/// shifted in, highest bit first.
pub open spec fn spec_feed_bits(state: u16, byte: u8, count: nat) -> u16
    decreases count,
{
    if count == 0 {
        state
    } else {
        spec_feed_bit(
            spec_feed_bits(state, byte, (count - 1) as nat),
            spec_bit(byte, (8 - count) as nat),
        )
    }
}

/// The register after a whole byte.
pub open spec fn spec_feed_byte(state: u16, byte: u8) -> u16 {
    spec_feed_bits(state, byte, 8)
}

/// The register after all of `bytes`, starting from all ones.
pub open spec fn spec_crc_state(bytes: Seq<u8>) -> u16
    decreases bytes.len(),
{
    if bytes.len() == 0 {
        0xFFFF
    } else {
        spec_feed_byte(spec_crc_state(bytes.drop_last()), bytes.last())
    }
}

/// The checksum of `bytes`: the final register, inverted.
pub open spec fn spec_crc(bytes: Seq<u8>) -> u16 {
    (0xFFFF - spec_crc_state(bytes)) as u16
}

/// `bytes` with one bit turned over: bit `bit` of the byte at `index`.
pub open spec fn spec_flip(bytes: Seq<u8>, index: int, bit: u8) -> Seq<u8> {
    bytes.update(index, bytes[index] ^ (1u8 << bit))
}

/// Two registers that differ still differ after the same bit.
proof fn lemma_feed_bit_keeps_apart(first: u16, second: u16, bit: bool)
    requires
        first != second,
    ensures
        spec_feed_bit(first, bit) != spec_feed_bit(second, bit),
{
    assert(first != second ==> spec_feed_bit(first, bit) != spec_feed_bit(second, bit))
        by (bit_vector);
}

/// One register comes apart on two different bits.
proof fn lemma_feed_bit_splits(state: u16)
    ensures
        spec_feed_bit(state, true) != spec_feed_bit(state, false),
{
    assert(spec_feed_bit(state, true) != spec_feed_bit(state, false)) by (bit_vector);
}

/// Turning bit `bit` of a byte over changes that bit and no other.
proof fn lemma_flipped_bits(byte: u8, bit: u8, index: u8)
    requires
        bit < 8,
        index < 8,
    ensures
        spec_bit(byte ^ (1u8 << bit), index as nat) == (spec_bit(byte, index as nat) != (index
            == bit)),
{
    assert(bit < 8 && index < 8 ==> (((byte ^ (1u8 << bit)) >> index) & 1 == 1) == (((byte
        >> index) & 1 == 1) != (index == bit))) by (bit_vector);
}

/// Two registers that differ still differ after the same bits.
proof fn lemma_feed_bits_keeps_apart(first: u16, second: u16, byte: u8, count: nat)
    requires
        first != second,
    ensures
        spec_feed_bits(first, byte, count) != spec_feed_bits(second, byte, count),
    decreases count,
{
    if count > 0 {
        lemma_feed_bits_keeps_apart(first, second, byte, (count - 1) as nat);
        lemma_feed_bit_keeps_apart(
            spec_feed_bits(first, byte, (count - 1) as nat),
            spec_feed_bits(second, byte, (count - 1) as nat),
            spec_bit(byte, (8 - count) as nat),
        );
    }
}

/// Feeding a byte and feeding it with one bit turned over: the registers
/// agree until that bit has been fed and differ from then on.
proof fn lemma_feed_bits_of_flipped(state: u16, byte: u8, bit: u8, count: nat)
    requires
        bit < 8,
        count <= 8,
    ensures
        count < 8 - bit ==> spec_feed_bits(state, byte ^ (1u8 << bit), count) == spec_feed_bits(
            state,
            byte,
            count,
        ),
        count >= 8 - bit ==> spec_feed_bits(state, byte ^ (1u8 << bit), count) != spec_feed_bits(
            state,
            byte,
            count,
        ),
    decreases count,
{
    if count > 0 {
        let flipped = byte ^ (1u8 << bit);
        let index = (8 - count) as u8;
        lemma_feed_bits_of_flipped(state, byte, bit, (count - 1) as nat);
        lemma_flipped_bits(byte, bit, index);
        let before = spec_feed_bits(state, byte, (count - 1) as nat);
        let flipped_before = spec_feed_bits(state, flipped, (count - 1) as nat);
        if count == 8 - bit {
            lemma_feed_bit_splits(before);
        } else if count > 8 - bit {
            lemma_feed_bit_keeps_apart(flipped_before, before, spec_bit(byte, index as nat));
        }
    }
}

/// Two registers that differ still differ after the same bytes.
proof fn lemma_crc_state_keeps_apart(first: Seq<u8>, second: Seq<u8>, from: int)
    requires
        first.len() == second.len(),
        0 <= from <= first.len(),
        spec_crc_state(first.take(from)) != spec_crc_state(second.take(from)),
        forall|at: int| from <= at < first.len() ==> first[at] == second[at],
    ensures
        spec_crc_state(first) != spec_crc_state(second),
    decreases first.len() - from,
{
    if from == first.len() {
        assert(first.take(from) =~= first);
        assert(second.take(from) =~= second);
    } else {
        let next = from + 1;
        assert(first.take(next).drop_last() =~= first.take(from));
        assert(second.take(next).drop_last() =~= second.take(from));
        assert(first.take(next).last() == second.take(next).last());
        lemma_feed_bits_keeps_apart(
            spec_crc_state(first.take(from)),
            spec_crc_state(second.take(from)),
            first[from],
            8,
        );
        lemma_crc_state_keeps_apart(first, second, next);
    }
}

/// The checksum notices every single bit that is turned over.
pub proof fn lemma_crc_detects_bit_flip(bytes: Seq<u8>, index: int, bit: u8)
    requires
        0 <= index < bytes.len(),
        bit < 8,
    ensures
        spec_crc(spec_flip(bytes, index, bit)) != spec_crc(bytes),
{
    let flipped = spec_flip(bytes, index, bit);
    let next = index + 1;
    assert(flipped.take(next).drop_last() =~= bytes.take(index));
    assert(bytes.take(next).drop_last() =~= bytes.take(index));
    lemma_feed_bits_of_flipped(spec_crc_state(bytes.take(index)), bytes[index], bit, 8);
    lemma_crc_state_keeps_apart(flipped, bytes, next);
}

fn feed_bit(state: u16, bit: bool) -> (next: u16)
    ensures
        next == spec_feed_bit(state, bit),
{
    let carry = (state & 0x8000) != 0;
    let shifted = state << 1;
    if carry != bit {
        shifted ^ 0x1021
    } else {
        shifted
    }
}

fn feed_byte(state: u16, byte: u8) -> (next: u16)
    ensures
        next == spec_feed_byte(state, byte),
{
    let mut register = state;
    let mut done: u8 = 0;
    while done < 8
        invariant
            done <= 8,
            register == spec_feed_bits(state, byte, done as nat),
        decreases 8 - done,
    {
        let bit = (byte >> (7 - done)) & 1 == 1;
        register = feed_bit(register, bit);
        done = done + 1;
    }
    register
}

/// Computes the checksum of `bytes`.
pub fn crc(bytes: &[u8]) -> (sum: u16)
    ensures
        sum == spec_crc(bytes@),
{
    let mut state: u16 = 0xFFFF;
    let mut fed: usize = 0;
    while fed < bytes.len()
        invariant
            fed <= bytes.len(),
            state == spec_crc_state(bytes@.take(fed as int)),
        decreases bytes.len() - fed,
    {
        proof {
            let upto = bytes@.take(fed + 1);
            assert(upto.drop_last() =~= bytes@.take(fed as int));
            assert(upto.last() == bytes@[fed as int]);
        }
        state = feed_byte(state, bytes[fed]);
        fed = fed + 1;
    }
    assert(bytes@.take(fed as int) =~= bytes@);
    assert(!state == (0xFFFF - state) as u16) by (bit_vector);
    !state
}

} // verus!
