//! Little-endian integers on the wire.

use vstd::prelude::*;

verus! {

/// The two bytes of `value`, low byte first.
pub open spec fn spec_le16(value: u16) -> Seq<u8> {
    seq![(value % 256) as u8, (value / 256) as u8]
}

/// The four bytes of `value`, low byte first.
pub open spec fn spec_le32(value: u32) -> Seq<u8> {
    seq![
        (value % 256) as u8,
        (value / 256 % 256) as u8,
        (value / 65536 % 256) as u8,
        (value / 16777216) as u8,
    ]
}

/// The 16-bit integer whose low byte stands at `at` and whose high byte follows.
pub open spec fn spec_read_le16(bytes: Seq<u8>, at: int) -> u16
    recommends
        0 <= at,
        at + 2 <= bytes.len(),
{
    (bytes[at] + 256 * bytes[at + 1]) as u16
}

/// The 32-bit integer whose four bytes start at `at`, low byte first.
pub open spec fn spec_read_le32(bytes: Seq<u8>, at: int) -> u32
    recommends
        0 <= at,
        at + 4 <= bytes.len(),
{
    (bytes[at] + 256 * bytes[at + 1] + 65536 * bytes[at + 2] + 16777216 * bytes[at + 3]) as u32
}

/// Appends `value` to `out`, low byte first.
pub fn push_le16(out: &mut Vec<u8>, value: u16)
    ensures
        final(out)@ == old(out)@ + spec_le16(value),
{
    out.push((value % 256) as u8);
    out.push((value / 256) as u8);
    assert(out@ =~= old(out)@ + spec_le16(value));
}

/// Appends `value` to `out`, low byte first.
pub fn push_le32(out: &mut Vec<u8>, value: u32)
    ensures
        final(out)@ == old(out)@ + spec_le32(value),
{
    out.push((value % 256) as u8);
    out.push((value / 256 % 256) as u8);
    out.push((value / 65536 % 256) as u8);
    out.push((value / 16777216) as u8);
    assert(out@ =~= old(out)@ + spec_le32(value));
}

/// Reads the 16-bit integer that starts at `at`.
pub fn read_le16(bytes: &[u8], at: usize) -> (value: u16)
    requires
        at + 2 <= bytes.len(),
    ensures
        value == spec_read_le16(bytes@, at as int),
{
    let low: u16 = bytes[at] as u16;
    let high: u16 = bytes[at + 1] as u16;
    low + 256 * high
}

/// Reads the 32-bit integer that starts at `at`.
pub fn read_le32(bytes: &[u8], at: usize) -> (value: u32)
    requires
        at + 4 <= bytes.len(),
    ensures
        value == spec_read_le32(bytes@, at as int),
{
    let b0: u32 = bytes[at] as u32;
    let b1: u32 = bytes[at + 1] as u32;
    let b2: u32 = bytes[at + 2] as u32;
    let b3: u32 = bytes[at + 3] as u32;
    b0 + 256 * b1 + 65536 * b2 + 16777216 * b3
}

/// Appends every byte of `bytes` to `out`.
pub fn push_all(out: &mut Vec<u8>, bytes: &[u8])
    ensures
        final(out)@ == old(out)@ + bytes@,
{
    let mut copied: usize = 0;
    while copied < bytes.len()
        invariant
            copied <= bytes.len(),
            out@ == old(out)@ + bytes@.take(copied as int),
        decreases bytes.len() - copied,
    {
        out.push(bytes[copied]);
        copied = copied + 1;
        assert(out@ =~= old(out)@ + bytes@.take(copied as int));
    }
    assert(bytes@.take(copied as int) =~= bytes@);
}

} // verus!
