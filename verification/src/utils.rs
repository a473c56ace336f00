//! Big-endian integer access into a byte buffer. Every multi-byte field of
//! the wire format goes through these primitives, so endianness and bounds
//! are handled in exactly one place. Reading or writing past the end of the
//! buffer is a contract violation of the caller, excluded by `requires`.

use vstd::prelude::*;

verus! {

/// The big-endian 16-bit integer held at `pos`.
pub open spec fn spec_u16_at(data: Seq<u8>, pos: int) -> u16
    recommends
        0 <= pos,
        pos + 2 <= data.len(),
{
    ((data[pos] as int) * 256 + (data[pos + 1] as int)) as u16
}

/// The big-endian 32-bit integer held at `pos`.
pub open spec fn spec_u32_at(data: Seq<u8>, pos: int) -> u32
    recommends
        0 <= pos,
        pos + 4 <= data.len(),
{
    ((data[pos] as int) * 0x1000000 + (data[pos + 1] as int) * 0x10000 + (data[pos + 2] as int)
        * 0x100 + (data[pos + 3] as int)) as u32
}

/// Read one byte at `*index` and advance the cursor past it.
pub fn read_u8(data: &[u8], index: &mut usize) -> (b: u8)
    requires
        *old(index) < data@.len(),
    ensures
        b == data@[*old(index) as int],
        *final(index) == *old(index) + 1,
{
    let b = data[*index];
    *index = *index + 1;
    b
}

/// Read a big-endian 16-bit integer at `*index` and advance the cursor
/// past it.
pub fn read_u16(data: &[u8], index: &mut usize) -> (v: u16)
    requires
        *old(index) + 2 <= data@.len(),
    ensures
        v == spec_u16_at(data@, *old(index) as int),
        *final(index) == *old(index) + 2,
{
    let hi = data[*index];
    let lo = data[*index + 1];
    *index = *index + 2;
    (hi as u16) * 256 + (lo as u16)
}

/// Read a big-endian 32-bit integer at `*index` and advance the cursor
/// past it.
pub fn read_u32(data: &[u8], index: &mut usize) -> (v: u32)
    requires
        *old(index) + 4 <= data@.len(),
    ensures
        v == spec_u32_at(data@, *old(index) as int),
        *final(index) == *old(index) + 4,
{
    let b0 = data[*index];
    let b1 = data[*index + 1];
    let b2 = data[*index + 2];
    let b3 = data[*index + 3];
    *index = *index + 4;
    (b0 as u32) * 0x1000000 + (b1 as u32) * 0x10000 + (b2 as u32) * 0x100 + (b3 as u32)
}

/// Overwrite the two bytes at `*pos` with `val` in big-endian order and
/// advance the cursor past them.
pub fn write_u16(target: &mut Vec<u8>, pos: &mut usize, val: u16)
    requires
        *old(pos) + 2 <= old(target)@.len(),
    ensures
        final(target)@ == old(target)@.update(*old(pos) as int, (val / 256) as u8).update(
            *old(pos) + 1,
            (val % 256) as u8,
        ),
        final(target)@.len() == old(target)@.len(),
        *final(pos) == *old(pos) + 2,
        spec_u16_at(final(target)@, *old(pos) as int) == val,
{
    let p: usize = *pos;
    let n: usize = target.len();
    proof {
        assert(p + 2 <= n);
    }
    target[p] = (val / 256) as u8;
    target[p + 1] = (val % 256) as u8;
    *pos = p + 2;
}

/// Overwrite the four bytes at `*pos` with `val` in big-endian order and
/// advance the cursor past them.
pub fn write_u32(target: &mut Vec<u8>, pos: &mut usize, val: u32)
    requires
        *old(pos) + 4 <= old(target)@.len(),
    ensures
        final(target)@ == old(target)@.update(*old(pos) as int, (val / 0x1000000) as u8).update(
            *old(pos) + 1,
            ((val / 0x10000) % 0x100) as u8,
        ).update(*old(pos) + 2, ((val / 0x100) % 0x100) as u8).update(
            *old(pos) + 3,
            (val % 0x100) as u8,
        ),
        final(target)@.len() == old(target)@.len(),
        *final(pos) == *old(pos) + 4,
        spec_u32_at(final(target)@, *old(pos) as int) == val,
{
    let p: usize = *pos;
    let n: usize = target.len();
    proof {
        assert(p + 4 <= n);
    }
    target[p] = (val / 0x1000000) as u8;
    target[p + 1] = ((val / 0x10000) % 0x100) as u8;
    target[p + 2] = ((val / 0x100) % 0x100) as u8;
    target[p + 3] = (val % 0x100) as u8;
    *pos = p + 4;
}

/// Append `val` to the buffer in big-endian order.
pub fn append_u16(buffer: &mut Vec<u8>, val: u16)
    ensures
        final(buffer)@ == old(buffer)@.push((val / 256) as u8).push((val % 256) as u8),
        spec_u16_at(final(buffer)@, old(buffer)@.len() as int) == val,
{
    buffer.push((val / 256) as u8);
    buffer.push((val % 256) as u8);
}

} // verus!
