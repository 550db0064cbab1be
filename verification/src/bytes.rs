//! Little-endian readers over byte slices that yield zero when out of range.
use vstd::prelude::*;

verus! {

/// The little-endian u16 made of `d[off]` and `d[off + 1]`.
pub open spec fn le_u16(d: Seq<u8>, off: int) -> u16 {
    (d[off] as int + 256 * (d[off + 1] as int)) as u16
}

/// The little-endian u32 made of the four bytes at `off`.
pub open spec fn le_u32(d: Seq<u8>, off: int) -> u32 {
    (d[off] as int + 256 * (d[off + 1] as int) + 65536 * (d[off + 2] as int) + 16777216 * (
    d[off + 3] as int)) as u32
}

/// The little-endian u64 made of the eight bytes at `off`.
pub open spec fn le_u64(d: Seq<u8>, off: int) -> u64 {
    (le_u32(d, off) as int + 0x1_0000_0000 * (le_u32(d, off + 4) as int)) as u64
}

/// `le_u16` when both bytes exist, zero otherwise.
pub open spec fn spec_read_u16(d: Seq<u8>, off: int) -> u16 {
    if off + 2 <= d.len() {
        le_u16(d, off)
    } else {
        0
    }
}

/// `le_u32` when all four bytes exist, zero otherwise.
pub open spec fn spec_read_u32(d: Seq<u8>, off: int) -> u32 {
    if off + 4 <= d.len() {
        le_u32(d, off)
    } else {
        0
    }
}

/// Reads a little-endian u16 at `off`, or 0 when fewer than two bytes remain there.
pub fn read_u16(d: &[u8], off: usize) -> (r: u16)
    ensures
        r == spec_read_u16(d@, off as int),
{
    if off > d.len() || d.len() - off < 2 {
        return 0;
    }
    (d[off] as u16) + 256 * (d[off + 1] as u16)
}

/// Reads a little-endian i16 at `off`, or 0 when fewer than two bytes remain there.
pub fn read_i16(d: &[u8], off: usize) -> (r: i16)
    ensures
        r == spec_read_u16(d@, off as int) as i16,
{
    let u = read_u16(d, off);
    u as i16
}

/// Reads a little-endian u32 at `off`, or 0 when fewer than four bytes remain there.
pub fn read_u32(d: &[u8], off: usize) -> (r: u32)
    ensures
        r == spec_read_u32(d@, off as int),
{
    if off > d.len() || d.len() - off < 4 {
        return 0;
    }
    (d[off] as u32) + 256 * (d[off + 1] as u32) + 65536 * (d[off + 2] as u32) + 16777216 * (d[off
        + 3] as u32)
}

/// The bytes `d[start..end]` as a new vector.
pub fn copy_range(d: &[u8], start: usize, end: usize) -> (r: Vec<u8>)
    requires
        start <= end <= d.len(),
    ensures
        r@ == d@.subrange(start as int, end as int),
{
    let mut r: Vec<u8> = Vec::new();
    let mut i = start;
    while i < end
        invariant
            start <= i <= end <= d.len(),
            r@ == d@.subrange(start as int, i as int),
        decreases end - i,
    {
        r.push(d[i]);
        i += 1;
    }
    r
}

} // verus!
