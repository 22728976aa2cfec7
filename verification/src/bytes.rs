//! Little-endian integer reads over byte slices, with the arithmetic
//! model the parsers' contracts are stated in.

use vstd::prelude::*;

verus! {

/// A byte length a slice can have: Rust bounds every allocation by
/// `isize::MAX` bytes.
pub open spec fn len_ok(n: int) -> bool {
    n <= isize::MAX
}

/// The unsigned 16-bit little-endian value stored at `i`.
pub open spec fn le16(s: Seq<u8>, i: int) -> int {
    s[i] as int + s[i + 1] as int * 256
}

/// The unsigned 32-bit little-endian value stored at `i`.
pub open spec fn le32(s: Seq<u8>, i: int) -> int {
    s[i] as int + s[i + 1] as int * 256 + s[i + 2] as int * 65536 + s[i + 3] as int * 16777216
}

/// The unsigned 16-bit big-endian value stored at `i`.
pub open spec fn be16(s: Seq<u8>, i: int) -> int {
    s[i] as int * 256 + s[i + 1] as int
}

/// The unsigned 32-bit big-endian value stored at `i`.
pub open spec fn be32(s: Seq<u8>, i: int) -> int {
    s[i] as int * 16777216 + s[i + 1] as int * 65536 + s[i + 2] as int * 256 + s[i + 3] as int
}

/// Two's-complement reading of a 16-bit unsigned value.
pub open spec fn as_signed16(u: int) -> int {
    if u >= 32768 {
        u - 65536
    } else {
        u
    }
}

/// Two's-complement reading of a 32-bit unsigned value.
pub open spec fn as_signed32(u: int) -> int {
    if u >= 0x8000_0000 {
        u - 0x1_0000_0000
    } else {
        u
    }
}

/// The 32-bit value at `i`, or zero when it does not fit in `s`.
pub open spec fn le32_or_zero(s: Seq<u8>, i: int) -> u32 {
    if 0 <= i && i + 4 <= s.len() {
        le32(s, i) as u32
    } else {
        0
    }
}

pub fn read_u16_le(data: &[u8], i: usize) -> (r: u16)
    requires
        i + 2 <= data@.len(),
    ensures
        r as int == le16(data@, i as int),
{
    data[i] as u16 + data[i + 1] as u16 * 256
}

pub fn read_u32_le(data: &[u8], i: usize) -> (r: u32)
    requires
        i + 4 <= data@.len(),
    ensures
        r as int == le32(data@, i as int),
{
    data[i] as u32 + data[i + 1] as u32 * 256 + data[i + 2] as u32 * 65536 + data[i + 3] as u32
        * 16777216
}

pub fn read_u16_be(data: &[u8], i: usize) -> (r: u16)
    requires
        i + 2 <= data@.len(),
    ensures
        r as int == be16(data@, i as int),
{
    data[i] as u16 * 256 + data[i + 1] as u16
}

pub fn read_u32_be(data: &[u8], i: usize) -> (r: u32)
    requires
        i + 4 <= data@.len(),
    ensures
        r as int == be32(data@, i as int),
{
    data[i] as u32 * 16777216 + data[i + 1] as u32 * 65536 + data[i + 2] as u32 * 256 + data[i
        + 3] as u32
}

pub fn read_i16_le(data: &[u8], i: usize) -> (r: i16)
    requires
        i + 2 <= data@.len(),
    ensures
        r as int == as_signed16(le16(data@, i as int)),
{
    let u = read_u16_le(data, i);
    if u >= 32768 {
        (u as i32 - 65536) as i16
    } else {
        u as i16
    }
}

pub fn read_i32_le(data: &[u8], i: usize) -> (r: i32)
    requires
        i + 4 <= data@.len(),
    ensures
        r as int == as_signed32(le32(data@, i as int)),
{
    let u = read_u32_le(data, i);
    if u >= 0x8000_0000 {
        (u as i64 - 0x1_0000_0000) as i32
    } else {
        u as i32
    }
}

/// The 32-bit value at `offset`, or zero when the slice is too short.
pub fn read_u32_or_zero(data: &[u8], offset: usize) -> (r: u32)
    ensures
        r == le32_or_zero(data@, offset as int),
{
    if offset <= data.len() && data.len() - offset >= 4 {
        read_u32_le(data, offset)
    } else {
        0
    }
}

/// A copy of `data[start..end]`.
pub fn copy_range(data: &[u8], start: usize, end: usize) -> (r: Vec<u8>)
    requires
        start <= end <= data@.len(),
    ensures
        r@ == data@.subrange(start as int, end as int),
{
    let mut out: Vec<u8> = Vec::new();
    let mut i = start;
    while i < end
        invariant
            start <= i <= end <= data@.len(),
            out@ == data@.subrange(start as int, i as int),
        decreases end - i,
    {
        out.push(data[i]);
        i = i + 1;
    }
    out
}

} // verus!
