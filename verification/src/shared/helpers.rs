//! Big-endian field decoding and timestamp encoding.

use vstd::prelude::*;

verus! {

/// The unsigned integer stored big-endian in the four bytes of `s` from `i`.
pub open spec fn be_u32_at(s: Seq<u8>, i: int) -> int {
    s[i] * 0x1000000 + s[i + 1] * 0x10000 + s[i + 2] * 0x100 + s[i + 3]
}

/// The unsigned integer stored big-endian in the two bytes of `s` from `i`.
pub open spec fn be_u16_at(s: Seq<u8>, i: int) -> int {
    s[i] * 0x100 + s[i + 1]
}

/// The unsigned integer stored big-endian in the eight bytes of `s` from `i`.
pub open spec fn be_u64_at(s: Seq<u8>, i: int) -> int {
    be_u32_at(s, i) * 0x100000000 + be_u32_at(s, i + 4)
}

/// The four big-endian bytes of `v`.
pub open spec fn be_bytes_u32(v: u32) -> Seq<u8> {
    seq![(v / 0x1000000) as u8, ((v / 0x10000) % 0x100) as u8, ((v / 0x100) % 0x100) as u8, (v % 0x100) as u8]
}

/// Reads the `u32` stored big-endian at `data[start_idx..start_idx + 4]`.
pub fn u32_from_be_bytes_unchecked(data: &[u8], start_idx: usize) -> (v: u32)
    requires
        start_idx + 4 <= data@.len(),
    ensures
        v == be_u32_at(data@, start_idx as int),
{
    let b0 = data[start_idx] as u32;
    let b1 = data[start_idx + 1] as u32;
    let b2 = data[start_idx + 2] as u32;
    let b3 = data[start_idx + 3] as u32;
    b0 * 0x1000000 + b1 * 0x10000 + b2 * 0x100 + b3
}

/// Reads the `u16` stored big-endian at `data[start_idx..start_idx + 2]`.
pub fn u16_from_be_bytes_unchecked(data: &[u8], start_idx: usize) -> (v: u16)
    requires
        start_idx + 2 <= data@.len(),
    ensures
        v == be_u16_at(data@, start_idx as int),
{
    let b0 = data[start_idx] as u16;
    let b1 = data[start_idx + 1] as u16;
    b0 * 0x100 + b1
}

/// Reads the `u64` stored big-endian at `data[start_idx..start_idx + 8]`.
pub fn u64_from_be_bytes_unchecked(data: &[u8], start_idx: usize) -> (v: u64)
    requires
        start_idx + 8 <= data@.len(),
    ensures
        v == be_u64_at(data@, start_idx as int),
{
    // The length is a `usize`, so `start_idx + 4` cannot overflow.
    let len = data.len();
    assert(start_idx + 8 <= len);
    let hi = u32_from_be_bytes_unchecked(data, start_idx) as u64;
    let lo = u32_from_be_bytes_unchecked(data, start_idx + 4) as u64;
    hi * 0x100000000 + lo
}

/// Appends the four big-endian bytes of `v` to `out`.
fn push_be_u32(out: &mut Vec<u8>, v: u32)
    ensures
        final(out)@ == old(out)@ + be_bytes_u32(v),
{
    out.push((v / 0x1000000) as u8);
    out.push(((v / 0x10000) % 0x100) as u8);
    out.push(((v / 0x100) % 0x100) as u8);
    out.push((v % 0x100) as u8);
}

/// The eight bytes that encode a timestamp: the whole seconds truncated to
/// 32 bits, then the nanoseconds within the second, each big-endian.
///
/// `timestamp` and `subsec_nanos` are what a date-time value reports as
/// its Unix timestamp and its sub-second nanoseconds.
pub fn datetime_to_bytes(timestamp: i64, subsec_nanos: u32) -> (bytes: Vec<u8>)
    ensures
        bytes@ == be_bytes_u32(timestamp as u32) + be_bytes_u32(subsec_nanos),
{
    let mut out: Vec<u8> = Vec::new();
    push_be_u32(&mut out, timestamp as u32);
    push_be_u32(&mut out, subsec_nanos);
    out
}

} // verus!
