//! Little-endian integer encoding used by the on-disk formats.

use vstd::prelude::*;

use crate::meshing::packed_quad::{le_u32, lemma_le_u32_of_bytes};

verus! {

/// The two little-endian bytes of `v`.
pub open spec fn u16_le(v: u16) -> Seq<u8> {
    seq![(v & 0xFF) as u8, ((v >> 8u16) & 0xFF) as u8]
}

/// The four little-endian bytes of `v`.
pub open spec fn u32_le(v: u32) -> Seq<u8> {
    seq![
        (v & 0xFF) as u8,
        ((v >> 8u32) & 0xFF) as u8,
        ((v >> 16u32) & 0xFF) as u8,
        ((v >> 24u32) & 0xFF) as u8,
    ]
}

/// The eight little-endian bytes of `v`.
pub open spec fn u64_le(v: u64) -> Seq<u8> {
    u32_le((v & 0xFFFF_FFFF) as u32) + u32_le((v >> 32u64) as u32)
}

/// The four little-endian bytes of the two's-complement image of `v`.
pub open spec fn i32_le(v: i32) -> Seq<u8> {
    u32_le(v as u32)
}

/// The little-endian `u16` stored at `s[i..i + 2]`.
pub open spec fn read_u16(s: Seq<u8>, i: int) -> u16 {
    (s[i] as u16) | ((s[i + 1] as u16) << 8u16)
}

/// The little-endian `u32` stored at `s[i..i + 4]`.
pub open spec fn read_u32(s: Seq<u8>, i: int) -> u32 {
    le_u32(s[i], s[i + 1], s[i + 2], s[i + 3])
}

/// The little-endian `u64` stored at `s[i..i + 8]`.
pub open spec fn read_u64(s: Seq<u8>, i: int) -> u64 {
    (read_u32(s, i) as u64) | ((read_u32(s, i + 4) as u64) << 32u64)
}

/// The little-endian `i32` stored at `s[i..i + 4]`.
pub open spec fn read_i32(s: Seq<u8>, i: int) -> i32 {
    read_u32(s, i) as i32
}

/// Reading back a `u16` that was written at `i` gives it back.
pub proof fn lemma_read_u16(s: Seq<u8>, i: int, v: u16)
    requires
        0 <= i,
        i + 2 <= s.len(),
        s.subrange(i, i + 2) == u16_le(v),
    ensures
        read_u16(s, i) == v,
{
    assert(s[i] == s.subrange(i, i + 2)[0]);
    assert(s[i + 1] == s.subrange(i, i + 2)[1]);
    assert((((v & 0xFF) as u8) as u16) | (((((v >> 8u16) & 0xFF) as u8) as u16) << 8u16) == v)
        by (bit_vector);
}

/// Reading back a `u32` that was written at `i` gives it back.
pub proof fn lemma_read_u32(s: Seq<u8>, i: int, v: u32)
    requires
        0 <= i,
        i + 4 <= s.len(),
        s.subrange(i, i + 4) == u32_le(v),
    ensures
        read_u32(s, i) == v,
{
    let w = s.subrange(i, i + 4);
    assert(s[i] == w[0] && s[i + 1] == w[1] && s[i + 2] == w[2] && s[i + 3] == w[3]);
    lemma_le_u32_of_bytes(v);
}

/// Reading back a `u64` that was written at `i` gives it back.
pub proof fn lemma_read_u64(s: Seq<u8>, i: int, v: u64)
    requires
        0 <= i,
        i + 8 <= s.len(),
        s.subrange(i, i + 8) == u64_le(v),
    ensures
        read_u64(s, i) == v,
{
    let lo = (v & 0xFFFF_FFFF) as u32;
    let hi = (v >> 32u64) as u32;
    assert(s.subrange(i, i + 4) == s.subrange(i, i + 8).subrange(0, 4));
    assert(s.subrange(i + 4, i + 8) == s.subrange(i, i + 8).subrange(4, 8));
    assert(u64_le(v).subrange(0, 4) == u32_le(lo));
    assert(u64_le(v).subrange(4, 8) == u32_le(hi));
    lemma_read_u32(s, i, lo);
    lemma_read_u32(s, i + 4, hi);
    assert(((((v & 0xFFFF_FFFF) as u32) as u64) | ((((v >> 32u64) as u32) as u64) << 32u64)) == v)
        by (bit_vector);
}

/// Reading back an `i32` that was written at `i` gives it back.
pub proof fn lemma_read_i32(s: Seq<u8>, i: int, v: i32)
    requires
        0 <= i,
        i + 4 <= s.len(),
        s.subrange(i, i + 4) == i32_le(v),
    ensures
        read_i32(s, i) == v,
{
    lemma_read_u32(s, i, v as u32);
    assert((v as u32) as i32 == v) by (bit_vector);
}

/// Append the little-endian bytes of `v`.
pub fn push_u16(out: &mut Vec<u8>, v: u16)
    ensures
        final(out)@ == old(out)@ + u16_le(v),
{
    out.push((v & 0xFF) as u8);
    out.push(((v >> 8u16) & 0xFF) as u8);
    assert(final(out)@ =~= old(out)@ + u16_le(v));
}

/// Append the little-endian bytes of `v`.
pub fn push_u32(out: &mut Vec<u8>, v: u32)
    ensures
        final(out)@ == old(out)@ + u32_le(v),
{
    out.push((v & 0xFF) as u8);
    out.push(((v >> 8u32) & 0xFF) as u8);
    out.push(((v >> 16u32) & 0xFF) as u8);
    out.push(((v >> 24u32) & 0xFF) as u8);
    assert(final(out)@ =~= old(out)@ + u32_le(v));
}

/// Append the little-endian bytes of `v`.
pub fn push_u64(out: &mut Vec<u8>, v: u64)
    ensures
        final(out)@ == old(out)@ + u64_le(v),
{
    push_u32(out, (v & 0xFFFF_FFFF) as u32);
    push_u32(out, (v >> 32u64) as u32);
    assert(final(out)@ =~= old(out)@ + u64_le(v));
}

/// Append the little-endian two's-complement bytes of `v`.
pub fn push_i32(out: &mut Vec<u8>, v: i32)
    ensures
        final(out)@ == old(out)@ + i32_le(v),
{
    push_u32(out, v as u32);
}

/// Append all of `bytes`.
pub fn push_bytes(out: &mut Vec<u8>, bytes: &[u8])
    ensures
        final(out)@ == old(out)@ + bytes@,
{
    out.extend_from_slice(bytes);
}

/// The little-endian `u16` at `b[i..i + 2]`.
pub fn get_u16(b: &[u8], i: usize) -> (r: u16)
    requires
        i + 2 <= b@.len(),
    ensures
        r == read_u16(b@, i as int),
{
    (b[i] as u16) | ((b[i + 1] as u16) << 8u16)
}

/// The little-endian `u32` at `b[i..i + 4]`.
pub fn get_u32(b: &[u8], i: usize) -> (r: u32)
    requires
        i + 4 <= b@.len(),
    ensures
        r == read_u32(b@, i as int),
{
    (b[i] as u32) | ((b[i + 1] as u32) << 8u32) | ((b[i + 2] as u32) << 16u32) | ((b[i + 3] as u32)
        << 24u32)
}

/// The little-endian `u64` at `b[i..i + 8]`.
pub fn get_u64(b: &[u8], i: usize) -> (r: u64)
    requires
        i + 8 <= b@.len(),
    ensures
        r == read_u64(b@, i as int),
{
    let lo = get_u32(b, i);
    assert(i + 4 < b.len());
    let hi = get_u32(b, i + 4);
    (lo as u64) | ((hi as u64) << 32u64)
}

/// The little-endian `i32` at `b[i..i + 4]`.
pub fn get_i32(b: &[u8], i: usize) -> (r: i32)
    requires
        i + 4 <= b@.len(),
    ensures
        r == read_i32(b@, i as int),
{
    get_u32(b, i) as i32
}

/// A copy of `b[start..end]`.
pub fn copy_range(b: &[u8], start: usize, end: usize) -> (r: Vec<u8>)
    requires
        start <= end <= b@.len(),
    ensures
        r@ == b@.subrange(start as int, end as int),
{
    let mut out: Vec<u8> = Vec::new();
    let mut k = start;
    while k < end
        invariant
            start <= k <= end <= b@.len(),
            out@ == b@.subrange(start as int, k as int),
        decreases end - k,
    {
        out.push(b[k]);
        assert(out@ =~= b@.subrange(start as int, k + 1));
        k = k + 1;
    }
    out
}

} // verus!
