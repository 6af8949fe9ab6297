//! Big-endian encodings of fixed-width integers, as spec functions and as
//! executable readers and writers over byte vectors.

use vstd::prelude::*;

verus! {

/// The two network-order bytes of `x`.
pub open spec fn be16(x: u16) -> Seq<u8> {
    seq![(x >> 8u16) as u8, (x & 0xffu16) as u8]
}

/// The four network-order bytes of `x`.
pub open spec fn be32(x: u32) -> Seq<u8> {
    seq![
        (x >> 24u32) as u8,
        ((x >> 16u32) & 0xffu32) as u8,
        ((x >> 8u32) & 0xffu32) as u8,
        (x & 0xffu32) as u8,
    ]
}

/// The eight network-order bytes of `x`.
pub open spec fn be64(x: u64) -> Seq<u8> {
    be32((x >> 32u64) as u32) + be32((x & 0xffff_ffffu64) as u32)
}

/// The value of two network-order bytes.
pub open spec fn val16(b0: u8, b1: u8) -> u16 {
    ((b0 as u16) << 8u16) | (b1 as u16)
}

/// The value of four network-order bytes.
pub open spec fn val32(b0: u8, b1: u8, b2: u8, b3: u8) -> u32 {
    ((b0 as u32) << 24u32) | ((b1 as u32) << 16u32) | ((b2 as u32) << 8u32) | (b3 as u32)
}

/// The 16-bit value that starts at `at` in `s`.
pub open spec fn read16(s: Seq<u8>, at: int) -> u16 {
    val16(s[at], s[at + 1])
}

/// The 32-bit value that starts at `at` in `s`.
pub open spec fn read32(s: Seq<u8>, at: int) -> u32 {
    val32(s[at], s[at + 1], s[at + 2], s[at + 3])
}

/// The 64-bit value that starts at `at` in `s`.
pub open spec fn read64(s: Seq<u8>, at: int) -> u64 {
    ((read32(s, at) as u64) << 32u64) | (read32(s, at + 4) as u64)
}

pub proof fn lemma_be16_round_trip(x: u16)
    ensures
        be16(x).len() == 2,
        read16(be16(x), 0) == x,
        be16(x)[0] as int * 256 + be16(x)[1] as int == x as int,
{
    assert(((((x >> 8u16) as u8) as u16) << 8u16) | (((x & 0xffu16) as u8) as u16) == x)
        by (bit_vector);
    assert((x >> 8u16) as u8 as int * 256 + (x & 0xffu16) as u8 as int == x as int)
        by (bit_vector);
}

pub proof fn lemma_be32_round_trip(x: u32)
    ensures
        be32(x).len() == 4,
        read32(be32(x), 0) == x,
{
    assert(((((x >> 24u32) as u8) as u32) << 24u32) | (((((x >> 16u32) & 0xffu32) as u8) as u32)
        << 16u32) | (((((x >> 8u32) & 0xffu32) as u8) as u32) << 8u32) | (((x & 0xffu32) as u8)
        as u32) == x) by (bit_vector);
}

pub proof fn lemma_be64_round_trip(x: u64)
    ensures
        be64(x).len() == 8,
        read64(be64(x), 0) == x,
{
    let hi = (x >> 32u64) as u32;
    let lo = (x & 0xffff_ffffu64) as u32;
    lemma_be32_round_trip(hi);
    lemma_be32_round_trip(lo);
    let s = be64(x);
    assert(s.subrange(0, 4) =~= be32(hi));
    assert(s.subrange(4, 8) =~= be32(lo));
    assert(read32(s, 0) == read32(be32(hi), 0));
    assert(read32(s, 4) == read32(be32(lo), 0));
    assert((((x >> 32u64) as u32) as u64) << 32u64 | (((x & 0xffff_ffffu64) as u32) as u64) == x)
        by (bit_vector);
}

/// Appends the two network-order bytes of `x`.
pub fn put_u16(out: &mut Vec<u8>, x: u16)
    ensures
        final(out)@ == old(out)@ + be16(x),
{
    out.push((x >> 8u16) as u8);
    out.push((x & 0xffu16) as u8);
    assert(final(out)@ =~= old(out)@ + be16(x));
}

/// Appends the four network-order bytes of `x`.
pub fn put_u32(out: &mut Vec<u8>, x: u32)
    ensures
        final(out)@ == old(out)@ + be32(x),
{
    out.push((x >> 24u32) as u8);
    out.push(((x >> 16u32) & 0xffu32) as u8);
    out.push(((x >> 8u32) & 0xffu32) as u8);
    out.push((x & 0xffu32) as u8);
    assert(final(out)@ =~= old(out)@ + be32(x));
}

/// Appends the eight network-order bytes of `x`.
pub fn put_u64(out: &mut Vec<u8>, x: u64)
    ensures
        final(out)@ == old(out)@ + be64(x),
{
    put_u32(out, (x >> 32u64) as u32);
    put_u32(out, (x & 0xffff_ffffu64) as u32);
    assert(final(out)@ =~= old(out)@ + be64(x));
}

/// Appends every byte of `bytes`.
pub fn put_bytes(out: &mut Vec<u8>, bytes: &[u8])
    ensures
        final(out)@ == old(out)@ + bytes@,
{
    let mut i: usize = 0;
    while i < bytes.len()
        invariant
            0 <= i <= bytes@.len(),
            out@ == old(out)@ + bytes@.subrange(0, i as int),
        decreases bytes@.len() - i,
    {
        out.push(bytes[i]);
        i = i + 1;
        assert(out@ =~= old(out)@ + bytes@.subrange(0, i as int));
    }
    assert(bytes@.subrange(0, i as int) =~= bytes@);
}

/// The 16-bit value at `at`.
pub fn get_u16(b: &[u8], at: usize) -> (r: u16)
    requires
        at + 2 <= b@.len(),
    ensures
        r == read16(b@, at as int),
{
    ((b[at] as u16) << 8u16) | (b[at + 1] as u16)
}

/// The 32-bit value at `at`.
pub fn get_u32(b: &[u8], at: usize) -> (r: u32)
    requires
        at + 4 <= b@.len(),
    ensures
        r == read32(b@, at as int),
{
    ((b[at] as u32) << 24u32) | ((b[at + 1] as u32) << 16u32) | ((b[at + 2] as u32) << 8u32) | (
    b[at + 3] as u32)
}

/// The 64-bit value at `at`.
pub fn get_u64(b: &[u8], at: usize) -> (r: u64)
    requires
        at + 8 <= b@.len(),
    ensures
        r == read64(b@, at as int),
{
    let n = b.len();
    assert(at + 4 < n);
    ((get_u32(b, at) as u64) << 32u64) | (get_u32(b, at + 4) as u64)
}

/// A copy of `b[start..end]`.
pub fn copy_range(b: &[u8], start: usize, end: usize) -> (r: Vec<u8>)
    requires
        start <= end <= b@.len(),
    ensures
        r@ == b@.subrange(start as int, end as int),
{
    let mut r: Vec<u8> = Vec::new();
    let mut i: usize = start;
    while i < end
        invariant
            start <= i <= end <= b@.len(),
            r@ == b@.subrange(start as int, i as int),
        decreases end - i,
    {
        r.push(b[i]);
        i = i + 1;
        assert(r@ =~= b@.subrange(start as int, i as int));
    }
    r
}

} // verus!
