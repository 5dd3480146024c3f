//! Little-endian integers as they appear in ZIP structures.

use vstd::prelude::*;

verus! {

/// The value of the 2-byte little-endian integer that starts at `i` in `s`.
pub open spec fn le_u16_at(s: Seq<u8>, i: int) -> int {
    s[i] as int + 0x100 * (s[i + 1] as int)
}

/// The value of the 4-byte little-endian integer that starts at `i` in `s`.
pub open spec fn le_u32_at(s: Seq<u8>, i: int) -> int {
    le_u16_at(s, i) + 0x1_0000 * le_u16_at(s, i + 2)
}

/// The value of the 8-byte little-endian integer that starts at `i` in `s`.
pub open spec fn le_u64_at(s: Seq<u8>, i: int) -> int {
    le_u32_at(s, i) + 0x1_0000_0000 * le_u32_at(s, i + 4)
}

/// The 2 bytes that encode `v` in little-endian order.
#[verifier::opaque]
pub open spec fn u16_le_bytes(v: int) -> Seq<u8> {
    seq![(v % 0x100) as u8, (v / 0x100 % 0x100) as u8]
}

/// The 4 bytes that encode `v` in little-endian order.
#[verifier::opaque]
pub open spec fn u32_le_bytes(v: int) -> Seq<u8> {
    u16_le_bytes(v % 0x1_0000) + u16_le_bytes(v / 0x1_0000)
}

/// The 8 bytes that encode `v` in little-endian order.
#[verifier::opaque]
pub open spec fn u64_le_bytes(v: int) -> Seq<u8> {
    u32_le_bytes(v % 0x1_0000_0000) + u32_le_bytes(v / 0x1_0000_0000)
}

/// The encodings have 2, 4 and 8 bytes.
pub proof fn lemma_le_bytes_len(v: int)
    ensures
        u16_le_bytes(v).len() == 2,
        u32_le_bytes(v).len() == 4,
        u64_le_bytes(v).len() == 8,
{
    reveal(u16_le_bytes);
    reveal(u32_le_bytes);
    reveal(u64_le_bytes);
}

/// Decoding is blind to what surrounds the two bytes it reads.
pub proof fn lemma_le_u16_at_bytes(v: int, pre: Seq<u8>, post: Seq<u8>)
    requires
        0 <= v < 0x1_0000,
    ensures
        u16_le_bytes(v).len() == 2,
        le_u16_at(pre + u16_le_bytes(v) + post, pre.len() as int) == v,
{
    reveal(u16_le_bytes);
    let s = pre + u16_le_bytes(v) + post;
    let k = pre.len() as int;
    assert(s[k] == u16_le_bytes(v)[0]);
    assert(s[k + 1] == u16_le_bytes(v)[1]);
}

/// A 4-byte encoding decodes to the value it was made from.
pub proof fn lemma_le_u32_at_bytes(v: int, pre: Seq<u8>, post: Seq<u8>)
    requires
        0 <= v < 0x1_0000_0000,
    ensures
        u32_le_bytes(v).len() == 4,
        le_u32_at(pre + u32_le_bytes(v) + post, pre.len() as int) == v,
{
    reveal(u32_le_bytes);
    lemma_le_bytes_len(v % 0x1_0000);
    lemma_le_bytes_len(v / 0x1_0000);
    let lo = u16_le_bytes(v % 0x1_0000);
    let hi = u16_le_bytes(v / 0x1_0000);
    let s = pre + u32_le_bytes(v) + post;
    lemma_le_u16_at_bytes(v % 0x1_0000, pre, hi + post);
    lemma_le_u16_at_bytes(v / 0x1_0000, pre + lo, post);
    assert(s =~= pre + lo + (hi + post));
    assert(s =~= (pre + lo) + hi + post);
}

/// An 8-byte encoding decodes to the value it was made from.
pub proof fn lemma_le_u64_at_bytes(v: int, pre: Seq<u8>, post: Seq<u8>)
    requires
        0 <= v < 0x1_0000_0000_0000_0000,
    ensures
        u64_le_bytes(v).len() == 8,
        le_u64_at(pre + u64_le_bytes(v) + post, pre.len() as int) == v,
{
    reveal(u64_le_bytes);
    lemma_le_bytes_len(v % 0x1_0000_0000);
    lemma_le_bytes_len(v / 0x1_0000_0000);
    let lo = u32_le_bytes(v % 0x1_0000_0000);
    let hi = u32_le_bytes(v / 0x1_0000_0000);
    let s = pre + u64_le_bytes(v) + post;
    lemma_le_u32_at_bytes(v % 0x1_0000_0000, pre, hi + post);
    lemma_le_u32_at_bytes(v / 0x1_0000_0000, pre + lo, post);
    assert(s =~= pre + lo + (hi + post));
    assert(s =~= (pre + lo) + hi + post);
}

/// Reads a little-endian `u16` from the first two bytes of `d`.
pub fn le_u16(d: &[u8]) -> (r: u16)
    requires
        d@.len() >= 2,
    ensures
        r == le_u16_at(d@, 0),
{
    d[0] as u16 + 0x100 * (d[1] as u16)
}

/// Reads a little-endian `u32` from the first four bytes of `d`.
pub fn le_u32(d: &[u8]) -> (r: u32)
    requires
        d@.len() >= 4,
    ensures
        r == le_u32_at(d@, 0),
{
    d[0] as u32 + 0x100 * (d[1] as u32) + 0x1_0000 * (d[2] as u32) + 0x100_0000 * (d[3] as u32)
}

/// Reads a little-endian `u64` from the first eight bytes of `d`.
pub fn le_u64(d: &[u8]) -> (r: u64)
    requires
        d@.len() >= 8,
    ensures
        r == le_u64_at(d@, 0),
{
    let lo: u32 = le_u32(d);
    let hi: u32 = d[4] as u32 + 0x100 * (d[5] as u32) + 0x1_0000 * (d[6] as u32) + 0x100_0000 * (
    d[7] as u32);
    lo as u64 + 0x1_0000_0000 * (hi as u64)
}

/// Reads the little-endian `u16` that starts at `pos` in `d`.
pub fn read_u16(d: &[u8], pos: usize) -> (r: u16)
    requires
        pos + 2 <= d@.len(),
    ensures
        r == le_u16_at(d@, pos as int),
{
    d[pos] as u16 + 0x100 * (d[pos + 1] as u16)
}

/// Reads the little-endian `u32` that starts at `pos` in `d`.
pub fn read_u32(d: &[u8], pos: usize) -> (r: u32)
    requires
        pos + 4 <= d@.len(),
    ensures
        r == le_u32_at(d@, pos as int),
{
    let _len: usize = d.len();
    let lo: u16 = read_u16(d, pos);
    let hi: u16 = read_u16(d, pos + 2);
    lo as u32 + 0x1_0000 * (hi as u32)
}

/// Reads the little-endian `u64` that starts at `pos` in `d`.
pub fn read_u64(d: &[u8], pos: usize) -> (r: u64)
    requires
        pos + 8 <= d@.len(),
    ensures
        r == le_u64_at(d@, pos as int),
{
    let _len: usize = d.len();
    let lo: u32 = read_u32(d, pos);
    let hi: u32 = read_u32(d, pos + 4);
    lo as u64 + 0x1_0000_0000 * (hi as u64)
}

/// Appends `v` to `out` as two little-endian bytes.
pub fn put_u16(out: &mut Vec<u8>, v: u16)
    ensures
        final(out)@ == old(out)@ + u16_le_bytes(v as int),
{
    out.push((v % 0x100) as u8);
    out.push((v / 0x100) as u8);
    proof {
        reveal(u16_le_bytes);
    }
    assert(out@ =~= old(out)@ + u16_le_bytes(v as int));
}

/// Appends `v` to `out` as four little-endian bytes.
pub fn put_u32(out: &mut Vec<u8>, v: u32)
    ensures
        final(out)@ == old(out)@ + u32_le_bytes(v as int),
{
    put_u16(out, (v % 0x1_0000) as u16);
    put_u16(out, (v / 0x1_0000) as u16);
    proof {
        reveal(u32_le_bytes);
    }
    assert(out@ =~= old(out)@ + u32_le_bytes(v as int));
}

/// Appends `v` to `out` as eight little-endian bytes.
pub fn put_u64(out: &mut Vec<u8>, v: u64)
    ensures
        final(out)@ == old(out)@ + u64_le_bytes(v as int),
{
    put_u32(out, (v % 0x1_0000_0000) as u32);
    put_u32(out, (v / 0x1_0000_0000) as u32);
    proof {
        reveal(u64_le_bytes);
    }
    assert(out@ =~= old(out)@ + u64_le_bytes(v as int));
}

/// Appends a copy of `data` to `out`.
pub fn put_bytes(out: &mut Vec<u8>, data: &[u8])
    ensures
        final(out)@ == old(out)@ + data@,
{
    let mut i: usize = 0;
    while i < data.len()
        invariant
            i <= data@.len(),
            out@ == old(out)@ + data@.subrange(0, i as int),
        decreases data@.len() - i,
    {
        out.push(data[i]);
        i += 1;
        assert(out@ =~= old(out)@ + data@.subrange(0, i as int));
    }
    assert(data@.subrange(0, i as int) =~= data@);
}

} // verus!
