//! Byte-level readers and writers for the fixed-width integer fields of the
//! Mach-O and code-signature wire formats, with their mathematical models.

use vstd::prelude::*;

verus! {

/// The four big-endian bytes of a 32-bit value, most significant first.
pub open spec fn be32_bytes(n: u32) -> Seq<u8> {
    seq![
        ((n >> 24) & 0xff) as u8,
        ((n >> 16) & 0xff) as u8,
        ((n >> 8) & 0xff) as u8,
        (n & 0xff) as u8,
    ]
}

/// The 32-bit value carried by four big-endian bytes.
pub open spec fn be32_val(b0: u8, b1: u8, b2: u8, b3: u8) -> u32 {
    ((b0 as u32) << 24) | ((b1 as u32) << 16) | ((b2 as u32) << 8) | (b3 as u32)
}

/// The four little-endian bytes of a 32-bit value, least significant first.
pub open spec fn le32_bytes(n: u32) -> Seq<u8> {
    seq![
        (n & 0xff) as u8,
        ((n >> 8) & 0xff) as u8,
        ((n >> 16) & 0xff) as u8,
        ((n >> 24) & 0xff) as u8,
    ]
}

/// The 32-bit value carried by four little-endian bytes.
pub open spec fn le32_val(b0: u8, b1: u8, b2: u8, b3: u8) -> u32 {
    ((b3 as u32) << 24) | ((b2 as u32) << 16) | ((b1 as u32) << 8) | (b0 as u32)
}

/// The 64-bit value carried by eight little-endian bytes.
pub open spec fn le64_val(lo: u32, hi: u32) -> u64 {
    ((hi as u64) << 32) | (lo as u64)
}

/// Reading back the bytes of `le32_bytes` recovers the value.
pub proof fn lemma_le32_roundtrip(n: u32)
    ensures
        le32_val(le32_bytes(n)[0], le32_bytes(n)[1], le32_bytes(n)[2], le32_bytes(n)[3]) == n,
{
    assert((((((n >> 24) & 0xff) as u8) as u32) << 24) | (((((n >> 16) & 0xff) as u8) as u32)
        << 16) | (((((n >> 8) & 0xff) as u8) as u32) << 8) | (((n & 0xff) as u8) as u32) == n)
        by (bit_vector);
}

/// `s` with the bytes at `[i, i + r.len())` replaced by `r`.
pub open spec fn splice(s: Seq<u8>, i: int, r: Seq<u8>) -> Seq<u8> {
    s.subrange(0, i) + r + s.subrange(i + r.len(), s.len() as int)
}

/// Appends the big-endian encoding of `n`.
pub fn push_be32(v: &mut Vec<u8>, n: u32)
    ensures
        final(v)@ == old(v)@ + be32_bytes(n),
{
    v.push(((n >> 24) & 0xff) as u8);
    v.push(((n >> 16) & 0xff) as u8);
    v.push(((n >> 8) & 0xff) as u8);
    v.push((n & 0xff) as u8);
    assert(v@ =~= old(v)@ + be32_bytes(n));
}

/// Appends the little-endian encoding of `n`.
pub fn push_le32(v: &mut Vec<u8>, n: u32)
    ensures
        final(v)@ == old(v)@ + le32_bytes(n),
{
    v.push((n & 0xff) as u8);
    v.push(((n >> 8) & 0xff) as u8);
    v.push(((n >> 16) & 0xff) as u8);
    v.push(((n >> 24) & 0xff) as u8);
    assert(v@ =~= old(v)@ + le32_bytes(n));
}

/// Reads the big-endian 32-bit value at offset `i`.
pub fn read_be32(v: &Vec<u8>, i: usize) -> (r: u32)
    requires
        i + 4 <= v@.len(),
    ensures
        r == be32_val(v@[i as int], v@[i as int + 1], v@[i as int + 2], v@[i as int + 3]),
{
    let n = v.len();
    let b0 = v[i];
    let b1 = v[i + 1];
    let b2 = v[i + 2];
    let b3 = v[i + 3];
    ((b0 as u32) << 24) | ((b1 as u32) << 16) | ((b2 as u32) << 8) | (b3 as u32)
}

/// Reads the little-endian 32-bit value at offset `i`.
pub fn read_le32(v: &Vec<u8>, i: usize) -> (r: u32)
    requires
        i + 4 <= v@.len(),
    ensures
        r == le32_val(v@[i as int], v@[i as int + 1], v@[i as int + 2], v@[i as int + 3]),
{
    let n = v.len();
    let b0 = v[i];
    let b1 = v[i + 1];
    let b2 = v[i + 2];
    let b3 = v[i + 3];
    ((b3 as u32) << 24) | ((b2 as u32) << 16) | ((b1 as u32) << 8) | (b0 as u32)
}

/// Reads the little-endian 64-bit value at offset `i`.
pub fn read_le64(v: &Vec<u8>, i: usize) -> (r: u64)
    requires
        i + 8 <= v@.len(),
    ensures
        r == le64_val(
            le32_val(v@[i as int], v@[i as int + 1], v@[i as int + 2], v@[i as int + 3]),
            le32_val(v@[i as int + 4], v@[i as int + 5], v@[i as int + 6], v@[i as int + 7]),
        ),
{
    let n = v.len();
    let lo = read_le32(v, i);
    let hi = read_le32(v, i + 4);
    ((hi as u64) << 32) | (lo as u64)
}

/// Overwrites the four bytes at offset `i` with the little-endian encoding of `n`.
pub fn set_le32(v: &mut Vec<u8>, i: usize, n: u32)
    requires
        i + 4 <= old(v)@.len(),
    ensures
        final(v)@ == splice(old(v)@, i as int, le32_bytes(n)),
{
    let len = v.len();
    v.set(i, (n & 0xff) as u8);
    v.set(i + 1, ((n >> 8) & 0xff) as u8);
    v.set(i + 2, ((n >> 16) & 0xff) as u8);
    v.set(i + 3, ((n >> 24) & 0xff) as u8);
    assert(v@ =~= splice(old(v)@, i as int, le32_bytes(n)));
}

/// Appends every byte of `w`.
pub fn push_all(v: &mut Vec<u8>, w: &Vec<u8>)
    ensures
        final(v)@ == old(v)@ + w@,
{
    let mut j: usize = 0;
    while j < w.len()
        invariant
            j <= w@.len(),
            v@ == old(v)@ + w@.subrange(0, j as int),
        decreases w@.len() - j,
    {
        v.push(w[j]);
        assert(v@ =~= old(v)@ + w@.subrange(0, j as int + 1));
        j = j + 1;
    }
    assert(v@ =~= old(v)@ + w@);
}

/// Appends `n` zero bytes.
pub fn push_zeros(v: &mut Vec<u8>, n: usize)
    ensures
        final(v)@ == old(v)@ + Seq::<u8>::new(n as nat, |k: int| 0u8),
{
    let mut j: usize = 0;
    while j < n
        invariant
            j <= n,
            v@ == old(v)@ + Seq::<u8>::new(j as nat, |k: int| 0u8),
        decreases n - j,
    {
        v.push(0u8);
        assert(v@ =~= old(v)@ + Seq::<u8>::new(j as nat + 1, |k: int| 0u8));
        j = j + 1;
    }
}

/// Copies the bytes at `[start, end)` of `v` into a fresh vector.
pub fn copy_range(v: &Vec<u8>, start: usize, end: usize) -> (r: Vec<u8>)
    requires
        start <= end <= v@.len(),
    ensures
        r@ == v@.subrange(start as int, end as int),
{
    let mut out: Vec<u8> = Vec::new();
    let mut j: usize = start;
    while j < end
        invariant
            start <= j <= end <= v@.len(),
            out@ == v@.subrange(start as int, j as int),
        decreases end - j,
    {
        out.push(v[j]);
        assert(out@ =~= v@.subrange(start as int, j as int + 1));
        j = j + 1;
    }
    out
}

} // verus!
