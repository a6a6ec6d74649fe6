//! Little-endian fixed-layout byte access.
//!
//! Every on-disk structure of this core is read and written field by field
//! through these helpers; nothing relies on in-memory representation.

use vstd::prelude::*;

verus! {

/// The value of two little-endian bytes.
pub open spec fn le16(b0: u8, b1: u8) -> u16 {
    (b0 + 0x100 * b1) as u16
}

/// The value of four little-endian bytes.
pub open spec fn le32(b0: u8, b1: u8, b2: u8, b3: u8) -> u32 {
    (b0 + 0x100 * b1 + 0x10000 * b2 + 0x1000000 * b3) as u32
}

/// The 16-bit little-endian value stored at `off`.
pub open spec fn le16_at(s: Seq<u8>, off: int) -> u16 {
    le16(s[off], s[off + 1])
}

/// The 32-bit little-endian value stored at `off`.
pub open spec fn le32_at(s: Seq<u8>, off: int) -> u32 {
    le32(s[off], s[off + 1], s[off + 2], s[off + 3])
}

/// The 64-bit little-endian value stored at `off`.
pub open spec fn le64_at(s: Seq<u8>, off: int) -> u64 {
    (le32_at(s, off) + 0x1_0000_0000 * le32_at(s, off + 4)) as u64
}

/// Read a 16-bit little-endian value.
pub fn get_u16(bytes: &[u8], off: usize) -> (r: u16)
    requires
        off + 2 <= bytes@.len(),
    ensures
        r == le16_at(bytes@, off as int),
{
    let b0 = bytes[off];
    let b1 = bytes[off + 1];
    let r = (b0 as u16) | ((b1 as u16) << 8);
    proof {
        assert(r == le16(b0, b1)) by (bit_vector)
            requires
                r == (b0 as u16) | ((b1 as u16) << 8),
        ;
    }
    r
}

/// Read a 32-bit little-endian value.
pub fn get_u32(bytes: &[u8], off: usize) -> (r: u32)
    requires
        off + 4 <= bytes@.len(),
    ensures
        r == le32_at(bytes@, off as int),
{
    let b0 = bytes[off];
    let b1 = bytes[off + 1];
    let b2 = bytes[off + 2];
    let b3 = bytes[off + 3];
    let r = (b0 as u32) | ((b1 as u32) << 8) | ((b2 as u32) << 16) | ((b3 as u32) << 24);
    proof {
        assert(r == le32(b0, b1, b2, b3)) by (bit_vector)
            requires
                r == (b0 as u32) | ((b1 as u32) << 8) | ((b2 as u32) << 16) | ((b3 as u32) << 24),
        ;
    }
    r
}

/// Read a 64-bit little-endian value.
pub fn get_u64(bytes: &[u8], off: usize) -> (r: u64)
    requires
        off + 8 <= bytes@.len(),
    ensures
        r == le64_at(bytes@, off as int),
{
    let _n: usize = bytes.len();
    let lo = get_u32(bytes, off);
    let hi = get_u32(bytes, off + 4);
    let r = (lo as u64) | ((hi as u64) << 32);
    proof {
        assert(r == (lo + 0x1_0000_0000 * hi) as u64) by (bit_vector)
            requires
                r == (lo as u64) | ((hi as u64) << 32),
        ;
    }
    r
}

/// Write one byte, leaving every other byte unchanged.
pub fn put_u8(bytes: &mut Vec<u8>, off: usize, v: u8)
    requires
        off < old(bytes)@.len(),
    ensures
        final(bytes)@ == old(bytes)@.update(off as int, v),
{
    bytes[off] = v;
}

/// Write a 16-bit value in little-endian order.
pub fn put_u16(bytes: &mut Vec<u8>, off: usize, v: u16)
    requires
        off + 2 <= old(bytes)@.len(),
    ensures
        final(bytes)@.len() == old(bytes)@.len(),
        le16_at(final(bytes)@, off as int) == v,
        forall|j: int|
            0 <= j < old(bytes)@.len() && !(off <= j < off + 2) ==> final(bytes)@[j] == old(
                bytes,
            )@[j],
{
    let _n: usize = bytes.len();
    let b0: u8 = (v & 0xff) as u8;
    let b1: u8 = ((v >> 8) & 0xff) as u8;
    bytes[off] = b0;
    bytes[off + 1] = b1;
    proof {
        assert(le16(b0, b1) == v) by (bit_vector)
            requires
                b0 == (v & 0xff) as u8 && b1 == ((v >> 8) & 0xff) as u8,
        ;
    }
}

/// Write a 32-bit value in little-endian order.
pub fn put_u32(bytes: &mut Vec<u8>, off: usize, v: u32)
    requires
        off + 4 <= old(bytes)@.len(),
    ensures
        final(bytes)@.len() == old(bytes)@.len(),
        le32_at(final(bytes)@, off as int) == v,
        forall|j: int|
            0 <= j < old(bytes)@.len() && !(off <= j < off + 4) ==> final(bytes)@[j] == old(
                bytes,
            )@[j],
{
    let _n: usize = bytes.len();
    let b0: u8 = (v & 0xff) as u8;
    let b1: u8 = ((v >> 8) & 0xff) as u8;
    let b2: u8 = ((v >> 16) & 0xff) as u8;
    let b3: u8 = ((v >> 24) & 0xff) as u8;
    bytes[off] = b0;
    bytes[off + 1] = b1;
    bytes[off + 2] = b2;
    bytes[off + 3] = b3;
    proof {
        assert(le32(b0, b1, b2, b3) == v) by (bit_vector)
            requires
                b0 == (v & 0xff) as u8 && b1 == ((v >> 8) & 0xff) as u8 && b2 == ((v >> 16)
                    & 0xff) as u8 && b3 == ((v >> 24) & 0xff) as u8,
        ;
    }
}

/// Write a 64-bit value in little-endian order.
pub fn put_u64(bytes: &mut Vec<u8>, off: usize, v: u64)
    requires
        off + 8 <= old(bytes)@.len(),
    ensures
        final(bytes)@.len() == old(bytes)@.len(),
        le64_at(final(bytes)@, off as int) == v,
        forall|j: int|
            0 <= j < old(bytes)@.len() && !(off <= j < off + 8) ==> final(bytes)@[j] == old(
                bytes,
            )@[j],
{
    let _n: usize = bytes.len();
    let lo: u32 = (v & 0xffff_ffff) as u32;
    let hi: u32 = ((v >> 32) & 0xffff_ffff) as u32;
    put_u32(bytes, off, lo);
    put_u32(bytes, off + 4, hi);
    proof {
        assert((lo + 0x1_0000_0000 * hi) as u64 == v) by (bit_vector)
            requires
                lo == (v & 0xffff_ffff) as u32 && hi == ((v >> 32) & 0xffff_ffff) as u32,
        ;
    }
}

/// Copy `src` into `dst` starting at `off`, leaving every other byte
/// unchanged.
pub fn put_bytes(dst: &mut Vec<u8>, off: usize, src: &[u8])
    requires
        off + src@.len() <= old(dst)@.len(),
    ensures
        final(dst)@.len() == old(dst)@.len(),
        final(dst)@.subrange(off as int, off + src@.len()) == src@,
        forall|j: int|
            0 <= j < old(dst)@.len() && !(off <= j < off + src@.len()) ==> final(dst)@[j] == old(
                dst,
            )@[j],
{
    let _m: usize = dst.len();
    let n = src.len();
    let mut i: usize = 0;
    while i < n
        invariant
            i <= n == src@.len(),
            off + n <= usize::MAX,
            off + n <= dst@.len() == old(dst)@.len(),
            forall|j: int| off <= j < off + i ==> dst@[j] == src@[j - off],
            forall|j: int|
                0 <= j < old(dst)@.len() && !(off <= j < off + n) ==> dst@[j] == old(dst)@[j],
        decreases n - i,
    {
        dst[off + i] = src[i];
        i = i + 1;
    }
    proof {
        assert(final(dst)@.subrange(off as int, off + src@.len()) =~= src@);
    }
}

/// Set `dst[off .. off + n]` to zero, leaving every other byte unchanged.
pub fn zero_bytes(dst: &mut Vec<u8>, off: usize, n: usize)
    requires
        off + n <= old(dst)@.len(),
    ensures
        final(dst)@.len() == old(dst)@.len(),
        forall|j: int| off <= j < off + n ==> final(dst)@[j] == 0u8,
        forall|j: int|
            0 <= j < old(dst)@.len() && !(off <= j < off + n) ==> final(dst)@[j] == old(dst)@[j],
{
    let _m: usize = dst.len();
    let mut i: usize = 0;
    while i < n
        invariant
            i <= n,
            off + n <= usize::MAX,
            off + n <= dst@.len() == old(dst)@.len(),
            forall|j: int| off <= j < off + i ==> dst@[j] == 0u8,
            forall|j: int|
                0 <= j < old(dst)@.len() && !(off <= j < off + n) ==> dst@[j] == old(dst)@[j],
        decreases n - i,
    {
        dst[off + i] = 0;
        i = i + 1;
    }
}

/// A fresh vector of `n` zero bytes.
pub fn zero_vec(n: usize) -> (r: Vec<u8>)
    ensures
        r@.len() == n,
        forall|j: int| 0 <= j < n ==> r@[j] == 0u8,
{
    let mut v: Vec<u8> = Vec::new();
    let mut i: usize = 0;
    while i < n
        invariant
            i <= n,
            v@.len() == i,
            forall|j: int| 0 <= j < i ==> v@[j] == 0u8,
        decreases n - i,
    {
        v.push(0);
        i = i + 1;
    }
    v
}

/// A copy of a byte vector.
pub fn clone_bytes(v: &Vec<u8>) -> (r: Vec<u8>)
    ensures
        r@ == v@,
{
    let r = v.clone();
    proof {
        assert(r@ =~= v@);
    }
    r
}

/// Copy of `v[start..end]`.
pub fn sub_bytes(v: &[u8], start: usize, end: usize) -> (r: Vec<u8>)
    requires
        start <= end <= v@.len(),
    ensures
        r@ == v@.subrange(start as int, end as int),
{
    let mut r: Vec<u8> = Vec::new();
    let mut i: usize = start;
    while i < end
        invariant
            start <= i <= end <= v@.len(),
            r@.len() == i - start,
            forall|j: int| 0 <= j < i - start ==> r@[j] == v@[start + j],
        decreases end - i,
    {
        r.push(v[i]);
        i = i + 1;
    }
    proof {
        assert(r@ =~= v@.subrange(start as int, end as int));
    }
    r
}

} // verus!
