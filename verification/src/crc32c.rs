//! CRC32C (Castagnoli) in its reflected form: initial value `0xFFFFFFFF`,
//! reflected polynomial `0x82F63B78`, processed bit by bit, LSB first.
//!
//! Metadata checksums are "keyed": the running value is seeded with the
//! filesystem UUID and structure-identifying fields before the payload.

use vstd::prelude::*;

verus! {

/// The reflected CRC32C polynomial.
pub const CRC32C_POLY: u32 = 0x82F63B78;

/// Initial value for every keyed metadata checksum.
pub const CRC32C_INIT: u32 = 0xFFFFFFFF;

/// One bit step of the reflected CRC: shift right, folding the polynomial in
/// when the low bit is set.
pub open spec fn crc32c_step(c: u32) -> u32 {
    if c & 1 == 1 {
        (c >> 1) ^ CRC32C_POLY
    } else {
        c >> 1
    }
}

/// `n` bit steps.
pub open spec fn crc32c_steps(c: u32, n: nat) -> u32
    decreases n,
{
    if n == 0 {
        c
    } else {
        crc32c_steps(crc32c_step(c), (n - 1) as nat)
    }
}

/// Absorb one byte: xor it into the low bits, then take eight bit steps.
pub open spec fn crc32c_byte(c: u32, b: u8) -> u32 {
    crc32c_steps(c ^ (b as u32), 8)
}

/// Absorb a byte sequence, front to back.
pub open spec fn crc32c_seq(c: u32, s: Seq<u8>) -> u32
    decreases s.len(),
{
    if s.len() == 0 {
        c
    } else {
        crc32c_seq(crc32c_byte(c, s[0]), s.drop_first())
    }
}

/// Absorbing `s + t` is absorbing `s`, then `t`.
pub proof fn lemma_crc32c_seq_concat(c: u32, s: Seq<u8>, t: Seq<u8>)
    ensures
        crc32c_seq(c, s + t) == crc32c_seq(crc32c_seq(c, s), t),
    decreases s.len(),
{
    if s.len() == 0 {
        assert(s + t =~= t);
    } else {
        assert((s + t).drop_first() =~= s.drop_first() + t);
        lemma_crc32c_seq_concat(crc32c_byte(c, s[0]), s.drop_first(), t);
    }
}

/// Absorb one byte into a running CRC value.
pub fn crc32c_update_byte(c: u32, b: u8) -> (r: u32)
    ensures
        r == crc32c_byte(c, b),
{
    let mut acc: u32 = c ^ (b as u32);
    let mut i: usize = 0;
    while i < 8
        invariant
            i <= 8,
            acc == crc32c_steps(c ^ (b as u32), i as nat),
        decreases 8 - i,
    {
        proof {
            lemma_crc32c_steps_unfold_back(c ^ (b as u32), (i + 1) as nat);
        }
        if acc & 1 == 1 {
            acc = (acc >> 1) ^ CRC32C_POLY;
        } else {
            acc = acc >> 1;
        }
        i = i + 1;
    }
    acc
}

/// `n + 1` steps are `n` steps followed by one more.
proof fn lemma_crc32c_steps_unfold_back(c: u32, n: nat)
    requires
        n > 0,
    ensures
        crc32c_steps(c, n) == crc32c_step(crc32c_steps(c, (n - 1) as nat)),
    decreases n,
{
    assert(crc32c_steps(c, n) == crc32c_steps(crc32c_step(c), (n - 1) as nat));
    if n == 1 {
        assert(crc32c_steps(c, 0) == c);
        assert(crc32c_steps(crc32c_step(c), 0) == crc32c_step(c));
    } else {
        lemma_crc32c_steps_unfold_back(crc32c_step(c), (n - 1) as nat);
        assert(crc32c_steps(c, (n - 1) as nat) == crc32c_steps(
            crc32c_step(c),
            (n - 2) as nat,
        ));
    }
}

/// Absorb `data[start..end]` into a running CRC value.
pub fn crc32c_update_range(c: u32, data: &[u8], start: usize, end: usize) -> (r: u32)
    requires
        start <= end <= data@.len(),
    ensures
        r == crc32c_seq(c, data@.subrange(start as int, end as int)),
{
    let mut acc: u32 = c;
    let mut i: usize = start;
    while i < end
        invariant
            start <= i <= end <= data@.len(),
            acc == crc32c_seq(c, data@.subrange(start as int, i as int)),
        decreases end - i,
    {
        proof {
            let b = data@[i as int];
            let pre = data@.subrange(start as int, i as int);
            let post = data@.subrange(start as int, i + 1 as int);
            assert(post =~= pre + seq![b]);
            lemma_crc32c_seq_concat(c, pre, seq![b]);
            lemma_crc32c_seq_single(crc32c_seq(c, pre), b);
        }
        acc = crc32c_update_byte(acc, data[i]);
        i = i + 1;
    }
    proof {
        assert(data@.subrange(start as int, end as int) =~= data@.subrange(
            start as int,
            i as int,
        ));
    }
    acc
}

/// Absorb a whole slice into a running CRC value.
pub fn crc32c_update(c: u32, data: &[u8]) -> (r: u32)
    ensures
        r == crc32c_seq(c, data@),
{
    let r = crc32c_update_range(c, data, 0, data.len());
    proof {
        assert(data@.subrange(0, data@.len() as int) =~= data@);
    }
    r
}

/// Absorbing a single byte is one `crc32c_byte` step.
pub proof fn lemma_crc32c_seq_single(c: u32, b: u8)
    ensures
        crc32c_seq(c, seq![b]) == crc32c_byte(c, b),
{
    let s = seq![b];
    assert(crc32c_seq(c, s) == crc32c_seq(crc32c_byte(c, s[0]), s.drop_first()));
    assert(s.drop_first().len() == 0);
    assert(crc32c_seq(crc32c_byte(c, b), s.drop_first()) == crc32c_byte(c, b));
}

/// Absorb the four little-endian bytes of `v`.
pub fn crc32c_update_u32le(c: u32, v: u32) -> (r: u32)
    ensures
        r == crc32c_seq(c, u32_le_bytes(v)),
{
    let b0: u8 = (v & 0xff) as u8;
    let b1: u8 = ((v >> 8) & 0xff) as u8;
    let b2: u8 = ((v >> 16) & 0xff) as u8;
    let b3: u8 = ((v >> 24) & 0xff) as u8;
    let mut acc = crc32c_update_byte(c, b0);
    acc = crc32c_update_byte(acc, b1);
    acc = crc32c_update_byte(acc, b2);
    acc = crc32c_update_byte(acc, b3);
    proof {
        let s = seq![b0, b1, b2, b3];
        assert(u32_le_bytes(v) =~= s);
        reveal_crc_seq4(c, s);
    }
    acc
}

/// The little-endian bytes of a 32-bit value.
pub open spec fn u32_le_bytes(v: u32) -> Seq<u8> {
    seq![
        (v & 0xff) as u8,
        ((v >> 8) & 0xff) as u8,
        ((v >> 16) & 0xff) as u8,
        ((v >> 24) & 0xff) as u8,
    ]
}

/// Unfold `crc32c_seq` over a four-byte sequence.
proof fn reveal_crc_seq4(c: u32, s: Seq<u8>)
    requires
        s.len() == 4,
    ensures
        crc32c_seq(c, s) == crc32c_byte(
            crc32c_byte(crc32c_byte(crc32c_byte(c, s[0]), s[1]), s[2]),
            s[3],
        ),
{
    let s1 = s.drop_first();
    let s2 = s1.drop_first();
    let s3 = s2.drop_first();
    assert(s1[0] == s[1] && s2[0] == s[2] && s3[0] == s[3]);
    assert(crc32c_seq(c, s) == crc32c_seq(crc32c_byte(c, s[0]), s1));
    assert(crc32c_seq(crc32c_byte(c, s[0]), s1) == crc32c_seq(
        crc32c_byte(crc32c_byte(c, s[0]), s[1]),
        s2,
    ));
    assert(crc32c_seq(crc32c_byte(crc32c_byte(c, s[0]), s[1]), s2) == crc32c_seq(
        crc32c_byte(crc32c_byte(crc32c_byte(c, s[0]), s[1]), s[2]),
        s3,
    ));
    assert(s3 =~= seq![s[3]]);
    lemma_crc32c_seq_single(crc32c_byte(crc32c_byte(crc32c_byte(c, s[0]), s[1]), s[2]), s[3]);
}

} // verus!
