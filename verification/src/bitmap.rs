//! Bit-addressable view over a byte buffer, little-endian bit order:
//! bit `k` is bit `k % 8` of byte `k / 8`, LSB first.
//!
//! The allocator keeps, for every block group, the population count of each
//! bitmap tied to the group's free counter; the lemmas here carry that
//! invariant across single-bit updates.

use vstd::prelude::*;

verus! {

/// Whether bit `k` of the bitmap is set.
pub open spec fn bit_is_set(s: Seq<u8>, k: int) -> bool {
    (s[k / 8] >> ((k % 8) as u8)) & 1 == 1
}

/// Number of set bits among bits `[0, n)`.
pub open spec fn ones(s: Seq<u8>, n: int) -> nat
    decreases n,
{
    if n <= 0 {
        0
    } else {
        ones(s, n - 1) + if bit_is_set(s, n - 1) {
            1nat
        } else {
            0nat
        }
    }
}

/// If every bit of `[0, n)` is set, the population count is `n`.
pub proof fn lemma_ones_full(s: Seq<u8>, n: int)
    requires
        n >= 0,
        forall|k: int| 0 <= k < n ==> bit_is_set(s, k),
    ensures
        ones(s, n) == n,
    decreases n,
{
    if n > 0 {
        lemma_ones_full(s, n - 1);
    }
}

/// Setting a clear bit `k` raises the count of any window past `k` by one.
pub proof fn lemma_ones_set_bit(s1: Seq<u8>, s2: Seq<u8>, k: int, n: int)
    requires
        0 <= k,
        s1.len() == s2.len(),
        n <= 8 * s1.len(),
        !bit_is_set(s1, k),
        bit_is_set(s2, k),
        forall|j: int|
            0 <= j && j != k && j / 8 < s1.len() ==> bit_is_set(s1, j) == bit_is_set(s2, j),
    ensures
        k < n ==> ones(s2, n) == ones(s1, n) + 1,
        n <= k ==> ones(s2, n) == ones(s1, n),
    decreases n,
{
    if n > 0 {
        lemma_ones_set_bit(s1, s2, k, n - 1);
    }
}

/// Clearing a set bit `k` lowers the count of any window past `k` by one.
pub proof fn lemma_ones_clear_bit(s1: Seq<u8>, s2: Seq<u8>, k: int, n: int)
    requires
        0 <= k,
        s1.len() == s2.len(),
        n <= 8 * s1.len(),
        bit_is_set(s1, k),
        !bit_is_set(s2, k),
        forall|j: int|
            0 <= j && j != k && j / 8 < s1.len() ==> bit_is_set(s1, j) == bit_is_set(s2, j),
    ensures
        k < n ==> ones(s1, n) == ones(s2, n) + 1,
        n <= k ==> ones(s1, n) == ones(s2, n),
{
    lemma_ones_set_bit(s2, s1, k, n);
}

/// A window containing a set bit has a positive count.
pub proof fn lemma_ones_positive(s: Seq<u8>, k: int, n: int)
    requires
        0 <= k < n,
        bit_is_set(s, k),
    ensures
        ones(s, n) >= 1,
    decreases n,
{
    if k < n - 1 {
        lemma_ones_positive(s, k, n - 1);
    }
}

/// A zero byte has no set bits.
pub proof fn lemma_bit_clear_in_zero(s: Seq<u8>, j: int)
    requires
        0 <= j,
        j / 8 < s.len(),
        s[j / 8] == 0,
    ensures
        !bit_is_set(s, j),
{
    let i = (j % 8) as u8;
    assert(((0u8 >> i) & 1) != 1) by (bit_vector);
}

/// Set every bit of `[start, end)`, leaving all other bits unchanged.
pub fn bitmap_set_range(bm: &mut Vec<u8>, start: usize, end: usize)
    requires
        end <= old(bm)@.len() * 8,
    ensures
        final(bm)@.len() == old(bm)@.len(),
        forall|j: int| start <= j < end ==> bit_is_set(final(bm)@, j),
        forall|j: int|
            0 <= j && !(start <= j < end) && j / 8 < old(bm)@.len() ==> bit_is_set(final(bm)@, j)
                == bit_is_set(old(bm)@, j),
{
    let mut k: usize = start;
    while k < end
        invariant
            start <= k,
            end <= bm@.len() * 8,
            bm@.len() == old(bm)@.len(),
            forall|j: int| start <= j < k ==> bit_is_set(bm@, j),
            forall|j: int|
                0 <= j && !(start <= j < end) && j / 8 < old(bm)@.len() ==> bit_is_set(bm@, j)
                    == bit_is_set(old(bm)@, j),
        decreases end - k,
    {
        proof {
            assert(k < end <= bm@.len() * 8);
            assert(k / 8 < bm@.len());
        }
        bitmap_set(bm, k);
        k = k + 1;
    }
}

/// The population count of a prefix-and-suffix bitmap: bits `[0, a)` and
/// `[b, n)` set, bits `[a, b)` clear, counts `a + (n - b)`.
pub proof fn lemma_ones_intervals(s: Seq<u8>, a: int, b: int, n: int)
    requires
        0 <= a <= b <= n,
        forall|j: int| 0 <= j < n ==> bit_is_set(s, j) == (j < a || b <= j),
    ensures
        ones(s, n) == a + (n - b),
    decreases n,
{
    if n == 0 {
    } else if n <= a {
        lemma_ones_intervals(s, n - 1, n - 1, n - 1);
        assert(ones(s, n) == ones(s, n - 1) + 1);
    } else if n - 1 >= b {
        lemma_ones_intervals(s, a, b, n - 1);
    } else {
        lemma_ones_intervals(s, a, n - 1, n - 1);
    }
}

/// How `|` with a one-bit mask acts on each bit of a byte.
proof fn lemma_byte_or_bit()
    by (bit_vector)
    ensures
        forall|b: u8, i: u8, j: u8|
            i < 8 && j < 8 ==> #[trigger] (((b | (1u8 << i)) >> j) & 1) == (if i == j {
                1u8
            } else {
                (b >> j) & 1
            }),
{
}

/// How `&` with a one-bit inverted mask acts on each bit of a byte.
proof fn lemma_byte_and_not_bit()
    by (bit_vector)
    ensures
        forall|b: u8, i: u8, j: u8|
            i < 8 && j < 8 ==> #[trigger] (((b & !(1u8 << i)) >> j) & 1) == (if i == j {
                0u8
            } else {
                (b >> j) & 1
            }),
{
}

/// Test bit `k`.
pub fn bitmap_test(bm: &[u8], k: usize) -> (r: bool)
    requires
        k / 8 < bm@.len(),
    ensures
        r == bit_is_set(bm@, k as int),
{
    let byte = bm[k / 8];
    let r = (byte >> ((k % 8) as u8)) & 1 == 1;
    r
}

/// Set bit `k`, leaving every other bit (and every other byte) unchanged.
pub fn bitmap_set(bm: &mut Vec<u8>, k: usize)
    requires
        k / 8 < old(bm)@.len(),
    ensures
        final(bm)@.len() == old(bm)@.len(),
        bit_is_set(final(bm)@, k as int),
        forall|j: int|
            0 <= j && j != k && j / 8 < old(bm)@.len() ==> bit_is_set(final(bm)@, j)
                == bit_is_set(old(bm)@, j),
        forall|i: int|
            0 <= i < old(bm)@.len() && i != k / 8 ==> final(bm)@[i] == old(bm)@[i],
{
    let byte_idx = k / 8;
    let mask: u8 = 1u8 << ((k % 8) as u8);
    bm[byte_idx] = bm[byte_idx] | mask;
    proof {
        lemma_byte_or_bit();
        let b_old = old(bm)@[k as int / 8];
        let i_bit = (k % 8) as u8;
        assert(final(bm)@[k as int / 8] == b_old | (1u8 << i_bit));
        assert forall|j: int| 0 <= j && j != k && j / 8 < old(bm)@.len() implies bit_is_set(
            final(bm)@,
            j,
        ) == bit_is_set(old(bm)@, j) by {
            if j / 8 == k / 8 {
                assert(j % 8 != k % 8);
                assert(((j % 8) as u8) < 8);
            }
        }
    }
}

/// Clear bit `k`, leaving every other bit (and every other byte) unchanged.
pub fn bitmap_clear(bm: &mut Vec<u8>, k: usize)
    requires
        k / 8 < old(bm)@.len(),
    ensures
        final(bm)@.len() == old(bm)@.len(),
        !bit_is_set(final(bm)@, k as int),
        forall|j: int|
            0 <= j && j != k && j / 8 < old(bm)@.len() ==> bit_is_set(final(bm)@, j)
                == bit_is_set(old(bm)@, j),
        forall|i: int|
            0 <= i < old(bm)@.len() && i != k / 8 ==> final(bm)@[i] == old(bm)@[i],
{
    let byte_idx = k / 8;
    let mask: u8 = !(1u8 << ((k % 8) as u8));
    bm[byte_idx] = bm[byte_idx] & mask;
    proof {
        lemma_byte_and_not_bit();
        let b_old = old(bm)@[k as int / 8];
        let i_bit = (k % 8) as u8;
        assert(final(bm)@[k as int / 8] == b_old & !(1u8 << i_bit));
        assert forall|j: int| 0 <= j && j != k && j / 8 < old(bm)@.len() implies bit_is_set(
            final(bm)@,
            j,
        ) == bit_is_set(old(bm)@, j) by {
            if j / 8 == k / 8 {
                assert(j % 8 != k % 8);
                assert(((j % 8) as u8) < 8);
            }
        }
    }
}

/// Find the lowest clear bit in `[start, end)` and set it.
///
/// Returns its index, or `None` when every bit of the range is set; the
/// bitmap is unchanged in that case.
pub fn bitmap_find_and_set_first_clear(bm: &mut Vec<u8>, start: usize, end: usize) -> (r: Option<
    usize,
>)
    requires
        end <= old(bm)@.len() * 8,
    ensures
        final(bm)@.len() == old(bm)@.len(),
        match r {
            Some(k) => {
                &&& start <= k < end
                &&& !bit_is_set(old(bm)@, k as int)
                &&& bit_is_set(final(bm)@, k as int)
                &&& forall|j: int| start <= j < k ==> bit_is_set(old(bm)@, j)
                &&& forall|j: int|
                    0 <= j && j != k && j / 8 < old(bm)@.len() ==> bit_is_set(final(bm)@, j)
                        == bit_is_set(old(bm)@, j)
            },
            None => {
                &&& final(bm)@ == old(bm)@
                &&& forall|j: int| start <= j < end ==> bit_is_set(old(bm)@, j)
            },
        },
{
    let mut k: usize = start;
    while k < end
        invariant
            start <= k,
            end <= bm@.len() * 8,
            bm@ == old(bm)@,
            forall|j: int| start <= j < k ==> bit_is_set(old(bm)@, j),
        decreases end - k,
    {
        proof {
            assert(k < end <= bm@.len() * 8);
            assert(k / 8 < bm@.len());
        }
        if !bitmap_test(bm.as_slice(), k) {
            bitmap_set(bm, k);
            return Some(k);
        }
        k = k + 1;
    }
    None
}

} // verus!
