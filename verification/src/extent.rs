//! The extent tree: the per-inode mapping from logical to physical blocks.
//!
//! A node is a 12-byte header followed by 12-byte records: leaf extents at
//! depth 0, indexes above. The root lives in the inode's 60-byte inline area
//! and holds at most 4 records; a non-root node fills a block, with a 4-byte
//! keyed checksum at the block's end.
//!
//! Invariant: a node's records are sorted ascending by first logical block
//! and leaf extents do not overlap.

use vstd::prelude::*;

use crate::codec::{get_u16, get_u32, le16_at, le32_at, put_u16, put_u32, zero_vec};
use crate::crc32c::{crc32c_seq, crc32c_update, crc32c_update_range, crc32c_update_u32le,
    u32_le_bytes, CRC32C_INIT};
use crate::inode::{Ext4Inode, INODE_BLOCK_AREA_SIZE};
use crate::{ErrCode, BLOCK_SIZE};

verus! {

/// Magic number of every extent-tree node header.
pub const EXT4_EXTENT_MAGIC: u16 = 0xF30A;

/// Records the inline root can hold.
pub const EXTENT_ROOT_MAX_ENTRIES: u16 = 4;

/// Records a full-block node can hold: `(4096 - 12) / 12` minus one slot
/// reserved for the tail checksum.
pub const EXTENT_BLOCK_MAX_ENTRIES: u16 = 339;

/// Longest extent: 32768 blocks.
pub const EXTENT_MAX_LEN: u16 = 0x8000;

/// An extent-tree node header.
#[derive(Clone, Copy, PartialEq, Eq, Structural, Debug)]
pub struct Ext4ExtentHeader {
    /// Always `EXT4_EXTENT_MAGIC`.
    pub magic: u16,
    /// Records in use.
    pub entries_count: u16,
    /// Records the node can hold.
    pub max_entries_count: u16,
    /// 0 for a leaf node; the records of deeper nodes are indexes.
    pub depth: u16,
    /// Generation.
    pub generation: u32,
}

/// A leaf record: `block_count` logical blocks starting at `first_block`
/// map to physical blocks starting at `start_pblock`.
#[derive(Clone, Copy, PartialEq, Eq, Structural, Debug)]
pub struct Ext4Extent {
    /// First logical block covered.
    pub first_block: u32,
    /// Number of blocks covered, at most 32768.
    pub block_count: u16,
    /// First physical block (48 bits).
    pub start_pblock: u64,
}

/// An internal record: logical blocks from `first_block` on are found under
/// the node in block `child_pblock`.
#[derive(Clone, Copy, PartialEq, Eq, Structural, Debug)]
pub struct Ext4ExtentIndex {
    /// First logical block covered by the child.
    pub first_block: u32,
    /// Physical block of the child node (48 bits).
    pub child_pblock: u64,
}

/// A parsed node: leaves at depth 0, indexes above.
pub struct ExtentNode {
    /// The header.
    pub header: Ext4ExtentHeader,
    /// Leaf records; empty unless depth is 0.
    pub leaves: Vec<Ext4Extent>,
    /// Index records; empty at depth 0.
    pub indexes: Vec<Ext4ExtentIndex>,
}

/// Bounds of one leaf record.
pub open spec fn extent_wf(e: Ext4Extent) -> bool {
    &&& 1 <= e.block_count <= EXTENT_MAX_LEN
    &&& e.first_block + e.block_count <= 0xFFFF_FFFF
    &&& e.start_pblock < 0x1_0000_0000_0000
    &&& e.start_pblock + e.block_count < 0x1_0000_0000_0000
}

/// Bounds of one index record.
pub open spec fn extent_index_wf(ix: Ext4ExtentIndex) -> bool {
    ix.child_pblock < 0x1_0000_0000_0000
}

/// Whether logical block `lb` falls inside extent `e`.
pub open spec fn extent_covers(e: Ext4Extent, lb: u32) -> bool {
    e.first_block <= lb < e.first_block + e.block_count
}

/// Leaves sorted ascending by first logical block, with no overlap: each
/// extent ends at or before the next begins.
pub open spec fn leaves_sorted(ls: Seq<Ext4Extent>) -> bool {
    forall|i: int|
        0 <= i < ls.len() - 1 ==> (#[trigger] ls[i]).first_block + ls[i].block_count <= ls[i
            + 1].first_block
}

/// Every leaf in bounds.
pub open spec fn leaves_wf(ls: Seq<Ext4Extent>) -> bool {
    forall|i: int| 0 <= i < ls.len() ==> extent_wf(#[trigger] ls[i])
}

/// Indexes sorted strictly ascending by first logical block.
pub open spec fn indexes_sorted(ixs: Seq<Ext4ExtentIndex>) -> bool {
    forall|i: int|
        0 <= i < ixs.len() - 1 ==> (#[trigger] ixs[i]).first_block < ixs[i + 1].first_block
}

/// Every index in bounds.
pub open spec fn indexes_wf(ixs: Seq<Ext4ExtentIndex>) -> bool {
    forall|i: int| 0 <= i < ixs.len() ==> extent_index_wf(#[trigger] ixs[i])
}

/// The physical block mapped to logical block `lb`, scanning leaves front
/// to back.
pub open spec fn leaves_lookup(ls: Seq<Ext4Extent>, lb: u32) -> Option<u64>
    decreases ls.len(),
{
    if ls.len() == 0 {
        None
    } else if extent_covers(ls[0], lb) {
        Some((ls[0].start_pblock + (lb - ls[0].first_block)) as u64)
    } else {
        leaves_lookup(ls.drop_first(), lb)
    }
}

/// A parsed node's shape: counts agree with the header, one record vector
/// is empty, records are in bounds and sorted.
pub open spec fn node_wf(n: ExtentNode) -> bool {
    &&& n.header.magic == EXT4_EXTENT_MAGIC
    &&& n.header.entries_count <= n.header.max_entries_count
    &&& if n.header.depth == 0 {
        &&& n.leaves@.len() == n.header.entries_count
        &&& n.indexes@.len() == 0
        &&& leaves_wf(n.leaves@)
        &&& leaves_sorted(n.leaves@)
    } else {
        &&& n.indexes@.len() == n.header.entries_count
        &&& n.leaves@.len() == 0
        &&& indexes_wf(n.indexes@)
        &&& indexes_sorted(n.indexes@)
    }
}

/// What a header looks like at byte offset `off`.
pub open spec fn header_matches_at(h: Ext4ExtentHeader, s: Seq<u8>, off: int) -> bool {
    &&& le16_at(s, off) == h.magic
    &&& le16_at(s, off + 2) == h.entries_count
    &&& le16_at(s, off + 4) == h.max_entries_count
    &&& le16_at(s, off + 6) == h.depth
    &&& le32_at(s, off + 8) == h.generation
}

/// What a leaf record looks like at byte offset `off`.
#[verifier::opaque]
pub open spec fn extent_matches_at(e: Ext4Extent, s: Seq<u8>, off: int) -> bool {
    &&& le32_at(s, off) == e.first_block
    &&& le16_at(s, off + 4) == e.block_count
    &&& le16_at(s, off + 6) == (e.start_pblock >> 32) as u16
    &&& le32_at(s, off + 8) == e.start_pblock as u32
}

/// What an index record looks like at byte offset `off`.
#[verifier::opaque]
pub open spec fn index_matches_at(ix: Ext4ExtentIndex, s: Seq<u8>, off: int) -> bool {
    &&& le32_at(s, off) == ix.first_block
    &&& le32_at(s, off + 4) == ix.child_pblock as u32
    &&& le16_at(s, off + 8) == (ix.child_pblock >> 32) as u16
}

/// The physical block a leaf record stores, straight off the bytes: the
/// low 32 bits at `off + 8` under the high 16 at `off + 6`.
pub open spec fn rec_pblock(s: Seq<u8>, off: int) -> int {
    (le16_at(s, off + 6) as int) * 0x1_0000_0000 + le32_at(s, off + 8)
}

/// One leaf record's bounds, straight off the bytes.
pub open spec fn rec_extent_wf(s: Seq<u8>, off: int) -> bool {
    &&& 1 <= le16_at(s, off + 4) <= EXTENT_MAX_LEN
    &&& le32_at(s, off) + le16_at(s, off + 4) <= 0xFFFF_FFFF
    &&& rec_pblock(s, off) + le16_at(s, off + 4) < 0x1_0000_0000_0000
}

/// A well-formed depth-0 root in the inline area, read straight off the
/// bytes: the magic, depth 0, counts in range, every record in bounds, and
/// the records sorted without overlap.
pub open spec fn root0_bytes_wf(s: Seq<u8>) -> bool {
    let cnt = le16_at(s, 2) as int;
    &&& s.len() == INODE_BLOCK_AREA_SIZE
    &&& le16_at(s, 0) == EXT4_EXTENT_MAGIC
    &&& le16_at(s, 6) == 0
    &&& cnt <= le16_at(s, 4) as int
    &&& le16_at(s, 4) <= EXTENT_ROOT_MAX_ENTRIES
    &&& forall|i: int| 0 <= i < cnt ==> #[trigger] rec_extent_wf(s, 12 + 12 * i)
    &&& forall|i: int|
        0 <= i < cnt - 1 ==> le32_at(s, 12 + 12 * i) + le16_at(s, 12 + 12 * i + 4)
            <= #[trigger] le32_at(s, 12 + 12 * (i + 1))
}

/// Resolve a logical block against a depth-0 root's records, straight off
/// the bytes, scanning from record `i`.
pub open spec fn root_leaves_lookup(s: Seq<u8>, i: int, lb: u32) -> Option<u64>
    decreases le16_at(s, 2) as int - i
        when 0 <= i
{
    if i >= le16_at(s, 2) as int {
        None
    } else {
        let first = le32_at(s, 12 + 12 * i) as int;
        let cnt = le16_at(s, 12 + 12 * i + 4) as int;
        if first <= lb < first + cnt {
            Some((rec_pblock(s, 12 + 12 * i) + (lb - first)) as u64)
        } else {
            root_leaves_lookup(s, i + 1, lb)
        }
    }
}

/// Over a byte region a well-formed depth-0 node matches, the byte-level
/// resolution agrees with the node's, record by record.
pub proof fn lemma_root_lookup_matches(n: ExtentNode, s: Seq<u8>, lb: u32, k: int)
    requires
        node_wf(n),
        node_region_matches(n, s),
        n.header.depth == 0,
        0 <= k <= n.leaves@.len(),
    ensures
        root_leaves_lookup(s, k, lb) == leaves_lookup(n.leaves@.skip(k), lb),
    decreases n.leaves@.len() - k,
{
    assert(le16_at(s, 2) == n.header.entries_count);
    if k >= n.leaves@.len() {
        assert(n.leaves@.skip(k).len() == 0);
    } else {
        reveal(extent_matches_at);
        let e = n.leaves@[k];
        assert(extent_matches_at(e, s, 12 + 12 * k));
        assert(extent_wf(e));
        let pb = e.start_pblock;
        let hi = le16_at(s, 12 + 12 * k + 6);
        let lo = le32_at(s, 12 + 12 * k + 8);
        assert((hi as int) * 0x1_0000_0000 + lo == pb) by (bit_vector)
            requires
                pb < 0x1_0000_0000_0000,
                hi == (pb >> 32) as u16,
                lo == pb as u32,
        ;
        assert(n.leaves@.skip(k)[0] == e);
        assert(n.leaves@.skip(k).drop_first() =~= n.leaves@.skip(k + 1));
        if extent_covers(e, lb) {
        } else {
            lemma_root_lookup_matches(n, s, lb, k + 1);
        }
    }
}

/// A whole node at the start of a byte region: header, then records at
/// 12-byte strides.
pub open spec fn node_region_matches(n: ExtentNode, s: Seq<u8>) -> bool {
    &&& header_matches_at(n.header, s, 0)
    &&& n.header.depth == 0 ==> forall|i: int|
        0 <= i < n.leaves@.len() ==> extent_matches_at(#[trigger] n.leaves@[i], s, 12 + 12 * i)
    &&& n.header.depth > 0 ==> forall|i: int|
        0 <= i < n.indexes@.len() ==> index_matches_at(#[trigger] n.indexes@[i], s, 12 + 12 * i)
}

/// The keyed CRC32C of a full-block node: UUID, the owning inode's id and
/// generation, then the block up to the checksum slot in its last 4 bytes.
pub open spec fn extent_block_csum_of(uuid: Seq<u8>, ino: u32, gen: u32, s: Seq<u8>) -> u32 {
    crc32c_seq(
        crc32c_seq(
            crc32c_seq(crc32c_seq(CRC32C_INIT, uuid), u32_le_bytes(ino)),
            u32_le_bytes(gen),
        ),
        s.subrange(0, BLOCK_SIZE - 4),
    )
}

/// The stored tail checksum of a full-block node verifies.
pub open spec fn extent_block_csum_valid(uuid: Seq<u8>, ino: u32, gen: u32, s: Seq<u8>) -> bool {
    &&& s.len() == BLOCK_SIZE
    &&& le32_at(s, BLOCK_SIZE - 4) == extent_block_csum_of(uuid, ino, gen, s)
}

/// Read a node header at byte offset `off`.
pub fn parse_extent_header(s: &[u8], off: usize) -> (r: Ext4ExtentHeader)
    requires
        off + 12 <= s@.len(),
    ensures
        header_matches_at(r, s@, off as int),
{
    let _n: usize = s.len();
    Ext4ExtentHeader {
        magic: get_u16(s, off),
        entries_count: get_u16(s, off + 2),
        max_entries_count: get_u16(s, off + 4),
        depth: get_u16(s, off + 6),
        generation: get_u32(s, off + 8),
    }
}

/// Write a node header at byte offset `off`, leaving other bytes unchanged.
pub fn write_extent_header_at(v: &mut Vec<u8>, off: usize, h: &Ext4ExtentHeader)
    requires
        off + 12 <= old(v)@.len(),
    ensures
        final(v)@.len() == old(v)@.len(),
        header_matches_at(*h, final(v)@, off as int),
        forall|j: int|
            0 <= j < old(v)@.len() && !(off <= j < off + 12) ==> final(v)@[j] == old(v)@[j],
{
    let _n: usize = v.len();
    put_u16(v, off, h.magic);
    put_u16(v, off + 2, h.entries_count);
    put_u16(v, off + 4, h.max_entries_count);
    put_u16(v, off + 6, h.depth);
    put_u32(v, off + 8, h.generation);
}

/// Write a leaf record at byte offset `off`, leaving other bytes unchanged.
pub fn write_extent_at(v: &mut Vec<u8>, off: usize, e: &Ext4Extent)
    requires
        off + 12 <= old(v)@.len(),
        extent_wf(*e),
    ensures
        final(v)@.len() == old(v)@.len(),
        extent_matches_at(*e, final(v)@, off as int),
        forall|j: int|
            0 <= j < old(v)@.len() && !(off <= j < off + 12) ==> final(v)@[j] == old(v)@[j],
{
    let _n: usize = v.len();
    let pb = e.start_pblock;
    let hi: u16 = (pb >> 32) as u16;
    let lo: u32 = (pb & 0xFFFF_FFFF) as u32;
    proof {
        assert(pb < 0x1_0000_0000_0000 ==> (pb >> 32) < 0x1_0000) by (bit_vector);
        assert((pb & 0xFFFF_FFFF) as u32 == pb as u32) by (bit_vector);
    }
    put_u32(v, off, e.first_block);
    put_u16(v, off + 4, e.block_count);
    put_u16(v, off + 6, hi);
    put_u32(v, off + 8, lo);
    proof {
        reveal(extent_matches_at);
    }
}

/// Write an index record at byte offset `off`, leaving other bytes
/// unchanged.
pub fn write_extent_index_at(v: &mut Vec<u8>, off: usize, ix: &Ext4ExtentIndex)
    requires
        off + 12 <= old(v)@.len(),
        extent_index_wf(*ix),
    ensures
        final(v)@.len() == old(v)@.len(),
        index_matches_at(*ix, final(v)@, off as int),
        forall|j: int|
            0 <= j < old(v)@.len() && !(off <= j < off + 12) ==> final(v)@[j] == old(v)@[j],
{
    let _n: usize = v.len();
    let pb = ix.child_pblock;
    let hi: u16 = (pb >> 32) as u16;
    let lo: u32 = (pb & 0xFFFF_FFFF) as u32;
    proof {
        assert(pb < 0x1_0000_0000_0000 ==> (pb >> 32) < 0x1_0000) by (bit_vector);
        assert((pb & 0xFFFF_FFFF) as u32 == pb as u32) by (bit_vector);
    }
    put_u32(v, off, ix.first_block);
    put_u32(v, off + 4, lo);
    put_u16(v, off + 8, hi);
    put_u16(v, off + 10, 0);
    proof {
        reveal(index_matches_at);
    }
}

/// Read a leaf record at byte offset `off`.
pub fn parse_extent_at(s: &[u8], off: usize) -> (r: Ext4Extent)
    requires
        off + 12 <= s@.len(),
    ensures
        extent_matches_at(r, s@, off as int),
        r.start_pblock < 0x1_0000_0000_0000,
{
    let _n: usize = s.len();
    let first_block = get_u32(s, off);
    let block_count = get_u16(s, off + 4);
    let hi = get_u16(s, off + 6);
    let lo = get_u32(s, off + 8);
    let pb: u64 = ((hi as u64) << 32) | (lo as u64);
    proof {
        assert(((hi as u64) << 32) | (lo as u64) < 0x1_0000_0000_0000 && ((((hi as u64) << 32)
            | (lo as u64)) >> 32) as u16 == hi && (((hi as u64) << 32) | (lo as u64)) as u32
            == lo) by (bit_vector);
        reveal(extent_matches_at);
    }
    Ext4Extent { first_block, block_count, start_pblock: pb }
}

/// Read an index record at byte offset `off`.
pub fn parse_extent_index_at(s: &[u8], off: usize) -> (r: Ext4ExtentIndex)
    requires
        off + 12 <= s@.len(),
    ensures
        index_matches_at(r, s@, off as int),
        extent_index_wf(r),
{
    let _n: usize = s.len();
    let first_block = get_u32(s, off);
    let lo = get_u32(s, off + 4);
    let hi = get_u16(s, off + 8);
    let pb: u64 = ((hi as u64) << 32) | (lo as u64);
    proof {
        assert(((hi as u64) << 32) | (lo as u64) < 0x1_0000_0000_0000 && ((((hi as u64) << 32)
            | (lo as u64)) >> 32) as u16 == hi && (((hi as u64) << 32) | (lo as u64)) as u32
            == lo) by (bit_vector);
        reveal(index_matches_at);
    }
    Ext4ExtentIndex { first_block, child_pblock: pb }
}

/// Parse a node from the start of a byte region: the inline root area or a
/// full block.
///
/// Rejects with `EFSCORRUPTED` a bad magic, a record count over the
/// capacity, a capacity that does not fit the region, an empty or oversized
/// extent, or records out of order.
#[verifier::rlimit(60)]
pub fn parse_extent_node(area: &[u8]) -> (r: Result<ExtentNode, ErrCode>)
    requires
        area@.len() == INODE_BLOCK_AREA_SIZE || area@.len() == BLOCK_SIZE,
    ensures
        match r {
            Ok(n) => {
                &&& node_wf(n)
                &&& node_region_matches(n, area@)
                &&& area@.len() == INODE_BLOCK_AREA_SIZE ==> n.header.max_entries_count
                    <= EXTENT_ROOT_MAX_ENTRIES
                &&& n.header.max_entries_count <= EXTENT_BLOCK_MAX_ENTRIES
            },
            Err(c) => c == ErrCode::Efscorrupted,
        },
        // a well-formed depth-0 root always parses
        area@.len() == INODE_BLOCK_AREA_SIZE && root0_bytes_wf(area@) ==> r is Ok,
{
    let h = parse_extent_header(area, 0);
    if h.magic != EXT4_EXTENT_MAGIC {
        proof {
            assert(!root0_bytes_wf(area@));
        }
        return Err(ErrCode::Efscorrupted);
    }
    if h.entries_count > h.max_entries_count {
        proof {
            assert(!root0_bytes_wf(area@));
        }
        return Err(ErrCode::Efscorrupted);
    }
    let cap: u16 = if area.len() == INODE_BLOCK_AREA_SIZE {
        EXTENT_ROOT_MAX_ENTRIES
    } else {
        EXTENT_BLOCK_MAX_ENTRIES
    };
    if h.max_entries_count > cap {
        proof {
            assert(!root0_bytes_wf(area@));
        }
        return Err(ErrCode::Efscorrupted);
    }
    let n = h.entries_count as usize;
    if h.depth == 0 {
        let mut leaves: Vec<Ext4Extent> = Vec::new();
        let mut i: usize = 0;
        while i < n
            invariant
                n == h.entries_count,
                12 + 12 * n <= area@.len(),
                i <= n,
                leaves@.len() == i,
                header_matches_at(h, area@, 0),
                leaves_wf(leaves@),
                leaves_sorted(leaves@),
                forall|k: int|
                    0 <= k < i ==> extent_matches_at(#[trigger] leaves@[k], area@, 12 + 12 * k),
            decreases n - i,
        {
            let e = parse_extent_at(area, 12 + 12 * i);
            proof {
                if root0_bytes_wf(area@) {
                    reveal(extent_matches_at);
                    assert(rec_extent_wf(area@, 12 + 12 * (i as int)));
                    let pb = e.start_pblock;
                    let hi = le16_at(area@, 12 + 12 * (i as int) + 6);
                    let lo = le32_at(area@, 12 + 12 * (i as int) + 8);
                    assert((hi as int) * 0x1_0000_0000 + lo == pb) by (bit_vector)
                        requires
                            pb < 0x1_0000_0000_0000,
                            hi == (pb >> 32) as u16,
                            lo == pb as u32,
                    ;
                    assert(e.first_block == le32_at(area@, 12 + 12 * (i as int)));
                    assert(e.block_count == le16_at(area@, 12 + 12 * (i as int) + 4));
                    if i > 0 {
                        let j = i as int - 1;
                        assert(rec_extent_wf(area@, 12 + 12 * j));
                        assert(le32_at(area@, 12 + 12 * j) + le16_at(area@, 12 + 12 * j + 4)
                            <= le32_at(area@, 12 + 12 * (j + 1)));
                        assert(12 + 12 * (j + 1) == 12 + 12 * (i as int));
                    }
                }
            }
            if e.block_count == 0 || e.block_count > EXTENT_MAX_LEN {
                return Err(ErrCode::Efscorrupted);
            }
            if e.first_block as u64 + e.block_count as u64 > 0xFFFF_FFFF {
                return Err(ErrCode::Efscorrupted);
            }
            if e.start_pblock + e.block_count as u64 >= 0x1_0000_0000_0000 {
                return Err(ErrCode::Efscorrupted);
            }
            if i > 0 {
                let prev = &leaves[i - 1];
                proof {
                    if root0_bytes_wf(area@) {
                        reveal(extent_matches_at);
                        assert(extent_matches_at(leaves@[i - 1], area@, 12 + 12 * (i as int
                            - 1)));
                        assert(leaves@[i - 1].first_block == le32_at(
                            area@,
                            12 + 12 * (i as int - 1),
                        ));
                        assert(leaves@[i - 1].block_count == le16_at(
                            area@,
                            12 + 12 * (i as int - 1) + 4,
                        ));
                    }
                }
                if prev.first_block as u64 + prev.block_count as u64 > e.first_block as u64 {
                    proof {
                        if root0_bytes_wf(area@) {
                            let j = i as int - 1;
                            assert(le32_at(area@, 12 + 12 * j) + le16_at(area@, 12 + 12 * j + 4)
                                <= le32_at(area@, 12 + 12 * (j + 1)));
                            assert(12 + 12 * (j + 1) == 12 + 12 * (i as int));
                            assert(false);
                        }
                    }
                    return Err(ErrCode::Efscorrupted);
                }
            }
            leaves.push(e);
            i = i + 1;
        }
        Ok(ExtentNode { header: h, leaves, indexes: Vec::new() })
    } else {
        let mut indexes: Vec<Ext4ExtentIndex> = Vec::new();
        let mut i: usize = 0;
        while i < n
            invariant
                n == h.entries_count,
                12 + 12 * n <= area@.len(),
                i <= n,
                indexes@.len() == i,
                header_matches_at(h, area@, 0),
                h.depth != 0,
                indexes_wf(indexes@),
                indexes_sorted(indexes@),
                forall|k: int|
                    0 <= k < i ==> index_matches_at(#[trigger] indexes@[k], area@, 12 + 12 * k),
            decreases n - i,
        {
            let ix = parse_extent_index_at(area, 12 + 12 * i);
            if i > 0 {
                let prev = &indexes[i - 1];
                if prev.first_block >= ix.first_block {
                    return Err(ErrCode::Efscorrupted);
                }
            }
            indexes.push(ix);
            i = i + 1;
        }
        Ok(ExtentNode { header: h, leaves: Vec::new(), indexes })
    }
}

/// Write a node into the start of a byte region, leaving bytes past its
/// records unchanged.
#[verifier::rlimit(60)]
pub fn write_node_into(v: &mut Vec<u8>, n: &ExtentNode)
    requires
        node_wf(*n),
        12 + 12 * (n.header.entries_count as int) <= old(v)@.len(),
    ensures
        final(v)@.len() == old(v)@.len(),
        node_region_matches(*n, final(v)@),
        forall|j: int|
            12 + 12 * (n.header.entries_count as int) <= j < old(v)@.len() ==> final(v)@[j]
                == old(v)@[j],
{
    write_extent_header_at(v, 0, &n.header);
    let cnt = n.header.entries_count as usize;
    if n.header.depth == 0 {
        let mut i: usize = 0;
        while i < cnt
            invariant
                cnt == n.header.entries_count,
                node_wf(*n),
                n.header.depth == 0,
                i <= cnt,
                12 + 12 * cnt <= v@.len() == old(v)@.len(),
                header_matches_at(n.header, v@, 0),
                forall|k: int|
                    0 <= k < i ==> extent_matches_at(#[trigger] n.leaves@[k], v@, 12 + 12 * k),
                forall|j: int| 12 + 12 * cnt <= j < old(v)@.len() ==> v@[j] == old(v)@[j],
            decreases cnt - i,
        {
            let ghost v0 = v@;
            write_extent_at(v, 12 + 12 * i, &n.leaves[i]);
            proof {
                assert forall|k: int| 0 <= k < i implies extent_matches_at(
                    #[trigger] n.leaves@[k],
                    v@,
                    12 + 12 * k,
                ) by {
                    lemma_extent_matches_preserved(n.leaves@[k], v0, v@, 12 + 12 * k);
                }
            }
            i = i + 1;
        }
    } else {
        let mut i: usize = 0;
        while i < cnt
            invariant
                cnt == n.header.entries_count,
                node_wf(*n),
                n.header.depth > 0,
                i <= cnt,
                12 + 12 * cnt <= v@.len() == old(v)@.len(),
                header_matches_at(n.header, v@, 0),
                forall|k: int|
                    0 <= k < i ==> index_matches_at(#[trigger] n.indexes@[k], v@, 12 + 12 * k),
                forall|j: int| 12 + 12 * cnt <= j < old(v)@.len() ==> v@[j] == old(v)@[j],
            decreases cnt - i,
        {
            let ghost v0 = v@;
            write_extent_index_at(v, 12 + 12 * i, &n.indexes[i]);
            proof {
                assert forall|k: int| 0 <= k < i implies index_matches_at(
                    #[trigger] n.indexes@[k],
                    v@,
                    12 + 12 * k,
                ) by {
                    lemma_index_matches_preserved(n.indexes@[k], v0, v@, 12 + 12 * k);
                }
            }
            i = i + 1;
        }
    }
}

/// A leaf-record match survives writes outside its 12 bytes.
proof fn lemma_extent_matches_preserved(e: Ext4Extent, s1: Seq<u8>, s2: Seq<u8>, off: int)
    requires
        extent_matches_at(e, s1, off),
        s1.len() == s2.len(),
        0 <= off,
        off + 12 <= s1.len(),
        forall|j: int| off <= j < off + 12 ==> s2[j] == s1[j],
    ensures
        extent_matches_at(e, s2, off),
{
    reveal(extent_matches_at);
}

/// An index-record match survives writes outside its 12 bytes.
proof fn lemma_index_matches_preserved(ix: Ext4ExtentIndex, s1: Seq<u8>, s2: Seq<u8>, off: int)
    requires
        index_matches_at(ix, s1, off),
        s1.len() == s2.len(),
        0 <= off,
        off + 12 <= s1.len(),
        forall|j: int| off <= j < off + 12 ==> s2[j] == s1[j],
    ensures
        index_matches_at(ix, s2, off),
{
    reveal(index_matches_at);
}

/// Serialize a node into a full block with its keyed tail checksum.
pub fn serialize_extent_block(n: &ExtentNode, uuid: &[u8], ino: u32, gen: u32) -> (r: Vec<u8>)
    requires
        node_wf(*n),
        n.header.entries_count <= EXTENT_BLOCK_MAX_ENTRIES,
    ensures
        r@.len() == BLOCK_SIZE,
        node_region_matches(*n, r@),
        extent_block_csum_valid(uuid@, ino, gen, r@),
{
    let mut v = zero_vec(BLOCK_SIZE);
    write_node_into(&mut v, n);
    let ghost pre = v@;
    let c = crc32c_update(CRC32C_INIT, uuid);
    let c = crc32c_update_u32le(c, ino);
    let c = crc32c_update_u32le(c, gen);
    let c = crc32c_update_range(c, v.as_slice(), 0, BLOCK_SIZE - 4);
    put_u32(&mut v, BLOCK_SIZE - 4, c);
    proof {
        assert(v@.subrange(0, BLOCK_SIZE - 4) =~= pre.subrange(0, BLOCK_SIZE - 4));
        assert forall|k: int| 0 <= k < n.leaves@.len() && n.header.depth == 0 implies
            extent_matches_at(#[trigger] n.leaves@[k], v@, 12 + 12 * k) by {
            lemma_extent_matches_preserved(n.leaves@[k], pre, v@, 12 + 12 * k);
        }
        assert forall|k: int| 0 <= k < n.indexes@.len() && n.header.depth > 0 implies
            index_matches_at(#[trigger] n.indexes@[k], v@, 12 + 12 * k) by {
            lemma_index_matches_preserved(n.indexes@[k], pre, v@, 12 + 12 * k);
        }
    }
    v
}

/// The physical block mapped to `lb`, if any, by a scan of the leaves.
pub fn leaves_find(ls: &Vec<Ext4Extent>, lb: u32) -> (r: Option<u64>)
    requires
        leaves_wf(ls@),
    ensures
        r == leaves_lookup(ls@, lb),
{
    let n = ls.len();
    let mut i: usize = 0;
    proof {
        assert(ls@.skip(0) =~= ls@);
    }
    while i < n
        invariant
            i <= n == ls@.len(),
            leaves_wf(ls@),
            leaves_lookup(ls@, lb) == leaves_lookup(ls@.skip(i as int), lb),
        decreases n - i,
    {
        let e = &ls[i];
        proof {
            assert(ls@.skip(i as int)[0] == ls@[i as int]);
            assert(ls@.skip(i as int).drop_first() =~= ls@.skip(i + 1));
        }
        if e.first_block <= lb {
            let off = lb - e.first_block;
            if (off as u64) < e.block_count as u64 {
                proof {
                    assert(extent_covers(ls@[i as int], lb));
                }
                return Some(e.start_pblock + off as u64);
            }
        }
        i = i + 1;
    }
    proof {
        assert(ls@.skip(n as int).len() == 0);
    }
    None
}

/// The child to descend into for logical block `lb`: the greatest index
/// whose first block is at or under `lb`.
pub fn indexes_find_child(ixs: &Vec<Ext4ExtentIndex>, lb: u32) -> (r: Option<usize>)
    requires
        indexes_sorted(ixs@),
    ensures
        match r {
            Some(i) => {
                &&& i < ixs@.len()
                &&& ixs@[i as int].first_block <= lb
                &&& i + 1 < ixs@.len() ==> ixs@[i + 1].first_block > lb
            },
            None => ixs@.len() == 0 || ixs@[0].first_block > lb,
        },
{
    let n = ixs.len();
    if n == 0 {
        return None;
    }
    if ixs[0].first_block > lb {
        return None;
    }
    let mut i: usize = 0;
    while i + 1 < n && ixs[i + 1].first_block <= lb
        invariant
            n == ixs@.len(),
            i < n,
            ixs@[i as int].first_block <= lb,
        decreases n - i,
    {
        i = i + 1;
    }
    Some(i)
}

/// How a lookup reacts to inserting a record disjoint from all others.
proof fn lemma_lookup_insert_at(ls: Seq<Ext4Extent>, p: int, e: Ext4Extent, x: u32)
    requires
        0 <= p <= ls.len(),
        forall|i: int|
            0 <= i < ls.len() ==> !(extent_covers(#[trigger] ls[i], x) && extent_covers(e, x)),
    ensures
        leaves_lookup(ls.insert(p, e), x) == if extent_covers(e, x) {
            Some((e.start_pblock + (x - e.first_block)) as u64)
        } else {
            leaves_lookup(ls, x)
        },
    decreases p,
{
    let ls2 = ls.insert(p, e);
    if p == 0 {
        assert(ls2[0] == e);
        if !extent_covers(e, x) {
            assert(ls2.drop_first() =~= ls);
        }
    } else {
        assert(ls2[0] == ls[0]);
        if extent_covers(ls[0], x) {
            assert(!extent_covers(e, x));
        } else {
            assert(ls2.drop_first() =~= ls.drop_first().insert(p - 1, e));
            lemma_lookup_insert_at(ls.drop_first(), p - 1, e, x);
        }
    }
}

/// How a lookup reacts to widening record `i` in place: the physical
/// mapping of the old range is kept and the added range maps past its end.
proof fn lemma_lookup_update_at(ls: Seq<Ext4Extent>, i: int, e2: Ext4Extent, x: u32)
    requires
        0 <= i < ls.len(),
        e2.first_block == ls[i].first_block,
        e2.start_pblock == ls[i].start_pblock,
        e2.block_count >= ls[i].block_count,
        forall|j: int|
            0 <= j < ls.len() && j != i ==> !(extent_covers(#[trigger] ls[j], x) && extent_covers(
                e2,
                x,
            )),
    ensures
        leaves_lookup(ls.update(i, e2), x) == if extent_covers(e2, x) {
            Some((e2.start_pblock + (x - e2.first_block)) as u64)
        } else {
            leaves_lookup(ls, x)
        },
    decreases i,
{
    let ls2 = ls.update(i, e2);
    if i == 0 {
        assert(ls2[0] == e2);
        if extent_covers(e2, x) {
        } else {
            assert(!extent_covers(ls[0], x));
            assert(ls2.drop_first() =~= ls.drop_first());
        }
    } else {
        assert(ls2[0] == ls[0]);
        if extent_covers(ls[0], x) {
            assert(!extent_covers(e2, x));
        } else {
            assert(ls2.drop_first() =~= ls.drop_first().update(i - 1, e2));
            lemma_lookup_update_at(ls.drop_first(), i - 1, e2, x);
        }
    }
}

/// Everything the insertion path needs to know about the split position
/// `p`: records before it lie entirely under `lb`, records from it on lie
/// entirely past the inserted range.
pub open spec fn split_pos_ok(
    ls: Seq<Ext4Extent>,
    p: int,
    lb: u32,
    count: u16,
) -> bool {
    &&& 0 <= p <= ls.len()
    &&& forall|k: int|
        0 <= k < p ==> (#[trigger] ls[k]).first_block + ls[k].block_count <= lb
    &&& forall|k: int| p <= k < ls.len() ==> lb + count <= (#[trigger] ls[k]).first_block
}

/// The sorted position for a record starting at `lb`.
fn leaves_split_pos(ls: &Vec<Ext4Extent>, lb: u32, count: u16) -> (p: usize)
    requires
        leaves_wf(ls@),
        leaves_sorted(ls@),
        forall|i: int|
            0 <= i < ls@.len() ==> (#[trigger] ls@[i]).first_block + ls@[i].block_count <= lb
                || lb + count <= ls@[i].first_block,
    ensures
        split_pos_ok(ls@, p as int, lb, count),
{
    let n = ls.len();
    let mut p: usize = 0;
    while p < n && ls[p].first_block < lb
        invariant
            n == ls@.len(),
            p <= n,
            forall|k: int| 0 <= k < p ==> (#[trigger] ls@[k]).first_block < lb,
        decreases n - p,
    {
        p = p + 1;
    }
    proof {
        assert forall|k: int| 0 <= k < p implies (#[trigger] ls@[k]).first_block
            + ls@[k].block_count <= lb by {
            assert(ls@[k].first_block + ls@[k].block_count <= lb || lb + count
                <= ls@[k].first_block);
        }
        assert forall|k: int| p <= k < n implies lb + count <= (
        #[trigger] ls@[k]).first_block by {
            assert(ls@[p as int].first_block >= lb);
            lemma_sorted_firsts(ls@, p as int, k);
            assert(ls@[k].first_block >= lb);
            assert(ls@[k].first_block + ls@[k].block_count <= lb || lb + count
                <= ls@[k].first_block);
        }
    }
    p
}

/// In a sorted, non-overlapping chain, records left of `i` end before
/// record `i` begins, and records right of `i` begin after it ends.
proof fn lemma_sorted_ends(ls: Seq<Ext4Extent>, i: int, j: int)
    requires
        leaves_sorted(ls),
        leaves_wf(ls),
        0 <= i < ls.len(),
        0 <= j < ls.len(),
        i != j,
    ensures
        i < j ==> ls[i].first_block + ls[i].block_count <= ls[j].first_block,
        j < i ==> ls[j].first_block + ls[j].block_count <= ls[i].first_block,
{
    if i < j {
        if i + 1 < j {
            lemma_sorted_firsts(ls, i + 1, j);
        }
    } else {
        if j + 1 < i {
            lemma_sorted_firsts(ls, j + 1, i);
        }
    }
}

/// Effect of widening the record at `i` on the lookup of one block `x`.
#[verifier::rlimit(100)]
#[verifier::spinoff_prover]
proof fn lemma_extend_prev_at(
    pre: Seq<Ext4Extent>,
    i: int,
    lb: u32,
    count: u16,
    pb: u64,
    post: Seq<Ext4Extent>,
    x: u32,
)
    requires
        leaves_wf(pre),
        leaves_sorted(pre),
        1 <= count <= EXTENT_MAX_LEN,
        lb + count <= 0xFFFF_FFFF,
        pb + count < 0x1_0000_0000_0000,
        split_pos_ok(pre, i + 1, lb, count),
        0 <= i < pre.len(),
        pre[i].first_block + pre[i].block_count == lb,
        pre[i].start_pblock + pre[i].block_count == pb,
        pre[i].block_count + count <= EXTENT_MAX_LEN,
        post == pre.update(
            i,
            (Ext4Extent {
                first_block: pre[i].first_block,
                block_count: (pre[i].block_count + count) as u16,
                start_pblock: pre[i].start_pblock,
            }),
        ),
    ensures
        lb <= x < lb + count ==> leaves_lookup(post, x) == Some((pb + (x - lb)) as u64),
        !(lb <= x < lb + count) ==> leaves_lookup(post, x) == leaves_lookup(pre, x),
{
    let e2 = post[i];
    assert(extent_wf(pre[i]));
    assert forall|j: int| 0 <= j < pre.len() && j != i implies !(extent_covers(
        #[trigger] pre[j],
        x,
    ) && extent_covers(e2, x)) by {
        lemma_sorted_ends(pre, i, j);
        if j > i {
            assert(lb + count <= pre[j].first_block);
        }
    }
    lemma_lookup_update_at(pre, i, e2, x);
    if lb <= x < lb + count {
        assert(extent_covers(e2, x));
        assert(e2.start_pblock + (x - e2.first_block) == pb + (x - lb));
    } else {
        if extent_covers(e2, x) {
            assert(extent_covers(pre[i], x));
            assert forall|j: int| 0 <= j < pre.len() && j != i implies !extent_covers(
                #[trigger] pre[j],
                x,
            ) by {
                lemma_sorted_ends(pre, i, j);
                if j > i {
                    assert(lb + count <= pre[j].first_block);
                }
            }
            lemma_lookup_covers(pre, i, x);
        }
    }
}

/// Effect of widening the record at `i` on lookups, sortedness and bounds.
/// Effect of widening the record at `i` on lookups, sortedness and bounds.
#[verifier::rlimit(100)]
#[verifier::spinoff_prover]
proof fn lemma_extend_prev_effect(
    pre: Seq<Ext4Extent>,
    i: int,
    lb: u32,
    count: u16,
    pb: u64,
    post: Seq<Ext4Extent>,
)
    requires
        leaves_wf(pre),
        leaves_sorted(pre),
        1 <= count <= EXTENT_MAX_LEN,
        lb + count <= 0xFFFF_FFFF,
        pb + count < 0x1_0000_0000_0000,
        split_pos_ok(pre, i + 1, lb, count),
        0 <= i < pre.len(),
        pre[i].first_block + pre[i].block_count == lb,
        pre[i].start_pblock + pre[i].block_count == pb,
        pre[i].block_count + count <= EXTENT_MAX_LEN,
        post == pre.update(
            i,
            (Ext4Extent {
                first_block: pre[i].first_block,
                block_count: (pre[i].block_count + count) as u16,
                start_pblock: pre[i].start_pblock,
            }),
        ),
    ensures
        leaves_wf(post),
        leaves_sorted(post),
        post.len() == pre.len(),
        forall|x: u32|
            lb <= x < lb + count ==> leaves_lookup(post, x) == Some((pb + (x - lb)) as u64),
        forall|x: u32|
            !(lb <= x < lb + count) ==> leaves_lookup(post, x) == leaves_lookup(pre, x),
{
    let e2 = post[i];
    assert(extent_wf(pre[i]));
    assert(e2.start_pblock + e2.block_count == pb + count);
    assert(extent_wf(e2));
    assert forall|x: u32| lb <= x < lb + count implies leaves_lookup(post, x) == Some(
        (pb + (x - lb)) as u64,
    ) by {
        lemma_extend_prev_at(pre, i, lb, count, pb, post, x);
    }
    assert forall|x: u32| !(lb <= x < lb + count) implies leaves_lookup(post, x)
        == leaves_lookup(pre, x) by {
        lemma_extend_prev_at(pre, i, lb, count, pb, post, x);
    }
    assert forall|k: int| 0 <= k < post.len() - 1 implies (#[trigger] post[k]).first_block
        + post[k].block_count <= post[k + 1].first_block by {
        if k == i {
            assert(post[k + 1] == pre[k + 1]);
            assert(lb + count <= pre[k + 1].first_block);
        } else if k + 1 == i {
            assert(post[k] == pre[k]);
        } else {
            assert(post[k] == pre[k] && post[k + 1] == pre[k + 1]);
        }
    }
}

/// Widen the record before position `p` by `count` blocks.
fn leaves_extend_prev(ls: &mut Vec<Ext4Extent>, p: usize, lb: u32, count: u16, pb: u64)
    requires
        leaves_wf(old(ls)@),
        leaves_sorted(old(ls)@),
        1 <= count <= EXTENT_MAX_LEN,
        lb + count <= 0xFFFF_FFFF,
        pb + count < 0x1_0000_0000_0000,
        split_pos_ok(old(ls)@, p as int, lb, count),
        0 < p <= old(ls)@.len(),
        old(ls)@[p - 1].first_block + old(ls)@[p - 1].block_count == lb,
        old(ls)@[p - 1].start_pblock + old(ls)@[p - 1].block_count == pb,
        old(ls)@[p - 1].block_count + count <= EXTENT_MAX_LEN,
    ensures
        leaves_wf(final(ls)@),
        leaves_sorted(final(ls)@),
        final(ls)@.len() == old(ls)@.len(),
        forall|x: u32|
            lb <= x < lb + count ==> leaves_lookup(final(ls)@, x) == Some((pb + (x - lb)) as u64),
        forall|x: u32|
            !(lb <= x < lb + count) ==> leaves_lookup(final(ls)@, x) == leaves_lookup(
                old(ls)@,
                x,
            ),
{
    let ghost pre = ls@;
    let prev_count = ls[p - 1].block_count;
    proof {
        assert(extent_wf(pre[p - 1 as int]));
    }
    let slot = &mut ls[p - 1];
    slot.block_count = prev_count + count;
    proof {
        let i = p - 1 as int;
        assert(ls@ == pre.update(i, ls@[i]));
        assert(ls@[i] == (Ext4Extent {
            first_block: pre[i].first_block,
            block_count: (pre[i].block_count + count) as u16,
            start_pblock: pre[i].start_pblock,
        }));
        assert(split_pos_ok(pre, i + 1, lb, count));
        lemma_extend_prev_effect(pre, i, lb, count, pb, ls@);
    }
}

/// Place a fresh record at position `p`.
#[verifier::rlimit(60)]
fn leaves_insert_fresh(ls: &mut Vec<Ext4Extent>, p: usize, lb: u32, count: u16, pb: u64)
    requires
        leaves_wf(old(ls)@),
        leaves_sorted(old(ls)@),
        1 <= count <= EXTENT_MAX_LEN,
        lb + count <= 0xFFFF_FFFF,
        pb < 0x1_0000_0000_0000,
        pb + count < 0x1_0000_0000_0000,
        split_pos_ok(old(ls)@, p as int, lb, count),
    ensures
        leaves_wf(final(ls)@),
        leaves_sorted(final(ls)@),
        final(ls)@.len() == old(ls)@.len() + 1,
        forall|x: u32|
            lb <= x < lb + count ==> leaves_lookup(final(ls)@, x) == Some((pb + (x - lb)) as u64),
        forall|x: u32|
            !(lb <= x < lb + count) ==> leaves_lookup(final(ls)@, x) == leaves_lookup(
                old(ls)@,
                x,
            ),
{
    let e = Ext4Extent { first_block: lb, block_count: count, start_pblock: pb };
    let ghost pre = ls@;
    ls.insert(p, e);
    proof {
        assert(ls@ == pre.insert(p as int, e));
        assert(extent_wf(e));
        assert forall|x: u32| true implies leaves_lookup(ls@, x) == (if extent_covers(e, x) {
            Some((e.start_pblock + (x - e.first_block)) as u64)
        } else {
            leaves_lookup(pre, x)
        }) by {
            assert forall|i: int| 0 <= i < pre.len() implies !(extent_covers(#[trigger] pre[i], x)
                && extent_covers(e, x)) by {
                if i < p {
                    assert(pre[i].first_block + pre[i].block_count <= lb);
                } else {
                    assert(lb + count <= pre[i].first_block);
                }
            }
            lemma_lookup_insert_at(pre, p as int, e, x);
        }
        assert forall|k: int| 0 <= k < ls@.len() - 1 implies (#[trigger] ls@[k]).first_block
            + ls@[k].block_count <= ls@[k + 1].first_block by {
            if k < p - 1 {
                assert(ls@[k] == pre[k] && ls@[k + 1] == pre[k + 1]);
            } else if k == p - 1 {
                assert(ls@[k] == pre[k] && ls@[k + 1] == e);
            } else if k == p {
                assert(ls@[k] == e && ls@[k + 1] == pre[k]);
            } else {
                assert(ls@[k] == pre[k - 1] && ls@[k + 1] == pre[k]);
            }
        }
    }
}

/// Insert the mapping `[lb, lb + count) -> [pb, pb + count)` into sorted
/// leaves: extend the neighboring extent when logically and physically
/// contiguous and small enough, else place a fresh record in sorted
/// position.
///
/// Returns whether the record count grew.
pub fn leaves_insert(ls: &mut Vec<Ext4Extent>, lb: u32, count: u16, pb: u64) -> (grew: bool)
    requires
        leaves_wf(old(ls)@),
        leaves_sorted(old(ls)@),
        1 <= count <= EXTENT_MAX_LEN,
        lb + count <= 0xFFFF_FFFF,
        pb < 0x1_0000_0000_0000,
        pb + count < 0x1_0000_0000_0000,
        forall|i: int|
            0 <= i < old(ls)@.len() ==> (#[trigger] old(ls)@[i]).first_block + old(
                ls,
            )@[i].block_count <= lb || lb + count <= old(ls)@[i].first_block,
    ensures
        leaves_wf(final(ls)@),
        leaves_sorted(final(ls)@),
        final(ls)@.len() == old(ls)@.len() + if grew {
            1int
        } else {
            0int
        },
        forall|x: u32|
            lb <= x < lb + count ==> leaves_lookup(final(ls)@, x) == Some((pb + (x - lb)) as u64),
        forall|x: u32|
            !(lb <= x < lb + count) ==> leaves_lookup(final(ls)@, x) == leaves_lookup(
                old(ls)@,
                x,
            ),
{
    let p = leaves_split_pos(ls, lb, count);
    if p > 0 {
        let prev_first = ls[p - 1].first_block;
        let prev_count = ls[p - 1].block_count;
        let prev_pb = ls[p - 1].start_pblock;
        if prev_first as u64 + prev_count as u64 == lb as u64 && prev_pb + prev_count as u64 == pb
            && prev_count as u64 + count as u64 <= EXTENT_MAX_LEN as u64 {
            leaves_extend_prev(ls, p, lb, count, pb);
            return false;
        }
    }
    leaves_insert_fresh(ls, p, lb, count, pb);
    true
}

/// A byte region determines the well-formed node it holds: two nodes that
/// both match the same bytes agree on the header and on every record.
pub proof fn lemma_node_unique(n1: ExtentNode, n2: ExtentNode, s: Seq<u8>)
    requires
        node_wf(n1),
        node_wf(n2),
        node_region_matches(n1, s),
        node_region_matches(n2, s),
    ensures
        n1.header == n2.header,
        n1.leaves@ == n2.leaves@,
        n1.indexes@ == n2.indexes@,
{
    assert(n1.header == n2.header);
    if n1.header.depth == 0 {
        assert forall|i: int| 0 <= i < n1.leaves@.len() implies n1.leaves@[i]
            == n2.leaves@[i] by {
            reveal(extent_matches_at);
            let a = n1.leaves@[i];
            let b = n2.leaves@[i];
            assert(extent_wf(a) && extent_wf(b));
            let pa = a.start_pblock;
            let pb = b.start_pblock;
            assert(pa == pb) by (bit_vector)
                requires
                    pa < 0x1_0000_0000_0000,
                    pb < 0x1_0000_0000_0000,
                    ((pa >> 32) as u16) == ((pb >> 32) as u16),
                    (pa as u32) == (pb as u32),
            ;
        }
        assert(n1.leaves@ =~= n2.leaves@);
        assert(n1.indexes@ =~= n2.indexes@);
    } else {
        assert forall|i: int| 0 <= i < n1.indexes@.len() implies n1.indexes@[i]
            == n2.indexes@[i] by {
            reveal(index_matches_at);
            let a = n1.indexes@[i];
            let b = n2.indexes@[i];
            assert(extent_index_wf(a) && extent_index_wf(b));
            let pa = a.child_pblock;
            let pb = b.child_pblock;
            assert(pa == pb) by (bit_vector)
                requires
                    pa < 0x1_0000_0000_0000,
                    pb < 0x1_0000_0000_0000,
                    ((pa >> 32) as u16) == ((pb >> 32) as u16),
                    (pa as u32) == (pb as u32),
            ;
        }
        assert(n1.indexes@ =~= n2.indexes@);
        assert(n1.leaves@ =~= n2.leaves@);
    }
}

/// Any contiguous slice of a sorted chain is sorted, and its records stay
/// in bounds.
pub proof fn lemma_leaves_slice_sorted(ls: Seq<Ext4Extent>, a: int, b: int)
    requires
        leaves_sorted(ls),
        leaves_wf(ls),
        0 <= a <= b <= ls.len(),
    ensures
        leaves_sorted(ls.subrange(a, b)),
        leaves_wf(ls.subrange(a, b)),
{
    let sub = ls.subrange(a, b);
    assert forall|i: int| 0 <= i < sub.len() - 1 implies (#[trigger] sub[i]).first_block
        + sub[i].block_count <= sub[i + 1].first_block by {
        assert(sub[i] == ls[a + i] && sub[i + 1] == ls[a + i + 1]);
    }
    assert forall|i: int| 0 <= i < sub.len() implies extent_wf(#[trigger] sub[i]) by {
        assert(sub[i] == ls[a + i]);
    }
}

/// In a sorted, non-overlapping chain, an earlier record ends at or before
/// a later one begins; no block lies in both.
pub proof fn lemma_leaves_disjoint(ls: Seq<Ext4Extent>, i: int, j: int)
    requires
        leaves_sorted(ls),
        leaves_wf(ls),
        0 <= i < j < ls.len(),
    ensures
        ls[i].first_block + ls[i].block_count <= ls[j].first_block,
        forall|x: u32| !(extent_covers(ls[i], x) && #[trigger] extent_covers(ls[j], x)),
{
    lemma_sorted_ends(ls, i, j);
}

/// In sorted leaves, firsts grow with the position.
proof fn lemma_sorted_firsts(ls: Seq<Ext4Extent>, i: int, j: int)
    requires
        leaves_sorted(ls),
        leaves_wf(ls),
        0 <= i <= j < ls.len(),
    ensures
        ls[i].first_block <= ls[j].first_block,
    decreases j - i,
{
    if i < j {
        lemma_sorted_firsts(ls, i + 1, j);
    }
}

/// When record `i` covers `x`, the scan answers from record `i`.
proof fn lemma_lookup_covers(ls: Seq<Ext4Extent>, i: int, x: u32)
    requires
        0 <= i < ls.len(),
        extent_covers(ls[i], x),
        forall|j: int| 0 <= j < ls.len() && j != i ==> !extent_covers(#[trigger] ls[j], x),
    ensures
        leaves_lookup(ls, x) == Some((ls[i].start_pblock + (x - ls[i].first_block)) as u64),
    decreases i,
{
    if i == 0 {
    } else {
        assert(!extent_covers(ls[0], x));
        assert(ls.drop_first()[i - 1] == ls[i]);
        lemma_lookup_covers(ls.drop_first(), i - 1, x);
    }
}

impl Ext4Inode {
    /// Initialize the inline area as an empty extent-tree root: depth 0, no
    /// records, capacity 4.
    pub fn extent_tree_init(&mut self)
        requires
            old(self).wf(),
        ensures
            final(self).wf(),
            header_matches_at(
                (Ext4ExtentHeader {
                    magic: EXT4_EXTENT_MAGIC,
                    entries_count: 0,
                    max_entries_count: EXTENT_ROOT_MAX_ENTRIES,
                    depth: 0,
                    generation: 0,
                }),
                final(self).block@,
                0,
            ),
            // only the 12 header bytes of the inline area move
            final(self).block@.len() == old(self).block@.len(),
            forall|j: int|
                12 <= j < old(self).block@.len() ==> final(self).block@[j] == old(self).block@[j],
            crate::inode::inode_eq(
                *final(self),
                (Ext4Inode { block: final(self).block, ..*old(self) }),
            ),
    {
        let h = Ext4ExtentHeader {
            magic: EXT4_EXTENT_MAGIC,
            entries_count: 0,
            max_entries_count: EXTENT_ROOT_MAX_ENTRIES,
            depth: 0,
            generation: 0,
        };
        write_extent_header_at(&mut self.block, 0, &h);
    }

    /// The root node's header, read from the inline area.
    pub fn extent_header(&self) -> (r: Ext4ExtentHeader)
        requires
            self.wf(),
        ensures
            header_matches_at(r, self.block@, 0),
    {
        parse_extent_header(self.block.as_slice(), 0)
    }
}


} // verus!
