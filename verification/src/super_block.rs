//! The superblock: the filesystem header, stored at byte offset 1024 of
//! block 0, 1024 bytes long, little-endian.
//!
//! Its free counters summarize the per-group counters: any operation that
//! changes a group counter changes the superblock counter by the same delta.

use vstd::prelude::*;

use crate::codec::{get_u16, get_u32, le16_at, le32_at, put_bytes, put_u16, put_u32, sub_bytes,
    zero_vec};
use crate::crc32c::{crc32c_seq, crc32c_update_range, CRC32C_INIT};
use crate::BLOCK_SIZE;

verus! {

/// Size of the on-disk superblock record.
pub const SUPERBLOCK_SIZE: usize = 1024;

/// Byte offset of the superblock inside block 0.
pub const SUPERBLOCK_OFFSET: usize = 1024;

/// The ext4 superblock magic number.
pub const EXT4_SUPERBLOCK_MAGIC: u16 = 0xEF53;

/// In-memory superblock. The operations read it, mutate it, and write it
/// back with a fresh checksum; the on-disk record is the 1024-byte encoding.
pub struct Ext4Superblock {
    /// Total number of inodes (all groups together).
    pub inodes_count: u32,
    /// Total number of blocks the device holds.
    pub blocks_count: u64,
    /// Free blocks, summed over all groups.
    pub free_blocks_count: u64,
    /// Free inodes, summed over all groups.
    pub free_inodes_count: u32,
    /// First data block (0 for 4096-byte blocks).
    pub first_data_block: u32,
    /// Blocks per block group.
    pub blocks_per_group: u32,
    /// Inodes per block group.
    pub inodes_per_group: u32,
    /// Creator operating system tag.
    pub creator_os: u32,
    /// On-disk inode record size: 128 or 256.
    pub inode_size: u16,
    /// Compatible feature flags.
    pub feature_compat: u32,
    /// Incompatible feature flags.
    pub feature_incompat: u32,
    /// Read-only-compatible feature flags.
    pub feature_ro_compat: u32,
    /// Filesystem UUID, 16 bytes; the key of every metadata checksum.
    pub uuid: Vec<u8>,
    /// Number of block groups.
    pub block_group_count: u32,
}

/// Structural bounds every superblock of this core satisfies.
pub open spec fn sb_wf(sb: Ext4Superblock) -> bool {
    &&& sb.uuid@.len() == 16
    &&& sb.block_group_count > 0
    &&& sb.inodes_per_group > 0
    &&& sb.blocks_per_group > 0
    &&& sb.inodes_per_group % 8 == 0
    // each bitmap fits in a single block
    &&& sb.inodes_per_group <= 8 * BLOCK_SIZE
    &&& sb.blocks_per_group <= 8 * BLOCK_SIZE
    &&& (sb.inode_size == 128 || sb.inode_size == 256)
    // inode ids fit in u32 (ids are 1-based)
    &&& sb.block_group_count * sb.inodes_per_group < 0x1_0000_0000
    &&& sb.inodes_count == sb.block_group_count * sb.inodes_per_group
    // block addresses of this core fit the 32-bit counter fields
    &&& sb.blocks_count < 0x1_0000_0000
    &&& sb.block_group_count * sb.blocks_per_group < 0x1_0000_0000
    &&& sb.blocks_count <= sb.block_group_count * sb.blocks_per_group
    &&& sb.blocks_count > (sb.block_group_count - 1) * sb.blocks_per_group
    &&& sb.free_blocks_count < 0x1_0000_0000
    &&& sb.first_data_block == 0
}

/// What the 1024-byte on-disk record says, field by field.
///
/// The checksum field (bytes 1020..1024) is covered by `sb_csum_valid`, not
/// here.
pub open spec fn sb_region_matches(sb: Ext4Superblock, s: Seq<u8>) -> bool {
    &&& s.len() == SUPERBLOCK_SIZE
    &&& le32_at(s, 0) == sb.inodes_count
    &&& le32_at(s, 4) == sb.blocks_count as u32
    &&& le32_at(s, 12) == sb.free_blocks_count as u32
    &&& le32_at(s, 16) == sb.free_inodes_count
    &&& le32_at(s, 20) == sb.first_data_block
    &&& le32_at(s, 32) == sb.blocks_per_group
    &&& le32_at(s, 40) == sb.inodes_per_group
    &&& le16_at(s, 56) == EXT4_SUPERBLOCK_MAGIC
    &&& le32_at(s, 72) == sb.creator_os
    &&& le16_at(s, 88) == sb.inode_size
    &&& le32_at(s, 92) == sb.feature_compat
    &&& le32_at(s, 96) == sb.feature_incompat
    &&& le32_at(s, 100) == sb.feature_ro_compat
    &&& s.subrange(104, 120) == sb.uuid@
}

/// The stored superblock checksum is the CRC32C of everything before the
/// checksum field.
pub open spec fn sb_csum_valid(s: Seq<u8>) -> bool {
    &&& s.len() == SUPERBLOCK_SIZE
    &&& le32_at(s, 1020) == crc32c_seq(CRC32C_INIT, s.subrange(0, 1020))
}

impl Ext4Superblock {
    /// Structural bounds every superblock of this core satisfies.
    pub open spec fn wf(&self) -> bool {
        sb_wf(*self)
    }

    /// The filesystem UUID, the key of every metadata checksum.
    pub fn get_uuid(&self) -> (r: Vec<u8>)
        ensures
            r@ == self.uuid@,
    {
        crate::codec::clone_bytes(&self.uuid)
    }

    /// Encode into the 1024-byte on-disk record, checksum included.
    pub fn encode(&self) -> (r: Vec<u8>)
        requires
            self.wf(),
        ensures
            sb_region_matches(*self, r@),
            sb_csum_valid(r@),
    {
        let mut v = zero_vec(SUPERBLOCK_SIZE);
        put_u32(&mut v, 0, self.inodes_count);
        put_u32(&mut v, 4, self.blocks_count as u32);
        put_u32(&mut v, 12, self.free_blocks_count as u32);
        put_u32(&mut v, 16, self.free_inodes_count);
        put_u32(&mut v, 20, self.first_data_block);
        put_u32(&mut v, 32, self.blocks_per_group);
        put_u32(&mut v, 40, self.inodes_per_group);
        put_u16(&mut v, 56, EXT4_SUPERBLOCK_MAGIC);
        put_u32(&mut v, 72, self.creator_os);
        put_u16(&mut v, 88, self.inode_size);
        put_u32(&mut v, 92, self.feature_compat);
        put_u32(&mut v, 96, self.feature_incompat);
        put_u32(&mut v, 100, self.feature_ro_compat);
        put_bytes(&mut v, 104, self.uuid.as_slice());
        let ghost pre = v@;
        let csum = crc32c_update_range(CRC32C_INIT, v.as_slice(), 0, 1020);
        put_u32(&mut v, 1020, csum);
        proof {
            assert(v@.subrange(0, 1020) =~= pre.subrange(0, 1020));
            assert(v@.subrange(104, 120) =~= self.uuid@);
        }
        v
    }

    /// Decode the 1024-byte on-disk record.
    pub fn decode(s: &[u8], block_group_count: u32) -> (r: Ext4Superblock)
        requires
            s@.len() == SUPERBLOCK_SIZE,
        ensures
            r.inodes_count == le32_at(s@, 0),
            r.blocks_count == le32_at(s@, 4),
            r.free_blocks_count == le32_at(s@, 12),
            r.free_inodes_count == le32_at(s@, 16),
            r.first_data_block == le32_at(s@, 20),
            r.blocks_per_group == le32_at(s@, 32),
            r.inodes_per_group == le32_at(s@, 40),
            r.creator_os == le32_at(s@, 72),
            r.inode_size == le16_at(s@, 88),
            r.feature_compat == le32_at(s@, 92),
            r.feature_incompat == le32_at(s@, 96),
            r.feature_ro_compat == le32_at(s@, 100),
            r.uuid@ == s@.subrange(104, 120),
            r.block_group_count == block_group_count,
    {
        Ext4Superblock {
            inodes_count: get_u32(s, 0),
            blocks_count: get_u32(s, 4) as u64,
            free_blocks_count: get_u32(s, 12) as u64,
            free_inodes_count: get_u32(s, 16),
            first_data_block: get_u32(s, 20),
            blocks_per_group: get_u32(s, 32),
            inodes_per_group: get_u32(s, 40),
            creator_os: get_u32(s, 72),
            inode_size: get_u16(s, 88),
            feature_compat: get_u32(s, 92),
            feature_incompat: get_u32(s, 96),
            feature_ro_compat: get_u32(s, 100),
            uuid: sub_bytes(s, 104, 120),
            block_group_count,
        }
    }

    /// Number of inodes in group `bgid`: groups are uniform in this core.
    pub fn inode_count_in_group(&self, bgid: u32) -> (r: u32)
        requires
            bgid < self.block_group_count,
        ensures
            r == self.inodes_per_group,
    {
        self.inodes_per_group
    }
}

} // verus!
