//! Block group descriptors: one 64-byte record per group, packed into the
//! descriptor table that begins in block 1.
//!
//! A descriptor names the group's block bitmap, inode bitmap and inode table,
//! and carries the group's free counters, the used-directories counter, the
//! inode-table-unused hint, the two bitmap checksums, and its own keyed
//! checksum.

use vstd::prelude::*;

use crate::codec::{get_u16, get_u32, le16_at, le32_at, put_u16, put_u32, zero_vec};
use crate::crc32c::{crc32c_seq, crc32c_update, crc32c_update_range, crc32c_update_u32le,
    u32_le_bytes, CRC32C_INIT};

verus! {

/// Size of one on-disk group descriptor.
pub const GROUP_DESC_SIZE: usize = 64;

/// First block of the group descriptor table.
pub const GROUP_DESC_TABLE_BLOCK: u64 = 1;

/// In-memory group descriptor.
pub struct Ext4BlockGroupDesc {
    /// Physical block holding this group's block bitmap.
    pub block_bitmap_block: u64,
    /// Physical block holding this group's inode bitmap.
    pub inode_bitmap_block: u64,
    /// First physical block of this group's inode table.
    pub inode_table_block: u64,
    /// Free blocks in this group.
    pub free_blocks_count: u32,
    /// Free inodes in this group.
    pub free_inodes_count: u32,
    /// Inodes in this group that are directories.
    pub used_dirs_count: u32,
    /// Hint: inodes past `capacity - itable_unused` have never been used.
    pub itable_unused: u32,
    /// Low 16 bits of the keyed CRC32C of the block bitmap.
    pub block_bitmap_csum: u16,
    /// Low 16 bits of the keyed CRC32C of the inode bitmap.
    pub inode_bitmap_csum: u16,
}

/// Counter bounds for a group of `inodes_per_group` inodes and
/// `blocks_per_group` blocks.
pub open spec fn desc_wf(d: Ext4BlockGroupDesc, inodes_per_group: u32, blocks_per_group: u32) -> bool {
    &&& d.free_blocks_count <= blocks_per_group
    &&& d.free_inodes_count <= inodes_per_group
    &&& d.used_dirs_count <= 0xFFFF
    &&& d.itable_unused <= inodes_per_group
    &&& blocks_per_group <= 0x8000
    &&& inodes_per_group <= 0x8000
    &&& d.block_bitmap_block < 0x1_0000_0000
    &&& d.inode_bitmap_block < 0x1_0000_0000
    &&& d.inode_table_block < 0x1_0000_0000
}

/// What the 64-byte on-disk record says, field by field. The descriptor's
/// own checksum (bytes 0x1E..0x20) is covered by `desc_csum_valid`.
pub open spec fn desc_region_matches(d: Ext4BlockGroupDesc, s: Seq<u8>) -> bool {
    &&& s.len() == GROUP_DESC_SIZE
    &&& le32_at(s, 0x00) == d.block_bitmap_block as u32
    &&& le32_at(s, 0x04) == d.inode_bitmap_block as u32
    &&& le32_at(s, 0x08) == d.inode_table_block as u32
    &&& le16_at(s, 0x0C) == d.free_blocks_count as u16
    &&& le16_at(s, 0x0E) == d.free_inodes_count as u16
    &&& le16_at(s, 0x10) == d.used_dirs_count as u16
    &&& le16_at(s, 0x18) == d.block_bitmap_csum
    &&& le16_at(s, 0x1A) == d.inode_bitmap_csum
    &&& le16_at(s, 0x1C) == d.itable_unused as u16
}

/// The keyed CRC32C of a group descriptor record: UUID, then the group index
/// as four little-endian bytes, then the record with its checksum field
/// zeroed.
pub open spec fn desc_csum_of(uuid: Seq<u8>, bgid: u32, s: Seq<u8>) -> u16 {
    (crc32c_seq(
        crc32c_seq(crc32c_seq(CRC32C_INIT, uuid), u32_le_bytes(bgid)),
        s.update(0x1E, 0u8).update(0x1F, 0u8),
    ) & 0xFFFF) as u16
}

/// The stored descriptor checksum verifies.
pub open spec fn desc_csum_valid(uuid: Seq<u8>, bgid: u32, s: Seq<u8>) -> bool {
    &&& s.len() == GROUP_DESC_SIZE
    &&& le16_at(s, 0x1E) == desc_csum_of(uuid, bgid, s)
}

/// The keyed CRC32C of a bitmap block: UUID, then the bitmap bytes.
pub open spec fn bitmap_csum_of(uuid: Seq<u8>, bm: Seq<u8>) -> u16 {
    (crc32c_seq(crc32c_seq(CRC32C_INIT, uuid), bm) & 0xFFFF) as u16
}

impl Ext4BlockGroupDesc {
    /// Counter bounds for a group of the given geometry.
    pub open spec fn wf(&self, inodes_per_group: u32, blocks_per_group: u32) -> bool {
        desc_wf(*self, inodes_per_group, blocks_per_group)
    }

    /// Record the keyed checksum of this group's block bitmap.
    pub fn set_block_bitmap_csum(&mut self, uuid: &[u8], bm: &[u8])
        ensures
            final(self).block_bitmap_csum == bitmap_csum_of(uuid@, bm@),
            *final(self) == (Ext4BlockGroupDesc {
                block_bitmap_csum: final(self).block_bitmap_csum,
                ..*old(self)
            }),
    {
        let c = crc32c_update(CRC32C_INIT, uuid);
        let c = crc32c_update(c, bm);
        let c16: u16 = (c & 0xFFFF) as u16;
        proof {
            assert(c & 0xFFFF <= 0xFFFF) by (bit_vector);
        }
        self.block_bitmap_csum = c16;
    }

    /// Record the keyed checksum of this group's inode bitmap.
    pub fn set_inode_bitmap_csum(&mut self, uuid: &[u8], bm: &[u8])
        ensures
            final(self).inode_bitmap_csum == bitmap_csum_of(uuid@, bm@),
            *final(self) == (Ext4BlockGroupDesc {
                inode_bitmap_csum: final(self).inode_bitmap_csum,
                ..*old(self)
            }),
    {
        let c = crc32c_update(CRC32C_INIT, uuid);
        let c = crc32c_update(c, bm);
        let c16: u16 = (c & 0xFFFF) as u16;
        proof {
            assert(c & 0xFFFF <= 0xFFFF) by (bit_vector);
        }
        self.inode_bitmap_csum = c16;
    }

    /// Encode into the 64-byte on-disk record, keyed checksum included.
    pub fn encode(&self, uuid: &[u8], bgid: u32, inodes_per_group: u32, blocks_per_group: u32) -> (r:
        Vec<u8>)
        requires
            self.wf(inodes_per_group, blocks_per_group),
        ensures
            desc_region_matches(*self, r@),
            desc_csum_valid(uuid@, bgid, r@),
    {
        let mut v = zero_vec(GROUP_DESC_SIZE);
        put_u32(&mut v, 0x00, self.block_bitmap_block as u32);
        put_u32(&mut v, 0x04, self.inode_bitmap_block as u32);
        put_u32(&mut v, 0x08, self.inode_table_block as u32);
        put_u16(&mut v, 0x0C, self.free_blocks_count as u16);
        put_u16(&mut v, 0x0E, self.free_inodes_count as u16);
        put_u16(&mut v, 0x10, self.used_dirs_count as u16);
        put_u16(&mut v, 0x18, self.block_bitmap_csum);
        put_u16(&mut v, 0x1A, self.inode_bitmap_csum);
        put_u16(&mut v, 0x1C, self.itable_unused as u16);
        let ghost pre = v@;
        let c = crc32c_update(CRC32C_INIT, uuid);
        let c = crc32c_update_u32le(c, bgid);
        let c = crc32c_update_range(c, v.as_slice(), 0, GROUP_DESC_SIZE);
        let c16: u16 = (c & 0xFFFF) as u16;
        proof {
            assert(c & 0xFFFF <= 0xFFFF) by (bit_vector);
            assert(pre.subrange(0, GROUP_DESC_SIZE as int) =~= pre);
        }
        put_u16(&mut v, 0x1E, c16);
        proof {
            assert(v@.update(0x1E, 0u8).update(0x1F, 0u8) =~= pre);
        }
        v
    }

    /// Decode the 64-byte on-disk record.
    pub fn decode(s: &[u8]) -> (r: Ext4BlockGroupDesc)
        requires
            s@.len() == GROUP_DESC_SIZE,
        ensures
            r.block_bitmap_block == le32_at(s@, 0x00),
            r.inode_bitmap_block == le32_at(s@, 0x04),
            r.inode_table_block == le32_at(s@, 0x08),
            r.free_blocks_count == le16_at(s@, 0x0C),
            r.free_inodes_count == le16_at(s@, 0x0E),
            r.used_dirs_count == le16_at(s@, 0x10),
            r.block_bitmap_csum == le16_at(s@, 0x18),
            r.inode_bitmap_csum == le16_at(s@, 0x1A),
            r.itable_unused == le16_at(s@, 0x1C),
    {
        Ext4BlockGroupDesc {
            block_bitmap_block: get_u32(s, 0x00) as u64,
            inode_bitmap_block: get_u32(s, 0x04) as u64,
            inode_table_block: get_u32(s, 0x08) as u64,
            free_blocks_count: get_u16(s, 0x0C) as u32,
            free_inodes_count: get_u16(s, 0x0E) as u32,
            used_dirs_count: get_u16(s, 0x10) as u32,
            itable_unused: get_u16(s, 0x1C) as u32,
            block_bitmap_csum: get_u16(s, 0x18),
            inode_bitmap_csum: get_u16(s, 0x1A),
        }
    }
}

} // verus!
