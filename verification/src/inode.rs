//! The inode table entry: a 128- or 256-byte record, indexed by 1-based
//! inode id. Inode 0 does not exist; inode 2 is the root directory.
//!
//! The group of inode `id` is `(id - 1) / inodes_per_group`, its index in
//! that group's table `(id - 1) % inodes_per_group`.
//!
//! The 60-byte inline area `block` holds the root of the extent tree.

use vstd::prelude::*;

use crate::codec::{clone_bytes, get_u16, get_u32, le16_at, le32_at, put_bytes, put_u16, put_u32,
    sub_bytes, zero_vec};
use crate::crc32c::{crc32c_seq, crc32c_update, crc32c_update_u32le, u32_le_bytes, CRC32C_INIT};
use crate::super_block::Ext4Superblock;

verus! {

/// File-type bits of the inode mode: regular file.
pub const EXT4_INODE_MODE_FILE: u16 = 0x8000;

/// File-type bits of the inode mode: directory.
pub const EXT4_INODE_MODE_DIRECTORY: u16 = 0x4000;

/// File-type bits of the inode mode: symbolic link.
pub const EXT4_INODE_MODE_SOFTLINK: u16 = 0xA000;

/// File-type bits of the inode mode: character device.
pub const EXT4_INODE_MODE_CHARDEV: u16 = 0x2000;

/// File-type bits of the inode mode: block device.
pub const EXT4_INODE_MODE_BLOCKDEV: u16 = 0x6000;

/// File-type bits of the inode mode: FIFO.
pub const EXT4_INODE_MODE_FIFO: u16 = 0x1000;

/// File-type bits of the inode mode: socket.
pub const EXT4_INODE_MODE_SOCKET: u16 = 0xC000;

/// Mask of the file-type bits.
pub const EXT4_INODE_MODE_TYPE_MASK: u16 = 0xF000;

/// Creator-OS tag for Hurd, whose inodes keep mode bits elsewhere.
pub const EXT4_SUPERBLOCK_OS_HURD: u32 = 1;

/// The root directory's inode id.
pub const EXT4_ROOT_INO: u32 = 2;

/// Size of the inline extent-tree root area.
pub const INODE_BLOCK_AREA_SIZE: usize = 60;

/// OS-dependent tail of the inode record.
#[derive(Clone, Copy, PartialEq, Eq, Structural, Debug)]
pub struct Linux2 {
    /// High 16 bits of the block count.
    pub l_i_blocks_high: u16,
    /// High 16 bits of the extended-attribute block.
    pub l_i_file_acl_high: u16,
    /// High 16 bits of the owner uid.
    pub l_i_uid_high: u16,
    /// High 16 bits of the owner gid.
    pub l_i_gid_high: u16,
    /// Low 16 bits of the keyed inode checksum.
    pub l_i_checksum_lo: u16,
    /// Reserved.
    pub l_i_reserved: u16,
}

/// In-memory inode record.
pub struct Ext4Inode {
    /// File-type bits plus permission bits.
    pub mode: u16,
    /// Owner uid (low 16 bits).
    pub uid: u16,
    /// Low 32 bits of the file size in bytes.
    pub size: u32,
    /// Access time.
    pub atime: u32,
    /// Inode-change time.
    pub ctime: u32,
    /// Modification time.
    pub mtime: u32,
    /// Deletion time.
    pub dtime: u32,
    /// Owner gid (low 16 bits).
    pub gid: u16,
    /// Hard-link count.
    pub links_count: u16,
    /// Number of data blocks currently mapped (this core's semantics).
    pub blocks: u32,
    /// Inode flags.
    pub flags: u32,
    /// OS-dependent field.
    pub osd1: u32,
    /// The 60-byte inline area: root of the extent tree.
    pub block: Vec<u8>,
    /// Generation (NFS).
    pub generation: u32,
    /// Extended-attribute block.
    pub file_acl: u32,
    /// High 32 bits of the file size in bytes.
    pub size_hi: u32,
    /// Obsolete fragment address.
    pub faddr: u32,
    /// OS-dependent tail.
    pub osd2: Linux2,
    /// Bytes of extra record past the first 128.
    pub i_extra_isize: u16,
    /// High 16 bits of the keyed inode checksum (256-byte records only).
    pub i_checksum_hi: u16,
    /// Extra change-time bits.
    pub i_ctime_extra: u32,
    /// Extra modification-time bits.
    pub i_mtime_extra: u32,
    /// Extra access-time bits.
    pub i_atime_extra: u32,
    /// Creation time.
    pub i_crtime: u32,
    /// Extra creation-time bits.
    pub i_crtime_extra: u32,
    /// High 32 bits of the version.
    pub i_version_hi: u32,
}

/// The file type named by an inode mode's type bits.
pub open spec fn spec_file_type_of_mode(mode: u16) -> crate::FileType {
    let t = mode & EXT4_INODE_MODE_TYPE_MASK;
    if t == EXT4_INODE_MODE_DIRECTORY {
        crate::FileType::Directory
    } else if t == EXT4_INODE_MODE_FILE {
        crate::FileType::RegularFile
    } else if t == EXT4_INODE_MODE_SOFTLINK {
        crate::FileType::SymLink
    } else if t == EXT4_INODE_MODE_CHARDEV {
        crate::FileType::CharacterDev
    } else if t == EXT4_INODE_MODE_BLOCKDEV {
        crate::FileType::BlockDev
    } else if t == EXT4_INODE_MODE_FIFO {
        crate::FileType::Fifo
    } else if t == EXT4_INODE_MODE_SOCKET {
        crate::FileType::Socket
    } else {
        crate::FileType::Unknown
    }
}

/// The record with its in-memory checksum fields set to zero: what the
/// keyed checksum is computed over.
pub open spec fn zeroed_csum_inode(ino: Ext4Inode) -> Ext4Inode {
    Ext4Inode {
        osd2: Linux2 { l_i_checksum_lo: 0, ..ino.osd2 },
        i_checksum_hi: 0,
        ..ino
    }
}

/// Every field of `a` equals the same field of `b`.
pub open spec fn inode_eq(a: Ext4Inode, b: Ext4Inode) -> bool {
    &&& a.mode == b.mode
    &&& a.uid == b.uid
    &&& a.size == b.size
    &&& a.atime == b.atime
    &&& a.ctime == b.ctime
    &&& a.mtime == b.mtime
    &&& a.dtime == b.dtime
    &&& a.gid == b.gid
    &&& a.links_count == b.links_count
    &&& a.blocks == b.blocks
    &&& a.flags == b.flags
    &&& a.osd1 == b.osd1
    &&& a.block@ == b.block@
    &&& a.generation == b.generation
    &&& a.file_acl == b.file_acl
    &&& a.size_hi == b.size_hi
    &&& a.faddr == b.faddr
    &&& a.osd2 == b.osd2
    &&& a.i_extra_isize == b.i_extra_isize
    &&& a.i_checksum_hi == b.i_checksum_hi
    &&& a.i_ctime_extra == b.i_ctime_extra
    &&& a.i_mtime_extra == b.i_mtime_extra
    &&& a.i_atime_extra == b.i_atime_extra
    &&& a.i_crtime == b.i_crtime
    &&& a.i_crtime_extra == b.i_crtime_extra
    &&& a.i_version_hi == b.i_version_hi
}

/// What the first 128 bytes of the on-disk record say. The two checksum
/// fields (bytes 124..126 and 130..132) are covered by `inode_csum_valid`.
pub open spec fn inode_region_matches(ino: Ext4Inode, s: Seq<u8>, inode_size: u16) -> bool {
    &&& s.len() == inode_size
    &&& le16_at(s, 0) == ino.mode
    &&& le16_at(s, 2) == ino.uid
    &&& le32_at(s, 4) == ino.size
    &&& le32_at(s, 8) == ino.atime
    &&& le32_at(s, 12) == ino.ctime
    &&& le32_at(s, 16) == ino.mtime
    &&& le32_at(s, 20) == ino.dtime
    &&& le16_at(s, 24) == ino.gid
    &&& le16_at(s, 26) == ino.links_count
    &&& le32_at(s, 28) == ino.blocks
    &&& le32_at(s, 32) == ino.flags
    &&& le32_at(s, 36) == ino.osd1
    &&& s.subrange(40, 100) == ino.block@
    &&& le32_at(s, 100) == ino.generation
    &&& le32_at(s, 104) == ino.file_acl
    &&& le32_at(s, 108) == ino.size_hi
    &&& le32_at(s, 112) == ino.faddr
    &&& le16_at(s, 116) == ino.osd2.l_i_blocks_high
    &&& le16_at(s, 118) == ino.osd2.l_i_file_acl_high
    &&& le16_at(s, 120) == ino.osd2.l_i_uid_high
    &&& le16_at(s, 122) == ino.osd2.l_i_gid_high
    &&& (inode_size == 256 ==> {
        &&& le16_at(s, 128) == ino.i_extra_isize
        &&& le32_at(s, 132) == ino.i_ctime_extra
        &&& le32_at(s, 136) == ino.i_mtime_extra
        &&& le32_at(s, 140) == ino.i_atime_extra
        &&& le32_at(s, 144) == ino.i_crtime
        &&& le32_at(s, 148) == ino.i_crtime_extra
        &&& le32_at(s, 152) == ino.i_version_hi
    })
}

/// The whole on-disk record, byte for byte: every modeled field at its
/// offset, the stored checksum fields included, and every unmodeled byte
/// zero. Exactly one byte string satisfies this for a given record.
pub open spec fn inode_region_exact(ino: Ext4Inode, s: Seq<u8>, inode_size: u16) -> bool {
    &&& inode_region_matches(ino, s, inode_size)
    &&& le16_at(s, 124) == ino.osd2.l_i_checksum_lo
    &&& le16_at(s, 126) == ino.osd2.l_i_reserved
    &&& (inode_size == 256 ==> le16_at(s, 130) == ino.i_checksum_hi)
    &&& (inode_size == 256 ==> forall|j: int| 156 <= j < 256 ==> s[j] == 0u8)
}

/// The record with its checksum fields zeroed: the byte string the keyed
/// checksum is computed over.
pub open spec fn inode_csum_payload(s: Seq<u8>) -> Seq<u8> {
    let z = s.update(124, 0u8).update(125, 0u8);
    if s.len() > 128 {
        z.update(130, 0u8).update(131, 0u8)
    } else {
        z
    }
}

/// The keyed CRC32C of an inode record: UUID, then the inode id and the
/// generation as little-endian words, then the record with its checksum
/// fields zeroed.
pub open spec fn inode_csum_of(uuid: Seq<u8>, inode_id: u32, s: Seq<u8>) -> u32 {
    crc32c_seq(
        crc32c_seq(
            crc32c_seq(crc32c_seq(CRC32C_INIT, uuid), u32_le_bytes(inode_id)),
            u32_le_bytes(le32_at(s, 100)),
        ),
        inode_csum_payload(s),
    )
}

/// The stored inode checksum verifies: low half at byte 124, high half at
/// byte 130 when the record is larger than 128 bytes.
pub open spec fn inode_csum_valid(uuid: Seq<u8>, inode_id: u32, s: Seq<u8>) -> bool {
    &&& le16_at(s, 124) == (inode_csum_of(uuid, inode_id, s) & 0xFFFF) as u16
    &&& s.len() > 128 ==> le16_at(s, 130) == (inode_csum_of(uuid, inode_id, s) >> 16) as u16
}

impl Default for Ext4Inode {
    /// A zeroed inode record.
    fn default() -> (r: Ext4Inode)
        ensures
            r.wf(),
            r.mode == 0 && r.links_count == 0 && r.blocks == 0 && r.size == 0,
    {
        Ext4Inode::empty()
    }
}

impl Ext4Inode {
    /// The inline area holds exactly 60 bytes.
    pub open spec fn wf(&self) -> bool {
        self.block@.len() == INODE_BLOCK_AREA_SIZE
    }

    /// A zeroed inode record.
    pub fn empty() -> (r: Ext4Inode)
        ensures
            r.wf(),
            r.mode == 0 && r.uid == 0 && r.size == 0 && r.atime == 0 && r.ctime == 0,
            r.mtime == 0 && r.dtime == 0 && r.gid == 0 && r.links_count == 0,
            r.blocks == 0 && r.flags == 0 && r.osd1 == 0,
            forall|j: int| 0 <= j < INODE_BLOCK_AREA_SIZE ==> r.block@[j] == 0u8,
            r.generation == 0 && r.file_acl == 0 && r.size_hi == 0 && r.faddr == 0,
            r.osd2.l_i_blocks_high == 0 && r.osd2.l_i_file_acl_high == 0,
            r.osd2.l_i_uid_high == 0 && r.osd2.l_i_gid_high == 0,
            r.osd2.l_i_checksum_lo == 0 && r.osd2.l_i_reserved == 0,
            r.i_extra_isize == 0 && r.i_checksum_hi == 0,
            r.i_ctime_extra == 0 && r.i_mtime_extra == 0 && r.i_atime_extra == 0,
            r.i_crtime == 0 && r.i_crtime_extra == 0 && r.i_version_hi == 0,
    {
        Ext4Inode {
            mode: 0,
            uid: 0,
            size: 0,
            atime: 0,
            ctime: 0,
            mtime: 0,
            dtime: 0,
            gid: 0,
            links_count: 0,
            blocks: 0,
            flags: 0,
            osd1: 0,
            block: zero_vec(INODE_BLOCK_AREA_SIZE),
            generation: 0,
            file_acl: 0,
            size_hi: 0,
            faddr: 0,
            osd2: Linux2 {
                l_i_blocks_high: 0,
                l_i_file_acl_high: 0,
                l_i_uid_high: 0,
                l_i_gid_high: 0,
                l_i_checksum_lo: 0,
                l_i_reserved: 0,
            },
            i_extra_isize: 0,
            i_checksum_hi: 0,
            i_ctime_extra: 0,
            i_mtime_extra: 0,
            i_atime_extra: 0,
            i_crtime: 0,
            i_crtime_extra: 0,
            i_version_hi: 0,
        }
    }

    /// A field-for-field copy.
    pub fn duplicate(&self) -> (r: Ext4Inode)
        ensures
            inode_eq(r, *self),
    {
        Ext4Inode { block: clone_bytes(&self.block), ..*self }
    }

    /// The inode flags.
    pub fn flags(&self) -> (r: u32)
        ensures
            r == self.flags,
    {
        self.flags
    }

    /// Or `f` into the inode flags.
    pub fn set_flags(&mut self, f: u32)
        ensures
            final(self).flags == (old(self).flags | f),
            inode_eq(*final(self), (Ext4Inode { flags: final(self).flags, ..*old(self) })),
    {
        self.flags = self.flags | f;
    }

    /// The mode word: file-type bits plus permission bits.
    pub fn mode(&self) -> (r: u16)
        ensures
            r == self.mode,
    {
        self.mode
    }

    /// Or `mode` into the mode word.
    pub fn set_mode(&mut self, mode: u16)
        ensures
            final(self).mode == (old(self).mode | mode),
            inode_eq(*final(self), (Ext4Inode { mode: final(self).mode, ..*old(self) })),
    {
        self.mode = self.mode | mode;
    }

    /// The file-type bits of the mode, widened.
    ///
    /// The superblock is consulted for the creator OS; on every OS this core
    /// supports the answer is the masked mode word.
    pub fn inode_type(&self, super_block: &Ext4Superblock) -> (r: u32)
        ensures
            r == (self.mode & EXT4_INODE_MODE_TYPE_MASK) as u32,
    {
        let _creator = super_block.creator_os;
        (self.mode & EXT4_INODE_MODE_TYPE_MASK) as u32
    }

    /// Whether the file-type bits say directory.
    pub fn is_dir(&self) -> (r: bool)
        ensures
            r == (self.mode & EXT4_INODE_MODE_TYPE_MASK == EXT4_INODE_MODE_DIRECTORY),
    {
        self.mode & EXT4_INODE_MODE_TYPE_MASK == EXT4_INODE_MODE_DIRECTORY
    }

    /// The file type named by the mode's type bits.
    pub fn file_type(&self) -> (r: crate::FileType)
        ensures
            r == spec_file_type_of_mode(self.mode),
    {
        let t = self.mode & EXT4_INODE_MODE_TYPE_MASK;
        if t == EXT4_INODE_MODE_DIRECTORY {
            crate::FileType::Directory
        } else if t == EXT4_INODE_MODE_FILE {
            crate::FileType::RegularFile
        } else if t == EXT4_INODE_MODE_SOFTLINK {
            crate::FileType::SymLink
        } else if t == EXT4_INODE_MODE_CHARDEV {
            crate::FileType::CharacterDev
        } else if t == EXT4_INODE_MODE_BLOCKDEV {
            crate::FileType::BlockDev
        } else if t == EXT4_INODE_MODE_FIFO {
            crate::FileType::Fifo
        } else if t == EXT4_INODE_MODE_SOCKET {
            crate::FileType::Socket
        } else {
            crate::FileType::Unknown
        }
    }

    /// The hard-link count.
    pub fn links_cnt(&self) -> (r: u16)
        ensures
            r == self.links_count,
    {
        self.links_count
    }

    /// Set the hard-link count.
    pub fn set_links_cnt(&mut self, cnt: u16)
        ensures
            final(self).links_count == cnt,
            inode_eq(*final(self), (Ext4Inode { links_count: cnt, ..*old(self) })),
    {
        self.links_count = cnt;
    }

    /// Set the owner uid (low 16 bits).
    pub fn set_uid(&mut self, uid: u16)
        ensures
            final(self).uid == uid,
            inode_eq(*final(self), (Ext4Inode { uid, ..*old(self) })),
    {
        self.uid = uid;
    }

    /// Set the owner gid (low 16 bits).
    pub fn set_gid(&mut self, gid: u16)
        ensures
            final(self).gid == gid,
            inode_eq(*final(self), (Ext4Inode { gid, ..*old(self) })),
    {
        self.gid = gid;
    }

    /// The 64-bit file size.
    pub fn size(&self) -> (r: u64)
        ensures
            r == self.size + (self.size_hi as u64) * 0x1_0000_0000,
    {
        let r = (self.size as u64) | ((self.size_hi as u64) << 32);
        proof {
            let lo = self.size;
            let hi = self.size_hi;
            assert((lo as u64) | ((hi as u64) << 32) == lo + (hi as u64) * 0x1_0000_0000)
                by (bit_vector);
        }
        r
    }

    /// Set the 64-bit file size, split across the two halves.
    pub fn set_size(&mut self, size: u64)
        ensures
            final(self).size == size as u32,
            final(self).size_hi == (size >> 32) as u32,
            final(self).size + (final(self).size_hi as u64) * 0x1_0000_0000 == size,
            inode_eq(
                *final(self),
                (Ext4Inode {
                    size: final(self).size,
                    size_hi: final(self).size_hi,
                    ..*old(self)
                }),
            ),
    {
        let lo = (size & 0xFFFF_FFFF) as u32;
        let hi = (size >> 32) as u32;
        proof {
            assert((size & 0xFFFF_FFFF) as u32 == size as u32 && ((size & 0xFFFF_FFFF) as u32)
                + (((size >> 32) as u32) as u64) * 0x1_0000_0000 == size) by (bit_vector);
        }
        self.size = lo;
        self.size_hi = hi;
    }

    /// Set the access time.
    pub fn set_access_time(&mut self, access_time: u32)
        ensures
            final(self).atime == access_time,
            inode_eq(*final(self), (Ext4Inode { atime: access_time, ..*old(self) })),
    {
        self.atime = access_time;
    }

    /// Set the inode-change time.
    pub fn set_change_inode_time(&mut self, change_inode_time: u32)
        ensures
            final(self).ctime == change_inode_time,
            inode_eq(*final(self), (Ext4Inode { ctime: change_inode_time, ..*old(self) })),
    {
        self.ctime = change_inode_time;
    }

    /// Set the modification time.
    pub fn set_modif_time(&mut self, modif_time: u32)
        ensures
            final(self).mtime == modif_time,
            inode_eq(*final(self), (Ext4Inode { mtime: modif_time, ..*old(self) })),
    {
        self.mtime = modif_time;
    }

    /// Set the deletion time.
    pub fn set_del_time(&mut self, del_time: u32)
        ensures
            final(self).dtime == del_time,
            inode_eq(*final(self), (Ext4Inode { dtime: del_time, ..*old(self) })),
    {
        self.dtime = del_time;
    }

    /// Set the mapped-data-block count.
    pub fn set_blocks_count(&mut self, blocks_count: u32)
        ensures
            final(self).blocks == blocks_count,
            inode_eq(*final(self), (Ext4Inode { blocks: blocks_count, ..*old(self) })),
    {
        self.blocks = blocks_count;
    }

    /// Set the generation.
    pub fn set_generation(&mut self, generation: u32)
        ensures
            final(self).generation == generation,
            inode_eq(*final(self), (Ext4Inode { generation, ..*old(self) })),
    {
        self.generation = generation;
    }

    /// Set the extra-record size.
    pub fn set_extra_isize(&mut self, extra_isize: u16)
        ensures
            final(self).i_extra_isize == extra_isize,
            inode_eq(*final(self), (Ext4Inode { i_extra_isize: extra_isize, ..*old(self) })),
    {
        self.i_extra_isize = extra_isize;
    }

    /// Store a computed checksum into the record's checksum fields: the low
    /// half always, the high half only when the record is larger than 128
    /// bytes.
    pub fn set_inode_checksum_value(
        &mut self,
        super_block: &Ext4Superblock,
        inode_id: u32,
        checksum: u32,
    )
        ensures
            final(self).osd2.l_i_checksum_lo == (checksum & 0xFFFF) as u16,
            final(self).i_checksum_hi == if super_block.inode_size > 128 {
                (checksum >> 16) as u16
            } else {
                old(self).i_checksum_hi
            },
            final(self).osd2 == (Linux2 {
                l_i_checksum_lo: final(self).osd2.l_i_checksum_lo,
                ..old(self).osd2
            }),
            inode_eq(
                *final(self),
                (Ext4Inode {
                    osd2: final(self).osd2,
                    i_checksum_hi: final(self).i_checksum_hi,
                    ..*old(self)
                }),
            ),
    {
        let lo: u16 = (checksum & 0xFFFF) as u16;
        proof {
            assert(checksum & 0xFFFF <= 0xFFFF && checksum >> 16 <= 0xFFFF) by (bit_vector);
        }
        self.osd2.l_i_checksum_lo = lo;
        if super_block.inode_size > 128 {
            self.i_checksum_hi = (checksum >> 16) as u16;
        }
    }

    /// The 64-bit mapped-data-block count.
    pub fn blocks_count(&self) -> (r: u64)
        ensures
            r == self.blocks + (self.osd2.l_i_blocks_high as u64) * 0x1_0000_0000,
    {
        let lo = self.blocks;
        let hi = self.osd2.l_i_blocks_high;
        let r = (lo as u64) | ((hi as u64) << 32);
        proof {
            assert((lo as u64) | ((hi as u64) << 32) == lo + (hi as u64) * 0x1_0000_0000)
                by (bit_vector);
        }
        r
    }

    /// Compute this record's keyed checksum: zero the stored checksum
    /// fields, encode, and absorb the UUID, the inode id, the generation and
    /// the record bytes; store the result's halves back into the record.
    /// For a 128-byte record only the low half is meaningful and returned.
    pub fn calc_checksum(&mut self, inode_id: u32, super_block: &Ext4Superblock) -> (r: u32)
        requires
            old(self).wf(),
            super_block.inode_size == 128 || super_block.inode_size == 256,
        ensures
            final(self).wf(),
            final(self).osd2.l_i_checksum_lo == (r & 0xFFFF) as u16,
            super_block.inode_size > 128 ==> final(self).i_checksum_hi == (r >> 16) as u16,
            super_block.inode_size == 128 ==> r < 0x1_0000,
            final(self).osd2 == (Linux2 {
                l_i_checksum_lo: final(self).osd2.l_i_checksum_lo,
                ..old(self).osd2
            }),
            inode_eq(
                *final(self),
                (Ext4Inode {
                    osd2: final(self).osd2,
                    i_checksum_hi: final(self).i_checksum_hi,
                    ..*old(self)
                }),
            ),
            // the result is the keyed checksum of the record's one encoding
            // with the checksum fields zeroed, masked for short records
            exists|s: Seq<u8>|
                #[trigger] inode_region_exact(
                    zeroed_csum_inode(*old(self)),
                    s,
                    super_block.inode_size,
                ) && r == if super_block.inode_size == 128 {
                    inode_csum_of(super_block.uuid@, inode_id, s) & 0xFFFF
                } else {
                    inode_csum_of(super_block.uuid@, inode_id, s)
                },
    {
        self.osd2.l_i_checksum_lo = 0;
        self.i_checksum_hi = 0;
        let bytes = self.encode(super_block.inode_size);
        let c = crc32c_update(CRC32C_INIT, super_block.uuid.as_slice());
        let c = crc32c_update_u32le(c, inode_id);
        let c = crc32c_update_u32le(c, self.generation);
        let c = crc32c_update(c, bytes.as_slice());
        self.set_inode_checksum_value(super_block, inode_id, c);
        let r = if super_block.inode_size == 128 {
            c & 0xFFFF
        } else {
            c
        };
        proof {
            assert(c & 0xFFFF < 0x1_0000 && (c & 0xFFFF) & 0xFFFF == c & 0xFFFF && (c & 0xFFFF)
                >> 16 == 0) by (bit_vector);
            assert(bytes@[124] == 0 && bytes@[125] == 0);
            if super_block.inode_size == 256 {
                assert(bytes@[130] == 0 && bytes@[131] == 0);
            }
            assert(inode_csum_payload(bytes@) =~= bytes@);
            assert(c == inode_csum_of(super_block.uuid@, inode_id, bytes@));
            assert(inode_region_exact(
                zeroed_csum_inode(*old(self)),
                bytes@,
                super_block.inode_size,
            ));
        }
        r
    }

    /// Recompute and store this record's keyed checksum.
    pub fn set_checksum(&mut self, super_block: &Ext4Superblock, inode_id: u32)
        requires
            old(self).wf(),
            super_block.inode_size == 128 || super_block.inode_size == 256,
        ensures
            final(self).wf(),
            final(self).osd2 == (Linux2 {
                l_i_checksum_lo: final(self).osd2.l_i_checksum_lo,
                ..old(self).osd2
            }),
            inode_eq(
                *final(self),
                (Ext4Inode {
                    osd2: final(self).osd2,
                    i_checksum_hi: final(self).i_checksum_hi,
                    ..*old(self)
                }),
            ),
            // the stored halves are the keyed checksum of the record's one
            // encoding with the checksum fields zeroed
            exists|s: Seq<u8>|
                #[trigger] inode_region_exact(
                    zeroed_csum_inode(*old(self)),
                    s,
                    super_block.inode_size,
                ) && final(self).osd2.l_i_checksum_lo == (inode_csum_of(
                    super_block.uuid@,
                    inode_id,
                    s,
                ) & 0xFFFF) as u16 && (super_block.inode_size > 128 ==> final(self).i_checksum_hi
                    == (inode_csum_of(super_block.uuid@, inode_id, s) >> 16) as u16),
    {
        let r = self.calc_checksum(inode_id, super_block);
        proof {
            let s = choose|s: Seq<u8>|
                #[trigger] inode_region_exact(
                    zeroed_csum_inode(*old(self)),
                    s,
                    super_block.inode_size,
                ) && r == if super_block.inode_size == 128 {
                    inode_csum_of(super_block.uuid@, inode_id, s) & 0xFFFF
                } else {
                    inode_csum_of(super_block.uuid@, inode_id, s)
                };
            let full = inode_csum_of(super_block.uuid@, inode_id, s);
            if super_block.inode_size == 128 {
                assert(((full & 0xFFFF) & 0xFFFF) as u16 == (full & 0xFFFF) as u16)
                    by (bit_vector);
            }
            assert(inode_region_exact(zeroed_csum_inode(*old(self)), s, super_block.inode_size)
                && final(self).osd2.l_i_checksum_lo == (full & 0xFFFF) as u16 && (
            super_block.inode_size > 128 ==> final(self).i_checksum_hi == (full >> 16) as u16));
        }
    }

    /// Encode into the on-disk record. The checksum fields are taken from
    /// the in-memory record as they stand.
    pub fn encode(&self, inode_size: u16) -> (r: Vec<u8>)
        requires
            self.wf(),
            inode_size == 128 || inode_size == 256,
        ensures
            inode_region_matches(*self, r@, inode_size),
            inode_region_exact(*self, r@, inode_size),
            le16_at(r@, 124) == self.osd2.l_i_checksum_lo,
            inode_size == 256 ==> le16_at(r@, 130) == self.i_checksum_hi,
    {
        let mut v = zero_vec(inode_size as usize);
        put_u16(&mut v, 0, self.mode);
        put_u16(&mut v, 2, self.uid);
        put_u32(&mut v, 4, self.size);
        put_u32(&mut v, 8, self.atime);
        put_u32(&mut v, 12, self.ctime);
        put_u32(&mut v, 16, self.mtime);
        put_u32(&mut v, 20, self.dtime);
        put_u16(&mut v, 24, self.gid);
        put_u16(&mut v, 26, self.links_count);
        put_u32(&mut v, 28, self.blocks);
        put_u32(&mut v, 32, self.flags);
        put_u32(&mut v, 36, self.osd1);
        put_bytes(&mut v, 40, self.block.as_slice());
        put_u32(&mut v, 100, self.generation);
        put_u32(&mut v, 104, self.file_acl);
        put_u32(&mut v, 108, self.size_hi);
        put_u32(&mut v, 112, self.faddr);
        put_u16(&mut v, 116, self.osd2.l_i_blocks_high);
        put_u16(&mut v, 118, self.osd2.l_i_file_acl_high);
        put_u16(&mut v, 120, self.osd2.l_i_uid_high);
        put_u16(&mut v, 122, self.osd2.l_i_gid_high);
        put_u16(&mut v, 124, self.osd2.l_i_checksum_lo);
        put_u16(&mut v, 126, self.osd2.l_i_reserved);
        if inode_size == 256 {
            put_u16(&mut v, 128, self.i_extra_isize);
            put_u16(&mut v, 130, self.i_checksum_hi);
            put_u32(&mut v, 132, self.i_ctime_extra);
            put_u32(&mut v, 136, self.i_mtime_extra);
            put_u32(&mut v, 140, self.i_atime_extra);
            put_u32(&mut v, 144, self.i_crtime);
            put_u32(&mut v, 148, self.i_crtime_extra);
            put_u32(&mut v, 152, self.i_version_hi);
        }
        proof {
            assert(v@.subrange(40, 100) =~= self.block@);
        }
        v
    }

    /// Decode the on-disk record.
    pub fn decode(s: &[u8], inode_size: u16) -> (r: Ext4Inode)
        requires
            s@.len() == inode_size,
            inode_size == 128 || inode_size == 256,
        ensures
            r.wf(),
            inode_region_matches(r, s@, inode_size),
            r.osd2.l_i_checksum_lo == le16_at(s@, 124),
            r.osd2.l_i_reserved == le16_at(s@, 126),
            inode_size == 256 ==> r.i_checksum_hi == le16_at(s@, 130),
            inode_size == 128 ==> r.i_extra_isize == 0 && r.i_checksum_hi == 0,
    {
        let mut r = Ext4Inode::empty();
        r.mode = get_u16(s, 0);
        r.uid = get_u16(s, 2);
        r.size = get_u32(s, 4);
        r.atime = get_u32(s, 8);
        r.ctime = get_u32(s, 12);
        r.mtime = get_u32(s, 16);
        r.dtime = get_u32(s, 20);
        r.gid = get_u16(s, 24);
        r.links_count = get_u16(s, 26);
        r.blocks = get_u32(s, 28);
        r.flags = get_u32(s, 32);
        r.osd1 = get_u32(s, 36);
        r.block = sub_bytes(s, 40, 100);
        r.generation = get_u32(s, 100);
        r.file_acl = get_u32(s, 104);
        r.size_hi = get_u32(s, 108);
        r.faddr = get_u32(s, 112);
        r.osd2.l_i_blocks_high = get_u16(s, 116);
        r.osd2.l_i_file_acl_high = get_u16(s, 118);
        r.osd2.l_i_uid_high = get_u16(s, 120);
        r.osd2.l_i_gid_high = get_u16(s, 122);
        r.osd2.l_i_checksum_lo = get_u16(s, 124);
        r.osd2.l_i_reserved = get_u16(s, 126);
        if inode_size == 256 {
            r.i_extra_isize = get_u16(s, 128);
            r.i_checksum_hi = get_u16(s, 130);
            r.i_ctime_extra = get_u32(s, 132);
            r.i_mtime_extra = get_u32(s, 136);
            r.i_atime_extra = get_u32(s, 140);
            r.i_crtime = get_u32(s, 144);
            r.i_crtime_extra = get_u32(s, 148);
            r.i_version_hi = get_u32(s, 152);
        }
        r
    }
}

/// An inode together with its id, the unit the operations pass around.
pub struct Ext4InodeRef {
    /// The 1-based inode id.
    pub inode_id: u32,
    /// The record.
    pub inode: Ext4Inode,
}

impl Ext4InodeRef {
    /// Pair an id with a record.
    pub fn new(inode_id: u32, inode: Ext4Inode) -> (r: Ext4InodeRef)
        ensures
            r.inode_id == inode_id,
            inode_eq(r.inode, inode),
    {
        Ext4InodeRef { inode_id, inode }
    }

    /// A field-for-field copy.
    pub fn duplicate(&self) -> (r: Ext4InodeRef)
        ensures
            r.inode_id == self.inode_id,
            inode_eq(r.inode, self.inode),
    {
        Ext4InodeRef { inode_id: self.inode_id, inode: self.inode.duplicate() }
    }
}

} // verus!
