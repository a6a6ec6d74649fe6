//! A verified core of an ext4-style filesystem driver.
//!
//! The library covers four subsystems: inode/block allocation backed by
//! bitmaps, group descriptors and a superblock summary; the per-inode extent
//! tree mapping logical to physical blocks; linear directory blocks with
//! packed variable-length entries and checksummed tails; and CRC32C metadata
//! checksumming keyed by the filesystem UUID.
//!
//! The block store is an in-memory array of 4096-byte blocks; persistence of
//! that array (for example to an image file) is the caller's business.

use vstd::prelude::*;

pub mod alloc_ops;
pub mod bitmap;
pub mod block;
pub mod dir;
pub mod dir_entry;
pub mod block_group;
pub mod disk;
pub mod extent;
pub mod extent_ops;
pub mod mount_point;
pub mod fs;
pub mod inode;
pub mod laws;
pub mod super_block;
pub mod codec;
pub mod crc32c;

verus! {

/// Block size in bytes. The only block size this core supports.
pub const BLOCK_SIZE: usize = 4096;

/// Error kinds surfaced by the core.
#[derive(Clone, Copy, PartialEq, Eq, Structural, Debug)]
pub enum ErrCode {
    /// No free inode or no free block in any eligible group.
    Enospc,
    /// Directory entry or extent range not found.
    Enoent,
    /// Attempt to free an already-free bitmap bit, or a malformed argument.
    Einval,
    /// Block-device fault.
    Eio,
    /// Invariant violation detected during read: bad magic, bad entry chain,
    /// checksum mismatch.
    Efscorrupted,
}

impl ErrCode {
    /// A short name for the error, for callers that report it.
    pub fn as_str(&self) -> (r: &'static str)
        ensures
            r@ == match self {
                ErrCode::Enospc => "ENOSPC"@,
                ErrCode::Enoent => "ENOENT"@,
                ErrCode::Einval => "EINVAL"@,
                ErrCode::Eio => "EIO"@,
                ErrCode::Efscorrupted => "EFSCORRUPTED"@,
            },
    {
        match self {
            ErrCode::Enospc => "ENOSPC",
            ErrCode::Enoent => "ENOENT",
            ErrCode::Einval => "EINVAL",
            ErrCode::Eio => "EIO",
            ErrCode::Efscorrupted => "EFSCORRUPTED",
        }
    }
}

/// All file types, matching the file-type byte of directory entries.
#[derive(PartialEq, Eq, Clone, Copy, Debug, Structural)]
pub enum FileType {
    /// Unknown.
    Unknown,
    /// Regular file.
    RegularFile,
    /// Directory.
    Directory,
    /// Character device.
    CharacterDev,
    /// Block device.
    BlockDev,
    /// FIFO.
    Fifo,
    /// Socket.
    Socket,
    /// Symbolic link.
    SymLink,
}

} // verus!
