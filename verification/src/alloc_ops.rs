//! Inode lifecycle operations: create an inode with a fresh extent root,
//! bootstrap the root directory, append a data block, and tear an inode
//! down, returning every block it held.

use vstd::prelude::*;

use crate::fs::{alloc_inode_effect, inode_group_of, Ext4};
use crate::inode::{Ext4Inode, Ext4InodeRef, EXT4_INODE_MODE_DIRECTORY, EXT4_INODE_MODE_TYPE_MASK,
    EXT4_ROOT_INO};
use crate::ErrCode;

verus! {

/// The name of a directory's entry for itself: one dot byte.
pub open spec fn dot_name() -> Seq<u8> {
    seq![46u8]
}

/// The name of a directory's entry for its parent: two dot bytes.
pub open spec fn dotdot_name() -> Seq<u8> {
    seq![46u8, 46u8]
}

impl Ext4 {
    /// Create a fresh inode: allocate an id, initialize the record with the
    /// given mode and an empty extent-tree root, and write it to its table
    /// slot with a fresh checksum.
    ///
    /// Succeeds if and only if the filesystem has a free inode.
    pub fn create_inode(&mut self, mode: u16) -> (r: Result<Ext4InodeRef, ErrCode>)
        requires
            old(self).wf(),
        ensures
            final(self).wf(),
            final(self).sb.inodes_per_group == old(self).sb.inodes_per_group,
            final(self).sb.block_group_count == old(self).sb.block_group_count,
            final(self).sb.blocks_count == old(self).sb.blocks_count,
            final(self).sb.inode_size == old(self).sb.inode_size,
            final(self).sb.uuid@ == old(self).sb.uuid@,
            final(self).disk@.len() == old(self).disk@.len(),
            match r {
                Ok(iref) => ({
                    let was_dir = (mode & EXT4_INODE_MODE_TYPE_MASK) == EXT4_INODE_MODE_DIRECTORY;
                    &&& 1 <= iref.inode_id <= old(self).sb.inodes_count
                    &&& iref.inode.wf()
                    &&& iref.inode.mode == mode
                    &&& exists|g: int, idx: int|
                        #[trigger] alloc_inode_effect(*old(self), *final(self), g, idx, was_dir)
                            && iref.inode_id == g * old(self).sb.inodes_per_group + idx + 1
                    // the fresh extent-tree root: magic header, depth 0, no
                    // records, room for four
                    &&& crate::extent::header_matches_at(
                        (crate::extent::Ext4ExtentHeader {
                            magic: crate::extent::EXT4_EXTENT_MAGIC,
                            entries_count: 0,
                            max_entries_count: crate::extent::EXTENT_ROOT_MAX_ENTRIES,
                            depth: 0,
                            generation: 0,
                        }),
                        iref.inode.block@,
                        0,
                    )
                    // the fresh record sits checksummed in its table slot
                    &&& crate::inode::inode_region_matches(
                        iref.inode,
                        crate::fs::inode_slot_bytes(
                            final(self).sb,
                            final(self).groups@,
                            final(self).disk@,
                            iref.inode_id,
                        ),
                        old(self).sb.inode_size,
                    )
                    &&& crate::inode::inode_csum_valid(
                        old(self).sb.uuid@,
                        iref.inode_id,
                        crate::fs::inode_slot_bytes(
                            final(self).sb,
                            final(self).groups@,
                            final(self).disk@,
                            iref.inode_id,
                        ),
                    )
                }),
                Err(c) => c == ErrCode::Enospc && old(self).sb.free_inodes_count == 0,
            },
            r is Err <==> old(self).sb.free_inodes_count == 0,
    {
        let is_dir = (mode & EXT4_INODE_MODE_TYPE_MASK) == EXT4_INODE_MODE_DIRECTORY;
        let id = match self.alloc_inode(is_dir) {
            Ok(id) => id,
            Err(c) => {
                return Err(c);
            },
        };
        let mut inode = Ext4Inode::empty();
        inode.set_mode(mode);
        proof {
            assert(0u16 | mode == mode) by (bit_vector);
        }
        inode.extent_tree_init();
        let mut inode_ref = Ext4InodeRef::new(id, inode);
        let ghost mid = *self;
        proof {
            lemma_id_group_in_range(*old(self), *self, id, is_dir);
        }
        self.write_inode_with_csum(&mut inode_ref);
        proof {
            let (g, idx) = choose|g: int, idx: int|
                #[trigger] alloc_inode_effect(*old(self), mid, g, idx, is_dir) && id == g * old(
                    self,
                ).sb.inodes_per_group + idx + 1;
            assert(alloc_inode_effect(*old(self), *self, g, idx, is_dir));
        }
        Ok(inode_ref)
    }

    /// Create and initialize the root directory: inode 2, mode directory
    /// with permissions 0o755, entries for itself and its parent (both the
    /// root), link count 2, one data block, written with a fresh checksum.
    pub fn create_root_inode(&mut self) -> (r: Result<Ext4InodeRef, ErrCode>)
        requires
            old(self).wf(),
        ensures
            final(self).wf(),
            final(self).disk@.len() == old(self).disk@.len(),
            match r {
                Ok(iref) => {
                    &&& iref.inode_id == EXT4_ROOT_INO
                    &&& iref.inode.wf()
                    &&& iref.inode.links_count == 2
                    &&& iref.inode.blocks == 1
                    &&& iref.inode.size == crate::BLOCK_SIZE && iref.inode.size_hi == 0
                    // its record sits checksummed in its table slot
                    &&& crate::inode::inode_region_matches(
                        iref.inode,
                        crate::fs::inode_slot_bytes(
                            final(self).sb,
                            final(self).groups@,
                            final(self).disk@,
                            EXT4_ROOT_INO,
                        ),
                        final(self).sb.inode_size,
                    )
                    &&& crate::inode::inode_csum_valid(
                        final(self).sb.uuid@,
                        EXT4_ROOT_INO,
                        crate::fs::inode_slot_bytes(
                            final(self).sb,
                            final(self).groups@,
                            final(self).disk@,
                            EXT4_ROOT_INO,
                        ),
                    )
                    // both bootstrap entries resolve to the root itself
                    &&& exists|b: int|
                        0 <= b < final(self).disk@.len()
                            && #[trigger] crate::dir::dir_block_has_binding(
                            final(self).disk@[b],
                            dot_name(),
                            EXT4_ROOT_INO,
                        )
                    &&& exists|b: int|
                        0 <= b < final(self).disk@.len()
                            && #[trigger] crate::dir::dir_block_has_binding(
                            final(self).disk@[b],
                            dotdot_name(),
                            EXT4_ROOT_INO,
                        )
                },
                Err(c) => c == ErrCode::Enospc || c == ErrCode::Efscorrupted,
            },
    {
        let mut inode = Ext4Inode::empty();
        inode.set_mode(EXT4_INODE_MODE_DIRECTORY | 0o755);
        proof {
            assert(0u16 | (EXT4_INODE_MODE_DIRECTORY | 0o755u16) == (EXT4_INODE_MODE_DIRECTORY
                | 0o755u16)) by (bit_vector);
        }
        inode.extent_tree_init();
        let mut root = Ext4InodeRef::new(EXT4_ROOT_INO, inode);
        proof {
            assert(self.sb.inodes_per_group >= 8);
            assert(1int / (self.sb.inodes_per_group as int) == 0) by (nonlinear_arith)
                requires
                    (self.sb.inodes_per_group as int) > 1,
            ;
        }
        let root_self = root.duplicate();
        let dot: [u8; 1] = [46];
        let dotdot: [u8; 2] = [46, 46];
        match self.dir_add_entry(&mut root, &root_self, dot.as_slice()) {
            Ok(()) => {},
            Err(c) => {
                return Err(c);
            },
        }
        let root_self2 = root.duplicate();
        match self.dir_add_entry(&mut root, &root_self2, dotdot.as_slice()) {
            Ok(()) => {},
            Err(c) => {
                return Err(c);
            },
        }
        // both entries went into the block the first add appended
        if root.inode.blocks != 1 {
            return Err(ErrCode::Efscorrupted);
        }
        if root.inode.size != crate::BLOCK_SIZE as u32 || root.inode.size_hi != 0 {
            return Err(ErrCode::Efscorrupted);
        }
        root.inode.set_links_cnt(2);
        self.write_inode_with_csum(&mut root);
        // read both entries back: the bootstrap block resolves them to the
        // root itself
        let e_dot = match self.dir_find_entry(&root, dot.as_slice()) {
            Ok(e) => e,
            Err(_) => {
                return Err(ErrCode::Efscorrupted);
            },
        };
        if e_dot.inode != EXT4_ROOT_INO {
            return Err(ErrCode::Efscorrupted);
        }
        let e_dotdot = match self.dir_find_entry(&root, dotdot.as_slice()) {
            Ok(e) => e,
            Err(_) => {
                return Err(ErrCode::Efscorrupted);
            },
        };
        if e_dotdot.inode != EXT4_ROOT_INO {
            return Err(ErrCode::Efscorrupted);
        }
        proof {
            assert(dot@ =~= dot_name());
            assert(dotdot@ =~= dotdot_name());
        }
        Ok(root)
    }

    /// Append one data block to an inode: map logical block `block_count`
    /// to a fresh physical block, count it, and rewrite the inode record
    /// (the caller finalizes the checksum).
    ///
    /// Returns the pair of the new logical block id and its physical block.
    pub fn inode_append_block(&mut self, inode_ref: &mut Ext4InodeRef) -> (r: Result<
        (u32, u64),
        ErrCode,
    >)
        requires
            old(self).wf(),
            old(inode_ref).inode.wf(),
            old(inode_ref).inode_id >= 1,
            ((old(inode_ref).inode_id - 1) as int) / (old(self).sb.inodes_per_group as int) < old(
                self,
            ).sb.block_group_count,
        ensures
            final(self).wf(),
            final(inode_ref).inode.wf(),
            final(inode_ref).inode_id == old(inode_ref).inode_id,
            final(self).sb.inodes_per_group == old(self).sb.inodes_per_group,
            final(self).sb.block_group_count == old(self).sb.block_group_count,
            final(self).sb.blocks_count == old(self).sb.blocks_count,
            final(self).sb.inode_size == old(self).sb.inode_size,
            final(self).sb.uuid@ == old(self).sb.uuid@,
            final(self).disk@.len() == old(self).disk@.len(),
            match r {
                Ok((lb, pb)) => {
                    &&& lb == old(inode_ref).inode.blocks
                    &&& pb < final(self).disk@.len()
                    &&& final(inode_ref).inode.blocks == old(inode_ref).inode.blocks + 1
                    // the appended block is mapped: a leaf root afterwards
                    // resolves the new logical block to it
                    &&& crate::extent_ops::maps_to(final(inode_ref).inode.block@, lb, pb)
                    // the size is untouched; only the block count moved
                    &&& final(inode_ref).inode.size == old(inode_ref).inode.size
                    &&& final(inode_ref).inode.size_hi == old(inode_ref).inode.size_hi
                    &&& crate::inode::inode_eq(
                        final(inode_ref).inode,
                        (crate::inode::Ext4Inode {
                            blocks: final(inode_ref).inode.blocks,
                            block: final(inode_ref).inode.block,
                            ..old(inode_ref).inode
                        }),
                    )
                    // the record was rewritten to its table slot
                    &&& crate::inode::inode_region_exact(
                        final(inode_ref).inode,
                        crate::fs::inode_slot_bytes(
                            final(self).sb,
                            final(self).groups@,
                            final(self).disk@,
                            old(inode_ref).inode_id,
                        ),
                        old(self).sb.inode_size,
                    )
                },
                Err(c) => c == ErrCode::Enospc || c == ErrCode::Efscorrupted,
            },
    {
        let iblock_u64 = inode_ref.inode.blocks_count();
        if iblock_u64 >= 0xFFFF_0000 || inode_ref.inode.osd2.l_i_blocks_high != 0
            || inode_ref.inode.blocks >= 0xFFFF_0000 {
            return Err(ErrCode::Efscorrupted);
        }
        let iblock = inode_ref.inode.blocks;
        let fblock = match self.extent_query_or_create(inode_ref, iblock, 1) {
            Ok(p) => p,
            Err(c) => {
                return Err(c);
            },
        };
        let nb = inode_ref.inode.blocks;
        if nb == u32::MAX {
            return Err(ErrCode::Efscorrupted);
        }
        inode_ref.inode.set_blocks_count(nb + 1);
        self.write_inode_without_csum(inode_ref);
        Ok((iblock, fblock))
    }

    /// Free an inode and everything it holds: every data block, every tree
    /// block (all zeroed on the device), the inode's bitmap bit and
    /// counters, and the on-disk record, which is zeroed.
    ///
    /// A failure mid-way performs no rollback: deallocations already issued
    /// stand, the record keeps its last written state, and the well-formed
    /// counter equations still hold of whatever was reached.
    pub fn free_inode(&mut self, inode_ref: &mut Ext4InodeRef) -> (r: Result<(), ErrCode>)
        requires
            old(self).wf(),
            old(inode_ref).inode.wf(),
            old(inode_ref).inode_id >= 1,
            ((old(inode_ref).inode_id - 1) as int) / (old(self).sb.inodes_per_group as int) < old(
                self,
            ).sb.block_group_count,
        ensures
            final(self).wf(),
            final(inode_ref).inode.wf(),
            final(inode_ref).inode_id == old(inode_ref).inode_id,
            final(self).disk@.len() == old(self).disk@.len(),
            match r {
                Ok(()) => ({
                    let g = ((old(inode_ref).inode_id - 1) as int) / (old(
                        self,
                    ).sb.inodes_per_group as int);
                    let idx = ((old(inode_ref).inode_id - 1) as int) % (old(
                        self,
                    ).sb.inodes_per_group as int);
                    // the inode's bitmap bit is clear again
                    &&& !crate::bitmap::bit_is_set(final(self).inode_bitmaps@[g]@, idx)
                    // the in-memory record is zeroed
                    &&& final(inode_ref).inode.mode == 0
                    &&& final(inode_ref).inode.blocks == 0
                    &&& final(inode_ref).inode.links_count == 0
                    &&& final(inode_ref).inode.size == 0 && final(inode_ref).inode.size_hi == 0
                    // and so is the record's table slot on the device
                    &&& crate::inode::inode_region_exact(
                        final(inode_ref).inode,
                        crate::fs::inode_slot_bytes(
                            final(self).sb,
                            final(self).groups@,
                            final(self).disk@,
                            old(inode_ref).inode_id,
                        ),
                        old(self).sb.inode_size,
                    )
                }),
                Err(c) => c == ErrCode::Einval || c == ErrCode::Efscorrupted,
            },
    {
        let ghost pre = *self;
        // free the data blocks
        let pblocks = match self.extent_all_data_blocks(inode_ref) {
            Ok(ps) => ps,
            Err(c) => {
                return Err(c);
            },
        };
        let n = pblocks.len();
        let mut i: usize = 0;
        while i < n
            invariant
                n == pblocks@.len(),
                i <= n,
                self.wf(),
                inode_ref.inode.wf(),
                inode_ref.inode_id == old(inode_ref).inode_id,
                old(inode_ref).inode_id >= 1,
                ((old(inode_ref).inode_id - 1) as int) / (old(self).sb.inodes_per_group as int)
                    < old(self).sb.block_group_count,
                self.sb.inodes_per_group == old(self).sb.inodes_per_group,
                self.sb.block_group_count == old(self).sb.block_group_count,
                self.sb.blocks_count == old(self).sb.blocks_count,
                self.sb.inode_size == old(self).sb.inode_size,
                self.disk@.len() == old(self).disk@.len(),
                forall|q: int| 0 <= q < n ==> #[trigger] pblocks@[q] < old(self).disk@.len(),
            decreases n - i,
        {
            let pb = pblocks[i];
            if pb >= self.sb.blocks_count {
                return Err(ErrCode::Einval);
            }
            match self.dealloc_block(inode_ref, pb) {
                Ok(()) => {},
                Err(c) => {
                    return Err(c);
                },
            }
            let bc = inode_ref.inode.blocks;
            if bc > 0 {
                inode_ref.inode.set_blocks_count(bc - 1);
            }
            self.disk.zero_block(pb);
            i = i + 1;
        }
        // free the tree blocks; they were never counted
        let tblocks = match self.extent_all_tree_blocks(inode_ref) {
            Ok(ps) => ps,
            Err(c) => {
                return Err(c);
            },
        };
        let tn = tblocks.len();
        let mut t: usize = 0;
        while t < tn
            invariant
                tn == tblocks@.len(),
                t <= tn,
                self.wf(),
                inode_ref.inode.wf(),
                inode_ref.inode_id == old(inode_ref).inode_id,
                old(inode_ref).inode_id >= 1,
                ((old(inode_ref).inode_id - 1) as int) / (old(self).sb.inodes_per_group as int)
                    < old(self).sb.block_group_count,
                self.sb.inodes_per_group == old(self).sb.inodes_per_group,
                self.sb.block_group_count == old(self).sb.block_group_count,
                self.sb.blocks_count == old(self).sb.blocks_count,
                self.sb.inode_size == old(self).sb.inode_size,
                self.disk@.len() == old(self).disk@.len(),
                forall|q: int| 0 <= q < tn ==> #[trigger] tblocks@[q] < old(self).disk@.len(),
            decreases tn - t,
        {
            let pb = tblocks[t];
            if pb >= self.sb.blocks_count {
                return Err(ErrCode::Einval);
            }
            match self.dealloc_block(inode_ref, pb) {
                Ok(()) => {},
                Err(c) => {
                    return Err(c);
                },
            }
            self.disk.zero_block(pb);
            t = t + 1;
        }
        // free the inode itself and zero its record
        match self.dealloc_inode(inode_ref) {
            Ok(()) => {},
            Err(c) => {
                return Err(c);
            },
        }
        inode_ref.inode = Ext4Inode::empty();
        self.write_inode_without_csum(inode_ref);
        Ok(())
    }
}

/// An allocated inode id's group is in range.
proof fn lemma_id_group_in_range(pre: Ext4, post: Ext4, id: u32, is_dir: bool)
    requires
        pre.wf(),
        exists|g: int, idx: int|
            alloc_inode_effect(pre, post, g, idx, is_dir) && id == g * pre.sb.inodes_per_group
                + idx + 1,
        post.sb.inodes_per_group == pre.sb.inodes_per_group,
        post.sb.block_group_count == pre.sb.block_group_count,
    ensures
        id >= 1,
        ((id - 1) as int) / (post.sb.inodes_per_group as int) < post.sb.block_group_count,
        inode_group_of(post.sb, id) < post.sb.block_group_count,
    decreases 0int,
{
    let (g, idx) = choose|g: int, idx: int|
        alloc_inode_effect(pre, post, g, idx, is_dir) && id == g * pre.sb.inodes_per_group + idx
            + 1;
    let ipg = pre.sb.inodes_per_group as int;
    assert(((id - 1) as int) / ipg == g) by (nonlinear_arith)
        requires
            ipg > 0,
            0 <= idx < ipg,
            (id - 1) as int == g * ipg + idx,
            g >= 0,
    ;
    assert(g < pre.groups@.len());
}

impl Ext4InodeRef {
    /// Read an inode's record from its table slot.
    pub fn read_from_disk(fs: &Ext4, inode_id: u32) -> (r: Ext4InodeRef)
        requires
            fs.wf(),
            inode_id >= 1,
            inode_group_of(fs.sb, inode_id) < fs.sb.block_group_count,
        ensures
            r.inode_id == inode_id,
            r.inode.wf(),
            crate::inode::inode_region_matches(
                r.inode,
                crate::fs::inode_slot_bytes(fs.sb, fs.groups@, fs.disk@, inode_id),
                fs.sb.inode_size,
            ),
            r.inode.osd2.l_i_checksum_lo == crate::codec::le16_at(
                crate::fs::inode_slot_bytes(fs.sb, fs.groups@, fs.disk@, inode_id),
                124,
            ),
            r.inode.osd2.l_i_reserved == crate::codec::le16_at(
                crate::fs::inode_slot_bytes(fs.sb, fs.groups@, fs.disk@, inode_id),
                126,
            ),
            fs.sb.inode_size == 256 ==> r.inode.i_checksum_hi == crate::codec::le16_at(
                crate::fs::inode_slot_bytes(fs.sb, fs.groups@, fs.disk@, inode_id),
                130,
            ),
    {
        fs.read_inode(inode_id)
    }

    /// Write this inode's record to its table slot, leaving the stored
    /// checksum fields as they stand.
    pub fn sync_to_disk_without_csum(&self, fs: &mut Ext4)
        requires
            old(fs).wf(),
            self.inode.wf(),
            self.inode_id >= 1,
            inode_group_of(old(fs).sb, self.inode_id) < old(fs).sb.block_group_count,
        ensures
            final(fs).wf(),
            final(fs).sb == old(fs).sb,
            final(fs).groups@ == old(fs).groups@,
            final(fs).block_bitmaps@ == old(fs).block_bitmaps@,
            final(fs).inode_bitmaps@ == old(fs).inode_bitmaps@,
            final(fs).disk@.len() == old(fs).disk@.len(),
            // exactly one write: only the record's slot region moves
            forall|b: int|
                0 <= b < old(fs).disk@.len() && b != crate::fs::inode_slot_block(
                    old(fs).sb,
                    old(fs).groups@,
                    self.inode_id,
                ) ==> final(fs).disk@[b] == old(fs).disk@[b],
            forall|j: int|
                0 <= j < crate::BLOCK_SIZE && !(crate::fs::inode_slot_offset(
                    old(fs).sb,
                    self.inode_id,
                ) <= j < crate::fs::inode_slot_offset(old(fs).sb, self.inode_id) + old(
                    fs,
                ).sb.inode_size) ==> final(fs).disk@[crate::fs::inode_slot_block(
                    old(fs).sb,
                    old(fs).groups@,
                    self.inode_id,
                )][j] == old(fs).disk@[crate::fs::inode_slot_block(
                    old(fs).sb,
                    old(fs).groups@,
                    self.inode_id,
                )][j],
            crate::inode::inode_region_exact(
                self.inode,
                crate::fs::inode_slot_bytes(
                    final(fs).sb,
                    final(fs).groups@,
                    final(fs).disk@,
                    self.inode_id,
                ),
                old(fs).sb.inode_size,
            ),
    {
        fs.write_inode_without_csum(self);
    }

    /// Write this inode's record to its table slot with a fresh keyed
    /// checksum.
    pub fn sync_to_disk_with_csum(&mut self, fs: &mut Ext4)
        requires
            old(fs).wf(),
            old(self).inode.wf(),
            old(self).inode_id >= 1,
            inode_group_of(old(fs).sb, old(self).inode_id) < old(fs).sb.block_group_count,
        ensures
            final(fs).wf(),
            final(fs).sb == old(fs).sb,
            final(fs).disk@.len() == old(fs).disk@.len(),
            final(self).inode_id == old(self).inode_id,
            final(self).inode.wf(),
            crate::inode::inode_csum_valid(
                old(fs).sb.uuid@,
                old(self).inode_id,
                crate::fs::inode_slot_bytes(
                    final(fs).sb,
                    final(fs).groups@,
                    final(fs).disk@,
                    old(self).inode_id,
                ),
            ),
    {
        fs.write_inode_with_csum(self);
    }
}

} // verus!
