//! The filesystem facade: owns the superblock, the group descriptors, the
//! two bitmaps of every group, and the block store.
//!
//! Well-formedness ties the redundant summaries together after every
//! operation: the superblock free counters equal the sums of the group
//! counters, and each group counter equals its bitmap's capacity minus the
//! bitmap's population count. Every metadata writeback recomputes the
//! affected keyed checksum from the bytes it writes.

use vstd::prelude::*;

use crate::bitmap::{bit_is_set, bitmap_clear, bitmap_find_and_set_first_clear, bitmap_test,
    lemma_ones_clear_bit, lemma_ones_full, lemma_ones_set_bit, ones};
use crate::block_group::{bitmap_csum_of, desc_csum_valid, desc_region_matches, Ext4BlockGroupDesc,
    GROUP_DESC_SIZE, GROUP_DESC_TABLE_BLOCK};
use crate::disk::Disk;
use crate::super_block::{sb_csum_valid, sb_region_matches, Ext4Superblock, SUPERBLOCK_OFFSET,
    SUPERBLOCK_SIZE};
use crate::{ErrCode, BLOCK_SIZE};

verus! {

/// The filesystem: cached metadata plus the block store.
///
/// The cache has the same observable semantics as reading each structure
/// from disk at the start of every operation: each mutation writes the
/// changed structures back, checksummed, before it returns.
pub struct Ext4 {
    /// The superblock.
    pub sb: Ext4Superblock,
    /// One descriptor per block group.
    pub groups: Vec<Ext4BlockGroupDesc>,
    /// One block-sized block bitmap per group.
    pub block_bitmaps: Vec<Vec<u8>>,
    /// One block-sized inode bitmap per group.
    pub inode_bitmaps: Vec<Vec<u8>>,
    /// The block store.
    pub disk: Disk,
}

/// Sum of the free-inode counters of the first `n` groups.
pub open spec fn sum_free_inodes(gs: Seq<Ext4BlockGroupDesc>, n: int) -> int
    decreases n,
{
    if n <= 0 {
        0
    } else {
        sum_free_inodes(gs, n - 1) + gs[n - 1].free_inodes_count
    }
}

/// Sum of the free-block counters of the first `n` groups.
pub open spec fn sum_free_blocks(gs: Seq<Ext4BlockGroupDesc>, n: int) -> int
    decreases n,
{
    if n <= 0 {
        0
    } else {
        sum_free_blocks(gs, n - 1) + gs[n - 1].free_blocks_count
    }
}

/// How a sum reacts to replacing one group's descriptor.
pub proof fn lemma_sum_free_inodes_update(
    gs: Seq<Ext4BlockGroupDesc>,
    g: int,
    d: Ext4BlockGroupDesc,
    n: int,
)
    requires
        0 <= g < gs.len(),
        n <= gs.len(),
    ensures
        g < n ==> sum_free_inodes(gs.update(g, d), n) == sum_free_inodes(gs, n)
            - gs[g].free_inodes_count + d.free_inodes_count,
        n <= g ==> sum_free_inodes(gs.update(g, d), n) == sum_free_inodes(gs, n),
    decreases n,
{
    if n > 0 {
        lemma_sum_free_inodes_update(gs, g, d, n - 1);
    }
}

/// How a sum reacts to replacing one group's descriptor.
pub proof fn lemma_sum_free_blocks_update(
    gs: Seq<Ext4BlockGroupDesc>,
    g: int,
    d: Ext4BlockGroupDesc,
    n: int,
)
    requires
        0 <= g < gs.len(),
        n <= gs.len(),
    ensures
        g < n ==> sum_free_blocks(gs.update(g, d), n) == sum_free_blocks(gs, n)
            - gs[g].free_blocks_count + d.free_blocks_count,
        n <= g ==> sum_free_blocks(gs.update(g, d), n) == sum_free_blocks(gs, n),
    decreases n,
{
    if n > 0 {
        lemma_sum_free_blocks_update(gs, g, d, n - 1);
    }
}

/// Partial sums of counters are never negative.
pub proof fn lemma_sum_free_nonneg(gs: Seq<Ext4BlockGroupDesc>, n: int)
    ensures
        sum_free_inodes(gs, n) >= 0,
        sum_free_blocks(gs, n) >= 0,
    decreases n,
{
    if n > 0 {
        lemma_sum_free_nonneg(gs, n - 1);
    }
}

/// Every per-group counter is at most the sum over all groups.
pub proof fn lemma_sum_free_inodes_bound(gs: Seq<Ext4BlockGroupDesc>, g: int, n: int)
    requires
        0 <= g < n <= gs.len(),
    ensures
        sum_free_inodes(gs, n) >= gs[g].free_inodes_count,
    decreases n,
{
    if g < n - 1 {
        lemma_sum_free_inodes_bound(gs, g, n - 1);
    } else {
        lemma_sum_free_nonneg(gs, n - 1);
    }
}

/// Every per-group counter is at most the sum over all groups.
pub proof fn lemma_sum_free_blocks_bound(gs: Seq<Ext4BlockGroupDesc>, g: int, n: int)
    requires
        0 <= g < n <= gs.len(),
    ensures
        sum_free_blocks(gs, n) >= gs[g].free_blocks_count,
    decreases n,
{
    if g < n - 1 {
        lemma_sum_free_blocks_bound(gs, g, n - 1);
    } else {
        lemma_sum_free_nonneg(gs, n - 1);
    }
}

/// Blocks that one group's inode table spans (one spare block of slack).
pub open spec fn itable_blocks(sb: Ext4Superblock) -> int {
    (sb.inodes_per_group as int) / ((BLOCK_SIZE as int) / (sb.inode_size as int)) + 1
}

/// Group of inode `id` (ids are 1-based).
pub open spec fn inode_group_of(sb: Ext4Superblock, id: u32) -> int {
    ((id - 1) as int) / (sb.inodes_per_group as int)
}

/// Index of inode `id` within its group's table.
pub open spec fn inode_index_of(sb: Ext4Superblock, id: u32) -> int {
    ((id - 1) as int) % (sb.inodes_per_group as int)
}

/// Inode records per table block.
pub open spec fn inodes_per_block(sb: Ext4Superblock) -> int {
    (BLOCK_SIZE as int) / (sb.inode_size as int)
}

/// Block that holds inode `id`'s record.
pub open spec fn inode_slot_block(sb: Ext4Superblock, gs: Seq<Ext4BlockGroupDesc>, id: u32) -> int {
    gs[inode_group_of(sb, id)].inode_table_block + inode_index_of(sb, id) / inodes_per_block(sb)
}

/// Byte offset of inode `id`'s record within its table block.
pub open spec fn inode_slot_offset(sb: Ext4Superblock, id: u32) -> int {
    (inode_index_of(sb, id) % inodes_per_block(sb)) * sb.inode_size
}

/// The bytes of inode `id`'s record on disk.
pub open spec fn inode_slot_bytes(
    sb: Ext4Superblock,
    gs: Seq<Ext4BlockGroupDesc>,
    disk: Seq<Seq<u8>>,
    id: u32,
) -> Seq<u8> {
    disk[inode_slot_block(sb, gs, id)].subrange(
        inode_slot_offset(sb, id),
        inode_slot_offset(sb, id) + sb.inode_size,
    )
}

impl Ext4 {
    /// Shapes and bounds: the vectors are one entry per group, bitmaps are
    /// block-sized, descriptors are in bounds, named blocks lie on the
    /// device.
    pub open spec fn wf_static(&self) -> bool {
        &&& self.sb.wf()
        &&& self.disk.wf()
        &&& self.groups@.len() == self.sb.block_group_count
        &&& self.block_bitmaps@.len() == self.sb.block_group_count
        &&& self.inode_bitmaps@.len() == self.sb.block_group_count
        &&& self.sb.blocks_count <= self.disk@.len()
        &&& GROUP_DESC_TABLE_BLOCK + ((self.sb.block_group_count - 1) as int) / 64
            < self.disk@.len()
        &&& forall|g: int|
            0 <= g < self.groups@.len() ==> (#[trigger] self.block_bitmaps@[g])@.len()
                == BLOCK_SIZE
        &&& forall|g: int|
            0 <= g < self.groups@.len() ==> (#[trigger] self.inode_bitmaps@[g])@.len()
                == BLOCK_SIZE
        &&& forall|g: int|
            0 <= g < self.groups@.len() ==> (#[trigger] self.groups@[g]).wf(
                self.sb.inodes_per_group,
                self.sb.blocks_per_group,
            )
        &&& forall|g: int|
            0 <= g < self.groups@.len() ==> (#[trigger] self.groups@[g]).block_bitmap_block
                < self.disk@.len()
        &&& forall|g: int|
            0 <= g < self.groups@.len() ==> (#[trigger] self.groups@[g]).inode_bitmap_block
                < self.disk@.len()
        // bitmap blocks lie past the superblock and the descriptor table
        &&& forall|g: int|
            0 <= g < self.groups@.len() ==> (#[trigger] self.groups@[g]).block_bitmap_block
                > GROUP_DESC_TABLE_BLOCK + ((self.sb.block_group_count - 1) as int) / 64
        &&& forall|g: int|
            0 <= g < self.groups@.len() ==> (#[trigger] self.groups@[g]).inode_bitmap_block
                > GROUP_DESC_TABLE_BLOCK + ((self.sb.block_group_count - 1) as int) / 64
        &&& forall|g: int|
            0 <= g < self.groups@.len() ==> (#[trigger] self.groups@[g]).inode_table_block
                + itable_blocks(self.sb) <= self.disk@.len()
    }

    /// The counter equations: the superblock counters are the sums of the
    /// group counters, and each group counter complements its bitmap's
    /// population count. Block bits past the device's end are permanently
    /// set.
    pub open spec fn wf_counters(&self) -> bool {
        &&& self.sb.free_inodes_count == sum_free_inodes(
            self.groups@,
            self.groups@.len() as int,
        )
        &&& self.sb.free_blocks_count == sum_free_blocks(
            self.groups@,
            self.groups@.len() as int,
        )
        &&& forall|g: int|
            0 <= g < self.groups@.len() ==> ones(
                (#[trigger] self.inode_bitmaps@[g])@,
                self.sb.inodes_per_group as int,
            ) + self.groups@[g].free_inodes_count == self.sb.inodes_per_group
        &&& forall|g: int|
            0 <= g < self.groups@.len() ==> ones(
                (#[trigger] self.block_bitmaps@[g])@,
                self.sb.blocks_per_group as int,
            ) + self.groups@[g].free_blocks_count == self.sb.blocks_per_group
        &&& forall|g: int, j: int|
            0 <= g < self.groups@.len() && 0 <= j < self.sb.blocks_per_group && g
                * self.sb.blocks_per_group + j >= self.sb.blocks_count ==> #[trigger] bit_is_set(
                self.block_bitmaps@[g]@,
                j,
            )
    }

    /// The filesystem invariant.
    pub open spec fn wf(&self) -> bool {
        &&& self.wf_static()
        &&& self.wf_counters()
    }

    /// Write the superblock to its home at byte 1024 of block 0, with a
    /// fresh checksum.
    pub fn write_super_block(&mut self)
        requires
            old(self).wf_static(),
        ensures
            final(self).wf_static(),
            old(self).wf_counters() ==> final(self).wf_counters(),
            final(self).sb == old(self).sb,
            final(self).groups@ == old(self).groups@,
            final(self).block_bitmaps@ == old(self).block_bitmaps@,
            final(self).inode_bitmaps@ == old(self).inode_bitmaps@,
            final(self).disk@.len() == old(self).disk@.len(),
            forall|b: int|
                0 <= b < old(self).disk@.len() && b != 0 ==> final(self).disk@[b] == old(
                    self,
                ).disk@[b],
            sb_region_matches(
                final(self).sb,
                final(self).disk@[0].subrange(
                    SUPERBLOCK_OFFSET as int,
                    SUPERBLOCK_OFFSET + SUPERBLOCK_SIZE,
                ),
            ),
            sb_csum_valid(
                final(self).disk@[0].subrange(
                    SUPERBLOCK_OFFSET as int,
                    SUPERBLOCK_OFFSET + SUPERBLOCK_SIZE,
                ),
            ),
    {
        let enc = self.sb.encode();
        self.disk.write_at(0, SUPERBLOCK_OFFSET, enc.as_slice());
    }

    /// Write group `bgid`'s descriptor into the descriptor table, with a
    /// fresh keyed checksum.
    pub fn write_group_desc(&mut self, bgid: u32)
        requires
            old(self).wf_static(),
            bgid < old(self).sb.block_group_count,
        ensures
            final(self).wf_static(),
            old(self).wf_counters() ==> final(self).wf_counters(),
            final(self).sb == old(self).sb,
            final(self).groups@ == old(self).groups@,
            final(self).block_bitmaps@ == old(self).block_bitmaps@,
            final(self).inode_bitmaps@ == old(self).inode_bitmaps@,
            final(self).disk@.len() == old(self).disk@.len(),
            forall|b: int|
                0 <= b < old(self).disk@.len() && b != gd_block_of(bgid) ==> final(self).disk@[b]
                    == old(self).disk@[b],
            desc_region_matches(
                final(self).groups@[bgid as int],
                final(self).disk@[gd_block_of(bgid)].subrange(
                    gd_offset_of(bgid),
                    gd_offset_of(bgid) + GROUP_DESC_SIZE,
                ),
            ),
            desc_csum_valid(
                final(self).sb.uuid@,
                bgid,
                final(self).disk@[gd_block_of(bgid)].subrange(
                    gd_offset_of(bgid),
                    gd_offset_of(bgid) + GROUP_DESC_SIZE,
                ),
            ),
    {
        let enc = self.groups[bgid as usize].encode(
            self.sb.uuid.as_slice(),
            bgid,
            self.sb.inodes_per_group,
            self.sb.blocks_per_group,
        );
        let blk: u64 = GROUP_DESC_TABLE_BLOCK + (bgid as u64) / 64;
        let off: usize = ((bgid as usize) % 64) * GROUP_DESC_SIZE;
        proof {
            assert(blk == gd_block_of(bgid));
            assert(off == gd_offset_of(bgid));
            assert((bgid as int) / 64 <= ((self.sb.block_group_count - 1) as int) / 64)
                by (nonlinear_arith)
                requires
                    (bgid as int) <= (self.sb.block_group_count - 1) as int,
                    bgid >= 0,
            ;
        }
        self.disk.write_at(blk, off, enc.as_slice());
    }

    /// Write group `bgid`'s block bitmap to its block, recording its keyed
    /// checksum in the descriptor (the descriptor itself is written
    /// separately).
    pub fn write_block_bitmap(&mut self, bgid: u32)
        requires
            old(self).wf_static(),
            bgid < old(self).sb.block_group_count,
        ensures
            final(self).wf_static(),
            old(self).wf_counters() ==> final(self).wf_counters(),
            final(self).sb == old(self).sb,
            final(self).block_bitmaps@ == old(self).block_bitmaps@,
            final(self).inode_bitmaps@ == old(self).inode_bitmaps@,
            final(self).groups@ == old(self).groups@.update(
                bgid as int,
                (Ext4BlockGroupDesc {
                    block_bitmap_csum: bitmap_csum_of(
                        old(self).sb.uuid@,
                        old(self).block_bitmaps@[bgid as int]@,
                    ),
                    ..old(self).groups@[bgid as int]
                }),
            ),
            final(self).disk@.len() == old(self).disk@.len(),
            forall|b: int|
                0 <= b < old(self).disk@.len() && b != old(self).groups@[bgid as int].block_bitmap_block
                    ==> final(self).disk@[b] == old(self).disk@[b],
            final(self).disk@[old(self).groups@[bgid as int].block_bitmap_block as int] == old(
                self,
            ).block_bitmaps@[bgid as int]@,
    {
        let uuid = self.sb.get_uuid();
        let ghost pre_groups = self.groups@;
        let bmref = &self.block_bitmaps[bgid as usize];
        let slot = &mut self.groups[bgid as usize];
        slot.set_block_bitmap_csum(uuid.as_slice(), bmref.as_slice());
        let target = self.groups[bgid as usize].block_bitmap_block;
        proof {
            assert(self.groups@ =~= pre_groups.update(bgid as int, self.groups@[bgid as int]));
            assert forall|g: int| 0 <= g < self.groups@.len() implies (
            #[trigger] self.groups@[g]).wf(
                self.sb.inodes_per_group,
                self.sb.blocks_per_group,
            ) by {
                if g != bgid {
                    assert(self.groups@[g] == pre_groups[g]);
                }
            }
            lemma_sum_free_inodes_update(
                pre_groups,
                bgid as int,
                self.groups@[bgid as int],
                pre_groups.len() as int,
            );
            lemma_sum_free_blocks_update(
                pre_groups,
                bgid as int,
                self.groups@[bgid as int],
                pre_groups.len() as int,
            );
        }
        self.disk.write_block(target, self.block_bitmaps[bgid as usize].as_slice());
    }

    /// Write group `bgid`'s inode bitmap to its block, recording its keyed
    /// checksum in the descriptor (the descriptor itself is written
    /// separately).
    pub fn write_inode_bitmap(&mut self, bgid: u32)
        requires
            old(self).wf_static(),
            bgid < old(self).sb.block_group_count,
        ensures
            final(self).wf_static(),
            old(self).wf_counters() ==> final(self).wf_counters(),
            final(self).sb == old(self).sb,
            final(self).block_bitmaps@ == old(self).block_bitmaps@,
            final(self).inode_bitmaps@ == old(self).inode_bitmaps@,
            final(self).groups@ == old(self).groups@.update(
                bgid as int,
                (Ext4BlockGroupDesc {
                    inode_bitmap_csum: bitmap_csum_of(
                        old(self).sb.uuid@,
                        old(self).inode_bitmaps@[bgid as int]@,
                    ),
                    ..old(self).groups@[bgid as int]
                }),
            ),
            final(self).disk@.len() == old(self).disk@.len(),
            forall|b: int|
                0 <= b < old(self).disk@.len() && b != old(self).groups@[bgid as int].inode_bitmap_block
                    ==> final(self).disk@[b] == old(self).disk@[b],
            final(self).disk@[old(self).groups@[bgid as int].inode_bitmap_block as int] == old(
                self,
            ).inode_bitmaps@[bgid as int]@,
    {
        let uuid = self.sb.get_uuid();
        let ghost pre_groups = self.groups@;
        let bmref = &self.inode_bitmaps[bgid as usize];
        let slot = &mut self.groups[bgid as usize];
        slot.set_inode_bitmap_csum(uuid.as_slice(), bmref.as_slice());
        let target = self.groups[bgid as usize].inode_bitmap_block;
        proof {
            assert(self.groups@ =~= pre_groups.update(bgid as int, self.groups@[bgid as int]));
            assert forall|g: int| 0 <= g < self.groups@.len() implies (
            #[trigger] self.groups@[g]).wf(
                self.sb.inodes_per_group,
                self.sb.blocks_per_group,
            ) by {
                if g != bgid {
                    assert(self.groups@[g] == pre_groups[g]);
                }
            }
            lemma_sum_free_inodes_update(
                pre_groups,
                bgid as int,
                self.groups@[bgid as int],
                pre_groups.len() as int,
            );
            lemma_sum_free_blocks_update(
                pre_groups,
                bgid as int,
                self.groups@[bgid as int],
                pre_groups.len() as int,
            );
        }
        self.disk.write_block(target, self.inode_bitmaps[bgid as usize].as_slice());
    }

    /// Allocate an inode: scan the groups from 0 upward, skip exhausted
    /// ones, take the lowest clear bit of the first group with room.
    ///
    /// Succeeds if and only if the filesystem has a free inode; the bitmap,
    /// the group descriptor and the superblock are updated together and
    /// written back with fresh checksums, in that order.
    #[verifier::rlimit(100)]
    pub fn alloc_inode(&mut self, is_dir: bool) -> (r: Result<u32, ErrCode>)
        requires
            old(self).wf(),
        ensures
            final(self).wf(),
            match r {
                Ok(id) => {
                    &&& 1 <= id <= old(self).sb.inodes_count
                    &&& exists|g: int, idx: int|
                        alloc_inode_effect(*old(self), *final(self), g, idx, is_dir) && id == g
                            * old(self).sb.inodes_per_group + idx + 1 && inode_writeback_ok(
                            *old(self),
                            *final(self),
                            g,
                        )
                },
                Err(c) => {
                    &&& c == ErrCode::Enospc
                    &&& old(self).sb.free_inodes_count == 0
                    &&& ext4_views_eq(*old(self), *final(self))
                },
            },
            r is Err <==> old(self).sb.free_inodes_count == 0,
    {
        let bgc = self.sb.block_group_count;
        let ipg = self.sb.inodes_per_group;
        let mut bgid: u32 = 0;
        while bgid < bgc
            invariant
                self == old(self),
                self.wf(),
                bgc == self.sb.block_group_count,
                ipg == self.sb.inodes_per_group,
                bgid <= bgc,
                forall|h: int|
                    0 <= h < bgid ==> (#[trigger] self.groups@[h]).free_inodes_count == 0,
            decreases bgc - bgid,
        {
            if self.groups[bgid as usize].free_inodes_count == 0 {
                bgid = bgid + 1;
            } else {
                let ghost pre = *self;
                // find and set the lowest clear inode bit of this group
                let bm = &mut self.inode_bitmaps[bgid as usize];
                let found = bitmap_find_and_set_first_clear(bm, 0, ipg as usize);
                proof {
                    assert(self.inode_bitmaps@ == pre.inode_bitmaps@.update(
                        bgid as int,
                        self.inode_bitmaps@[bgid as int],
                    ));
                    if found is None {
                        lemma_ones_full(pre.inode_bitmaps@[bgid as int]@, ipg as int);
                        assert(false);
                    }
                }
                let idx = found.unwrap() as u32;
                proof {
                    lemma_ones_set_bit(
                        pre.inode_bitmaps@[bgid as int]@,
                        self.inode_bitmaps@[bgid as int]@,
                        idx as int,
                        ipg as int,
                    );
                }
                // group counters: free down; directories up; shrink the
                // never-used tail hint if the bit reaches into it
                let ghost pre_groups = self.groups@;
                let slot = &mut self.groups[bgid as usize];
                slot.free_inodes_count = slot.free_inodes_count - 1;
                // the counter field is 16 bits on disk; it can only
                // saturate there, never wrap
                if is_dir && slot.used_dirs_count < 0xFFFF {
                    slot.used_dirs_count = slot.used_dirs_count + 1;
                }
                if idx >= ipg - slot.itable_unused {
                    slot.itable_unused = ipg - idx - 1;
                }
                proof {
                    assert(self.groups@ == pre_groups.update(
                        bgid as int,
                        self.groups@[bgid as int],
                    ));
                    lemma_sum_free_inodes_update(
                        pre_groups,
                        bgid as int,
                        self.groups@[bgid as int],
                        pre_groups.len() as int,
                    );
                    lemma_sum_free_blocks_update(
                        pre_groups,
                        bgid as int,
                        self.groups@[bgid as int],
                        pre_groups.len() as int,
                    );
                }
                // write back: bitmap, then descriptor, then superblock
                let ghost g1 = self.groups@;
                self.write_inode_bitmap(bgid);
                proof {
                    lemma_sum_free_inodes_update(
                        g1,
                        bgid as int,
                        self.groups@[bgid as int],
                        g1.len() as int,
                    );
                    lemma_sum_free_blocks_update(
                        g1,
                        bgid as int,
                        self.groups@[bgid as int],
                        g1.len() as int,
                    );
                }
                self.write_group_desc(bgid);
                proof {
                    lemma_sum_free_inodes_bound(pre.groups@, bgid as int, pre.groups@.len() as int);
                }
                self.sb.free_inodes_count = self.sb.free_inodes_count - 1;
                proof {
                    assert(self.wf_static());
                    assert(self.wf_counters());
                }
                self.write_super_block();
                proof {
                    assert((bgid as int) * (ipg as int) + (idx as int) + 1 <= (bgc as int) * (
                    ipg as int)) by (nonlinear_arith)
                        requires
                            0 <= (bgid as int) < (bgc as int),
                            0 <= (idx as int) < (ipg as int),
                    ;
                    assert((bgc as int) * (ipg as int) < 0x1_0000_0000);
                }
                let id: u32 = bgid * ipg + idx + 1;
                proof {
                    assert(alloc_inode_effect(pre, *self, bgid as int, idx as int, is_dir));
                    assert(inode_writeback_ok(pre, *self, bgid as int));
                }
                return Ok(id);
            }
        }
        proof {
            lemma_sum_zero_groups(self.groups@, self.groups@.len() as int);
        }
        Err(ErrCode::Enospc)
    }

    /// Free an allocated inode: clear its bitmap bit and raise the group and
    /// superblock free counters together; a directory lowers the
    /// used-directories counter; the never-used tail hint grows, capped at
    /// the group's capacity.
    ///
    /// Fails with `EINVAL`, changing nothing, exactly when the bit is
    /// already clear.
    #[verifier::rlimit(100)]
    pub fn dealloc_inode(&mut self, inode_ref: &crate::inode::Ext4InodeRef) -> (r: Result<
        (),
        ErrCode,
    >)
        requires
            old(self).wf(),
            inode_ref.inode_id >= 1,
            ((inode_ref.inode_id - 1) as int) / (old(self).sb.inodes_per_group as int) < old(
                self,
            ).sb.block_group_count,
        ensures
            final(self).wf(),
            ({
                let g = ((inode_ref.inode_id - 1) as int) / (old(self).sb.inodes_per_group as int);
                let idx = ((inode_ref.inode_id - 1) as int) % (old(self).sb.inodes_per_group as int);
                match r {
                    Ok(()) => dealloc_inode_effect(
                        *old(self),
                        *final(self),
                        g,
                        idx,
                        old(self).sb.inodes_per_group as int != 0 && (
                        inode_ref.inode.mode & crate::inode::EXT4_INODE_MODE_TYPE_MASK)
                            == crate::inode::EXT4_INODE_MODE_DIRECTORY,
                    ),
                    Err(c) => {
                        &&& c == ErrCode::Einval
                        &&& !bit_is_set(old(self).inode_bitmaps@[g]@, idx)
                        &&& ext4_views_eq(*old(self), *final(self))
                    },
                }
            }),
            ({
                let g = ((inode_ref.inode_id - 1) as int) / (old(self).sb.inodes_per_group as int);
                let idx = ((inode_ref.inode_id - 1) as int) % (old(self).sb.inodes_per_group as int);
                r is Err <==> !bit_is_set(old(self).inode_bitmaps@[g]@, idx)
            }),
    {
        let id = inode_ref.inode_id;
        let was_dir = inode_ref.inode.is_dir();
        let ipg = self.sb.inodes_per_group;
        let bgid: u32 = (id - 1) / ipg;
        let idx: u32 = (id - 1) % ipg;
        let ghost pre = *self;
        if bitmap_test(self.inode_bitmaps[bgid as usize].as_slice(), idx as usize) == false {
            return Err(ErrCode::Einval);
        }
        // clear the bit
        let bm = &mut self.inode_bitmaps[bgid as usize];
        bitmap_clear(bm, idx as usize);
        proof {
            assert(self.inode_bitmaps@ == pre.inode_bitmaps@.update(
                bgid as int,
                self.inode_bitmaps@[bgid as int],
            ));
            lemma_ones_clear_bit(
                pre.inode_bitmaps@[bgid as int]@,
                self.inode_bitmaps@[bgid as int]@,
                idx as int,
                ipg as int,
            );
            crate::bitmap::lemma_ones_positive(
                pre.inode_bitmaps@[bgid as int]@,
                idx as int,
                ipg as int,
            );
        }
        // group counters
        let ghost pre_groups = self.groups@;
        let slot = &mut self.groups[bgid as usize];
        slot.free_inodes_count = slot.free_inodes_count + 1;
        if was_dir && slot.used_dirs_count > 0 {
            slot.used_dirs_count = slot.used_dirs_count - 1;
        }
        if slot.itable_unused < ipg {
            slot.itable_unused = slot.itable_unused + 1;
        }
        proof {
            assert(self.groups@ == pre_groups.update(bgid as int, self.groups@[bgid as int]));
            lemma_sum_free_inodes_update(
                pre_groups,
                bgid as int,
                self.groups@[bgid as int],
                pre_groups.len() as int,
            );
            lemma_sum_free_blocks_update(
                pre_groups,
                bgid as int,
                self.groups@[bgid as int],
                pre_groups.len() as int,
            );
        }
        // write back: bitmap, then descriptor, then superblock
        let ghost g1 = self.groups@;
        self.write_inode_bitmap(bgid);
        proof {
            lemma_sum_free_inodes_update(
                g1,
                bgid as int,
                self.groups@[bgid as int],
                g1.len() as int,
            );
            lemma_sum_free_blocks_update(
                g1,
                bgid as int,
                self.groups@[bgid as int],
                g1.len() as int,
            );
        }
        self.write_group_desc(bgid);
        proof {
            assert(pre.groups@[bgid as int].free_inodes_count < pre.sb.inodes_per_group);
            lemma_sum_free_inodes_slack(
                pre.groups@,
                pre.groups@.len() as int,
                pre.sb.inodes_per_group as int,
                bgid as int,
            );
            assert((pre.sb.block_group_count as int) * (pre.sb.inodes_per_group as int)
                < 0x1_0000_0000);
        }
        self.sb.free_inodes_count = self.sb.free_inodes_count + 1;
        proof {
            assert(self.wf_static());
            assert(self.wf_counters());
        }
        self.write_super_block();
        proof {
            assert(dealloc_inode_effect(pre, *self, bgid as int, idx as int, was_dir));
        }
        Ok(())
    }

    /// Allocate a physical block in the group that owns `inode_ref`: take
    /// the group's lowest clear block bit. Allocation never spills to
    /// another group.
    ///
    /// Succeeds if and only if the owning group has a free block; the
    /// returned id is absolute and lies on the device.
    #[verifier::rlimit(100)]
    pub fn alloc_block(&mut self, inode_ref: &crate::inode::Ext4InodeRef) -> (r: Result<
        u64,
        ErrCode,
    >)
        requires
            old(self).wf(),
            inode_ref.inode_id >= 1,
            ((inode_ref.inode_id - 1) as int) / (old(self).sb.inodes_per_group as int) < old(
                self,
            ).sb.block_group_count,
        ensures
            final(self).wf(),
            ({
                let g = ((inode_ref.inode_id - 1) as int) / (old(self).sb.inodes_per_group as int);
                match r {
                    Ok(pb) => {
                        &&& pb < old(self).sb.blocks_count
                        &&& exists|idx: int|
                            alloc_block_effect(*old(self), *final(self), g, idx) && pb == g * old(
                                self,
                            ).sb.blocks_per_group + idx
                    },
                    Err(c) => {
                        &&& c == ErrCode::Enospc
                        &&& old(self).groups@[g].free_blocks_count == 0
                        &&& ext4_views_eq(*old(self), *final(self))
                    },
                }
            }),
            ({
                let g = ((inode_ref.inode_id - 1) as int) / (old(self).sb.inodes_per_group as int);
                r is Err <==> old(self).groups@[g].free_blocks_count == 0
            }),
    {
        let ipg = self.sb.inodes_per_group;
        let bpg = self.sb.blocks_per_group;
        let bgid: u32 = (inode_ref.inode_id - 1) / ipg;
        let ghost pre = *self;
        if self.groups[bgid as usize].free_blocks_count == 0 {
            return Err(ErrCode::Enospc);
        }
        let bm = &mut self.block_bitmaps[bgid as usize];
        let found = bitmap_find_and_set_first_clear(bm, 0, bpg as usize);
        proof {
            assert(self.block_bitmaps@ == pre.block_bitmaps@.update(
                bgid as int,
                self.block_bitmaps@[bgid as int],
            ));
            if found is None {
                lemma_ones_full(pre.block_bitmaps@[bgid as int]@, bpg as int);
                assert(false);
            }
        }
        let idx = found.unwrap() as u32;
        proof {
            lemma_ones_set_bit(
                pre.block_bitmaps@[bgid as int]@,
                self.block_bitmaps@[bgid as int]@,
                idx as int,
                bpg as int,
            );
            // a clear bit is never a phantom bit past the device's end
            assert((bgid as int) * (bpg as int) + (idx as int) < pre.sb.blocks_count);
        }
        let ghost pre_groups = self.groups@;
        let slot = &mut self.groups[bgid as usize];
        slot.free_blocks_count = slot.free_blocks_count - 1;
        proof {
            assert(self.groups@ == pre_groups.update(bgid as int, self.groups@[bgid as int]));
            lemma_sum_free_inodes_update(
                pre_groups,
                bgid as int,
                self.groups@[bgid as int],
                pre_groups.len() as int,
            );
            lemma_sum_free_blocks_update(
                pre_groups,
                bgid as int,
                self.groups@[bgid as int],
                pre_groups.len() as int,
            );
        }
        let ghost g1 = self.groups@;
        self.write_block_bitmap(bgid);
        proof {
            lemma_sum_free_inodes_update(
                g1,
                bgid as int,
                self.groups@[bgid as int],
                g1.len() as int,
            );
            lemma_sum_free_blocks_update(
                g1,
                bgid as int,
                self.groups@[bgid as int],
                g1.len() as int,
            );
        }
        self.write_group_desc(bgid);
        proof {
            lemma_sum_free_blocks_bound(pre.groups@, bgid as int, pre.groups@.len() as int);
        }
        self.sb.free_blocks_count = self.sb.free_blocks_count - 1;
        proof {
            assert(self.wf_static());
            assert(self.wf_counters());
        }
        self.write_super_block();
        proof {
            assert((bgid as int) * (bpg as int) + (idx as int) < (
            self.sb.block_group_count as int) * (bpg as int)) by (nonlinear_arith)
                requires
                    0 <= (bgid as int) < (self.sb.block_group_count as int),
                    0 <= (idx as int) < (bpg as int),
            ;
        }
        let fblock: u64 = (bgid as u64) * (bpg as u64) + (idx as u64);
        proof {
            assert(alloc_block_effect(pre, *self, bgid as int, idx as int));
        }
        Ok(fblock)
    }

    /// Free a physical block: clear its bit in its own group's bitmap and
    /// raise the group and superblock free counters together.
    ///
    /// Fails with `EINVAL`, changing nothing, exactly when the bit is
    /// already clear.
    #[verifier::rlimit(100)]
    pub fn dealloc_block(&mut self, inode_ref: &crate::inode::Ext4InodeRef, pblock: u64) -> (r:
        Result<(), ErrCode>)
        requires
            old(self).wf(),
            pblock < old(self).sb.blocks_count,
        ensures
            final(self).wf(),
            ({
                let g = (pblock / old(self).sb.blocks_per_group as u64) as int;
                let idx = (pblock % old(self).sb.blocks_per_group as u64) as int;
                match r {
                    Ok(()) => dealloc_block_effect(*old(self), *final(self), g, idx),
                    Err(c) => {
                        &&& c == ErrCode::Einval
                        &&& !bit_is_set(old(self).block_bitmaps@[g]@, idx)
                        &&& ext4_views_eq(*old(self), *final(self))
                    },
                }
            }),
            ({
                let g = (pblock / old(self).sb.blocks_per_group as u64) as int;
                let idx = (pblock % old(self).sb.blocks_per_group as u64) as int;
                r is Err <==> !bit_is_set(old(self).block_bitmaps@[g]@, idx)
            }),
    {
        // the freed block's own group is derived from the absolute id; the
        // owner is named for interface parity with allocation
        let _owner = inode_ref.inode_id;
        let bpg = self.sb.blocks_per_group;
        let bgid_u64: u64 = pblock / (bpg as u64);
        let idx_u64: u64 = pblock % (bpg as u64);
        proof {
            assert((pblock as int) / (bpg as int) < self.sb.block_group_count as int)
                by (nonlinear_arith)
                requires
                    (bpg as int) > 0,
                    0 <= (pblock as int) < self.sb.blocks_count as int,
                    self.sb.blocks_count as int <= (self.sb.block_group_count as int) * (
                    bpg as int),
            ;
        }
        let bgid: u32 = bgid_u64 as u32;
        let idx: u32 = idx_u64 as u32;
        let ghost pre = *self;
        if bitmap_test(self.block_bitmaps[bgid as usize].as_slice(), idx as usize) == false {
            return Err(ErrCode::Einval);
        }
        let bm = &mut self.block_bitmaps[bgid as usize];
        bitmap_clear(bm, idx as usize);
        proof {
            assert(self.block_bitmaps@ == pre.block_bitmaps@.update(
                bgid as int,
                self.block_bitmaps@[bgid as int],
            ));
            lemma_ones_clear_bit(
                pre.block_bitmaps@[bgid as int]@,
                self.block_bitmaps@[bgid as int]@,
                idx as int,
                bpg as int,
            );
            crate::bitmap::lemma_ones_positive(
                pre.block_bitmaps@[bgid as int]@,
                idx as int,
                bpg as int,
            );
            // the freed block lies on the device, so no phantom bit clears
            assert((bgid as int) * (bpg as int) + (idx as int) == pblock as int)
                by (nonlinear_arith)
                requires
                    (bpg as int) > 0,
                    (bgid as int) == (pblock as int) / (bpg as int),
                    (idx as int) == (pblock as int) % (bpg as int),
            ;
        }
        let ghost pre_groups = self.groups@;
        let slot = &mut self.groups[bgid as usize];
        slot.free_blocks_count = slot.free_blocks_count + 1;
        proof {
            assert(self.groups@ == pre_groups.update(bgid as int, self.groups@[bgid as int]));
            lemma_sum_free_inodes_update(
                pre_groups,
                bgid as int,
                self.groups@[bgid as int],
                pre_groups.len() as int,
            );
            lemma_sum_free_blocks_update(
                pre_groups,
                bgid as int,
                self.groups@[bgid as int],
                pre_groups.len() as int,
            );
        }
        let ghost g1 = self.groups@;
        self.write_block_bitmap(bgid);
        proof {
            lemma_sum_free_inodes_update(
                g1,
                bgid as int,
                self.groups@[bgid as int],
                g1.len() as int,
            );
            lemma_sum_free_blocks_update(
                g1,
                bgid as int,
                self.groups@[bgid as int],
                g1.len() as int,
            );
        }
        self.write_group_desc(bgid);
        proof {
            assert(pre.groups@[bgid as int].free_blocks_count < pre.sb.blocks_per_group);
            lemma_sum_free_blocks_slack(
                pre.groups@,
                pre.groups@.len() as int,
                pre.sb.blocks_per_group as int,
                bgid as int,
            );
            assert((pre.sb.block_group_count as int) * (pre.sb.blocks_per_group as int)
                < 0x1_0000_0000);
        }
        self.sb.free_blocks_count = self.sb.free_blocks_count + 1;
        proof {
            assert(self.wf_static());
            assert(self.wf_counters());
        }
        self.write_super_block();
        proof {
            assert(dealloc_block_effect(pre, *self, bgid as int, idx as int));
        }
        Ok(())
    }

    /// Block and byte offset of inode `id`'s record.
    fn inode_slot(&self, inode_id: u32) -> (r: (u64, usize))
        requires
            self.wf_static(),
            inode_id >= 1,
            inode_group_of(self.sb, inode_id) < self.sb.block_group_count,
        ensures
            r.0 == inode_slot_block(self.sb, self.groups@, inode_id),
            r.1 == inode_slot_offset(self.sb, inode_id),
            r.0 < self.disk@.len(),
            r.1 + self.sb.inode_size <= BLOCK_SIZE,
    {
        let ipg = self.sb.inodes_per_group;
        let isize = self.sb.inode_size as u32;
        proof {
            assert(self.sb.inode_size == 128 || self.sb.inode_size == 256);
        }
        let g: u32 = (inode_id - 1) / ipg;
        let idx: u32 = (inode_id - 1) % ipg;
        let ipb: u32 = (BLOCK_SIZE as u32) / isize;
        proof {
            let ipbi = inodes_per_block(self.sb);
            assert(ipb == ipbi);
            assert(ipbi == 32 || ipbi == 16);
            assert((idx as int) / ipbi <= (ipg as int) / ipbi) by (nonlinear_arith)
                requires
                    ipbi > 0,
                    0 <= (idx as int) < (ipg as int),
            ;
            assert((idx as int) % ipbi < ipbi) by (nonlinear_arith)
                requires
                    ipbi > 0,
            ;
            if self.sb.inode_size == 128 {
                assert(((idx as int) % 32) * 128 + 128 <= 4096);
            } else {
                assert(((idx as int) % 16) * 256 + 256 <= 4096);
            }
            assert(self.groups@[g as int].inode_table_block + itable_blocks(self.sb)
                <= self.disk@.len());
        }
        let blk: u64 = self.groups[g as usize].inode_table_block + (idx / ipb) as u64;
        let off: usize = ((idx % ipb) as usize) * (isize as usize);
        (blk, off)
    }

    /// Read inode `id`'s record from its table slot.
    pub fn read_inode(&self, inode_id: u32) -> (r: crate::inode::Ext4InodeRef)
        requires
            self.wf_static(),
            inode_id >= 1,
            inode_group_of(self.sb, inode_id) < self.sb.block_group_count,
        ensures
            r.inode_id == inode_id,
            r.inode.wf(),
            crate::inode::inode_region_matches(
                r.inode,
                inode_slot_bytes(self.sb, self.groups@, self.disk@, inode_id),
                self.sb.inode_size,
            ),
            r.inode.osd2.l_i_checksum_lo == crate::codec::le16_at(
                inode_slot_bytes(self.sb, self.groups@, self.disk@, inode_id),
                124,
            ),
            r.inode.osd2.l_i_reserved == crate::codec::le16_at(
                inode_slot_bytes(self.sb, self.groups@, self.disk@, inode_id),
                126,
            ),
            self.sb.inode_size == 256 ==> r.inode.i_checksum_hi == crate::codec::le16_at(
                inode_slot_bytes(self.sb, self.groups@, self.disk@, inode_id),
                130,
            ),
    {
        let (blk, off) = self.inode_slot(inode_id);
        let isize = self.sb.inode_size;
        let bytes = self.disk.read_at(blk, off, isize as usize);
        let inode = crate::inode::Ext4Inode::decode(bytes.as_slice(), isize);
        crate::inode::Ext4InodeRef { inode_id, inode }
    }

    /// Write inode `id`'s record to its table slot, leaving its checksum
    /// fields as they stand in memory.
    pub fn write_inode_without_csum(&mut self, inode_ref: &crate::inode::Ext4InodeRef)
        requires
            old(self).wf_static(),
            inode_ref.inode.wf(),
            inode_ref.inode_id >= 1,
            inode_group_of(old(self).sb, inode_ref.inode_id) < old(self).sb.block_group_count,
        ensures
            final(self).wf_static(),
            old(self).wf_counters() ==> final(self).wf_counters(),
            final(self).sb == old(self).sb,
            final(self).groups@ == old(self).groups@,
            final(self).block_bitmaps@ == old(self).block_bitmaps@,
            final(self).inode_bitmaps@ == old(self).inode_bitmaps@,
            final(self).disk@.len() == old(self).disk@.len(),
            forall|b: int|
                0 <= b < old(self).disk@.len() && b != inode_slot_block(
                    old(self).sb,
                    old(self).groups@,
                    inode_ref.inode_id,
                ) ==> final(self).disk@[b] == old(self).disk@[b],
            forall|j: int|
                0 <= j < BLOCK_SIZE && !(inode_slot_offset(old(self).sb, inode_ref.inode_id) <= j
                    < inode_slot_offset(old(self).sb, inode_ref.inode_id)
                    + old(self).sb.inode_size) ==> final(self).disk@[inode_slot_block(
                    old(self).sb,
                    old(self).groups@,
                    inode_ref.inode_id,
                )][j] == old(self).disk@[inode_slot_block(
                    old(self).sb,
                    old(self).groups@,
                    inode_ref.inode_id,
                )][j],
            crate::inode::inode_region_matches(
                inode_ref.inode,
                inode_slot_bytes(
                    final(self).sb,
                    final(self).groups@,
                    final(self).disk@,
                    inode_ref.inode_id,
                ),
                old(self).sb.inode_size,
            ),
            crate::inode::inode_region_exact(
                inode_ref.inode,
                inode_slot_bytes(
                    final(self).sb,
                    final(self).groups@,
                    final(self).disk@,
                    inode_ref.inode_id,
                ),
                old(self).sb.inode_size,
            ),
    {
        let (blk, off) = self.inode_slot(inode_ref.inode_id);
        let bytes = inode_ref.inode.encode(self.sb.inode_size);
        self.disk.write_at(blk, off, bytes.as_slice());
        proof {
            let s = inode_slot_bytes(self.sb, self.groups@, self.disk@, inode_ref.inode_id);
            assert(s =~= bytes@);
        }
    }

    /// Write inode `id`'s record to its table slot with a fresh keyed
    /// checksum, computed from the record bytes with the checksum fields
    /// zeroed and stored both in the record and in the in-memory inode.
    #[verifier::rlimit(100)]
    pub fn write_inode_with_csum(&mut self, inode_ref: &mut crate::inode::Ext4InodeRef)
        requires
            old(self).wf_static(),
            old(inode_ref).inode.wf(),
            old(inode_ref).inode_id >= 1,
            inode_group_of(old(self).sb, old(inode_ref).inode_id) < old(
                self,
            ).sb.block_group_count,
        ensures
            final(self).wf_static(),
            old(self).wf_counters() ==> final(self).wf_counters(),
            final(self).sb == old(self).sb,
            final(self).groups@ == old(self).groups@,
            final(self).block_bitmaps@ == old(self).block_bitmaps@,
            final(self).inode_bitmaps@ == old(self).inode_bitmaps@,
            final(self).disk@.len() == old(self).disk@.len(),
            final(inode_ref).inode_id == old(inode_ref).inode_id,
            final(inode_ref).inode.wf(),
            crate::inode::inode_eq(
                final(inode_ref).inode,
                (crate::inode::Ext4Inode {
                    osd2: final(inode_ref).inode.osd2,
                    i_checksum_hi: final(inode_ref).inode.i_checksum_hi,
                    ..old(inode_ref).inode
                }),
            ),
            final(inode_ref).inode.osd2 == (crate::inode::Linux2 {
                l_i_checksum_lo: final(inode_ref).inode.osd2.l_i_checksum_lo,
                ..old(inode_ref).inode.osd2
            }),
            forall|b: int|
                0 <= b < old(self).disk@.len() && b != inode_slot_block(
                    old(self).sb,
                    old(self).groups@,
                    old(inode_ref).inode_id,
                ) ==> final(self).disk@[b] == old(self).disk@[b],
            forall|j: int|
                0 <= j < BLOCK_SIZE && !(inode_slot_offset(old(self).sb, old(inode_ref).inode_id)
                    <= j < inode_slot_offset(old(self).sb, old(inode_ref).inode_id)
                    + old(self).sb.inode_size) ==> final(self).disk@[inode_slot_block(
                    old(self).sb,
                    old(self).groups@,
                    old(inode_ref).inode_id,
                )][j] == old(self).disk@[inode_slot_block(
                    old(self).sb,
                    old(self).groups@,
                    old(inode_ref).inode_id,
                )][j],
            crate::inode::inode_region_matches(
                final(inode_ref).inode,
                inode_slot_bytes(
                    final(self).sb,
                    final(self).groups@,
                    final(self).disk@,
                    old(inode_ref).inode_id,
                ),
                old(self).sb.inode_size,
            ),
            crate::inode::inode_csum_valid(
                old(self).sb.uuid@,
                old(inode_ref).inode_id,
                inode_slot_bytes(
                    final(self).sb,
                    final(self).groups@,
                    final(self).disk@,
                    old(inode_ref).inode_id,
                ),
            ),
    {
        let inode_id = inode_ref.inode_id;
        let isize = self.sb.inode_size;
        let (blk, off) = self.inode_slot(inode_id);
        // zero the checksum fields, encode, and checksum the record bytes
        inode_ref.inode.osd2.l_i_checksum_lo = 0;
        inode_ref.inode.i_checksum_hi = 0;
        let mut bytes = inode_ref.inode.encode(isize);
        let ghost bytes0 = bytes@;
        let c = crate::crc32c::crc32c_update(crate::crc32c::CRC32C_INIT, self.sb.uuid.as_slice());
        let c = crate::crc32c::crc32c_update_u32le(c, inode_id);
        let c = crate::crc32c::crc32c_update_u32le(c, inode_ref.inode.generation);
        let c = crate::crc32c::crc32c_update(c, bytes.as_slice());
        // store the halves in the record bytes and the in-memory inode
        inode_ref.inode.set_inode_checksum_value(&self.sb, inode_id, c);
        crate::codec::put_u16(&mut bytes, 124, (c & 0xFFFF) as u16);
        proof {
            assert(c & 0xFFFF <= 0xFFFF && c >> 16 <= 0xFFFF) by (bit_vector);
        }
        if isize > 128 {
            crate::codec::put_u16(&mut bytes, 130, (c >> 16) as u16);
        }
        proof {
            // the checksum bytes were zero before the patch, so zeroing
            // them again recovers exactly the bytes the checksum covers
            assert(bytes0[124] == 0 && bytes0[125] == 0);
            if isize > 128 {
                assert(bytes0[130] == 0 && bytes0[131] == 0);
            }
            assert(crate::inode::inode_csum_payload(bytes@) =~= bytes0);
            assert(bytes0.subrange(0, bytes0.len() as int) =~= bytes0);
            assert(bytes@.subrange(40, 100) =~= bytes0.subrange(40, 100));
        }
        self.disk.write_at(blk, off, bytes.as_slice());
        proof {
            let s = inode_slot_bytes(self.sb, self.groups@, self.disk@, inode_id);
            assert(s =~= bytes@);
        }
    }

    /// Lay out a fresh filesystem on a zeroed store of `total_blocks`
    /// blocks: superblock, descriptor table, then per group a block bitmap,
    /// an inode bitmap and an inode table, all placed at the front.
    ///
    /// Blocks holding metadata are marked used in group 0's bitmap, block
    /// bits past the device's end are marked used, and the ten reserved
    /// inodes are marked used in group 0. Everything is written back with
    /// fresh checksums. Fails with `EINVAL` exactly on a malformed
    /// geometry.
    #[verifier::rlimit(100)]
    pub fn format(
        total_blocks: u64,
        blocks_per_group: u32,
        inodes_per_group: u32,
        inode_size: u16,
        uuid: Vec<u8>,
    ) -> (r: Result<Ext4, ErrCode>)
        ensures
            match r {
                Ok(fs) => {
                    &&& fs.wf()
                    &&& fs.sb.blocks_count == total_blocks
                    &&& fs.sb.blocks_per_group == blocks_per_group
                    &&& fs.sb.inodes_per_group == inodes_per_group
                    &&& fs.sb.inode_size == inode_size
                    &&& fs.sb.uuid@ == uuid@
                    &&& fs.disk@.len() == total_blocks
                },
                Err(c) => c == ErrCode::Einval,
            },
            r is Err <==> !format_geometry_ok(
                total_blocks,
                blocks_per_group,
                inodes_per_group,
                inode_size,
                uuid@,
            ),
    {
        // geometry checks
        if uuid.len() != 16 {
            return Err(ErrCode::Einval);
        }
        if inodes_per_group < 16 || inodes_per_group > 0x8000 || inodes_per_group % 8 != 0 {
            return Err(ErrCode::Einval);
        }
        if blocks_per_group < 1 || blocks_per_group > 0x8000 {
            return Err(ErrCode::Einval);
        }
        if inode_size != 128 && inode_size != 256 {
            return Err(ErrCode::Einval);
        }
        if total_blocks == 0 || total_blocks > 0xFFF_FFFF {
            return Err(ErrCode::Einval);
        }
        let bpg64 = blocks_per_group as u64;
        let bgc64: u64 = (total_blocks + bpg64 - 1) / bpg64;
        proof {
            assert(bgc64 >= 1 && (bgc64 - 1) * bpg64 < total_blocks <= bgc64 * bpg64 && bgc64
                * bpg64 < total_blocks + bpg64 && bgc64 <= total_blocks) by (nonlinear_arith)
                requires
                    bpg64 >= 1,
                    1 <= total_blocks <= 0xFFF_FFFF,
                    bgc64 == (total_blocks + bpg64 - 1) as int / (bpg64 as int),
            ;
        }
        let bgc: u32 = bgc64 as u32;
        proof {
            assert((bgc as int) * (inodes_per_group as int) <= 0xFFF_FFFF * 0x8000)
                by (nonlinear_arith)
                requires
                    0 <= (bgc as int) <= 0xFFF_FFFF,
                    0 <= (inodes_per_group as int) <= 0x8000,
            ;
        }
        if (bgc as u64) * (inodes_per_group as u64) >= 0x1_0000_0000 {
            return Err(ErrCode::Einval);
        }
        let itb: u64 = (inodes_per_group as u64) / ((BLOCK_SIZE as u64) / (inode_size as u64))
            + 1;
        let gd_end: u64 = GROUP_DESC_TABLE_BLOCK + ((bgc - 1) as u64) / 64 + 1;
        let per_group: u64 = 2 + itb;
        proof {
            if inode_size == 128 {
                assert((BLOCK_SIZE as int) / 128 == 32);
                assert(itb == (inodes_per_group as int) / 32 + 1);
                assert((inodes_per_group as int) / 32 <= 0x8000int / 32);
            } else {
                assert((BLOCK_SIZE as int) / 256 == 16);
                assert(itb == (inodes_per_group as int) / 16 + 1);
                assert((inodes_per_group as int) / 16 <= 0x8000int / 16);
            }
            assert(itb <= 2049);
            assert((bgc as int) * (per_group as int) <= 0xFFF_FFFF * 2051) by (nonlinear_arith)
                requires
                    0 <= (bgc as int) <= 0xFFF_FFFF,
                    0 <= (per_group as int) <= 2051,
            ;
        }
        let meta_end: u64 = gd_end + (bgc as u64) * per_group;
        if meta_end > bpg64 || meta_end >= total_blocks {
            return Err(ErrCode::Einval);
        }
        // the reserved inodes must fit group 0
        // (inodes_per_group >= 16 > 10 already holds)
        let disk = Disk::new(total_blocks as usize);
        let mut groups: Vec<Ext4BlockGroupDesc> = Vec::new();
        let mut block_bitmaps: Vec<Vec<u8>> = Vec::new();
        let mut inode_bitmaps: Vec<Vec<u8>> = Vec::new();
        let mut next: u64 = gd_end;
        let mut free_blocks_total: u64 = 0;
        let mut free_inodes_total: u64 = 0;
        let mut g: u32 = 0;
        while g < bgc
            invariant
                1 <= bgc,
                g <= bgc,
                blocks_per_group == bpg64,
                1 <= blocks_per_group <= 0x8000,
                16 <= inodes_per_group <= 0x8000,
                itb == (inodes_per_group as int) / ((BLOCK_SIZE as int) / (inode_size as int))
                    + 1,
                inode_size == 128 || inode_size == 256,
                per_group == 2 + itb,
                meta_end == gd_end + (bgc as int) * per_group,
                meta_end <= bpg64,
                meta_end < total_blocks <= 0xFFF_FFFF,
                gd_end >= 2,
                (bgc - 1) * bpg64 < total_blocks <= (bgc as int) * bpg64,
                (bgc as int) * (bpg64 as int) < total_blocks + bpg64,
                (bgc as int) * (inodes_per_group as int) < 0x1_0000_0000,
                next == gd_end + (g as int) * per_group,
                groups@.len() == g,
                block_bitmaps@.len() == g,
                inode_bitmaps@.len() == g,
                free_blocks_total <= (g as int) * (blocks_per_group as int),
                free_inodes_total <= (g as int) * (inodes_per_group as int),
                free_blocks_total == sum_free_blocks(groups@, g as int),
                free_inodes_total == sum_free_inodes(groups@, g as int),
                forall|h: int|
                    0 <= h < g ==> (#[trigger] groups@[h]).wf(inodes_per_group, blocks_per_group),
                forall|h: int|
                    0 <= h < g ==> (#[trigger] groups@[h]).block_bitmap_block < meta_end,
                forall|h: int|
                    0 <= h < g ==> (#[trigger] groups@[h]).inode_bitmap_block < meta_end,
                forall|h: int|
                    0 <= h < g ==> (#[trigger] groups@[h]).block_bitmap_block >= gd_end,
                forall|h: int|
                    0 <= h < g ==> (#[trigger] groups@[h]).inode_bitmap_block >= gd_end,
                forall|h: int|
                    0 <= h < g ==> (#[trigger] groups@[h]).inode_table_block + itb <= meta_end,
                forall|h: int| 0 <= h < g ==> (#[trigger] block_bitmaps@[h])@.len() == BLOCK_SIZE,
                forall|h: int| 0 <= h < g ==> (#[trigger] inode_bitmaps@[h])@.len() == BLOCK_SIZE,
                forall|h: int|
                    0 <= h < g ==> ones(
                        (#[trigger] inode_bitmaps@[h])@,
                        inodes_per_group as int,
                    ) + groups@[h].free_inodes_count == inodes_per_group,
                forall|h: int|
                    0 <= h < g ==> ones(
                        (#[trigger] block_bitmaps@[h])@,
                        blocks_per_group as int,
                    ) + groups@[h].free_blocks_count == blocks_per_group,
                forall|h: int, j: int|
                    0 <= h < g && 0 <= j < blocks_per_group && h * blocks_per_group + j
                        >= total_blocks ==> #[trigger] bit_is_set(block_bitmaps@[h]@, j),
            decreases bgc - g,
        {
            proof {
                assert((bgc as int) * per_group - (g as int) * per_group >= per_group)
                    by (nonlinear_arith)
                    requires
                        (g as int) < (bgc as int),
                        per_group >= 1,
                ;
                assert(next + per_group <= meta_end);
            }
            proof {
                assert(((g as int) + 1) * (bpg64 as int) <= (bgc as int) * (bpg64 as int))
                    by (nonlinear_arith)
                    requires
                        0 <= (g as int) < (bgc as int),
                        (bpg64 as int) >= 1,
                ;
                assert(((g as int) + 1) * (inodes_per_group as int) <= (bgc as int) * (
                inodes_per_group as int)) by (nonlinear_arith)
                    requires
                        0 <= (g as int) < (bgc as int),
                        (inodes_per_group as int) >= 1,
                ;
            }
            let bbm_blk = next;
            let ibm_blk = next + 1;
            let it_blk = next + 2;
            // capacity of this group on the device
            let cap: u32 = if ((g as u64) + 1) * bpg64 <= total_blocks {
                blocks_per_group
            } else {
                proof {
                    assert((g as int) * bpg64 < total_blocks) by (nonlinear_arith)
                        requires
                            (g as int) <= (bgc - 1) as int,
                            (bgc - 1) * bpg64 < total_blocks,
                            bpg64 >= 1,
                            g >= 0,
                    ;
                }
                (total_blocks - (g as u64) * bpg64) as u32
            };
            // block bitmap: metadata prefix (group 0) and phantom tail used
            let a_b: u32 = if g == 0 {
                meta_end as u32
            } else {
                0
            };
            proof {
                assert((g as int) * (bpg64 as int) + (bpg64 as int) == ((g as int) + 1) * (
                bpg64 as int)) by (nonlinear_arith);
                assert(cap <= blocks_per_group);
                assert(a_b <= cap);
            }
            let mut bbm = crate::codec::zero_vec(BLOCK_SIZE);
            let ghost b0 = bbm@;
            crate::bitmap::bitmap_set_range(&mut bbm, 0, a_b as usize);
            let ghost b1 = bbm@;
            crate::bitmap::bitmap_set_range(&mut bbm, cap as usize, blocks_per_group as usize);
            proof {
                assert forall|j: int| 0 <= j < blocks_per_group implies bit_is_set(bbm@, j) == (j
                    < a_b || cap <= j) by {
                    assert(j / 8 < BLOCK_SIZE);
                    if cap <= j {
                    } else {
                        assert(bit_is_set(bbm@, j) == bit_is_set(b1, j));
                        if j < a_b {
                        } else {
                            assert(bit_is_set(b1, j) == bit_is_set(b0, j));
                            crate::bitmap::lemma_bit_clear_in_zero(b0, j);
                        }
                    }
                }
                crate::bitmap::lemma_ones_intervals(
                    bbm@,
                    a_b as int,
                    cap as int,
                    blocks_per_group as int,
                );
            }
            let free_b: u32 = cap - a_b;
            // inode bitmap: the reserved inodes of group 0 used
            let a_i: u32 = if g == 0 {
                10
            } else {
                0
            };
            let mut ibm = crate::codec::zero_vec(BLOCK_SIZE);
            let ghost i0 = ibm@;
            crate::bitmap::bitmap_set_range(&mut ibm, 0, a_i as usize);
            proof {
                assert forall|j: int| 0 <= j < inodes_per_group implies bit_is_set(ibm@, j) == (j
                    < a_i || inodes_per_group <= j) by {
                    assert(j / 8 < BLOCK_SIZE);
                    if j >= a_i {
                        assert(bit_is_set(ibm@, j) == bit_is_set(i0, j));
                        crate::bitmap::lemma_bit_clear_in_zero(i0, j);
                    }
                }
                crate::bitmap::lemma_ones_intervals(
                    ibm@,
                    a_i as int,
                    inodes_per_group as int,
                    inodes_per_group as int,
                );
            }
            let free_i: u32 = inodes_per_group - a_i;
            let desc = Ext4BlockGroupDesc {
                block_bitmap_block: bbm_blk,
                inode_bitmap_block: ibm_blk,
                inode_table_block: it_blk,
                free_blocks_count: free_b,
                free_inodes_count: free_i,
                used_dirs_count: 0,
                itable_unused: inodes_per_group,
                block_bitmap_csum: 0,
                inode_bitmap_csum: 0,
            };
            let ghost pre_groups = groups@;
            groups.push(desc);
            block_bitmaps.push(bbm);
            inode_bitmaps.push(ibm);
            proof {
                assert(groups@ == pre_groups.push(desc));
                assert(sum_free_blocks(groups@, g + 1 as int) == sum_free_blocks(groups@, g as int)
                    + free_b);
                lemma_sum_free_blocks_update(groups@, g as int, desc, g as int);
                assert forall|h: int| 0 <= h < g implies groups@[h] == pre_groups[h] by {}
                lemma_sum_free_blocks_same_prefix(groups@, pre_groups, g as int);
                lemma_sum_free_inodes_same_prefix(groups@, pre_groups, g as int);
                assert((g as int) * (blocks_per_group as int) + blocks_per_group == (g + 1) * (
                blocks_per_group as int)) by (nonlinear_arith);
                assert((g as int) * (inodes_per_group as int) + inodes_per_group == (g + 1) * (
                inodes_per_group as int)) by (nonlinear_arith);
                assert((g as int) * per_group + per_group == (g + 1) * per_group)
                    by (nonlinear_arith);
                assert forall|j: int|
                    0 <= j < blocks_per_group && (g as int) * blocks_per_group + j
                        >= total_blocks implies bit_is_set(block_bitmaps@[g as int]@, j) by {
                    assert(block_bitmaps@[g as int]@ == bbm@);
                    assert((g as int) * (bpg64 as int) + (bpg64 as int) == ((g as int) + 1) * (
                    bpg64 as int)) by (nonlinear_arith);
                    if ((g as int) + 1) * (bpg64 as int) <= total_blocks {
                        assert(false);
                    } else {
                        assert(cap == total_blocks - (g as int) * (bpg64 as int));
                        assert(j >= cap);
                    }
                }
            }
            free_blocks_total = free_blocks_total + free_b as u64;
            free_inodes_total = free_inodes_total + free_i as u64;
            proof {
                assert(free_blocks_total <= ((g + 1) as int) * (blocks_per_group as int));
                assert(free_inodes_total <= ((g + 1) as int) * (inodes_per_group as int));
            }
            next = next + per_group;
            g = g + 1;
        }
        let sb = Ext4Superblock {
            inodes_count: bgc * inodes_per_group,
            blocks_count: total_blocks,
            free_blocks_count: free_blocks_total,
            free_inodes_count: free_inodes_total as u32,
            first_data_block: 0,
            blocks_per_group,
            inodes_per_group,
            creator_os: 0,
            inode_size,
            feature_compat: 0,
            feature_incompat: 0x242,
            feature_ro_compat: 0x400,
            uuid,
            block_group_count: bgc,
        };
        let mut fs = Ext4 { sb, groups, block_bitmaps, inode_bitmaps, disk };
        proof {
            assert((bgc as int) * (blocks_per_group as int) < 0x1_0000_0000) by (nonlinear_arith)
                requires
                    (bgc as int) * (blocks_per_group as int) < total_blocks + blocks_per_group,
                    total_blocks <= 0xFFF_FFFF,
                    blocks_per_group <= 0x8000,
            ;
            assert(fs.wf_static());
            assert(fs.wf_counters());
        }
        // persist everything, checksummed
        let mut h: u32 = 0;
        while h < bgc
            invariant
                fs.wf(),
                bgc == fs.sb.block_group_count,
                fs.sb.blocks_count == total_blocks,
                fs.sb.blocks_per_group == blocks_per_group,
                fs.sb.inodes_per_group == inodes_per_group,
                fs.sb.inode_size == inode_size,
                fs.sb.uuid@ == uuid@,
                fs.disk@.len() == total_blocks,
            decreases bgc - h,
        {
            fs.write_block_bitmap(h);
            fs.write_inode_bitmap(h);
            fs.write_group_desc(h);
            h = h + 1;
        }
        fs.write_super_block();
        Ok(fs)
    }
}

/// Sums agree on a shared prefix.
proof fn lemma_sum_free_blocks_same_prefix(
    gs1: Seq<Ext4BlockGroupDesc>,
    gs2: Seq<Ext4BlockGroupDesc>,
    n: int,
)
    requires
        forall|h: int| 0 <= h < n ==> gs1[h] == gs2[h],
    ensures
        sum_free_blocks(gs1, n) == sum_free_blocks(gs2, n),
    decreases n,
{
    if n > 0 {
        lemma_sum_free_blocks_same_prefix(gs1, gs2, n - 1);
    }
}

/// Sums agree on a shared prefix.
proof fn lemma_sum_free_inodes_same_prefix(
    gs1: Seq<Ext4BlockGroupDesc>,
    gs2: Seq<Ext4BlockGroupDesc>,
    n: int,
)
    requires
        forall|h: int| 0 <= h < n ==> gs1[h] == gs2[h],
    ensures
        sum_free_inodes(gs1, n) == sum_free_inodes(gs2, n),
    decreases n,
{
    if n > 0 {
        lemma_sum_free_inodes_same_prefix(gs1, gs2, n - 1);
    }
}

/// What freeing the inode at bit `idx` of group `g` does: the inverse of
/// allocation on the bitmap and the free counters, with the
/// used-directories counter lowered for a directory and the never-used tail
/// hint cautiously grown.
pub open spec fn dealloc_inode_effect(
    pre: Ext4,
    post: Ext4,
    g: int,
    idx: int,
    was_dir: bool,
) -> bool {
    let ipg = pre.sb.inodes_per_group;
    let d = pre.groups@[g];
    &&& 0 <= g < pre.groups@.len()
    &&& 0 <= idx < ipg
    &&& bit_is_set(pre.inode_bitmaps@[g]@, idx)
    &&& !bit_is_set(post.inode_bitmaps@[g]@, idx)
    &&& post.inode_bitmaps@.len() == pre.inode_bitmaps@.len()
    &&& post.inode_bitmaps@[g]@.len() == pre.inode_bitmaps@[g]@.len()
    &&& forall|j: int|
        0 <= j && j != idx && j / 8 < pre.inode_bitmaps@[g]@.len() ==> bit_is_set(
            post.inode_bitmaps@[g]@,
            j,
        ) == bit_is_set(pre.inode_bitmaps@[g]@, j)
    &&& forall|h: int|
        0 <= h < pre.inode_bitmaps@.len() && h != g ==> post.inode_bitmaps@[h] == #[trigger] pre.inode_bitmaps@[h]
    &&& post.block_bitmaps@ == pre.block_bitmaps@
    &&& post.groups@.len() == pre.groups@.len()
    &&& post.groups@[g] == (Ext4BlockGroupDesc {
        free_inodes_count: (d.free_inodes_count + 1) as u32,
        used_dirs_count: if was_dir && d.used_dirs_count > 0 {
            (d.used_dirs_count - 1) as u32
        } else {
            d.used_dirs_count
        },
        itable_unused: if d.itable_unused < ipg {
            (d.itable_unused + 1) as u32
        } else {
            d.itable_unused
        },
        inode_bitmap_csum: bitmap_csum_of(pre.sb.uuid@, post.inode_bitmaps@[g]@),
        ..d
    })
    &&& forall|h: int|
        0 <= h < pre.groups@.len() && h != g ==> post.groups@[h] == #[trigger] pre.groups@[h]
    &&& post.sb == (Ext4Superblock {
        free_inodes_count: (pre.sb.free_inodes_count + 1) as u32,
        uuid: post.sb.uuid,
        ..pre.sb
    })
    &&& post.sb.uuid@ == pre.sb.uuid@
    &&& post.disk@.len() == pre.disk@.len()
    // writeback: the bitmap block, the descriptor and the superblock hold
    // the new state with fresh keyed checksums; nothing else on the device
    // moved
    &&& post.disk@[post.groups@[g].inode_bitmap_block as int] == post.inode_bitmaps@[g]@
    &&& crate::super_block::sb_region_matches(
        post.sb,
        post.disk@[0].subrange(
            crate::super_block::SUPERBLOCK_OFFSET as int,
            crate::super_block::SUPERBLOCK_OFFSET + crate::super_block::SUPERBLOCK_SIZE,
        ),
    )
    &&& crate::super_block::sb_csum_valid(
        post.disk@[0].subrange(
            crate::super_block::SUPERBLOCK_OFFSET as int,
            crate::super_block::SUPERBLOCK_OFFSET + crate::super_block::SUPERBLOCK_SIZE,
        ),
    )
    &&& desc_region_matches(
        post.groups@[g],
        post.disk@[gd_block_of(g as u32)].subrange(
            gd_offset_of(g as u32),
            gd_offset_of(g as u32) + GROUP_DESC_SIZE,
        ),
    )
    &&& desc_csum_valid(
        post.sb.uuid@,
        g as u32,
        post.disk@[gd_block_of(g as u32)].subrange(
            gd_offset_of(g as u32),
            gd_offset_of(g as u32) + GROUP_DESC_SIZE,
        ),
    )
    &&& forall|b: int|
        0 <= b < pre.disk@.len() && b != 0 && b != gd_block_of(g as u32) && b
            != post.groups@[g].inode_bitmap_block ==> post.disk@[b] == pre.disk@[b]
}

/// What allocating the block at bit `idx` of group `g` does: the lowest
/// clear bit of the owner's group is set and the free counters drop
/// together.
pub open spec fn alloc_block_effect(pre: Ext4, post: Ext4, g: int, idx: int) -> bool {
    let bpg = pre.sb.blocks_per_group;
    let d = pre.groups@[g];
    &&& 0 <= g < pre.groups@.len()
    &&& 0 <= idx < bpg
    &&& d.free_blocks_count > 0
    &&& !bit_is_set(pre.block_bitmaps@[g]@, idx)
    &&& forall|j: int| 0 <= j < idx ==> bit_is_set(pre.block_bitmaps@[g]@, j)
    &&& post.block_bitmaps@.len() == pre.block_bitmaps@.len()
    &&& post.block_bitmaps@[g]@.len() == pre.block_bitmaps@[g]@.len()
    &&& bit_is_set(post.block_bitmaps@[g]@, idx)
    &&& forall|j: int|
        0 <= j && j != idx && j / 8 < pre.block_bitmaps@[g]@.len() ==> bit_is_set(
            post.block_bitmaps@[g]@,
            j,
        ) == bit_is_set(pre.block_bitmaps@[g]@, j)
    &&& forall|h: int|
        0 <= h < pre.block_bitmaps@.len() && h != g ==> post.block_bitmaps@[h] == #[trigger] pre.block_bitmaps@[h]
    &&& post.inode_bitmaps@ == pre.inode_bitmaps@
    &&& post.groups@.len() == pre.groups@.len()
    &&& post.groups@[g] == (Ext4BlockGroupDesc {
        free_blocks_count: (d.free_blocks_count - 1) as u32,
        block_bitmap_csum: bitmap_csum_of(pre.sb.uuid@, post.block_bitmaps@[g]@),
        ..d
    })
    &&& forall|h: int|
        0 <= h < pre.groups@.len() && h != g ==> post.groups@[h] == #[trigger] pre.groups@[h]
    &&& post.sb == (Ext4Superblock {
        free_blocks_count: (pre.sb.free_blocks_count - 1) as u64,
        uuid: post.sb.uuid,
        ..pre.sb
    })
    &&& post.sb.uuid@ == pre.sb.uuid@
    &&& post.disk@.len() == pre.disk@.len()
    // writeback: the bitmap block, the descriptor and the superblock hold
    // the new state with fresh keyed checksums; nothing else on the device
    // moved
    &&& post.disk@[post.groups@[g].block_bitmap_block as int] == post.block_bitmaps@[g]@
    &&& crate::super_block::sb_region_matches(
        post.sb,
        post.disk@[0].subrange(
            crate::super_block::SUPERBLOCK_OFFSET as int,
            crate::super_block::SUPERBLOCK_OFFSET + crate::super_block::SUPERBLOCK_SIZE,
        ),
    )
    &&& crate::super_block::sb_csum_valid(
        post.disk@[0].subrange(
            crate::super_block::SUPERBLOCK_OFFSET as int,
            crate::super_block::SUPERBLOCK_OFFSET + crate::super_block::SUPERBLOCK_SIZE,
        ),
    )
    &&& desc_region_matches(
        post.groups@[g],
        post.disk@[gd_block_of(g as u32)].subrange(
            gd_offset_of(g as u32),
            gd_offset_of(g as u32) + GROUP_DESC_SIZE,
        ),
    )
    &&& desc_csum_valid(
        post.sb.uuid@,
        g as u32,
        post.disk@[gd_block_of(g as u32)].subrange(
            gd_offset_of(g as u32),
            gd_offset_of(g as u32) + GROUP_DESC_SIZE,
        ),
    )
    &&& forall|b: int|
        0 <= b < pre.disk@.len() && b != 0 && b != gd_block_of(g as u32) && b
            != post.groups@[g].block_bitmap_block ==> post.disk@[b] == pre.disk@[b]
}

/// What freeing the block at bit `idx` of group `g` does: the inverse of
/// block allocation on the bitmap and the free counters.
pub open spec fn dealloc_block_effect(pre: Ext4, post: Ext4, g: int, idx: int) -> bool {
    let bpg = pre.sb.blocks_per_group;
    let d = pre.groups@[g];
    &&& 0 <= g < pre.groups@.len()
    &&& 0 <= idx < bpg
    &&& bit_is_set(pre.block_bitmaps@[g]@, idx)
    &&& !bit_is_set(post.block_bitmaps@[g]@, idx)
    &&& post.block_bitmaps@.len() == pre.block_bitmaps@.len()
    &&& post.block_bitmaps@[g]@.len() == pre.block_bitmaps@[g]@.len()
    &&& forall|j: int|
        0 <= j && j != idx && j / 8 < pre.block_bitmaps@[g]@.len() ==> bit_is_set(
            post.block_bitmaps@[g]@,
            j,
        ) == bit_is_set(pre.block_bitmaps@[g]@, j)
    &&& forall|h: int|
        0 <= h < pre.block_bitmaps@.len() && h != g ==> post.block_bitmaps@[h] == #[trigger] pre.block_bitmaps@[h]
    &&& post.inode_bitmaps@ == pre.inode_bitmaps@
    &&& post.groups@.len() == pre.groups@.len()
    &&& post.groups@[g] == (Ext4BlockGroupDesc {
        free_blocks_count: (d.free_blocks_count + 1) as u32,
        block_bitmap_csum: bitmap_csum_of(pre.sb.uuid@, post.block_bitmaps@[g]@),
        ..d
    })
    &&& forall|h: int|
        0 <= h < pre.groups@.len() && h != g ==> post.groups@[h] == #[trigger] pre.groups@[h]
    &&& post.sb == (Ext4Superblock {
        free_blocks_count: (pre.sb.free_blocks_count + 1) as u64,
        uuid: post.sb.uuid,
        ..pre.sb
    })
    &&& post.sb.uuid@ == pre.sb.uuid@
    &&& post.disk@.len() == pre.disk@.len()
    // writeback: the bitmap block, the descriptor and the superblock hold
    // the new state with fresh keyed checksums; nothing else on the device
    // moved
    &&& post.disk@[post.groups@[g].block_bitmap_block as int] == post.block_bitmaps@[g]@
    &&& crate::super_block::sb_region_matches(
        post.sb,
        post.disk@[0].subrange(
            crate::super_block::SUPERBLOCK_OFFSET as int,
            crate::super_block::SUPERBLOCK_OFFSET + crate::super_block::SUPERBLOCK_SIZE,
        ),
    )
    &&& crate::super_block::sb_csum_valid(
        post.disk@[0].subrange(
            crate::super_block::SUPERBLOCK_OFFSET as int,
            crate::super_block::SUPERBLOCK_OFFSET + crate::super_block::SUPERBLOCK_SIZE,
        ),
    )
    &&& desc_region_matches(
        post.groups@[g],
        post.disk@[gd_block_of(g as u32)].subrange(
            gd_offset_of(g as u32),
            gd_offset_of(g as u32) + GROUP_DESC_SIZE,
        ),
    )
    &&& desc_csum_valid(
        post.sb.uuid@,
        g as u32,
        post.disk@[gd_block_of(g as u32)].subrange(
            gd_offset_of(g as u32),
            gd_offset_of(g as u32) + GROUP_DESC_SIZE,
        ),
    )
    &&& forall|b: int|
        0 <= b < pre.disk@.len() && b != 0 && b != gd_block_of(g as u32) && b
            != post.groups@[g].block_bitmap_block ==> post.disk@[b] == pre.disk@[b]
}

/// The two states have equal views everywhere.
pub open spec fn ext4_views_eq(a: Ext4, b: Ext4) -> bool {
    &&& b.sb == a.sb
    &&& b.groups@ == a.groups@
    &&& b.block_bitmaps@ == a.block_bitmaps@
    &&& b.inode_bitmaps@ == a.inode_bitmaps@
    &&& b.disk@ == a.disk@
}

/// The writeback an inode-bitmap mutation owes: the bitmap block, the
/// descriptor and the superblock hold the new state with fresh keyed
/// checksums, and nothing else on the device moved.
pub open spec fn inode_writeback_ok(pre: Ext4, post: Ext4, g: int) -> bool {
    &&& post.disk@[post.groups@[g].inode_bitmap_block as int] == post.inode_bitmaps@[g]@
    &&& crate::super_block::sb_region_matches(
        post.sb,
        post.disk@[0].subrange(
            crate::super_block::SUPERBLOCK_OFFSET as int,
            crate::super_block::SUPERBLOCK_OFFSET + crate::super_block::SUPERBLOCK_SIZE,
        ),
    )
    &&& crate::super_block::sb_csum_valid(
        post.disk@[0].subrange(
            crate::super_block::SUPERBLOCK_OFFSET as int,
            crate::super_block::SUPERBLOCK_OFFSET + crate::super_block::SUPERBLOCK_SIZE,
        ),
    )
    &&& desc_region_matches(
        post.groups@[g],
        post.disk@[gd_block_of(g as u32)].subrange(
            gd_offset_of(g as u32),
            gd_offset_of(g as u32) + GROUP_DESC_SIZE,
        ),
    )
    &&& desc_csum_valid(
        post.sb.uuid@,
        g as u32,
        post.disk@[gd_block_of(g as u32)].subrange(
            gd_offset_of(g as u32),
            gd_offset_of(g as u32) + GROUP_DESC_SIZE,
        ),
    )
    &&& forall|b: int|
        0 <= b < pre.disk@.len() && b != 0 && b != gd_block_of(g as u32) && b
            != post.groups@[g].inode_bitmap_block ==> post.disk@[b] == pre.disk@[b]
}

/// What allocating the inode at bit `idx` of group `g` does to the cached
/// state: the first free group is picked, its lowest clear bit set, the
/// group and superblock free counters drop together by one, the
/// used-directories counter grows for a directory, and the never-used tail
/// hint shrinks past the bit. Nothing else changes.
pub open spec fn alloc_inode_effect(pre: Ext4, post: Ext4, g: int, idx: int, is_dir: bool) -> bool {
    let ipg = pre.sb.inodes_per_group;
    let d = pre.groups@[g];
    &&& 0 <= g < pre.groups@.len()
    &&& 0 <= idx < ipg
    // scan order: groups before g were exhausted
    &&& forall|h: int| 0 <= h < g ==> (#[trigger] pre.groups@[h]).free_inodes_count == 0
    &&& d.free_inodes_count > 0
    // lowest clear bit
    &&& !bit_is_set(pre.inode_bitmaps@[g]@, idx)
    &&& forall|j: int| 0 <= j < idx ==> bit_is_set(pre.inode_bitmaps@[g]@, j)
    // the bit is now set; every other bit and bitmap is unchanged
    &&& post.inode_bitmaps@.len() == pre.inode_bitmaps@.len()
    &&& post.inode_bitmaps@[g]@.len() == pre.inode_bitmaps@[g]@.len()
    &&& bit_is_set(post.inode_bitmaps@[g]@, idx)
    &&& forall|j: int|
        0 <= j && j != idx && j / 8 < pre.inode_bitmaps@[g]@.len() ==> bit_is_set(
            post.inode_bitmaps@[g]@,
            j,
        ) == bit_is_set(pre.inode_bitmaps@[g]@, j)
    &&& forall|h: int|
        0 <= h < pre.inode_bitmaps@.len() && h != g ==> post.inode_bitmaps@[h] == #[trigger] pre.inode_bitmaps@[h]
    &&& post.block_bitmaps@ == pre.block_bitmaps@
    // counters
    &&& post.groups@.len() == pre.groups@.len()
    &&& post.groups@[g] == (Ext4BlockGroupDesc {
        free_inodes_count: (d.free_inodes_count - 1) as u32,
        used_dirs_count: if is_dir && d.used_dirs_count < 0xFFFF {
            (d.used_dirs_count + 1) as u32
        } else {
            d.used_dirs_count
        },
        itable_unused: if idx >= ipg - d.itable_unused {
            (ipg - idx - 1) as u32
        } else {
            d.itable_unused
        },
        inode_bitmap_csum: bitmap_csum_of(pre.sb.uuid@, post.inode_bitmaps@[g]@),
        ..d
    })
    &&& forall|h: int|
        0 <= h < pre.groups@.len() && h != g ==> post.groups@[h] == #[trigger] pre.groups@[h]
    &&& post.sb == (Ext4Superblock {
        free_inodes_count: (pre.sb.free_inodes_count - 1) as u32,
        uuid: post.sb.uuid,
        ..pre.sb
    })
    &&& post.sb.uuid@ == pre.sb.uuid@
    &&& post.disk@.len() == pre.disk@.len()
}

/// With every counter bounded by the capacity and one group strictly
/// under it, the sum stays strictly under the total capacity.
pub proof fn lemma_sum_free_inodes_slack(gs: Seq<Ext4BlockGroupDesc>, n: int, cap: int, g: int)
    requires
        0 <= g < n <= gs.len(),
        forall|h: int| 0 <= h < n ==> (#[trigger] gs[h]).free_inodes_count <= cap,
        gs[g].free_inodes_count < cap,
    ensures
        sum_free_inodes(gs, n) < n * cap,
    decreases n,
{
    if g == n - 1 {
        lemma_sum_free_inodes_cap(gs, n - 1, cap);
    } else {
        lemma_sum_free_inodes_slack(gs, n - 1, cap, g);
    }
    assert((n - 1) * cap + cap == n * cap) by (nonlinear_arith);
}

/// With every counter bounded by the capacity, so is the sum, scaled.
pub proof fn lemma_sum_free_inodes_cap(gs: Seq<Ext4BlockGroupDesc>, n: int, cap: int)
    requires
        0 <= n <= gs.len(),
        cap >= 0,
        forall|h: int| 0 <= h < n ==> (#[trigger] gs[h]).free_inodes_count <= cap,
    ensures
        sum_free_inodes(gs, n) <= n * cap,
    decreases n,
{
    if n > 0 {
        lemma_sum_free_inodes_cap(gs, n - 1, cap);
        assert((n - 1) * cap + cap == n * cap) by (nonlinear_arith);
    }
}

/// With every counter bounded by the capacity and one group strictly
/// under it, the sum stays strictly under the total capacity.
pub proof fn lemma_sum_free_blocks_slack(gs: Seq<Ext4BlockGroupDesc>, n: int, cap: int, g: int)
    requires
        0 <= g < n <= gs.len(),
        forall|h: int| 0 <= h < n ==> (#[trigger] gs[h]).free_blocks_count <= cap,
        gs[g].free_blocks_count < cap,
    ensures
        sum_free_blocks(gs, n) < n * cap,
    decreases n,
{
    if g == n - 1 {
        lemma_sum_free_blocks_cap(gs, n - 1, cap);
    } else {
        lemma_sum_free_blocks_slack(gs, n - 1, cap, g);
    }
    assert((n - 1) * cap + cap == n * cap) by (nonlinear_arith);
}

/// With every counter bounded by the capacity, so is the sum, scaled.
pub proof fn lemma_sum_free_blocks_cap(gs: Seq<Ext4BlockGroupDesc>, n: int, cap: int)
    requires
        0 <= n <= gs.len(),
        cap >= 0,
        forall|h: int| 0 <= h < n ==> (#[trigger] gs[h]).free_blocks_count <= cap,
    ensures
        sum_free_blocks(gs, n) <= n * cap,
    decreases n,
{
    if n > 0 {
        lemma_sum_free_blocks_cap(gs, n - 1, cap);
        assert((n - 1) * cap + cap == n * cap) by (nonlinear_arith);
    }
}

/// When every group's counter is zero, the sum is zero.
proof fn lemma_sum_zero_groups(gs: Seq<Ext4BlockGroupDesc>, n: int)
    requires
        n <= gs.len(),
        forall|h: int| 0 <= h < n ==> (#[trigger] gs[h]).free_inodes_count == 0,
    ensures
        sum_free_inodes(gs, n) == 0,
    decreases n,
{
    if n > 0 {
        lemma_sum_zero_groups(gs, n - 1);
    }
}

/// A formattable geometry: every bound `format` checks, over the derived
/// group count and metadata extent.
pub open spec fn format_geometry_ok(
    total_blocks: u64,
    blocks_per_group: u32,
    inodes_per_group: u32,
    inode_size: u16,
    uuid: Seq<u8>,
) -> bool {
    let bgc = ((total_blocks + blocks_per_group - 1) as int) / (blocks_per_group as int);
    let itb = (inodes_per_group as int) / ((BLOCK_SIZE as int) / (inode_size as int)) + 1;
    let gd_end = GROUP_DESC_TABLE_BLOCK + (bgc - 1) / 64 + 1;
    let meta_end = gd_end + bgc * (2 + itb);
    &&& uuid.len() == 16
    &&& 16 <= inodes_per_group <= 0x8000
    &&& inodes_per_group % 8 == 0
    &&& 1 <= blocks_per_group <= 0x8000
    &&& (inode_size == 128 || inode_size == 256)
    &&& 1 <= total_blocks <= 0xFFF_FFFF
    &&& bgc * inodes_per_group < 0x1_0000_0000
    &&& meta_end <= blocks_per_group
    &&& meta_end < total_blocks
}

/// An inode id at most the total count has its group on the device.
pub proof fn lemma_group_of_in_range(fs: Ext4, id: u32)
    requires
        fs.wf(),
        1 <= id <= fs.sb.inodes_count,
    ensures
        inode_group_of(fs.sb, id) < fs.sb.block_group_count,
        ((id - 1) as int) / (fs.sb.inodes_per_group as int) < fs.sb.block_group_count,
{
    let ipg = fs.sb.inodes_per_group as int;
    let bgc = fs.sb.block_group_count as int;
    assert(((id - 1) as int) / ipg < bgc) by (nonlinear_arith)
        requires
            ipg > 0,
            bgc > 0,
            0 <= ((id - 1) as int) < bgc * ipg,
    ;
}

/// Block of the descriptor table that holds group `bgid`'s descriptor.
pub open spec fn gd_block_of(bgid: u32) -> int {
    GROUP_DESC_TABLE_BLOCK + bgid / 64
}

/// Byte offset of group `bgid`'s descriptor within its table block.
pub open spec fn gd_offset_of(bgid: u32) -> int {
    (bgid % 64) * GROUP_DESC_SIZE
}

} // verus!
