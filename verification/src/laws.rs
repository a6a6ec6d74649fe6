//! Laws relating the operations: what holds across a pair of calls.

use vstd::prelude::*;

use crate::bitmap::{bit_is_set, ones};
use crate::dir_entry::{dblock_contains, dblock_find, dblock_entries_wf, dblock_region_matches,
    dtail_matches, entries_size, Ext4DirEntry, DIR_CONTENT_SIZE, DIR_TAIL_MAGIC};
use crate::extent::{extent_covers, node_wf, ExtentNode};
use crate::fs::{alloc_inode_effect, dealloc_inode_effect, sum_free_blocks, sum_free_inodes, Ext4};

verus! {

/// A directory block as the serializer emits it: the entry chain sums
/// exactly to the content size and the tail carries the magic byte.
pub proof fn law_dir_block_shape(es: Seq<Ext4DirEntry>, s: Seq<u8>)
    requires
        dblock_entries_wf(es),
        dblock_region_matches(es, s),
    ensures
        entries_size(es, es.len() as int) == DIR_CONTENT_SIZE,
        s[4091] == DIR_TAIL_MAGIC,
{
}

/// In a well-formed leaf node the extents are sorted ascending by first
/// logical block and no two overlap: each record ends at or before any
/// later record begins, so no logical block is covered twice.
pub proof fn law_extents_sorted_non_overlapping(n: ExtentNode, i: int, j: int, x: u32)
    requires
        node_wf(n),
        n.header.depth == 0,
        0 <= i < j < n.leaves@.len(),
    ensures
        n.leaves@[i].first_block + n.leaves@[i].block_count <= n.leaves@[j].first_block,
        !(extent_covers(n.leaves@[i], x) && extent_covers(n.leaves@[j], x)),
{
    crate::extent::lemma_leaves_disjoint(n.leaves@, i, j);
}

/// After every completed operation the redundant summaries agree: the
/// superblock free counters equal the sums of the group counters, and each
/// group's bitmap population count complements its free counter.
pub proof fn law_counter_summaries(fs: Ext4)
    requires
        fs.wf(),
    ensures
        fs.sb.free_inodes_count == sum_free_inodes(fs.groups@, fs.groups@.len() as int),
        fs.sb.free_blocks_count == sum_free_blocks(fs.groups@, fs.groups@.len() as int),
        forall|g: int|
            0 <= g < fs.groups@.len() ==> ones(
                (#[trigger] fs.inode_bitmaps@[g])@,
                fs.sb.inodes_per_group as int,
            ) + fs.groups@[g].free_inodes_count == fs.sb.inodes_per_group,
        forall|g: int|
            0 <= g < fs.groups@.len() ==> ones(
                (#[trigger] fs.block_bitmaps@[g])@,
                fs.sb.blocks_per_group as int,
            ) + fs.groups@[g].free_blocks_count == fs.sb.blocks_per_group,
{
}

/// Allocating an inode and then freeing the same inode restores the free
/// counters, the used-directories counter and the inode bitmap to their
/// prior values.
///
/// The inode-table-unused hint is not restored: freeing grows it cautiously
/// by one regardless of where allocation left it, as the operation
/// specifies. The law asks that the group's used-directories counter is
/// under its 16-bit storage limit, where allocation saturates; every state
/// a directory count can honestly reach is far below it.
pub proof fn law_alloc_dealloc_inode_restores(
    s0: Ext4,
    s1: Ext4,
    s2: Ext4,
    g: int,
    idx: int,
    is_dir: bool,
)
    requires
        s0.wf(),
        alloc_inode_effect(s0, s1, g, idx, is_dir),
        dealloc_inode_effect(s1, s2, g, idx, is_dir),
        s0.groups@[g].used_dirs_count < 0xFFFF,
    ensures
        s2.sb.free_inodes_count == s0.sb.free_inodes_count,
        s2.sb.free_blocks_count == s0.sb.free_blocks_count,
        s2.groups@[g].free_inodes_count == s0.groups@[g].free_inodes_count,
        s2.groups@[g].free_blocks_count == s0.groups@[g].free_blocks_count,
        s2.groups@[g].used_dirs_count == s0.groups@[g].used_dirs_count,
        forall|h: int|
            0 <= h < s0.groups@.len() && h != g ==> s2.groups@[h] == #[trigger] s0.groups@[h],
        forall|j: int|
            0 <= j && j / 8 < s0.inode_bitmaps@[g]@.len() ==> bit_is_set(s2.inode_bitmaps@[g]@, j)
                == bit_is_set(#[trigger] s0.inode_bitmaps@[g]@, j),
        forall|h: int|
            0 <= h < s0.inode_bitmaps@.len() && h != g ==> s2.inode_bitmaps@[h]
                == #[trigger] s0.inode_bitmaps@[h],
        s2.block_bitmaps@ == s0.block_bitmaps@,
{
    crate::fs::lemma_sum_free_inodes_bound(s0.groups@, g, s0.groups@.len() as int);
    assert(s0.sb.free_inodes_count >= s0.groups@[g].free_inodes_count >= 1);
    assert(s1.sb.inodes_per_group == s0.sb.inodes_per_group);
    assert forall|j: int| 0 <= j && j / 8 < s0.inode_bitmaps@[g]@.len() implies bit_is_set(
        s2.inode_bitmaps@[g]@,
        j,
    ) == bit_is_set(s0.inode_bitmaps@[g]@, j) by {
        if j != idx {
            assert(bit_is_set(s1.inode_bitmaps@[g]@, j) == bit_is_set(s0.inode_bitmaps@[g]@, j));
        }
    }
}

/// Adding an entry for a name the block did not hold, by splitting entry
/// `i`, makes the name findable: the search returns the fresh entry, which
/// carries the child's inode.
pub proof fn law_add_then_find(
    es0: Seq<Ext4DirEntry>,
    es1: Seq<Ext4DirEntry>,
    i: int,
    newe: Ext4DirEntry,
)
    requires
        0 <= i < es0.len(),
        newe.inode != 0,
        es1 == es0.update(i, (Ext4DirEntry { entry_len: es1[i].entry_len, ..es0[i] })).insert(
            i + 1,
            newe,
        ),
        !dblock_contains(es0, newe.name@),
    ensures
        dblock_find(es1, newe.name@) == Some(i + 1),
        es1[i + 1].inode == newe.inode,
{
    assert forall|k: int| 0 <= k <= i implies (#[trigger] es1[k]).name@ == es0[k].name@
        && es1[k].inode == es0[k].inode by {
        if k < i {
            assert(es1[k] == es0[k]);
        }
    }
    assert forall|k: int| i + 2 <= k < es1.len() implies (#[trigger] es1[k]).name@ == es0[k
        - 1].name@ && es1[k].inode == es0[k - 1].inode by {
        assert(es1[k] == es0[k - 1]);
    }
    crate::dir::lemma_split_insert_finds(es0, es1, i, newe.name@, newe.inode);
}

/// After that, tombstoning the found entry makes the search fail: the name
/// is gone.
pub proof fn law_add_remove_round_trip(
    es0: Seq<Ext4DirEntry>,
    es1: Seq<Ext4DirEntry>,
    es2: Seq<Ext4DirEntry>,
    i: int,
    newe: Ext4DirEntry,
)
    requires
        0 <= i < es0.len(),
        newe.inode != 0,
        es1 == es0.update(i, (Ext4DirEntry { entry_len: es1[i].entry_len, ..es0[i] })).insert(
            i + 1,
            newe,
        ),
        !dblock_contains(es0, newe.name@),
        es2 == es1.update(i + 1, (Ext4DirEntry { inode: 0, ..es1[i + 1] })),
    ensures
        !dblock_contains(es2, newe.name@),
{
    let name = newe.name@;
    law_add_then_find(es0, es1, i, newe);
    crate::dir_entry::lemma_dblock_find_from_spec(es0, name, 0);
    // no entry of `es1` other than `i + 1` matches, so none of `es2` does
    assert forall|k: int| 0 <= k < es2.len() implies !((#[trigger] es2[k]).inode != 0
        && es2[k].name@ == name) by {
        if k == i + 1 {
            assert(es2[k].inode == 0);
        } else {
            assert(es2[k] == es1[k]);
            if k <= i {
                if k < i {
                    assert(es1[k] == es0[k]);
                } else {
                    assert(es1[k].name@ == es0[k].name@ && es1[k].inode == es0[k].inode);
                }
                assert(!(es0[k].inode != 0 && es0[k].name@ == name));
            } else {
                assert(es1[k] == es0[k - 1]);
                assert(!(es0[k - 1].inode != 0 && es0[k - 1].name@ == name));
            }
        }
    }
    crate::dir_entry::lemma_dblock_find_from_spec(es2, name, 0);
    if dblock_contains(es2, name) {
        let j = dblock_find(es2, name)->Some_0;
        assert(es2[j].inode != 0 && es2[j].name@ == name);
    }
}

} // verus!
