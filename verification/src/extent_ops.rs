//! Extent-tree operations over the block store: resolve a logical block,
//! map a fresh one (extending or splitting as needed, growing the root's
//! depth when it is full), and walk the tree for teardown.

use vstd::prelude::*;

use crate::extent::{leaves_find, leaves_insert, leaves_wf, node_wf, parse_extent_node,
    serialize_extent_block, write_node_into, Ext4Extent, Ext4ExtentHeader, Ext4ExtentIndex,
    ExtentNode, EXTENT_BLOCK_MAX_ENTRIES, EXTENT_ROOT_MAX_ENTRIES, EXT4_EXTENT_MAGIC};
use crate::fs::Ext4;
use crate::inode::Ext4InodeRef;
use crate::ErrCode;

verus! {

/// Whatever well-formed leaf node the root area holds maps logical block
/// `lb` to physical block `pb`. (A root of positive depth satisfies this
/// vacuously; a byte region determines its node, so at most one `n`
/// qualifies.)
pub open spec fn maps_to(area: Seq<u8>, lb: u32, pb: u64) -> bool {
    forall|n: ExtentNode|
        node_wf(n) && #[trigger] crate::extent::node_region_matches(n, area)
            && n.header.depth == 0 ==> crate::extent::leaves_lookup(n.leaves@, lb) == Some(pb)
}

/// `maps_to` holds of a region that a depth-0 node with the mapping
/// matches.
proof fn lemma_maps_to(area: Seq<u8>, lb: u32, pb: u64, witness: ExtentNode)
    requires
        node_wf(witness),
        crate::extent::node_region_matches(witness, area),
        witness.header.depth == 0,
        crate::extent::leaves_lookup(witness.leaves@, lb) == Some(pb),
    ensures
        maps_to(area, lb, pb),
{
    assert forall|n: ExtentNode|
        node_wf(n) && #[trigger] crate::extent::node_region_matches(n, area)
            && n.header.depth == 0 implies crate::extent::leaves_lookup(n.leaves@, lb) == Some(
        pb,
    ) by {
        crate::extent::lemma_node_unique(n, witness, area);
    }
}

/// `maps_to` holds vacuously of a region whose node has positive depth.
proof fn lemma_maps_to_vacuous(area: Seq<u8>, witness: ExtentNode)
    requires
        node_wf(witness),
        crate::extent::node_region_matches(witness, area),
        witness.header.depth > 0,
    ensures
        forall|lb: u32, pb: u64| #[trigger] maps_to(area, lb, pb),
{
    assert forall|lb: u32, pb: u64| #[trigger] maps_to(area, lb, pb) by {
        assert forall|n: ExtentNode|
            node_wf(n) && #[trigger] crate::extent::node_region_matches(n, area)
                && n.header.depth == 0 implies crate::extent::leaves_lookup(n.leaves@, lb)
            == Some(pb) by {
            crate::extent::lemma_node_unique(n, witness, area);
        }
    }
}

impl Ext4 {
    /// Resolve logical block `lblock` of an inode to its physical block by
    /// descending the extent tree from the inode's inline root.
    ///
    /// `ENOENT` when the block is not mapped; `EFSCORRUPTED` on a bad node.
    pub fn extent_query(&self, inode_ref: &Ext4InodeRef, lblock: u32) -> (r: Result<u64, ErrCode>)
        requires
            self.wf(),
            inode_ref.inode.wf(),
        ensures
            match r {
                Ok(p) => p < self.disk@.len(),
                Err(c) => c == ErrCode::Enoent || c == ErrCode::Efscorrupted,
            },
            // against a leaf root the answer is exactly the root's mapping
            r != Err::<u64, ErrCode>(ErrCode::Efscorrupted) ==> forall|n: ExtentNode|
                node_wf(n) && #[trigger] crate::extent::node_region_matches(
                    n,
                    inode_ref.inode.block@,
                ) && n.header.depth == 0 ==> (match crate::extent::leaves_lookup(
                n.leaves@,
                lblock,
            ) {
                Some(p) => r == Ok::<u64, ErrCode>(p),
                None => r == Err::<u64, ErrCode>(ErrCode::Enoent),
            }),
            // a well-formed leaf root owes the answer outright, straight
            // off its bytes
            crate::extent::root0_bytes_wf(inode_ref.inode.block@)
                ==> match crate::extent::root_leaves_lookup(
                inode_ref.inode.block@,
                0,
                lblock,
            ) {
                Some(p) => if p < self.disk@.len() {
                    r == Ok::<u64, ErrCode>(p)
                } else {
                    r == Err::<u64, ErrCode>(ErrCode::Efscorrupted)
                },
                None => r == Err::<u64, ErrCode>(ErrCode::Enoent),
            },
    {
        let ghost area = inode_ref.inode.block@;
        let root = match parse_extent_node(inode_ref.inode.block.as_slice()) {
            Ok(n) => n,
            Err(c) => {
                return Err(ErrCode::Efscorrupted);
            },
        };
        let ghost root_header = root.header;
        let ghost root_leaves = root.leaves@;
        proof {
            assert forall|n: ExtentNode|
                node_wf(n) && #[trigger] crate::extent::node_region_matches(
                    n,
                    inode_ref.inode.block@,
                ) implies n.header == root_header && (root_header.depth == 0 ==> n.leaves@
                == root_leaves) by {
                crate::extent::lemma_node_unique(n, root, inode_ref.inode.block@);
            }
            if crate::extent::root0_bytes_wf(area) {
                assert(root_header.depth == crate::codec::le16_at(area, 6));
                assert(root_header.depth == 0);
                crate::extent::lemma_root_lookup_matches(root, area, lblock, 0);
                assert(root.leaves@.skip(0) =~= root_leaves);
            }
        }
        let mut node = root;
        let mut depth = node.header.depth;
        while depth > 0
            invariant
                self.wf(),
                node_wf(node),
                depth == node.header.depth,
                depth <= root_header.depth,
                root_header.depth == 0 ==> node.leaves@ == root_leaves,
                crate::extent::root0_bytes_wf(area) ==> root_header.depth == 0
                    && crate::extent::root_leaves_lookup(area, 0, lblock)
                    == crate::extent::leaves_lookup(root_leaves, lblock),
                area == inode_ref.inode.block@,
                forall|n: ExtentNode|
                    node_wf(n) && #[trigger] crate::extent::node_region_matches(
                        n,
                        inode_ref.inode.block@,
                    ) ==> n.header == root_header && (root_header.depth == 0 ==> n.leaves@
                        == root_leaves),
            decreases depth,
        {
            let pos = match crate::extent::indexes_find_child(&node.indexes, lblock) {
                Some(p) => p,
                None => {
                    return Err(ErrCode::Enoent);
                },
            };
            let child = node.indexes[pos].child_pblock;
            if child >= self.disk.block_count() as u64 {
                return Err(ErrCode::Efscorrupted);
            }
            let bytes = self.disk.read_block(child);
            let next = match parse_extent_node(bytes.as_slice()) {
                Ok(n) => n,
                Err(_) => {
                    return Err(ErrCode::Efscorrupted);
                },
            };
            if next.header.depth != depth - 1 {
                return Err(ErrCode::Efscorrupted);
            }
            node = next;
            depth = depth - 1;
        }
        match leaves_find(&node.leaves, lblock) {
            Some(p) => {
                if p < self.disk.block_count() as u64 {
                    Ok(p)
                } else {
                    Err(ErrCode::Efscorrupted)
                }
            },
            None => Err(ErrCode::Enoent),
        }
    }

    /// Write the root node back into the inode's inline area.
    fn write_extent_root(&self, inode_ref: &mut Ext4InodeRef, node: &ExtentNode)
        requires
            old(inode_ref).inode.wf(),
            node_wf(*node),
            node.header.entries_count <= EXTENT_ROOT_MAX_ENTRIES,
        ensures
            final(inode_ref).inode.wf(),
            final(inode_ref).inode_id == old(inode_ref).inode_id,
            crate::inode::inode_eq(
                final(inode_ref).inode,
                (crate::inode::Ext4Inode {
                    block: final(inode_ref).inode.block,
                    ..old(inode_ref).inode
                }),
            ),
            crate::extent::node_region_matches(*node, final(inode_ref).inode.block@),
    {
        write_node_into(&mut inode_ref.inode.block, node);
    }

    /// Map logical block `lblock`, allocating when it is not mapped yet.
    ///
    /// On a miss, `count` fresh physical blocks are allocated one by one
    /// (consecutive whenever the allocator can manage it) and mapped from
    /// `lblock` on; the preceding extent is extended in place when the new
    /// range continues it, else a record is inserted in sorted position; a
    /// full root grows the tree by one level. The returned id is `lblock`'s
    /// physical block.
    ///
    /// `ENOSPC` when the owner's group has no free block (or the tree is
    /// full); `EFSCORRUPTED` on a bad node.
    pub fn extent_query_or_create(
        &mut self,
        inode_ref: &mut Ext4InodeRef,
        lblock: u32,
        count: u16,
    ) -> (r: Result<u64, ErrCode>)
        requires
            old(self).wf(),
            old(inode_ref).inode.wf(),
            old(inode_ref).inode_id >= 1,
            ((old(inode_ref).inode_id - 1) as int) / (old(self).sb.inodes_per_group as int) < old(
                self,
            ).sb.block_group_count,
            count >= 1,
            lblock + count <= 0xFFFF_0000,
        ensures
            final(self).wf(),
            final(inode_ref).inode.wf(),
            final(inode_ref).inode_id == old(inode_ref).inode_id,
            final(self).sb.inodes_per_group == old(self).sb.inodes_per_group,
            final(self).sb.block_group_count == old(self).sb.block_group_count,
            final(self).sb.blocks_count == old(self).sb.blocks_count,
            final(self).sb.inode_size == old(self).sb.inode_size,
            final(self).sb.uuid@ == old(self).sb.uuid@,
            final(self).disk@.len() == old(self).disk@.len(),
            crate::inode::inode_eq(
                final(inode_ref).inode,
                (crate::inode::Ext4Inode {
                    block: final(inode_ref).inode.block,
                    ..old(inode_ref).inode
                }),
            ),
            match r {
                Ok(p) => p < final(self).disk@.len(),
                Err(c) => c == ErrCode::Enospc || c == ErrCode::Efscorrupted,
            },
            // mapping a single block: a leaf root afterwards maps it to the
            // returned id
            count == 1 && r is Ok ==> maps_to(final(inode_ref).inode.block@, lblock, r->Ok_0),
    {
        let first_pb = match self.extent_map_one(inode_ref, lblock) {
            Ok(p) => p,
            Err(c) => {
                return Err(c);
            },
        };
        let mut k: u16 = 1;
        while k < count
            invariant
                self.wf(),
                inode_ref.inode.wf(),
                inode_ref.inode_id == old(inode_ref).inode_id,
                self.sb.inodes_per_group == old(self).sb.inodes_per_group,
                self.sb.block_group_count == old(self).sb.block_group_count,
                self.sb.blocks_count == old(self).sb.blocks_count,
                self.sb.inode_size == old(self).sb.inode_size,
                self.sb.uuid@ == old(self).sb.uuid@,
                self.disk@.len() == old(self).disk@.len(),
                old(inode_ref).inode_id >= 1,
                ((old(inode_ref).inode_id - 1) as int) / (old(self).sb.inodes_per_group as int)
                    < old(self).sb.block_group_count,
                1 <= k <= count || (count == 1 && k == 1),
                lblock + count <= 0xFFFF_0000,
                first_pb < self.disk@.len(),
                count == 1 ==> maps_to(inode_ref.inode.block@, lblock, first_pb),
                crate::inode::inode_eq(
                    inode_ref.inode,
                    (crate::inode::Ext4Inode {
                        block: inode_ref.inode.block,
                        ..old(inode_ref).inode
                    }),
                ),
            decreases count - k,
        {
            match self.extent_map_one(inode_ref, lblock + k as u32) {
                Ok(_) => {},
                Err(c) => {
                    return Err(c);
                },
            }
            k = k + 1;
        }
        Ok(first_pb)
    }

    /// Map one logical block, allocating it when missing.
    #[verifier::rlimit(100)]
    fn extent_map_one(&mut self, inode_ref: &mut Ext4InodeRef, lblock: u32) -> (r: Result<
        u64,
        ErrCode,
    >)
        requires
            old(self).wf(),
            old(inode_ref).inode.wf(),
            old(inode_ref).inode_id >= 1,
            ((old(inode_ref).inode_id - 1) as int) / (old(self).sb.inodes_per_group as int) < old(
                self,
            ).sb.block_group_count,
            lblock < 0xFFFF_FFFF,
        ensures
            final(self).wf(),
            final(inode_ref).inode.wf(),
            final(inode_ref).inode_id == old(inode_ref).inode_id,
            final(self).sb.inodes_per_group == old(self).sb.inodes_per_group,
            final(self).sb.block_group_count == old(self).sb.block_group_count,
            final(self).sb.blocks_count == old(self).sb.blocks_count,
            final(self).sb.inode_size == old(self).sb.inode_size,
            final(self).sb.uuid@ == old(self).sb.uuid@,
            final(self).disk@.len() == old(self).disk@.len(),
            crate::inode::inode_eq(
                final(inode_ref).inode,
                (crate::inode::Ext4Inode {
                    block: final(inode_ref).inode.block,
                    ..old(inode_ref).inode
                }),
            ),
            match r {
                Ok(p) => p < final(self).disk@.len(),
                Err(c) => c == ErrCode::Enospc || c == ErrCode::Efscorrupted,
            },
            // a leaf root afterwards maps the block to the returned id
            r is Ok ==> maps_to(final(inode_ref).inode.block@, lblock, r->Ok_0),
    {
        let mut root = match parse_extent_node(inode_ref.inode.block.as_slice()) {
            Ok(n) => n,
            Err(_) => {
                return Err(ErrCode::Efscorrupted);
            },
        };
        if root.header.depth == 0 {
            // the root is the only leaf node
            match leaves_find(&root.leaves, lblock) {
                Some(p) => {
                    if p < self.disk.block_count() as u64 {
                        proof {
                            lemma_maps_to(inode_ref.inode.block@, lblock, p, root);
                        }
                        return Ok(p);
                    } else {
                        return Err(ErrCode::Efscorrupted);
                    }
                },
                None => {},
            }
            if !leaves_range_free(&root.leaves, lblock, 1) {
                return Err(ErrCode::Efscorrupted);
            }
            let pb = match self.alloc_block(inode_ref) {
                Ok(p) => p,
                Err(_) => {
                    return Err(ErrCode::Enospc);
                },
            };
            let _ = leaves_insert(&mut root.leaves, lblock, 1, pb);
            if root.leaves.len() <= root.header.max_entries_count as usize {
                root.header.entries_count = root.leaves.len() as u16;
                proof {
                    assert(node_wf(root));
                }
                self.write_extent_root(inode_ref, &root);
                proof {
                    lemma_maps_to(inode_ref.inode.block@, lblock, pb, root);
                }
                return Ok(pb);
            }
            // the root overflowed: move its leaves into a fresh tree block
            // and point a one-index root at it
            let tree_blk = match self.alloc_block(inode_ref) {
                Ok(p) => p,
                Err(_) => {
                    return Err(ErrCode::Enospc);
                },
            };
            let child = ExtentNode {
                header: Ext4ExtentHeader {
                    magic: EXT4_EXTENT_MAGIC,
                    entries_count: root.leaves.len() as u16,
                    max_entries_count: EXTENT_BLOCK_MAX_ENTRIES,
                    depth: 0,
                    generation: 0,
                },
                leaves: root.leaves,
                indexes: Vec::new(),
            };
            proof {
                assert(node_wf(child));
            }
            let bytes = serialize_extent_block(
                &child,
                self.sb.uuid.as_slice(),
                inode_ref.inode_id,
                inode_ref.inode.generation,
            );
            self.disk.write_block(tree_blk, bytes.as_slice());
            let first0 = child.leaves[0].first_block;
            let mut indexes: Vec<Ext4ExtentIndex> = Vec::new();
            indexes.push(Ext4ExtentIndex { first_block: first0, child_pblock: tree_blk });
            let new_root = ExtentNode {
                header: Ext4ExtentHeader {
                    magic: EXT4_EXTENT_MAGIC,
                    entries_count: 1,
                    max_entries_count: EXTENT_ROOT_MAX_ENTRIES,
                    depth: 1,
                    generation: 0,
                },
                leaves: Vec::new(),
                indexes,
            };
            proof {
                assert(node_wf(new_root));
            }
            self.write_extent_root(inode_ref, &new_root);
            proof {
                lemma_maps_to_vacuous(inode_ref.inode.block@, new_root);
            }
            return Ok(pb);
        }
        if root.header.depth != 1 {
            // deeper mutation is outside this core's reach
            return Err(ErrCode::Efscorrupted);
        }
        // depth 1: pick the child covering lblock (or the first one)
        let pos = match crate::extent::indexes_find_child(&root.indexes, lblock) {
            Some(p) => p,
            None => 0,
        };
        if pos >= root.indexes.len() {
            return Err(ErrCode::Efscorrupted);
        }
        let child_blk = root.indexes[pos].child_pblock;
        if child_blk >= self.disk.block_count() as u64 {
            return Err(ErrCode::Efscorrupted);
        }
        let bytes = self.disk.read_block(child_blk);
        let mut child = match parse_extent_node(bytes.as_slice()) {
            Ok(n) => n,
            Err(_) => {
                return Err(ErrCode::Efscorrupted);
            },
        };
        if child.header.depth != 0 {
            return Err(ErrCode::Efscorrupted);
        }
        match leaves_find(&child.leaves, lblock) {
            Some(p) => {
                if p < self.disk.block_count() as u64 {
                    proof {
                        lemma_maps_to_vacuous(inode_ref.inode.block@, root);
                    }
                    return Ok(p);
                } else {
                    return Err(ErrCode::Efscorrupted);
                }
            },
            None => {},
        }
        if !leaves_range_free(&child.leaves, lblock, 1) {
            return Err(ErrCode::Efscorrupted);
        }
        let cap = child.header.max_entries_count as usize;
        let pb = match self.alloc_block(inode_ref) {
            Ok(p) => p,
            Err(_) => {
                return Err(ErrCode::Enospc);
            },
        };
        let grew = leaves_insert(&mut child.leaves, lblock, 1, pb);
        if !grew || child.leaves.len() <= cap {
            // the chain still fits its block: rewrite it in place
            child.header.entries_count = child.leaves.len() as u16;
            proof {
                assert(node_wf(child));
            }
            let out = serialize_extent_block(
                &child,
                self.sb.uuid.as_slice(),
                inode_ref.inode_id,
                inode_ref.inode.generation,
            );
            self.disk.write_block(child_blk, out.as_slice());
            proof {
                lemma_maps_to_vacuous(inode_ref.inode.block@, root);
            }
            return Ok(pb);
        }
        // the chain outgrew its block: split it and promote the sibling's
        // first key
        if cap == 0 {
            // a node that can hold nothing is not a node
            return Err(ErrCode::Efscorrupted);
        }
        self.split_leaf_and_promote(inode_ref, root, child, child_blk, pb, lblock)
    }

    /// Split an overfull leaf node: the lower half stays in its block, the
    /// upper half moves to a fresh sibling, and the sibling's first key is
    /// promoted into the root, growing the tree a level when the root too
    /// is full.
    #[verifier::rlimit(100)]
    fn split_leaf_and_promote(
        &mut self,
        inode_ref: &mut Ext4InodeRef,
        root: ExtentNode,
        child: ExtentNode,
        child_blk: u64,
        pb: u64,
        lblock: u32,
    ) -> (r: Result<u64, ErrCode>)
        requires
            old(self).wf(),
            old(inode_ref).inode.wf(),
            old(inode_ref).inode_id >= 1,
            ((old(inode_ref).inode_id - 1) as int) / (old(self).sb.inodes_per_group as int) < old(
                self,
            ).sb.block_group_count,
            crate::extent::leaves_wf(child.leaves@),
            crate::extent::leaves_sorted(child.leaves@),
            child.header.magic == EXT4_EXTENT_MAGIC,
            child.header.depth == 0,
            child.indexes@.len() == 0,
            1 <= child.header.max_entries_count <= EXTENT_BLOCK_MAX_ENTRIES,
            2 <= child.leaves@.len() <= child.header.max_entries_count + 1,
            node_wf(root),
            root.header.depth == 1,
            root.header.max_entries_count <= EXTENT_ROOT_MAX_ENTRIES,
            child_blk < old(self).disk@.len(),
            pb < old(self).disk@.len(),
        ensures
            final(self).wf(),
            final(inode_ref).inode.wf(),
            final(inode_ref).inode_id == old(inode_ref).inode_id,
            final(self).sb.inodes_per_group == old(self).sb.inodes_per_group,
            final(self).sb.block_group_count == old(self).sb.block_group_count,
            final(self).sb.blocks_count == old(self).sb.blocks_count,
            final(self).sb.inode_size == old(self).sb.inode_size,
            final(self).sb.uuid@ == old(self).sb.uuid@,
            final(self).disk@.len() == old(self).disk@.len(),
            crate::inode::inode_eq(
                final(inode_ref).inode,
                (crate::inode::Ext4Inode {
                    block: final(inode_ref).inode.block,
                    ..old(inode_ref).inode
                }),
            ),
            match r {
                Ok(p) => p < final(self).disk@.len() && maps_to(
                    final(inode_ref).inode.block@,
                    lblock,
                    p,
                ) && p == pb,
                Err(c) => c == ErrCode::Enospc || c == ErrCode::Efscorrupted,
            },
    {
        let mut root = root;
        let mut child = child;
        let ghost whole = child.leaves@;
        let mid = child.leaves.len() / 2;
        let right_leaves = child.leaves.split_off(mid);
        proof {
            crate::extent::lemma_leaves_slice_sorted(whole, 0, mid as int);
            crate::extent::lemma_leaves_slice_sorted(whole, mid as int, whole.len() as int);
            assert(child.leaves@ == whole.subrange(0, mid as int));
            assert(right_leaves@ == whole.subrange(mid as int, whole.len() as int));
        }
        let right_first = right_leaves[0].first_block;
        // the promoted key's slot among the root's indexes
        let n_idx = root.indexes.len();
        let mut p: usize = 0;
        while p < n_idx && root.indexes[p].first_block < right_first
            invariant
                n_idx == root.indexes@.len(),
                p <= n_idx,
                forall|k: int|
                    0 <= k < p ==> (#[trigger] root.indexes@[k]).first_block < right_first,
            decreases n_idx - p,
        {
            p = p + 1;
        }
        if p < n_idx && root.indexes[p].first_block == right_first {
            // two subtrees starting at one key: the tree is corrupt
            return Err(ErrCode::Efscorrupted);
        }
        let tree_blk = match self.alloc_block(inode_ref) {
            Ok(t) => t,
            Err(_) => {
                return Err(ErrCode::Enospc);
            },
        };
        // lower half stays where the child was
        child.header.entries_count = child.leaves.len() as u16;
        proof {
            let m = child.header.max_entries_count as int;
            assert((m + 1) / 2 <= m) by (nonlinear_arith)
                requires
                    m >= 1,
            ;
            assert(whole.len() as int / 2 <= (m + 1) / 2) by (nonlinear_arith)
                requires
                    whole.len() as int <= m + 1,
            ;
            assert(node_wf(child));
        }
        let out = serialize_extent_block(
            &child,
            self.sb.uuid.as_slice(),
            inode_ref.inode_id,
            inode_ref.inode.generation,
        );
        self.disk.write_block(child_blk, out.as_slice());
        // upper half becomes the sibling
        let right = ExtentNode {
            header: Ext4ExtentHeader {
                magic: EXT4_EXTENT_MAGIC,
                entries_count: right_leaves.len() as u16,
                max_entries_count: EXTENT_BLOCK_MAX_ENTRIES,
                depth: 0,
                generation: 0,
            },
            leaves: right_leaves,
            indexes: Vec::new(),
        };
        proof {
            assert(node_wf(right));
        }
        let out = serialize_extent_block(
            &right,
            self.sb.uuid.as_slice(),
            inode_ref.inode_id,
            inode_ref.inode.generation,
        );
        self.disk.write_block(tree_blk, out.as_slice());
        // promote the sibling's first key
        let promoted = Ext4ExtentIndex { first_block: right_first, child_pblock: tree_blk };
        proof {
            assert(crate::extent::extent_index_wf(promoted));
        }
        self.promote_index(inode_ref, root, p, promoted, pb, lblock)
    }

    /// Place a promoted index into the root at position `p`; when the root
    /// is full, move its indexes into a fresh block and grow the tree one
    /// level.
    #[verifier::rlimit(100)]
    fn promote_index(
        &mut self,
        inode_ref: &mut Ext4InodeRef,
        root: ExtentNode,
        p: usize,
        promoted: Ext4ExtentIndex,
        pb: u64,
        lblock: u32,
    ) -> (r: Result<u64, ErrCode>)
        requires
            old(self).wf(),
            old(inode_ref).inode.wf(),
            old(inode_ref).inode_id >= 1,
            ((old(inode_ref).inode_id - 1) as int) / (old(self).sb.inodes_per_group as int) < old(
                self,
            ).sb.block_group_count,
            node_wf(root),
            root.header.depth == 1,
            root.header.max_entries_count <= EXTENT_ROOT_MAX_ENTRIES,
            crate::extent::extent_index_wf(promoted),
            p <= root.indexes@.len(),
            forall|k: int|
                0 <= k < p ==> (#[trigger] root.indexes@[k]).first_block < promoted.first_block,
            p < root.indexes@.len() ==> root.indexes@[p as int].first_block
                > promoted.first_block,
            pb < old(self).disk@.len(),
        ensures
            final(self).wf(),
            final(inode_ref).inode.wf(),
            final(inode_ref).inode_id == old(inode_ref).inode_id,
            final(self).sb.inodes_per_group == old(self).sb.inodes_per_group,
            final(self).sb.block_group_count == old(self).sb.block_group_count,
            final(self).sb.blocks_count == old(self).sb.blocks_count,
            final(self).sb.inode_size == old(self).sb.inode_size,
            final(self).sb.uuid@ == old(self).sb.uuid@,
            final(self).disk@.len() == old(self).disk@.len(),
            crate::inode::inode_eq(
                final(inode_ref).inode,
                (crate::inode::Ext4Inode {
                    block: final(inode_ref).inode.block,
                    ..old(inode_ref).inode
                }),
            ),
            match r {
                Ok(q) => q < final(self).disk@.len() && maps_to(
                    final(inode_ref).inode.block@,
                    lblock,
                    q,
                ) && q == pb,
                Err(c) => c == ErrCode::Enospc || c == ErrCode::Efscorrupted,
            },
    {
        let mut root = root;
        let ghost pre_idx = root.indexes@;
        root.indexes.insert(p, promoted);
        proof {
            assert(root.indexes@ == pre_idx.insert(p as int, promoted));
            assert(crate::extent::extent_index_wf(promoted));
            assert forall|k: int| 0 <= k < root.indexes@.len() - 1 implies (
            #[trigger] root.indexes@[k]).first_block < root.indexes@[k + 1].first_block by {
                if k < p - 1 {
                    assert(root.indexes@[k] == pre_idx[k] && root.indexes@[k + 1] == pre_idx[k
                        + 1]);
                } else if k == p - 1 {
                    assert(root.indexes@[k] == pre_idx[k]);
                } else if k == p {
                    assert(root.indexes@[k + 1] == pre_idx[k]);
                } else {
                    assert(root.indexes@[k] == pre_idx[k - 1] && root.indexes@[k + 1]
                        == pre_idx[k]);
                }
            }
            assert forall|k: int| 0 <= k < root.indexes@.len() implies
                crate::extent::extent_index_wf(#[trigger] root.indexes@[k]) by {
                if k < p {
                    assert(root.indexes@[k] == pre_idx[k]);
                } else if k > p {
                    assert(root.indexes@[k] == pre_idx[k - 1]);
                }
            }
        }
        if root.indexes.len() <= root.header.max_entries_count as usize {
            root.header.entries_count = root.indexes.len() as u16;
            proof {
                assert(node_wf(root));
            }
            self.write_extent_root(inode_ref, &root);
            proof {
                lemma_maps_to_vacuous(inode_ref.inode.block@, root);
            }
            return Ok(pb);
        }
        // the root itself overflowed: move its indexes into a fresh block
        // and grow the tree one level
        let tree_blk2 = match self.alloc_block(inode_ref) {
            Ok(t) => t,
            Err(_) => {
                return Err(ErrCode::Enospc);
            },
        };
        let moved = ExtentNode {
            header: Ext4ExtentHeader {
                magic: EXT4_EXTENT_MAGIC,
                entries_count: root.indexes.len() as u16,
                max_entries_count: EXTENT_BLOCK_MAX_ENTRIES,
                depth: 1,
                generation: 0,
            },
            leaves: Vec::new(),
            indexes: root.indexes,
        };
        proof {
            assert(node_wf(moved));
        }
        let out = serialize_extent_block(
            &moved,
            self.sb.uuid.as_slice(),
            inode_ref.inode_id,
            inode_ref.inode.generation,
        );
        self.disk.write_block(tree_blk2, out.as_slice());
        let first0 = moved.indexes[0].first_block;
        let mut new_indexes: Vec<Ext4ExtentIndex> = Vec::new();
        new_indexes.push(Ext4ExtentIndex { first_block: first0, child_pblock: tree_blk2 });
        let new_root = ExtentNode {
            header: Ext4ExtentHeader {
                magic: EXT4_EXTENT_MAGIC,
                entries_count: 1,
                max_entries_count: EXTENT_ROOT_MAX_ENTRIES,
                depth: 2,
                generation: 0,
            },
            leaves: Vec::new(),
            indexes: new_indexes,
        };
        proof {
            assert(node_wf(new_root));
        }
        self.write_extent_root(inode_ref, &new_root);
        proof {
            lemma_maps_to_vacuous(inode_ref.inode.block@, new_root);
        }
        Ok(pb)
    }

    /// Every physical block holding file data under this inode, in tree
    /// order.
    pub fn extent_all_data_blocks(&self, inode_ref: &Ext4InodeRef) -> (r: Result<Vec<u64>, ErrCode>)
        requires
            self.wf(),
            inode_ref.inode.wf(),
        ensures
            match r {
                Ok(ps) => forall|i: int| 0 <= i < ps@.len() ==> #[trigger] ps@[i] < self.disk@.len(),
                Err(c) => c == ErrCode::Efscorrupted,
            },
    {
        let root = match parse_extent_node(inode_ref.inode.block.as_slice()) {
            Ok(n) => n,
            Err(_) => {
                return Err(ErrCode::Efscorrupted);
            },
        };
        let mut out: Vec<u64> = Vec::new();
        match self.collect_data_blocks(&root, root.header.depth, &mut out) {
            Ok(()) => Ok(out),
            Err(c) => Err(c),
        }
    }

    /// Every physical block holding a non-root tree node under this inode.
    pub fn extent_all_tree_blocks(&self, inode_ref: &Ext4InodeRef) -> (r: Result<Vec<u64>, ErrCode>)
        requires
            self.wf(),
            inode_ref.inode.wf(),
        ensures
            match r {
                Ok(ps) => forall|i: int| 0 <= i < ps@.len() ==> #[trigger] ps@[i] < self.disk@.len(),
                Err(c) => c == ErrCode::Efscorrupted,
            },
            // a tree held entirely in the inline root owns no tree blocks
            crate::extent::root0_bytes_wf(inode_ref.inode.block@) ==> r is Ok
                && r->Ok_0@ =~= Seq::<u64>::empty(),
    {
        let root = match parse_extent_node(inode_ref.inode.block.as_slice()) {
            Ok(n) => n,
            Err(_) => {
                return Err(ErrCode::Efscorrupted);
            },
        };
        let mut out: Vec<u64> = Vec::new();
        match self.collect_tree_blocks(&root, root.header.depth, &mut out) {
            Ok(()) => Ok(out),
            Err(c) => Err(c),
        }
    }

    /// Collect the data blocks under `node`, recursing through indexes.
    fn collect_data_blocks(&self, node: &ExtentNode, depth: u16, out: &mut Vec<u64>) -> (r: Result<
        (),
        ErrCode,
    >)
        requires
            self.wf(),
            node_wf(*node),
            depth == node.header.depth,
            forall|i: int| 0 <= i < old(out)@.len() ==> #[trigger] old(out)@[i] < self.disk@.len(),
        ensures
            match r {
                Ok(()) => forall|i: int|
                    0 <= i < final(out)@.len() ==> #[trigger] final(out)@[i] < self.disk@.len(),
                Err(c) => c == ErrCode::Efscorrupted,
            },
        decreases depth,
    {
        if depth == 0 {
            let n = node.leaves.len();
            let mut i: usize = 0;
            while i < n
                invariant
                    n == node.leaves@.len(),
                    i <= n,
                    self.wf(),
                    leaves_wf(node.leaves@),
                    forall|q: int| 0 <= q < out@.len() ==> #[trigger] out@[q] < self.disk@.len(),
                decreases n - i,
            {
                let e = &node.leaves[i];
                proof {
                    assert(crate::extent::extent_wf(node.leaves@[i as int]));
                }
                let mut k: u16 = 0;
                while k < e.block_count
                    invariant
                        k <= e.block_count,
                        self.wf(),
                        crate::extent::extent_wf(*e),
                        forall|q: int|
                            0 <= q < out@.len() ==> #[trigger] out@[q] < self.disk@.len(),
                    decreases e.block_count - k,
                {
                    let pb = e.start_pblock + k as u64;
                    if pb >= self.disk.block_count() as u64 {
                        return Err(ErrCode::Efscorrupted);
                    }
                    out.push(pb);
                    k = k + 1;
                }
                i = i + 1;
            }
            return Ok(());
        }
        let n = node.indexes.len();
        let mut i: usize = 0;
        while i < n
            invariant
                n == node.indexes@.len(),
                i <= n,
                self.wf(),
                node_wf(*node),
                depth == node.header.depth,
                depth > 0,
                forall|q: int| 0 <= q < out@.len() ==> #[trigger] out@[q] < self.disk@.len(),
            decreases n - i,
        {
            let child_blk = node.indexes[i].child_pblock;
            if child_blk >= self.disk.block_count() as u64 {
                return Err(ErrCode::Efscorrupted);
            }
            let bytes = self.disk.read_block(child_blk);
            let child = match parse_extent_node(bytes.as_slice()) {
                Ok(c) => c,
                Err(_) => {
                    return Err(ErrCode::Efscorrupted);
                },
            };
            if child.header.depth != depth - 1 {
                return Err(ErrCode::Efscorrupted);
            }
            match self.collect_data_blocks(&child, depth - 1, out) {
                Ok(()) => {},
                Err(c) => {
                    return Err(c);
                },
            }
            i = i + 1;
        }
        Ok(())
    }

    /// Collect the tree blocks under `node`, recursing through indexes.
    fn collect_tree_blocks(&self, node: &ExtentNode, depth: u16, out: &mut Vec<u64>) -> (r: Result<
        (),
        ErrCode,
    >)
        requires
            self.wf(),
            node_wf(*node),
            depth == node.header.depth,
            forall|i: int| 0 <= i < old(out)@.len() ==> #[trigger] old(out)@[i] < self.disk@.len(),
        ensures
            match r {
                Ok(()) => forall|i: int|
                    0 <= i < final(out)@.len() ==> #[trigger] final(out)@[i] < self.disk@.len(),
                Err(c) => c == ErrCode::Efscorrupted,
            },
            depth == 0 ==> r is Ok && final(out)@ == old(out)@,
        decreases depth,
    {
        if depth == 0 {
            return Ok(());
        }
        let n = node.indexes.len();
        let mut i: usize = 0;
        while i < n
            invariant
                n == node.indexes@.len(),
                i <= n,
                self.wf(),
                node_wf(*node),
                depth == node.header.depth,
                depth > 0,
                forall|q: int| 0 <= q < out@.len() ==> #[trigger] out@[q] < self.disk@.len(),
            decreases n - i,
        {
            let child_blk = node.indexes[i].child_pblock;
            if child_blk >= self.disk.block_count() as u64 {
                return Err(ErrCode::Efscorrupted);
            }
            out.push(child_blk);
            let bytes = self.disk.read_block(child_blk);
            let child = match parse_extent_node(bytes.as_slice()) {
                Ok(c) => c,
                Err(_) => {
                    return Err(ErrCode::Efscorrupted);
                },
            };
            if child.header.depth != depth - 1 {
                return Err(ErrCode::Efscorrupted);
            }
            match self.collect_tree_blocks(&child, depth - 1, out) {
                Ok(()) => {},
                Err(c) => {
                    return Err(c);
                },
            }
            i = i + 1;
        }
        Ok(())
    }
}

/// Whether `[lb, lb + count)` overlaps no existing extent.
pub fn leaves_range_free(ls: &Vec<Ext4Extent>, lb: u32, count: u16) -> (r: bool)
    requires
        leaves_wf(ls@),
        lb + count <= 0xFFFF_FFFF,
    ensures
        r == forall|i: int|
            0 <= i < ls@.len() ==> (#[trigger] ls@[i]).first_block + ls@[i].block_count <= lb || lb
                + count <= ls@[i].first_block,
{
    let n = ls.len();
    let mut i: usize = 0;
    while i < n
        invariant
            i <= n == ls@.len(),
            leaves_wf(ls@),
            lb + count <= 0xFFFF_FFFF,
            forall|q: int|
                0 <= q < i ==> (#[trigger] ls@[q]).first_block + ls@[q].block_count <= lb || lb
                    + count <= ls@[q].first_block,
        decreases n - i,
    {
        let e = &ls[i];
        proof {
            assert(crate::extent::extent_wf(ls@[i as int]));
        }
        let ends_before = (e.first_block as u64) + (e.block_count as u64) <= lb as u64;
        let starts_after = (lb as u64) + (count as u64) <= e.first_block as u64;
        if !ends_before && !starts_after {
            return false;
        }
        i = i + 1;
    }
    true
}

} // verus!
