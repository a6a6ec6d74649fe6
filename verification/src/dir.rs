//! Directory operations: find, add, remove, list entries of a directory
//! inode whose data blocks hold packed entry chains with checksummed tails.
//!
//! Adding first tries to split an entry with enough slack in an existing
//! block; only when every block is full is a fresh data block appended and
//! initialized with a single spanning entry. Removing tombstones the entry
//! in place, keeping the chain walkable. Every block write recomputes the
//! tail's keyed checksum.

use vstd::prelude::*;

use crate::block::Ext4Block;
use crate::dir_entry::{dblock_contains, dblock_entries_wf, dblock_find, dblock_region_matches,
    de_byte_of_file_type, dir_block_csum_valid, find_entry_index, insert_entry_split,
    parse_dir_block, remove_entry_tombstone, serialize_dir_block, Ext4DirEntry,
    DIR_CONTENT_SIZE};
use crate::fs::Ext4;
use crate::inode::Ext4InodeRef;
use crate::{ErrCode, BLOCK_SIZE};

verus! {

/// A directory block carries a well-formed entry chain and a valid keyed
/// tail checksum.
pub open spec fn dir_block_wf(s: Seq<u8>, uuid: Seq<u8>, dir_ino: u32, gen: u32) -> bool {
    exists|es: Seq<Ext4DirEntry>|
        {
            &&& #[trigger] dblock_entries_wf(es)
            &&& dblock_region_matches(es, s)
            &&& dir_block_csum_valid(uuid, dir_ino, gen, s)
        }
}

/// A directory block's chain binds `name`: the first live entry so named
/// carries inode `ino`. (Stated without the checksum conjunct: the read
/// path does not verify checksums.)
pub open spec fn dir_block_has_binding(s: Seq<u8>, name: Seq<u8>, ino: u32) -> bool {
    exists|es: Seq<Ext4DirEntry>|
        {
            &&& #[trigger] dblock_entries_wf(es)
            &&& dblock_region_matches(es, s)
            &&& match dblock_find(es, name) {
                Some(i) => es[i].inode == ino,
                None => false,
            }
        }
}

/// A directory block additionally holds a live entry named `name`.
pub open spec fn dir_block_has_name(
    s: Seq<u8>,
    uuid: Seq<u8>,
    dir_ino: u32,
    gen: u32,
    name: Seq<u8>,
) -> bool {
    exists|es: Seq<Ext4DirEntry>|
        {
            &&& #[trigger] dblock_entries_wf(es)
            &&& dblock_region_matches(es, s)
            &&& dir_block_csum_valid(uuid, dir_ino, gen, s)
            &&& dblock_contains(es, name)
        }
}

/// Logical block `lb` of the directory resolves, through its leaf root, to
/// an on-device block holding well-formed chain bytes.
pub open spec fn dir_lb_ok(fs: Ext4, dir: Ext4InodeRef, lb: u32) -> bool {
    match crate::extent::root_leaves_lookup(dir.inode.block@, 0, lb) {
        Some(pb) => pb < fs.disk@.len() && crate::dir_entry::dblock_bytes_wf(
            fs.disk@[pb as int],
        ),
        None => false,
    }
}

/// A readable directory: its inline area holds a well-formed leaf extent
/// root, and every logical block under its block count resolves to a
/// well-formed directory block on the device.
pub open spec fn dir_ok(fs: Ext4, dir: Ext4InodeRef) -> bool {
    &&& crate::extent::root0_bytes_wf(dir.inode.block@)
    &&& forall|lb: u32| lb < dir.inode.blocks ==> #[trigger] dir_lb_ok(fs, dir, lb)
}

/// The inode the directory resolves `name` to, scanning logical blocks
/// from `lb` on and taking the first live match in (block, offset) order;
/// meaningful under `dir_ok`.
pub open spec fn dir_find_spec(fs: Ext4, dir: Ext4InodeRef, name: Seq<u8>, lb: u32) -> Option<u32>
    decreases dir.inode.blocks - lb
        when lb <= dir.inode.blocks
{
    if lb >= dir.inode.blocks {
        None
    } else {
        let pb = crate::extent::root_leaves_lookup(dir.inode.block@, 0, lb)->Some_0;
        match crate::dir_entry::chain_find_live(fs.disk@[pb as int], 0, name) {
            Some(ino) => Some(ino),
            None => dir_find_spec(fs, dir, name, (lb + 1) as u32),
        }
    }
}

/// When the directory resolves `name` nowhere, no block's chain holds a
/// live match.
proof fn lemma_dir_find_none(fs: Ext4, dir: Ext4InodeRef, name: Seq<u8>, lb: u32)
    requires
        dir_find_spec(fs, dir, name, 0) is None,
        lb < dir.inode.blocks,
    ensures
        crate::dir_entry::chain_find_live(
            fs.disk@[crate::extent::root_leaves_lookup(dir.inode.block@, 0, lb)->Some_0 as int],
            0,
            name,
        ) is None,
{
    lemma_dir_find_none_from(fs, dir, name, 0, lb);
}

/// The scan variant of the above, from block `at` up to `lb`.
proof fn lemma_dir_find_none_from(fs: Ext4, dir: Ext4InodeRef, name: Seq<u8>, at: u32, lb: u32)
    requires
        dir_find_spec(fs, dir, name, at) is None,
        at <= lb < dir.inode.blocks,
    ensures
        crate::dir_entry::chain_find_live(
            fs.disk@[crate::extent::root_leaves_lookup(dir.inode.block@, 0, lb)->Some_0 as int],
            0,
            name,
        ) is None,
    decreases lb - at,
{
    if at < lb {
        lemma_dir_find_none_from(fs, dir, name, (at + 1) as u32, lb);
    }
}

/// After one block's chain is rewritten to resolve `name` to `child` while
/// every other block's chain still resolves it nowhere, the directory
/// resolves `name` to `child`.
proof fn lemma_dir_find_after_write(
    pre: Ext4,
    post: Ext4,
    dir: Ext4InodeRef,
    name: Seq<u8>,
    fblock: u64,
    child: u32,
    at: u32,
    hit: u32,
)
    requires
        post.disk@ == pre.disk@.update(fblock as int, post.disk@[fblock as int]),
        0 <= fblock < pre.disk@.len(),
        crate::dir_entry::chain_find_live(post.disk@[fblock as int], 0, name) == Some(child),
        dir_ok(pre, dir),
        dir_find_spec(pre, dir, name, 0) is None,
        at <= hit < dir.inode.blocks,
        crate::extent::root_leaves_lookup(dir.inode.block@, 0, hit) == Some(fblock),
    ensures
        dir_find_spec(post, dir, name, at) == Some(child),
    decreases dir.inode.blocks - at,
{
    assert(dir_lb_ok(pre, dir, at));
    let pb = crate::extent::root_leaves_lookup(dir.inode.block@, 0, at)->Some_0;
    if pb == fblock {
        assert(dir_find_spec(post, dir, name, at) == Some(child));
    } else {
        lemma_dir_find_none(pre, dir, name, at);
        assert(post.disk@[pb as int] == pre.disk@[pb as int]);
        assert(at < hit);
        lemma_dir_find_after_write(pre, post, dir, name, fblock, child, (at + 1) as u32, hit);
    }
}

/// Splitting a fresh entry for `child` named `name` into one mapped block
/// of a readable directory that did not resolve the name leaves a readable
/// directory that resolves it to `child`.
#[verifier::rlimit(100)]
proof fn lemma_add_in_place(
    pre: Ext4,
    post: Ext4,
    dir: Ext4InodeRef,
    name: Seq<u8>,
    child: u32,
    iblock: u32,
    fblock: u64,
    oldbytes: Seq<u8>,
    newbytes: Seq<u8>,
)
    requires
        dir_ok(pre, dir),
        dir_find_spec(pre, dir, name, 0) is None,
        child != 0,
        iblock < dir.inode.blocks,
        crate::extent::root_leaves_lookup(dir.inode.block@, 0, iblock) == Some(fblock),
        fblock < pre.disk@.len(),
        oldbytes == pre.disk@[fblock as int],
        post.disk@ == pre.disk@.update(fblock as int, newbytes),
        newbytes == post.disk@[fblock as int],
        exists|es0: Seq<Ext4DirEntry>, es1: Seq<Ext4DirEntry>, i: int|
            {
                &&& #[trigger] crate::dir_entry::split_inserted(es0, es1, i, child, name)
                &&& dblock_entries_wf(es0)
                &&& dblock_region_matches(es0, oldbytes)
                &&& dblock_entries_wf(es1)
                &&& dblock_region_matches(es1, newbytes)
            },
        newbytes.len() == BLOCK_SIZE,
    ensures
        dir_ok(post, dir),
        dir_find_spec(post, dir, name, 0) == Some(child),
{
    let (es0, es1, i) = choose|es0: Seq<Ext4DirEntry>, es1: Seq<Ext4DirEntry>, i: int|
        {
            &&& #[trigger] crate::dir_entry::split_inserted(es0, es1, i, child, name)
            &&& dblock_entries_wf(es0)
            &&& dblock_region_matches(es0, oldbytes)
            &&& dblock_entries_wf(es1)
            &&& dblock_region_matches(es1, newbytes)
        };
    // the block did not hold the name before
    assert(dir_lb_ok(pre, dir, iblock));
    lemma_dir_find_none(pre, dir, name, iblock);
    crate::dir_entry::lemma_chain_find_matches(es0, oldbytes, name, 0);
    assert(!dblock_contains(es0, name));
    // now it resolves the name to the child
    crate::dir::lemma_split_insert_finds(es0, es1, i, name, child);
    crate::dir_entry::lemma_chain_find_matches(es1, newbytes, name, 0);
    assert(crate::dir_entry::chain_find_live(newbytes, 0, name) == Some(child));
    // the rewritten block is still a well-formed directory block
    crate::dir_entry::lemma_chain_wf_from_entries(es1, newbytes, 0);
    assert(crate::dir_entry::dblock_bytes_wf(newbytes));
    // every mapped block still resolves to well-formed bytes
    assert forall|lb: u32| lb < dir.inode.blocks implies #[trigger] dir_lb_ok(post, dir, lb) by {
        assert(dir_lb_ok(pre, dir, lb));
        let pb = crate::extent::root_leaves_lookup(dir.inode.block@, 0, lb)->Some_0;
        if pb != fblock {
            assert(post.disk@[pb as int] == pre.disk@[pb as int]);
        }
    }
    lemma_dir_find_after_write(pre, post, dir, name, fblock, child, 0, iblock);
}

/// The (inode, name) pairs of the directory's live entries, blocks in
/// logical order, entries in offset order; meaningful under `dir_ok`.
pub open spec fn dir_live_list(fs: Ext4, dir: Ext4InodeRef, lb: u32) -> Seq<(u32, Seq<u8>)>
    decreases dir.inode.blocks - lb
        when lb <= dir.inode.blocks
{
    if lb >= dir.inode.blocks {
        Seq::empty()
    } else {
        let pb = crate::extent::root_leaves_lookup(dir.inode.block@, 0, lb)->Some_0;
        crate::dir_entry::chain_live_list(fs.disk@[pb as int], 0) + dir_live_list(
            fs,
            dir,
            (lb + 1) as u32,
        )
    }
}

/// One collection step: after appending one block's live pairs to a
/// prefix that matches the directory listing, the longer prefix still
/// matches and the remainder shrinks by that block.
#[verifier::spinoff_prover]
proof fn lemma_collect_step(
    lst: Seq<(u32, Seq<u8>)>,
    here: Seq<(u32, Seq<u8>)>,
    rest: Seq<(u32, Seq<u8>)>,
    pre: Seq<Ext4DirEntry>,
    post: Seq<Ext4DirEntry>,
)
    requires
        pre.len() <= lst.len(),
        lst.skip(pre.len() as int) == here + rest,
        post.len() == pre.len() + here.len(),
        forall|q: int| 0 <= q < pre.len() ==> post[q] == #[trigger] pre[q],
        forall|k: int|
            0 <= k < pre.len() ==> (#[trigger] pre[k]).inode == lst[k].0 && pre[k].name@
                == lst[k].1,
        forall|j: int|
            0 <= j < here.len() ==> post[pre.len() + j].inode == (#[trigger] here[j]).0
                && post[pre.len() + j].name@ == here[j].1,
    ensures
        post.len() + rest.len() == lst.len(),
        lst.skip(post.len() as int) == rest,
        forall|k: int|
            0 <= k < post.len() ==> (#[trigger] post[k]).inode == lst[k].0 && post[k].name@
                == lst[k].1,
{
    assert(lst.skip(pre.len() as int).len() == lst.len() - pre.len());
    assert forall|k: int| 0 <= k < post.len() implies (#[trigger] post[k]).inode == lst[k].0
        && post[k].name@ == lst[k].1 by {
        if k < pre.len() {
            assert(post[k] == pre[k]);
            assert(pre[k].inode == lst[k].0 && pre[k].name@ == lst[k].1);
        } else {
            let j = k - pre.len();
            assert(0 <= j < here.len());
            assert(post[pre.len() + j].inode == here[j].0 && post[pre.len() + j].name@
                == here[j].1);
            assert(lst.skip(pre.len() as int)[j] == lst[pre.len() + j]);
            assert((here + rest)[j] == here[j]);
        }
    }
    assert forall|m: int| 0 <= m < rest.len() implies lst.skip(post.len() as int)[m]
        == rest[m] by {
        assert(lst.skip(post.len() as int)[m] == lst[post.len() + m]);
        assert(lst.skip(pre.len() as int)[here.len() + m] == lst[pre.len() + (here.len() + m)]);
        assert((here + rest)[here.len() + m] == rest[m]);
    }
    assert(lst.skip(post.len() as int).len() == rest.len());
    assert(lst.skip(post.len() as int) =~= rest);
}

/// The live listing never outruns the records it reads.
proof fn lemma_entries_live_len(es: Seq<Ext4DirEntry>, k: int)
    requires
        0 <= k <= es.len(),
    ensures
        crate::dir_entry::entries_live_list(es, k).len() <= es.len() - k,
    decreases es.len() - k,
{
    if k < es.len() {
        lemma_entries_live_len(es, k + 1);
    }
}

impl Ext4 {
    /// Find the first live entry named `name` in one directory block.
    pub fn find_entry_in_block(block: &Ext4Block, name: &[u8]) -> (r: Option<Ext4DirEntry>)
        requires
            block.wf(),
        ensures
            match r {
                Some(e) => {
                    &&& e.name@ == name@
                    &&& e.inode != 0
                    &&& dir_block_has_binding(block.block_data@, name@, e.inode)
                    &&& crate::dir_entry::dblock_bytes_wf(block.block_data@)
                    &&& crate::dir_entry::chain_find_live(block.block_data@, 0, name@) == Some(
                        e.inode,
                    )
                },
                // nothing found: either the bytes are malformed or the
                // chain holds no live match
                None => !crate::dir_entry::dblock_bytes_wf(block.block_data@)
                    || crate::dir_entry::chain_find_live(block.block_data@, 0, name@) is None,
            },
    {
        let es = match parse_dir_block(block.block_data.as_slice()) {
            Ok(es) => es,
            Err(_) => {
                return None;
            },
        };
        proof {
            crate::dir_entry::lemma_chain_find_matches(es@, block.block_data@, name@, 0);
        }
        match find_entry_index(&es, name) {
            Some(i) => {
                proof {
                    crate::dir_entry::lemma_dblock_find_from_spec(es@, name@, 0);
                }
                let e = es[i].clone_entry();
                proof {
                    assert(dblock_entries_wf(es@) && dblock_region_matches(
                        es@,
                        block.block_data@,
                    ) && (match dblock_find(es@, name@) {
                        Some(j) => es@[j].inode == e.inode,
                        None => false,
                    }));
                }
                Some(e)
            },
            None => None,
        }
    }

    /// Tombstone the first live entry named `name` in one directory block,
    /// recomputing the tail checksum. Returns whether an entry was removed;
    /// the block is unchanged otherwise.
    pub fn remove_entry_from_block(
        block: &mut Ext4Block,
        uuid: &[u8],
        dir_ino: u32,
        gen: u32,
        name: &[u8],
    ) -> (r: bool)
        requires
            old(block).wf(),
        ensures
            final(block).wf(),
            final(block).disk_block_id == old(block).disk_block_id,
            !r ==> final(block).block_data@ == old(block).block_data@,
            // removal happens exactly when the bytes are well-formed and a
            // live match exists
            r == (crate::dir_entry::dblock_bytes_wf(old(block).block_data@)
                && crate::dir_entry::chain_find_live(
                old(block).block_data@,
                0,
                name@,
            ) is Some),
            r ==> dir_block_wf(final(block).block_data@, uuid@, dir_ino, gen),
            // on removal the new chain is the old one with its first live
            // match tombstoned
            r ==> exists|es0: Seq<Ext4DirEntry>, es1: Seq<Ext4DirEntry>|
                {
                    &&& #[trigger] crate::dir_entry::tombstoned(es0, es1, name@)
                    &&& dblock_entries_wf(es0)
                    &&& dblock_region_matches(es0, old(block).block_data@)
                    &&& dblock_entries_wf(es1)
                    &&& dblock_region_matches(es1, final(block).block_data@)
                    &&& dir_block_csum_valid(uuid@, dir_ino, gen, final(block).block_data@)
                },
    {
        let mut es = match parse_dir_block(block.block_data.as_slice()) {
            Ok(es) => es,
            Err(_) => {
                return false;
            },
        };
        let ghost es0 = es@;
        proof {
            crate::dir_entry::lemma_chain_find_matches(es0, block.block_data@, name@, 0);
        }
        let removed = remove_entry_tombstone(&mut es, name);
        if !removed {
            return false;
        }
        let bytes = serialize_dir_block(&es, uuid, dir_ino, gen);
        proof {
            assert(crate::dir_entry::tombstoned(es0, es@, name@));
            assert(dblock_entries_wf(es@) && dblock_region_matches(es@, bytes@)
                && dir_block_csum_valid(uuid@, dir_ino, gen, bytes@));
        }
        block.block_data = bytes;
        true
    }

    /// Collect the live entries of one directory block: exactly the
    /// chain's live entries, in offset order, appended after what the
    /// vector already held. Malformed bytes append nothing.
    pub fn get_all_entries_from_block(block: &Ext4Block, entries: &mut Vec<Ext4DirEntry>)
        requires
            block.wf(),
        ensures
            final(entries)@.len() >= old(entries)@.len(),
            forall|i: int|
                0 <= i < old(entries)@.len() ==> final(entries)@[i] == old(entries)@[i],
            forall|i: int|
                old(entries)@.len() <= i < final(entries)@.len()
                    ==> #[trigger] final(entries)@[i].inode != 0,
            !crate::dir_entry::dblock_bytes_wf(block.block_data@) ==> final(entries)@ == old(
                entries,
            )@,
            crate::dir_entry::dblock_bytes_wf(block.block_data@) ==> {
                &&& final(entries)@.len() == old(entries)@.len()
                    + crate::dir_entry::chain_live_list(block.block_data@, 0).len()
                &&& forall|k: int|
                    0 <= k < crate::dir_entry::chain_live_list(block.block_data@, 0).len()
                        ==> final(entries)@[old(entries)@.len() + k].inode
                        == #[trigger] crate::dir_entry::chain_live_list(
                        block.block_data@,
                        0,
                    )[k].0 && final(entries)@[old(entries)@.len() + k].name@
                        == crate::dir_entry::chain_live_list(block.block_data@, 0)[k].1
            },
    {
        let es = match parse_dir_block(block.block_data.as_slice()) {
            Ok(es) => es,
            Err(_) => {
                return ;
            },
        };
        let ghost lst = crate::dir_entry::entries_live_list(es@, 0);
        proof {
            crate::dir_entry::lemma_chain_live_matches(es@, block.block_data@, 0);
            lemma_entries_live_len(es@, 0);
            assert(lst.skip(0) =~= lst);
        }
        let n = es.len();
        let mut i: usize = 0;
        while i < n
            invariant
                n == es@.len(),
                i <= n,
                entries@.len() >= old(entries)@.len(),
                entries@.len() - old(entries)@.len() + crate::dir_entry::entries_live_list(
                    es@,
                    i as int,
                ).len() == lst.len(),
                lst.skip(entries@.len() - old(entries)@.len())
                    == crate::dir_entry::entries_live_list(es@, i as int),
                forall|q: int|
                    0 <= q < old(entries)@.len() ==> entries@[q] == old(entries)@[q],
                forall|q: int|
                    old(entries)@.len() <= q < entries@.len() ==> (#[trigger] entries@[q]).inode
                        != 0,
                forall|k: int|
                    0 <= k < entries@.len() - old(entries)@.len() ==> #[trigger] entries@[old(
                        entries,
                    )@.len() + k].inode == lst[k].0 && entries@[old(entries)@.len() + k].name@
                        == lst[k].1,
            decreases n - i,
        {
            let ghost done = entries@.len() - old(entries)@.len();
            if es[i].inode != 0 {
                entries.push(es[i].clone_entry());
                proof {
                    let rest = crate::dir_entry::entries_live_list(es@, i as int);
                    assert(rest == seq![(es@[i as int].inode, es@[i as int].name@)]
                        + crate::dir_entry::entries_live_list(es@, i + 1));
                    assert(rest[0] == (es@[i as int].inode, es@[i as int].name@));
                    assert(lst.skip(done)[0] == lst[done]);
                    assert(lst.skip(done + 1) =~= lst.skip(done).drop_first());
                    assert(lst.skip(done).drop_first() =~= rest.drop_first());
                    assert(rest.drop_first() =~= crate::dir_entry::entries_live_list(
                        es@,
                        i + 1,
                    ));
                }
            }
            i = i + 1;
        }
        proof {
            assert(crate::dir_entry::entries_live_list(es@, n as int).len() == 0);
        }
    }

    /// Try to place an entry for `child` named `name` into an existing
    /// directory block by splitting the first entry with enough slack.
    ///
    /// On success the block holds the new entry with a fresh tail checksum
    /// and has been written to the device; an untouched block means no
    /// entry had room.
    pub fn insert_entry_to_old_block(
        &mut self,
        dir: &Ext4InodeRef,
        child: &Ext4InodeRef,
        name: &[u8],
        dst_blk: &mut Ext4Block,
    ) -> (r: bool)
        requires
            old(self).wf(),
            old(dst_blk).wf(),
            old(dst_blk).disk_block_id < old(self).disk@.len(),
            name@.len() <= 255,
            child.inode_id >= 1,
        ensures
            final(self).wf(),
            final(dst_blk).wf(),
            final(dst_blk).disk_block_id == old(dst_blk).disk_block_id,
            final(self).sb == old(self).sb,
            final(self).groups@ == old(self).groups@,
            final(self).block_bitmaps@ == old(self).block_bitmaps@,
            final(self).inode_bitmaps@ == old(self).inode_bitmaps@,
            final(self).disk@.len() == old(self).disk@.len(),
            !r ==> final(self).disk@ == old(self).disk@,
            !r ==> final(dst_blk).block_data@ == old(dst_blk).block_data@,
            // nothing placed exactly when the bytes are malformed or no
            // record has the needed slack
            !r ==> !crate::dir_entry::dblock_bytes_wf(old(dst_blk).block_data@)
                || !crate::dir_entry::chain_has_slack(
                old(dst_blk).block_data@,
                0,
                crate::dir_entry::DIR_ENTRY_HEADER_SIZE as int + crate::dir_entry::align4(
                    name@.len() as int,
                ),
            ),
            r ==> dir_block_has_name(
                final(dst_blk).block_data@,
                old(self).sb.uuid@,
                dir.inode_id,
                dir.inode.generation,
                name@,
            ),
            // on success the new chain is the old one with one entry split
            // to make room for the fresh entry
            r ==> exists|es0: Seq<Ext4DirEntry>, es1: Seq<Ext4DirEntry>, i: int|
                {
                    &&& #[trigger] crate::dir_entry::split_inserted(
                        es0,
                        es1,
                        i,
                        child.inode_id,
                        name@,
                    )
                    &&& dblock_entries_wf(es0)
                    &&& dblock_region_matches(es0, old(dst_blk).block_data@)
                    &&& dblock_entries_wf(es1)
                    &&& dblock_region_matches(es1, final(dst_blk).block_data@)
                    &&& dir_block_csum_valid(
                        old(self).sb.uuid@,
                        dir.inode_id,
                        dir.inode.generation,
                        final(dst_blk).block_data@,
                    )
                },
            r ==> final(self).disk@ == old(self).disk@.update(
                old(dst_blk).disk_block_id as int,
                final(dst_blk).block_data@,
            ),
    {
        let mut es = match parse_dir_block(dst_blk.block_data.as_slice()) {
            Ok(es) => es,
            Err(_) => {
                return false;
            },
        };
        let ghost es0 = es@;
        proof {
            crate::dir_entry::lemma_chain_slack_matches(
                es0,
                dst_blk.block_data@,
                crate::dir_entry::DIR_ENTRY_HEADER_SIZE as int + crate::dir_entry::align4(
                    name@.len() as int,
                ),
                0,
            );
        }
        let ftype = de_byte_of_file_type(child.inode.file_type());
        let placed = insert_entry_split(&mut es, child.inode_id, ftype, name);
        let i = match placed {
            Some(i) => i,
            None => {
                proof {
                    crate::dir_entry::lemma_no_slack(
                        es0,
                        0,
                        crate::dir_entry::DIR_ENTRY_HEADER_SIZE as int + crate::dir_entry::align4(
                            name@.len() as int,
                        ),
                    );
                }
                return false;
            },
        };
        proof {
            lemma_match_gives_contains(es@, i + 1, name@);
            assert(crate::dir_entry::split_inserted(es0, es@, i as int, child.inode_id, name@));
        }
        let bytes = serialize_dir_block(
            &es,
            self.sb.uuid.as_slice(),
            dir.inode_id,
            dir.inode.generation,
        );
        proof {
            assert(dblock_entries_wf(es@) && dblock_region_matches(es@, bytes@)
                && dir_block_csum_valid(
                self.sb.uuid@,
                dir.inode_id,
                dir.inode.generation,
                bytes@,
            ) && dblock_contains(es@, name@));
        }
        dst_blk.block_data = bytes;
        self.disk.write_block(dst_blk.disk_block_id, dst_blk.block_data.as_slice());
        true
    }

    /// Initialize a fresh directory block with a single entry for `child`
    /// spanning the whole content region, write the tail, and flush the
    /// block to the device.
    pub fn insert_entry_to_new_block(
        &mut self,
        dir: &Ext4InodeRef,
        child: &Ext4InodeRef,
        name: &[u8],
        dst_blk: &mut Ext4Block,
    )
        requires
            old(self).wf(),
            old(dst_blk).wf(),
            old(dst_blk).disk_block_id < old(self).disk@.len(),
            name@.len() <= 255,
            child.inode_id >= 1,
        ensures
            final(self).wf(),
            final(dst_blk).wf(),
            final(dst_blk).disk_block_id == old(dst_blk).disk_block_id,
            final(self).sb == old(self).sb,
            final(self).groups@ == old(self).groups@,
            final(self).block_bitmaps@ == old(self).block_bitmaps@,
            final(self).inode_bitmaps@ == old(self).inode_bitmaps@,
            final(self).disk@.len() == old(self).disk@.len(),
            dir_block_has_name(
                final(dst_blk).block_data@,
                old(self).sb.uuid@,
                dir.inode_id,
                dir.inode.generation,
                name@,
            ),
            // the fresh block's exact shape: one live entry spanning the
            // whole content region, then the checksummed tail
            exists|es: Seq<Ext4DirEntry>|
                {
                    &&& #[trigger] dblock_entries_wf(es)
                    &&& dblock_region_matches(es, final(dst_blk).block_data@)
                    &&& dir_block_csum_valid(
                        old(self).sb.uuid@,
                        dir.inode_id,
                        dir.inode.generation,
                        final(dst_blk).block_data@,
                    )
                    &&& es.len() == 1
                    &&& es[0].inode == child.inode_id
                    &&& es[0].entry_len == DIR_CONTENT_SIZE as u16
                    &&& es[0].name@ == name@
                    &&& es[0].name_len == name@.len()
                    &&& es[0].file_type == crate::dir_entry::spec_de_byte_of_file_type(
                        crate::inode::spec_file_type_of_mode(child.inode.mode),
                    )
                },
            final(self).disk@ == old(self).disk@.update(
                old(dst_blk).disk_block_id as int,
                final(dst_blk).block_data@,
            ),
    {
        let ftype = de_byte_of_file_type(child.inode.file_type());
        let entry = Ext4DirEntry::new(
            child.inode_id,
            DIR_CONTENT_SIZE as u16,
            name,
            ftype,
        );
        let mut es: Vec<Ext4DirEntry> = Vec::new();
        es.push(entry);
        proof {
            assert(es@.len() == 1 && es@[0].entry_len == DIR_CONTENT_SIZE as u16);
            assert(crate::dir_entry::entries_size(es@, 0) == 0);
            assert(crate::dir_entry::entries_size(es@, 1) == DIR_CONTENT_SIZE);
            assert(crate::dir_entry::de_wf(es@[0]));
            assert(dblock_entries_wf(es@));
            assert(dblock_find(es@, name@) == Some(0int));
        }
        let bytes = serialize_dir_block(
            &es,
            self.sb.uuid.as_slice(),
            dir.inode_id,
            dir.inode.generation,
        );
        proof {
            assert(dblock_entries_wf(es@) && dblock_region_matches(es@, bytes@)
                && dir_block_csum_valid(
                self.sb.uuid@,
                dir.inode_id,
                dir.inode.generation,
                bytes@,
            ) && dblock_contains(es@, name@));
        }
        dst_blk.block_data = bytes;
        self.disk.write_block(dst_blk.disk_block_id, dst_blk.block_data.as_slice());
    }

    /// Find the entry named `name` under a directory: walk its data blocks
    /// in logical order and take the first live match. `ENOENT` when no
    /// block holds one.
    pub fn dir_find_entry(&self, dir: &Ext4InodeRef, name: &[u8]) -> (r: Result<
        Ext4DirEntry,
        ErrCode,
    >)
        requires
            self.wf(),
            dir.inode.wf(),
        ensures
            match r {
                Ok(e) => {
                    &&& e.name@ == name@
                    &&& e.inode != 0
                    // some block on the device binds the name to the
                    // returned inode through a well-formed chain
                    &&& exists|b: int|
                        0 <= b < self.disk@.len() && #[trigger] dir_block_has_binding(
                            self.disk@[b],
                            name@,
                            e.inode,
                        )
                },
                Err(c) => c == ErrCode::Enoent || c == ErrCode::Efscorrupted,
            },
            // a readable directory owes the exact answer: the first live
            // match in (logical block, offset) order, or ENOENT when no
            // block of the directory holds one
            dir_ok(*self, *dir) ==> match r {
                Ok(e) => dir_find_spec(*self, *dir, name@, 0) == Some(e.inode),
                Err(c) => c == ErrCode::Enoent && dir_find_spec(*self, *dir, name@, 0) is None,
            },
    {
        let total_blocks = dir.inode.blocks;
        let mut iblock: u32 = 0;
        while iblock < total_blocks
            invariant
                self.wf(),
                dir.inode.wf(),
                iblock <= total_blocks == dir.inode.blocks,
                dir_ok(*self, *dir) ==> dir_find_spec(*self, *dir, name@, 0) == dir_find_spec(
                    *self,
                    *dir,
                    name@,
                    iblock,
                ),
            decreases total_blocks - iblock,
        {
            proof {
                if dir_ok(*self, *dir) {
                    assert(dir_lb_ok(*self, *dir, iblock));
                }
            }
            let fblock = match self.extent_query(dir, iblock) {
                Ok(p) => p,
                Err(c) => {
                    return Err(c);
                },
            };
            let data = self.disk.read_block(fblock);
            let block = Ext4Block {
                logical_block_id: iblock,
                disk_block_id: fblock,
                block_data: data,
                dirty: false,
            };
            match Ext4::find_entry_in_block(&block, name) {
                Some(e) => {
                    proof {
                        assert(dir_block_has_binding(self.disk@[fblock as int], name@, e.inode));
                        assert(exists|b: int|
                            0 <= b < self.disk@.len() && #[trigger] dir_block_has_binding(
                                self.disk@[b],
                                name@,
                                e.inode,
                            ));
                        if dir_ok(*self, *dir) {
                            assert(dir_find_spec(*self, *dir, name@, iblock) == Some(e.inode));
                        }
                    }
                    return Ok(e);
                },
                None => {},
            }
            proof {
                if dir_ok(*self, *dir) {
                    assert(dir_find_spec(*self, *dir, name@, iblock) == dir_find_spec(
                        *self,
                        *dir,
                        name@,
                        (iblock + 1) as u32,
                    ));
                }
            }
            iblock = iblock + 1;
        }
        Err(ErrCode::Enoent)
    }

    /// Add an entry for `child` named `name` under a directory: split an
    /// existing block when one has room, else append a fresh data block
    /// holding the single entry and grow the directory's size by one block.
    pub fn dir_add_entry(
        &mut self,
        dir: &mut Ext4InodeRef,
        child: &Ext4InodeRef,
        name: &[u8],
    ) -> (r: Result<(), ErrCode>)
        requires
            old(self).wf(),
            old(dir).inode.wf(),
            old(dir).inode_id >= 1,
            ((old(dir).inode_id - 1) as int) / (old(self).sb.inodes_per_group as int) < old(
                self,
            ).sb.block_group_count,
            name@.len() <= 255,
            child.inode_id >= 1,
            // a directory's size counts its data blocks; room for one more
            old(dir).inode.size_hi < 0xFFFF_FFFF,
        ensures
            final(self).wf(),
            final(dir).inode.wf(),
            final(dir).inode_id == old(dir).inode_id,
            final(self).sb.inodes_per_group == old(self).sb.inodes_per_group,
            final(self).sb.block_group_count == old(self).sb.block_group_count,
            final(self).sb.blocks_count == old(self).sb.blocks_count,
            final(self).sb.inode_size == old(self).sb.inode_size,
            final(self).sb.uuid@ == old(self).sb.uuid@,
            final(self).disk@.len() == old(self).disk@.len(),
            match r {
                Ok(()) => {
                    // the name is on the device: some block holds a
                    // well-formed chain containing a live entry so named,
                    // with a fresh keyed tail checksum
                    &&& exists|b: int|
                        0 <= b < final(self).disk@.len() && #[trigger] dir_block_has_name(
                            final(self).disk@[b],
                            old(self).sb.uuid@,
                            old(dir).inode_id,
                            old(dir).inode.generation,
                            name@,
                        )
                    // either an existing block had room, or exactly one
                    // data block was appended and the size grew with it
                    &&& ((final(dir).inode.blocks == old(dir).inode.blocks
                        && final(dir).inode.size == old(dir).inode.size
                        && final(dir).inode.size_hi == old(dir).inode.size_hi)
                        || (final(dir).inode.blocks == old(dir).inode.blocks + 1
                        && final(dir).inode.size + (final(dir).inode.size_hi as int)
                        * 0x1_0000_0000 == old(dir).inode.size + (old(dir).inode.size_hi as int)
                        * 0x1_0000_0000 + BLOCK_SIZE))
                    // an empty directory always takes the append path
                    &&& (old(dir).inode.blocks == 0 ==> final(dir).inode.blocks == 1)
                },
                Err(c) => c == ErrCode::Enospc || c == ErrCode::Efscorrupted,
            },
            // adding a fresh name into an existing block of a readable
            // directory makes the directory resolve it to the child
            (dir_ok(*old(self), *old(dir)) && dir_find_spec(*old(self), *old(dir), name@, 0)
                is None && r is Ok && final(dir).inode.blocks == old(dir).inode.blocks) ==> {
                &&& dir_ok(*final(self), *final(dir))
                &&& dir_find_spec(*final(self), *final(dir), name@, 0) == Some(child.inode_id)
            },
    {
        let total_blocks = dir.inode.blocks;
        let mut iblock: u32 = 0;
        while iblock < total_blocks
            invariant
                self.wf(),
                dir.inode.wf(),
                dir.inode_id == old(dir).inode_id,
                crate::inode::inode_eq(dir.inode, old(dir).inode),
                total_blocks == old(dir).inode.blocks,
                self.disk@ == old(self).disk@,
                name@.len() <= 255,
                child.inode_id >= 1,
                old(dir).inode_id >= 1,
                old(dir).inode.size_hi < 0xFFFF_FFFF,
                ((old(dir).inode_id - 1) as int) / (old(self).sb.inodes_per_group as int) < old(
                    self,
                ).sb.block_group_count,
                self.sb.inodes_per_group == old(self).sb.inodes_per_group,
                self.sb.block_group_count == old(self).sb.block_group_count,
                self.sb.blocks_count == old(self).sb.blocks_count,
                self.sb.inode_size == old(self).sb.inode_size,
                self.sb.uuid@ == old(self).sb.uuid@,
                self.disk@.len() == old(self).disk@.len(),
            decreases total_blocks - iblock,
        {
            let fblock = match self.extent_query(dir, iblock) {
                Ok(p) => p,
                Err(c) => {
                    return Err(ErrCode::Efscorrupted);
                },
            };
            let data = self.disk.read_block(fblock);
            let mut block = Ext4Block {
                logical_block_id: iblock,
                disk_block_id: fblock,
                block_data: data,
                dirty: false,
            };
            let ghost scanned = block.block_data@;
            if self.insert_entry_to_old_block(dir, child, name, &mut block) {
                proof {
                    assert(dir_block_has_name(
                        self.disk@[fblock as int],
                        old(self).sb.uuid@,
                        old(dir).inode_id,
                        old(dir).inode.generation,
                        name@,
                    ));
                    assert(exists|b: int|
                        0 <= b < self.disk@.len() && #[trigger] dir_block_has_name(
                            self.disk@[b],
                            old(self).sb.uuid@,
                            old(dir).inode_id,
                            old(dir).inode.generation,
                            name@,
                        ));
                    if dir_ok(*old(self), *old(dir)) && dir_find_spec(
                        *old(self),
                        *old(dir),
                        name@,
                        0,
                    ) is None {
                        lemma_add_in_place(
                            *old(self),
                            *self,
                            *old(dir),
                            name@,
                            child.inode_id,
                            iblock,
                            fblock,
                            scanned,
                            block.block_data@,
                        );
                    }
                }
                return Ok(());
            }
            iblock = iblock + 1;
        }
        // no block had room: append a fresh data block
        let (new_lb, fblock) = match self.inode_append_block(dir) {
            Ok(p) => p,
            Err(c) => {
                return Err(c);
            },
        };
        let data = self.disk.read_block(fblock);
        let mut block = Ext4Block {
            logical_block_id: new_lb,
            disk_block_id: fblock,
            block_data: data,
            dirty: false,
        };
        self.insert_entry_to_new_block(dir, child, name, &mut block);
        let old_size = dir.inode.size();
        proof {
            assert(old_size == dir.inode.size + (dir.inode.size_hi as int) * 0x1_0000_0000);
            assert(old_size + BLOCK_SIZE <= u64::MAX);
        }
        dir.inode.set_size(old_size + BLOCK_SIZE as u64);
        proof {
            assert(dir_block_has_name(
                self.disk@[fblock as int],
                old(self).sb.uuid@,
                old(dir).inode_id,
                old(dir).inode.generation,
                name@,
            ));
            assert(exists|b: int|
                0 <= b < self.disk@.len() && #[trigger] dir_block_has_name(
                    self.disk@[b],
                    old(self).sb.uuid@,
                    old(dir).inode_id,
                    old(dir).inode.generation,
                    name@,
                ));
        }
        Ok(())
    }

    /// Remove the entry named `name` under a directory: tombstone the first
    /// live match and rewrite its block with a fresh tail checksum.
    /// `ENOENT` when no block holds one.
    pub fn dir_remove_entry(&mut self, dir: &Ext4InodeRef, name: &[u8]) -> (r: Result<(), ErrCode>)
        requires
            old(self).wf(),
            dir.inode.wf(),
        ensures
            final(self).wf(),
            final(self).sb == old(self).sb,
            final(self).groups@ == old(self).groups@,
            final(self).block_bitmaps@ == old(self).block_bitmaps@,
            final(self).inode_bitmaps@ == old(self).inode_bitmaps@,
            final(self).disk@.len() == old(self).disk@.len(),
            match r {
                Ok(()) => exists|b: int|
                    {
                        &&& 0 <= b < old(self).disk@.len()
                        // exactly one block was rewritten, and it carries a
                        // well-formed chain with a fresh keyed tail checksum
                        &&& final(self).disk@ == old(self).disk@.update(
                            b,
                            final(self).disk@[b],
                        )
                        &&& #[trigger] dir_block_wf(
                            final(self).disk@[b],
                            old(self).sb.uuid@,
                            dir.inode_id,
                            dir.inode.generation,
                        )
                        // the new chain is the old one with its first live
                        // match tombstoned; record lengths are kept
                        &&& exists|es0: Seq<Ext4DirEntry>, es1: Seq<Ext4DirEntry>|
                            {
                                &&& #[trigger] crate::dir_entry::tombstoned(es0, es1, name@)
                                &&& dblock_entries_wf(es0)
                                &&& dblock_region_matches(es0, old(self).disk@[b])
                                &&& dblock_entries_wf(es1)
                                &&& dblock_region_matches(es1, final(self).disk@[b])
                            }
                    },
                Err(c) => c == ErrCode::Enoent || c == ErrCode::Efscorrupted,
            },
            // nothing on the device moves unless an entry was removed
            r is Err ==> final(self).disk@ == old(self).disk@,
            // a readable directory owes the exact outcome: removal succeeds
            // iff some block of the directory holds a live match
            dir_ok(*old(self), *dir) ==> match r {
                Ok(()) => dir_find_spec(*old(self), *dir, name@, 0) is Some,
                Err(c) => c == ErrCode::Enoent && dir_find_spec(
                    *old(self),
                    *dir,
                    name@,
                    0,
                ) is None,
            },
    {
        let total_blocks = dir.inode.blocks;
        let uuid = self.sb.get_uuid();
        let mut iblock: u32 = 0;
        while iblock < total_blocks
            invariant
                self.wf(),
                dir.inode.wf(),
                uuid@ == self.sb.uuid@,
                self.sb == old(self).sb,
                self.groups@ == old(self).groups@,
                self.block_bitmaps@ == old(self).block_bitmaps@,
                self.inode_bitmaps@ == old(self).inode_bitmaps@,
                self.disk@ == old(self).disk@,
                iblock <= total_blocks == dir.inode.blocks,
                dir_ok(*old(self), *dir) ==> dir_find_spec(*old(self), *dir, name@, 0)
                    == dir_find_spec(*old(self), *dir, name@, iblock),
            decreases total_blocks - iblock,
        {
            proof {
                if dir_ok(*old(self), *dir) {
                    assert(dir_lb_ok(*old(self), *dir, iblock));
                }
            }
            let fblock = match self.extent_query(dir, iblock) {
                Ok(p) => p,
                Err(c) => {
                    return Err(c);
                },
            };
            let data = self.disk.read_block(fblock);
            let mut block = Ext4Block {
                logical_block_id: iblock,
                disk_block_id: fblock,
                block_data: data,
                dirty: false,
            };
            let ghost scanned = block.block_data@;
            if Ext4::remove_entry_from_block(
                &mut block,
                uuid.as_slice(),
                dir.inode_id,
                dir.inode.generation,
                name,
            ) {
                self.disk.write_block(block.disk_block_id, block.block_data.as_slice());
                proof {
                    assert(final(self).disk@ =~= old(self).disk@.update(
                        fblock as int,
                        final(self).disk@[fblock as int],
                    ));
                    assert(dir_block_wf(
                        final(self).disk@[fblock as int],
                        old(self).sb.uuid@,
                        dir.inode_id,
                        dir.inode.generation,
                    ));
                    if dir_ok(*old(self), *dir) {
                        assert(dir_find_spec(*old(self), *dir, name@, iblock) is Some);
                    }
                }
                return Ok(());
            }
            proof {
                if dir_ok(*old(self), *dir) {
                    assert(dir_find_spec(*old(self), *dir, name@, iblock) == dir_find_spec(
                        *old(self),
                        *dir,
                        name@,
                        (iblock + 1) as u32,
                    ));
                }
            }
            iblock = iblock + 1;
        }
        Err(ErrCode::Enoent)
    }

    /// Collect every live entry under a directory: the concatenation, over
    /// its logical blocks in order, of each block's live entries in offset
    /// order.
    #[verifier::rlimit(100)]
    pub fn dir_get_all_entries(&self, dir: &Ext4InodeRef) -> (r: Result<Vec<Ext4DirEntry>, ErrCode>)
        requires
            self.wf(),
            dir.inode.wf(),
        ensures
            match r {
                Ok(es) => forall|i: int| 0 <= i < es@.len() ==> (#[trigger] es@[i]).inode != 0,
                Err(c) => c == ErrCode::Enoent || c == ErrCode::Efscorrupted,
            },
            // a readable directory owes the exact listing
            dir_ok(*self, *dir) ==> match r {
                Ok(es) => ({
                    let lst = dir_live_list(*self, *dir, 0);
                    &&& es@.len() == lst.len()
                    &&& forall|k: int|
                        0 <= k < lst.len() ==> #[trigger] es@[k].inode == lst[k].0 && es@[k].name@
                            == lst[k].1
                }),
                Err(c) => false,
            },
    {
        let total_blocks = dir.inode.blocks;
        let mut entries: Vec<Ext4DirEntry> = Vec::new();
        let mut iblock: u32 = 0;
        proof {
            if dir_ok(*self, *dir) {
                assert(dir_live_list(*self, *dir, 0).skip(0) =~= dir_live_list(*self, *dir, 0));
            }
        }
        while iblock < total_blocks
            invariant
                self.wf(),
                dir.inode.wf(),
                iblock <= total_blocks == dir.inode.blocks,
                forall|i: int| 0 <= i < entries@.len() ==> (#[trigger] entries@[i]).inode != 0,
                dir_ok(*self, *dir) ==> ({
                    let lst = dir_live_list(*self, *dir, 0);
                    &&& entries@.len() + dir_live_list(*self, *dir, iblock).len() == lst.len()
                    &&& lst.skip(entries@.len() as int) == dir_live_list(*self, *dir, iblock)
                    &&& forall|k: int|
                        0 <= k < entries@.len() ==> #[trigger] entries@[k].inode == lst[k].0
                            && entries@[k].name@ == lst[k].1
                }),
            decreases total_blocks - iblock,
        {
            proof {
                if dir_ok(*self, *dir) {
                    assert(dir_lb_ok(*self, *dir, iblock));
                }
            }
            let fblock = match self.extent_query(dir, iblock) {
                Ok(p) => p,
                Err(c) => {
                    return Err(c);
                },
            };
            let data = self.disk.read_block(fblock);
            let block = Ext4Block {
                logical_block_id: iblock,
                disk_block_id: fblock,
                block_data: data,
                dirty: false,
            };
            let ghost pre = entries@;
            Ext4::get_all_entries_from_block(&block, &mut entries);
            proof {
                if crate::dir_entry::dblock_bytes_wf(block.block_data@) {
                    assert(forall|k: int|
                        0 <= k < crate::dir_entry::chain_live_list(block.block_data@, 0).len()
                            ==> entries@[pre.len() + k].inode
                            == #[trigger] crate::dir_entry::chain_live_list(
                            block.block_data@,
                            0,
                        )[k].0 && entries@[pre.len() + k].name@
                            == crate::dir_entry::chain_live_list(block.block_data@, 0)[k].1);
                }
                if dir_ok(*self, *dir) {
                    let lst = dir_live_list(*self, *dir, 0);
                    let here = crate::dir_entry::chain_live_list(self.disk@[fblock as int], 0);
                    let rest = dir_live_list(*self, *dir, (iblock + 1) as u32);
                    assert(dir_lb_ok(*self, *dir, iblock));
                    assert(crate::extent::root_leaves_lookup(dir.inode.block@, 0, iblock)
                        == Some(fblock));
                    assert(crate::dir_entry::dblock_bytes_wf(self.disk@[fblock as int]));
                    assert(block.block_data@ == self.disk@[fblock as int]);
                    assert(crate::dir_entry::chain_live_list(block.block_data@, 0) == here);
                    assert(dir_live_list(*self, *dir, iblock) == here + rest);
                    lemma_collect_step(lst, here, rest, pre, entries@);
                }
            }
            iblock = iblock + 1;
        }
        proof {
            if dir_ok(*self, *dir) {
                assert(dir_live_list(*self, *dir, total_blocks).len() == 0);
            }
        }
        Ok(entries)
    }
}

impl Ext4 {
    /// Create a directory inode and link it under `parent` as `name`.
    #[verifier::rlimit(100)]
    pub fn mkdir(&mut self, parent: &mut Ext4InodeRef, name: &[u8]) -> (r: Result<
        Ext4InodeRef,
        ErrCode,
    >)
        requires
            old(self).wf(),
            old(parent).inode.wf(),
            old(parent).inode_id >= 1,
            ((old(parent).inode_id - 1) as int) / (old(self).sb.inodes_per_group as int) < old(
                self,
            ).sb.block_group_count,
            name@.len() <= 255,
            old(parent).inode.size_hi < 0xFFFF_FFFF,
        ensures
            final(self).wf(),
            final(parent).inode.wf(),
            final(parent).inode_id == old(parent).inode_id,
            final(self).disk@.len() == old(self).disk@.len(),
            match r {
                Ok(child) => {
                    &&& child.inode_id >= 1
                    &&& child.inode.wf()
                    &&& child.inode.mode & crate::inode::EXT4_INODE_MODE_TYPE_MASK
                        == crate::inode::EXT4_INODE_MODE_DIRECTORY
                    &&& child.inode.links_count == 1
                    // the child is linked: some block binds the name to it
                    &&& exists|b: int|
                        0 <= b < final(self).disk@.len() && #[trigger] dir_block_has_binding(
                            final(self).disk@[b],
                            name@,
                            child.inode_id,
                        )
                    // the child's record sits checksummed in its table slot
                    &&& crate::inode::inode_csum_valid(
                        old(self).sb.uuid@,
                        child.inode_id,
                        crate::fs::inode_slot_bytes(
                            final(self).sb,
                            final(self).groups@,
                            final(self).disk@,
                            child.inode_id,
                        ),
                    )
                },
                Err(c) => c == ErrCode::Enospc || c == ErrCode::Efscorrupted,
            },
    {
        let mode = crate::inode::EXT4_INODE_MODE_DIRECTORY | 0o755;
        proof {
            assert(mode & crate::inode::EXT4_INODE_MODE_TYPE_MASK
                == crate::inode::EXT4_INODE_MODE_DIRECTORY) by (bit_vector)
                requires
                    mode == crate::inode::EXT4_INODE_MODE_DIRECTORY | 0o755u16,
            ;
        }
        let mut child = match self.create_inode(mode) {
            Ok(c) => c,
            Err(_) => {
                return Err(ErrCode::Enospc);
            },
        };
        match self.dir_add_entry(parent, &child, name) {
            Ok(()) => {},
            Err(c) => {
                return Err(c);
            },
        }
        child.inode.set_links_cnt(1);
        proof {
            crate::fs::lemma_group_of_in_range(*self, child.inode_id);
        }
        self.write_inode_with_csum(&mut child);
        proof {
            assert(crate::inode::inode_csum_valid(
                old(self).sb.uuid@,
                child.inode_id,
                crate::fs::inode_slot_bytes(self.sb, self.groups@, self.disk@, child.inode_id),
            ));
        }
        // read the link back: the parent resolves the name to the child
        let e = match self.dir_find_entry(parent, name) {
            Ok(e) => e,
            Err(_) => {
                return Err(ErrCode::Efscorrupted);
            },
        };
        if e.inode != child.inode_id {
            return Err(ErrCode::Efscorrupted);
        }
        Ok(child)
    }

    /// Resolve `name` under `parent` to its inode.
    #[verifier::rlimit(100)]
    pub fn lookup(&self, parent: &Ext4InodeRef, name: &[u8]) -> (r: Result<Ext4InodeRef, ErrCode>)
        requires
            self.wf(),
            parent.inode.wf(),
        ensures
            match r {
                Ok(child) => {
                    &&& child.inode_id >= 1
                    &&& child.inode.wf()
                    // some block binds the name to the returned inode id
                    &&& exists|b: int|
                        0 <= b < self.disk@.len() && #[trigger] dir_block_has_binding(
                            self.disk@[b],
                            name@,
                            child.inode_id,
                        )
                    // the record is what the inode's table slot holds
                    &&& crate::inode::inode_region_matches(
                        child.inode,
                        crate::fs::inode_slot_bytes(
                            self.sb,
                            self.groups@,
                            self.disk@,
                            child.inode_id,
                        ),
                        self.sb.inode_size,
                    )
                },
                Err(c) => c == ErrCode::Enoent || c == ErrCode::Efscorrupted,
            },
            // a readable directory owes the exact resolution
            dir_ok(*self, *parent) ==> {
                &&& (r is Err && r->Err_0 == ErrCode::Enoent <==> dir_find_spec(
                    *self,
                    *parent,
                    name@,
                    0,
                ) is None)
                &&& (r is Ok ==> dir_find_spec(*self, *parent, name@, 0) == Some(
                    r->Ok_0.inode_id,
                ))
            },
    {
        let e = match self.dir_find_entry(parent, name) {
            Ok(e) => e,
            Err(c) => {
                return Err(c);
            },
        };
        let ipg = self.sb.inodes_per_group;
        if (e.inode - 1) / ipg >= self.sb.block_group_count {
            return Err(ErrCode::Efscorrupted);
        }
        Ok(self.read_inode(e.inode))
    }

    /// Remove `name` under `parent`: tombstone its entry, lower the child's
    /// link count, and tear the child down when no link is left.
    pub fn unlink(&mut self, parent: &Ext4InodeRef, name: &[u8]) -> (r: Result<(), ErrCode>)
        requires
            old(self).wf(),
            parent.inode.wf(),
        ensures
            final(self).wf(),
            final(self).disk@.len() == old(self).disk@.len(),
            match r {
                Ok(()) => true,
                Err(c) => c == ErrCode::Enoent || c == ErrCode::Efscorrupted || c
                    == ErrCode::Einval,
            },
            // nothing moves when the name is absent
            r == Err::<(), ErrCode>(ErrCode::Enoent) ==> crate::fs::ext4_views_eq(
                *old(self),
                *final(self),
            ),
            // a readable directory owes the exact outcome on the name
            dir_ok(*old(self), *parent) ==> (r == Err::<(), ErrCode>(ErrCode::Enoent)
                <==> dir_find_spec(*old(self), *parent, name@, 0) is None),
    {
        let e = match self.dir_find_entry(parent, name) {
            Ok(e) => e,
            Err(c) => {
                return Err(c);
            },
        };
        let ipg = self.sb.inodes_per_group;
        if (e.inode - 1) / ipg >= self.sb.block_group_count {
            return Err(ErrCode::Efscorrupted);
        }
        match self.dir_remove_entry(parent, name) {
            Ok(()) => {},
            Err(c) => {
                return Err(c);
            },
        }
        let mut child = self.read_inode(e.inode);
        let links = child.inode.links_cnt();
        if links <= 1 {
            match self.free_inode(&mut child) {
                Ok(()) => {},
                Err(c) => {
                    return Err(c);
                },
            }
        } else {
            child.inode.set_links_cnt(links - 1);
            self.write_inode_with_csum(&mut child);
        }
        Ok(())
    }
}

/// A live matching entry anywhere in the chain means the search succeeds.
proof fn lemma_match_gives_contains(es: Seq<Ext4DirEntry>, i: int, name: Seq<u8>)
    requires
        0 <= i < es.len(),
        es[i].inode != 0,
        es[i].name@ == name,
    ensures
        dblock_contains(es, name),
{
    crate::dir_entry::lemma_dblock_find_from_spec(es, name, 0);
    if dblock_find(es, name) is None {
        assert(!(es[i].inode != 0 && es[i].name@ == name));
    }
}

/// After splitting entry `i` to hold a fresh entry named `name` (absent
/// before) at `i + 1`, the search finds exactly that entry.
pub proof fn lemma_split_insert_finds(
    before: Seq<Ext4DirEntry>,
    after: Seq<Ext4DirEntry>,
    i: int,
    name: Seq<u8>,
    child: u32,
)
    requires
        0 <= i < before.len(),
        child != 0,
        after.len() == before.len() + 1,
        after[i + 1].inode == child,
        after[i + 1].name@ == name,
        forall|k: int| 0 <= k <= i ==> (#[trigger] after[k]).name@ == before[k].name@,
        forall|k: int| 0 <= k <= i ==> (#[trigger] after[k]).inode == before[k].inode,
        forall|k: int|
            i + 2 <= k < after.len() ==> (#[trigger] after[k]).name@ == before[k - 1].name@,
        forall|k: int|
            i + 2 <= k < after.len() ==> (#[trigger] after[k]).inode == before[k - 1].inode,
        !dblock_contains(before, name),
    ensures
        dblock_find(after, name) == Some(i + 1),
        after[i + 1].inode == child,
{
    crate::dir_entry::lemma_dblock_find_from_spec(before, name, 0);
    crate::dir_entry::lemma_dblock_find_from_spec(after, name, 0);
    match dblock_find(after, name) {
        Some(j) => {
            if j < i + 1 {
                assert(after[j].inode != 0 && after[j].name@ == name);
                assert(before[j].inode != 0 && before[j].name@ == name);
            } else if j > i + 1 {
                assert(!(after[i + 1].inode != 0 && after[i + 1].name@ == name));
            }
        },
        None => {
            assert(!(after[i + 1].inode != 0 && after[i + 1].name@ == name));
        },
    }
}

} // verus!
