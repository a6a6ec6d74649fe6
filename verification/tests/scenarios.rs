//! End-to-end scenarios: a fresh filesystem, the root directory, file
//! creation, extent growth, teardown, and the error paths.

use ext4_core::bitmap::bitmap_test;
use ext4_core::codec::{get_u16, get_u32};
use ext4_core::crc32c::{crc32c_update, crc32c_update_range, crc32c_update_u32le, CRC32C_INIT};
use ext4_core::dir_entry::parse_dir_block;
use ext4_core::extent::parse_extent_node;
use ext4_core::fs::Ext4;
use ext4_core::inode::{Ext4InodeRef, EXT4_INODE_MODE_DIRECTORY, EXT4_INODE_MODE_FILE};
use ext4_core::ErrCode;

fn mkfs() -> Ext4 {
    Ext4::format(2048, 32768, 8192, 256, vec![0xAB; 16]).unwrap()
}

fn mkfile(fs: &mut Ext4) -> Ext4InodeRef {
    fs.create_inode(EXT4_INODE_MODE_FILE | 0o644).unwrap()
}

#[test]
fn fresh_root_inode() {
    let mut fs = mkfs();
    let root = fs.create_root_inode().unwrap();
    assert_eq!(root.inode_id, 2);
    assert_eq!(root.inode.links_count, 2);
    assert_eq!(root.inode.blocks, 1);
    assert_eq!(root.inode.size(), 4096);
    // the directory block sits at a newly allocated address past the
    // metadata region
    let pb = fs.extent_query(&root, 0).unwrap();
    assert!(pb >= 517);
    let dot = fs.dir_find_entry(&root, b".").unwrap();
    assert_eq!(dot.inode, 2);
    let dotdot = fs.dir_find_entry(&root, b"..").unwrap();
    assert_eq!(dotdot.inode, 2);
}

#[test]
fn four_files_under_root() {
    let mut fs = mkfs();
    let mut root = fs.create_root_inode().unwrap();
    let names: [&[u8]; 4] = [b"a", b"bb", b"ccc", b"dddd"];
    let mut ids = Vec::new();
    for name in names.iter() {
        let child = mkfile(&mut fs);
        fs.dir_add_entry(&mut root, &child, name).unwrap();
        ids.push(child.inode_id);
    }
    let mut found = Vec::new();
    for name in names.iter() {
        let e = fs.dir_find_entry(&root, name).unwrap();
        found.push(e.inode);
    }
    assert_eq!(ids, found);
    for i in 0..4 {
        for j in 0..4 {
            if i != j {
                assert_ne!(found[i], found[j]);
            }
        }
    }
    // the first data block of the root holds 6 entries whose record
    // lengths sum to 4084
    let pb = fs.extent_query(&root, 0).unwrap();
    let bytes = fs.disk.read_block(pb);
    let es = parse_dir_block(&bytes).unwrap();
    assert_eq!(es.len(), 6);
    let total: usize = es.iter().map(|e| e.entry_len as usize).sum();
    assert_eq!(total, 4084);
}

#[test]
fn root_block_overflow_extends_directory() {
    let mut fs = mkfs();
    let mut root = fs.create_root_inode().unwrap();
    let child = mkfile(&mut fs);
    let mut i = 0;
    while root.inode.blocks == 1 {
        let name = format!("f{:04}", i).into_bytes();
        fs.dir_add_entry(&mut root, &child, &name).unwrap();
        i += 1;
        assert!(i < 1000);
    }
    assert_eq!(root.inode.blocks, 2);
    assert_eq!(root.inode.size(), 8192);
    // the fresh block holds exactly one entry spanning the content region
    let pb = fs.extent_query(&root, 1).unwrap();
    let bytes = fs.disk.read_block(pb);
    let es = parse_dir_block(&bytes).unwrap();
    assert_eq!(es.len(), 1);
    assert_eq!(es[0].entry_len, 4084);
}

#[test]
fn five_contiguous_blocks_one_extent() {
    let mut fs = mkfs();
    let mut file = mkfile(&mut fs);
    let mut guard = mkfile(&mut fs);
    let mut first = 0;
    for k in 0..5 {
        let (lb, pb) = fs.inode_append_block(&mut file).unwrap();
        assert_eq!(lb, k);
        if k == 0 {
            first = pb;
        } else {
            assert_eq!(pb, first + k as u64);
        }
    }
    let node = parse_extent_node(&file.inode.block).unwrap();
    assert_eq!(node.header.entries_count, 1);
    assert_eq!(node.leaves.len(), 1);
    assert_eq!(node.leaves[0].first_block, 0);
    assert_eq!(node.leaves[0].block_count, 5);
    assert_eq!(node.leaves[0].start_pblock, first);
    // occupy the next physical block so the sixth cannot be contiguous
    fs.inode_append_block(&mut guard).unwrap();
    let (lb, pb) = fs.inode_append_block(&mut file).unwrap();
    assert_eq!(lb, 5);
    assert_ne!(pb, first + 5);
    let node = parse_extent_node(&file.inode.block).unwrap();
    assert_eq!(node.header.entries_count, 2);
    assert_eq!(node.leaves[1].first_block, 5);
    assert_eq!(node.leaves[1].block_count, 1);
}

#[test]
fn six_hundred_blocks_grow_depth() {
    let mut fs = mkfs();
    let mut file = mkfile(&mut fs);
    let mut guard = mkfile(&mut fs);
    for _chunk in 0..4 {
        for _k in 0..150 {
            fs.inode_append_block(&mut file).unwrap();
        }
        fs.inode_append_block(&mut guard).unwrap();
    }
    assert_eq!(file.inode.blocks, 600);
    let node = parse_extent_node(&file.inode.block).unwrap();
    assert_eq!(node.header.depth, 0);
    assert_eq!(node.header.entries_count, 4);
    // the next append overflows the root: one tree block now holds all the
    // leaves and the root keeps a single index
    fs.inode_append_block(&mut file).unwrap();
    let root = parse_extent_node(&file.inode.block).unwrap();
    assert_eq!(root.header.depth, 1);
    assert_eq!(root.header.entries_count, 1);
    let child_blk = root.indexes[0].child_pblock;
    let child = parse_extent_node(&fs.disk.read_block(child_blk)).unwrap();
    assert_eq!(child.header.depth, 0);
    assert_eq!(child.leaves.len(), 5);
    let mapped: u64 = child.leaves.iter().map(|e| e.block_count as u64).sum();
    assert_eq!(mapped, 601);
}

#[test]
fn free_inode_reverses_everything() {
    let mut fs = mkfs();
    let mut guard = mkfile(&mut fs);
    let free_blocks_0 = fs.sb.free_blocks_count;
    let free_inodes_0 = fs.sb.free_inodes_count;
    let g_free_blocks_0 = fs.groups[0].free_blocks_count;
    let g_free_inodes_0 = fs.groups[0].free_inodes_count;
    let used_dirs_0 = fs.groups[0].used_dirs_count;

    let mut file = mkfile(&mut fs);
    let file_id = file.inode_id;
    let (_, pb0) = fs.inode_append_block(&mut file).unwrap();
    let (_, pb1) = fs.inode_append_block(&mut file).unwrap();
    // fragment, then a third block in a second extent
    fs.inode_append_block(&mut guard).unwrap();
    let (_, pb2) = fs.inode_append_block(&mut file).unwrap();
    let node = parse_extent_node(&file.inode.block).unwrap();
    assert_eq!(node.header.entries_count, 2);

    fs.free_inode(&mut file).unwrap();

    // counters: everything the file took is back, except the one guard block
    assert_eq!(fs.sb.free_blocks_count, free_blocks_0 - 1);
    assert_eq!(fs.sb.free_inodes_count, free_inodes_0);
    assert_eq!(fs.groups[0].free_blocks_count, g_free_blocks_0 - 1);
    assert_eq!(fs.groups[0].free_inodes_count, g_free_inodes_0);
    assert_eq!(fs.groups[0].used_dirs_count, used_dirs_0);
    // the bitmap bits of both extents are clear again
    for pb in [pb0, pb1, pb2] {
        assert!(!bitmap_test(&fs.block_bitmaps[0], pb as usize));
    }
    let idx = (file_id - 1) as usize;
    assert!(!bitmap_test(&fs.inode_bitmaps[0], idx));
    // the on-disk record is zeroed
    let slot = fs.read_inode(file_id);
    assert_eq!(slot.inode.mode, 0);
    assert_eq!(slot.inode.blocks, 0);
    assert_eq!(slot.inode.links_count, 0);
    assert_eq!(slot.inode.size, 0);
}

#[test]
fn alloc_dealloc_inode_restores_counters() {
    let mut fs = mkfs();
    let free_0 = fs.sb.free_inodes_count;
    let g_free_0 = fs.groups[0].free_inodes_count;
    let dirs_0 = fs.groups[0].used_dirs_count;
    let id = fs.alloc_inode(true).unwrap();
    assert_eq!(fs.sb.free_inodes_count, free_0 - 1);
    assert_eq!(fs.groups[0].used_dirs_count, dirs_0 + 1);
    let mut ino = ext4_core::inode::Ext4Inode::empty();
    ino.set_mode(EXT4_INODE_MODE_DIRECTORY);
    let iref = Ext4InodeRef::new(id, ino);
    fs.dealloc_inode(&iref).unwrap();
    assert_eq!(fs.sb.free_inodes_count, free_0);
    assert_eq!(fs.groups[0].free_inodes_count, g_free_0);
    assert_eq!(fs.groups[0].used_dirs_count, dirs_0);
    assert!(!bitmap_test(&fs.inode_bitmaps[0], (id - 1) as usize));
}

#[test]
fn add_find_remove_round_trip() {
    let mut fs = mkfs();
    let mut root = fs.create_root_inode().unwrap();
    let child = mkfile(&mut fs);
    fs.dir_add_entry(&mut root, &child, b"zeta").unwrap();
    let e = fs.dir_find_entry(&root, b"zeta").unwrap();
    assert_eq!(e.inode, child.inode_id);
    fs.dir_remove_entry(&root, b"zeta").unwrap();
    assert!(matches!(fs.dir_find_entry(&root, b"zeta"), Err(ErrCode::Enoent)));
    // the others are untouched
    assert_eq!(fs.dir_find_entry(&root, b".").unwrap().inode, 2);
    let all = fs.dir_get_all_entries(&root).unwrap();
    assert_eq!(all.len(), 2);
}

#[test]
fn enospc_when_inodes_run_out() {
    // 16 inodes per group, 10 reserved: six creations succeed
    let mut fs = Ext4::format(600, 32768, 16, 256, vec![1; 16]).unwrap();
    assert_eq!(fs.sb.free_inodes_count, 6);
    for _ in 0..6 {
        mkfile(&mut fs);
    }
    let r = fs.create_inode(EXT4_INODE_MODE_FILE);
    assert!(matches!(r, Err(ErrCode::Enospc)));
}

#[test]
fn enospc_when_blocks_run_out() {
    // 520 blocks, 517 of them metadata: three appends succeed
    let mut fs = Ext4::format(520, 32768, 8192, 256, vec![2; 16]).unwrap();
    assert_eq!(fs.sb.free_blocks_count, 3);
    let mut file = mkfile(&mut fs);
    for _ in 0..3 {
        fs.inode_append_block(&mut file).unwrap();
    }
    let r = fs.inode_append_block(&mut file);
    assert_eq!(r.unwrap_err(), ErrCode::Enospc);
}

#[test]
fn einval_on_double_free() {
    let mut fs = mkfs();
    let mut file = mkfile(&mut fs);
    let (_, pb) = fs.inode_append_block(&mut file).unwrap();
    fs.dealloc_block(&file, pb).unwrap();
    assert_eq!(fs.dealloc_block(&file, pb).unwrap_err(), ErrCode::Einval);
    // freeing the inode bit twice fails the same way
    fs.dealloc_inode(&file).unwrap();
    assert_eq!(fs.dealloc_inode(&file).unwrap_err(), ErrCode::Einval);
}

#[test]
fn einval_on_bad_geometry() {
    assert!(matches!(
        Ext4::format(2048, 32768, 8192, 100, vec![0; 16]),
        Err(ErrCode::Einval)
    ));
    assert!(matches!(
        Ext4::format(0, 32768, 8192, 256, vec![0; 16]),
        Err(ErrCode::Einval)
    ));
    assert!(matches!(
        Ext4::format(2048, 32768, 8192, 256, vec![0; 15]),
        Err(ErrCode::Einval)
    ));
    // the metadata must fit the device
    assert!(matches!(
        Ext4::format(300, 32768, 8192, 256, vec![0; 16]),
        Err(ErrCode::Einval)
    ));
}

#[test]
fn counters_stay_consistent() {
    let mut fs = mkfs();
    let mut root = fs.create_root_inode().unwrap();
    for i in 0..3 {
        let mut child = mkfile(&mut fs);
        fs.inode_append_block(&mut child).unwrap();
        let name = format!("c{}", i).into_bytes();
        fs.dir_add_entry(&mut root, &child, &name).unwrap();
    }
    // the superblock counters equal the sums of the group counters
    let sum_fi: u64 = fs.groups.iter().map(|g| g.free_inodes_count as u64).sum();
    let sum_fb: u64 = fs.groups.iter().map(|g| g.free_blocks_count as u64).sum();
    assert_eq!(fs.sb.free_inodes_count as u64, sum_fi);
    assert_eq!(fs.sb.free_blocks_count, sum_fb);
    // each group counter complements its bitmap's population count
    for g in 0..fs.groups.len() {
        let mut ones_i = 0u64;
        for k in 0..fs.sb.inodes_per_group as usize {
            if bitmap_test(&fs.inode_bitmaps[g], k) {
                ones_i += 1;
            }
        }
        assert_eq!(
            ones_i + fs.groups[g].free_inodes_count as u64,
            fs.sb.inodes_per_group as u64
        );
        let mut ones_b = 0u64;
        for k in 0..fs.sb.blocks_per_group as usize {
            if bitmap_test(&fs.block_bitmaps[g], k) {
                ones_b += 1;
            }
        }
        assert_eq!(
            ones_b + fs.groups[g].free_blocks_count as u64,
            fs.sb.blocks_per_group as u64
        );
    }
}

#[test]
fn checksums_verify_on_disk() {
    let mut fs = mkfs();
    let mut root = fs.create_root_inode().unwrap();
    let child = mkfile(&mut fs);
    fs.dir_add_entry(&mut root, &child, b"data").unwrap();
    let uuid = vec![0xABu8; 16];

    // superblock: CRC32C of everything before the checksum field
    let sb_bytes = fs.disk.read_at(0, 1024, 1024);
    let c = crc32c_update_range(CRC32C_INIT, &sb_bytes, 0, 1020);
    assert_eq!(get_u32(&sb_bytes, 1020), c);

    // group descriptor: keyed by uuid and group index, checksum field zeroed
    let gd_bytes = fs.disk.read_at(1, 0, 64);
    let mut zeroed = gd_bytes.clone();
    zeroed[0x1E] = 0;
    zeroed[0x1F] = 0;
    let c = crc32c_update(CRC32C_INIT, &uuid);
    let c = crc32c_update_u32le(c, 0);
    let c = crc32c_update(c, &zeroed);
    assert_eq!(get_u16(&gd_bytes, 0x1E), (c & 0xFFFF) as u16);

    // bitmaps: keyed by uuid, low half stored in the descriptor
    let bbm = fs.disk.read_block(fs.groups[0].block_bitmap_block);
    let c = crc32c_update(CRC32C_INIT, &uuid);
    let c = crc32c_update(c, &bbm);
    assert_eq!(fs.groups[0].block_bitmap_csum, (c & 0xFFFF) as u16);
    assert_eq!(get_u16(&gd_bytes, 0x18), (c & 0xFFFF) as u16);
    let ibm = fs.disk.read_block(fs.groups[0].inode_bitmap_block);
    let c = crc32c_update(CRC32C_INIT, &uuid);
    let c = crc32c_update(c, &ibm);
    assert_eq!(fs.groups[0].inode_bitmap_csum, (c & 0xFFFF) as u16);
    assert_eq!(get_u16(&gd_bytes, 0x1A), (c & 0xFFFF) as u16);

    // the root inode record: keyed by uuid, inode id and generation, with
    // the checksum fields zeroed
    let itable = fs.groups[0].inode_table_block;
    let slot = fs.disk.read_at(itable, 256, 256);
    let mut z = slot.clone();
    z[124] = 0;
    z[125] = 0;
    z[130] = 0;
    z[131] = 0;
    let c = crc32c_update(CRC32C_INIT, &uuid);
    let c = crc32c_update_u32le(c, 2);
    let c = crc32c_update_u32le(c, get_u32(&slot, 100));
    let c = crc32c_update(c, &z);
    assert_eq!(get_u16(&slot, 124), (c & 0xFFFF) as u16);
    assert_eq!(get_u16(&slot, 130), (c >> 16) as u16);

    // the directory block tail: keyed by uuid, the directory's inode id and
    // generation
    let pb = fs.extent_query(&root, 0).unwrap();
    let blk = fs.disk.read_block(pb);
    let c = crc32c_update(CRC32C_INIT, &uuid);
    let c = crc32c_update_u32le(c, 2);
    let c = crc32c_update_u32le(c, root.inode.generation);
    let c = crc32c_update_range(c, &blk, 0, 4084);
    let c = crc32c_update_range(c, &blk, 4084, 4092);
    assert_eq!(get_u32(&blk, 4092), c);
}

#[test]
fn multi_group_sums() {
    // two groups: blocks_per_group smaller than the device
    let mut fs = Ext4::format(1600, 1024, 64, 256, vec![5; 16]).unwrap();
    assert_eq!(fs.sb.block_group_count, 2);
    // group 0 lost the metadata blocks, group 1 tail is phantom-marked
    let sum_fb: u64 = fs.groups.iter().map(|g| g.free_blocks_count as u64).sum();
    assert_eq!(fs.sb.free_blocks_count, sum_fb);
    let sum_fi: u64 = fs.groups.iter().map(|g| g.free_inodes_count as u64).sum();
    assert_eq!(fs.sb.free_inodes_count as u64, sum_fi);
    // exhaust group 0's inodes and watch allocation spill to group 1
    let g0_free = fs.groups[0].free_inodes_count;
    for _ in 0..g0_free {
        let id = fs.alloc_inode(false).unwrap();
        assert!(id <= 64);
    }
    let id = fs.alloc_inode(false).unwrap();
    assert!(id > 64);
    assert_eq!(fs.groups[0].free_inodes_count, 0);
    assert_eq!(fs.groups[1].free_inodes_count, 63);
}

#[test]
fn block_sync_to_disk() {
    let mut fs = mkfs();
    let blk = ext4_core::block::Ext4Block {
        logical_block_id: 0,
        disk_block_id: 600,
        block_data: vec![0x5A; 4096],
        dirty: true,
    };
    blk.sync_to_disk(&mut fs.disk);
    let back = fs.disk.read_block(600);
    assert_eq!(back, vec![0x5A; 4096]);
}

#[test]
fn mkdir_lookup_unlink() {
    let mut fs = mkfs();
    let mut root = fs.create_root_inode().unwrap();
    let sub = fs.mkdir(&mut root, b"sub").unwrap();
    assert!(sub.inode.is_dir());
    let found = fs.lookup(&root, b"sub").unwrap();
    assert_eq!(found.inode_id, sub.inode_id);
    assert!(found.inode.is_dir());
    // a regular file: created, linked, looked up, unlinked, gone
    let file = mkfile(&mut fs);
    fs.dir_add_entry(&mut root, &file, b"junk").unwrap();
    assert_eq!(fs.lookup(&root, b"junk").unwrap().inode_id, file.inode_id);
    fs.unlink(&root, b"junk").unwrap();
    assert!(matches!(fs.lookup(&root, b"junk"), Err(ErrCode::Enoent)));
    // the file's inode was torn down and its bit cleared
    assert!(!bitmap_test(&fs.inode_bitmaps[0], (file.inode_id - 1) as usize));
    assert!(matches!(fs.unlink(&root, b"junk"), Err(ErrCode::Enoent)));
}

#[test]
fn search_result_pairs_block_and_entry() {
    let mut fs = mkfs();
    let root = fs.create_root_inode().unwrap();
    let pb = fs.extent_query(&root, 0).unwrap();
    let data = fs.disk.read_block(pb);
    let block = ext4_core::block::Ext4Block {
        logical_block_id: 0,
        disk_block_id: pb,
        block_data: data,
        dirty: false,
    };
    let entry = ext4_core::fs::Ext4::find_entry_in_block(&block, b".").unwrap();
    let res = ext4_core::dir_entry::Ext4DirSearchResult::new(block, entry);
    assert_eq!(res.block.disk_block_id, pb);
    assert_eq!(res.dentry.inode, 2);
}

#[test]
fn inode_type_reads_mode_bits() {
    let mut fs = mkfs();
    let root = fs.create_root_inode().unwrap();
    assert_eq!(root.inode.inode_type(&fs.sb), 0x4000);
    assert_eq!(root.inode.mode(), 0x4000 | 0o755);
    let file = mkfile(&mut fs);
    assert_eq!(file.inode.inode_type(&fs.sb), 0x8000);
}

#[test]
fn error_names() {
    assert_eq!(ErrCode::Enospc.as_str(), "ENOSPC");
    assert_eq!(ErrCode::Enoent.as_str(), "ENOENT");
    assert_eq!(ErrCode::Einval.as_str(), "EINVAL");
    assert_eq!(ErrCode::Eio.as_str(), "EIO");
    assert_eq!(ErrCode::Efscorrupted.as_str(), "EFSCORRUPTED");
}

#[test]
fn inode_checksum_helpers_match_disk() {
    let mut fs = mkfs();
    let mut root = fs.create_root_inode().unwrap();
    // recomputing in memory reproduces what the write path stored on disk
    let c = root.inode.calc_checksum(2, &fs.sb);
    let itable = fs.groups[0].inode_table_block;
    let slot = fs.disk.read_at(itable, 256, 256);
    assert_eq!(get_u16(&slot, 124), (c & 0xFFFF) as u16);
    assert_eq!(get_u16(&slot, 130), (c >> 16) as u16);
    // the tail write-back helpers reproduce a block byte for byte
    let pb = fs.extent_query(&root, 0).unwrap();
    let before = fs.disk.read_block(pb);
    let mut blk = ext4_core::block::Ext4Block {
        logical_block_id: 0,
        disk_block_id: pb,
        block_data: before.clone(),
        dirty: true,
    };
    let mut tail = ext4_core::dir_entry::Ext4DirEntryTail::from(&before, 4096).unwrap();
    tail.ext4_dir_set_csum(&fs.sb, 2, root.inode.generation, &before);
    tail.sync_de_tail_to_disk(&mut fs.disk, &mut blk);
    assert_eq!(fs.disk.read_block(pb), before);
}

#[test]
fn leaf_split_promotes_second_index() {
    let mut fs = mkfs();
    let mut file = mkfile(&mut fs);
    let mut guard = mkfile(&mut fs);
    // fully fragmented file: every mapped block is its own extent, so the
    // child leaf block fills at 339 records and the next append splits it
    for _ in 0..341 {
        fs.inode_append_block(&mut file).unwrap();
        fs.inode_append_block(&mut guard).unwrap();
    }
    let root = parse_extent_node(&file.inode.block).unwrap();
    assert_eq!(root.header.depth, 1);
    assert_eq!(root.header.entries_count, 2);
    let left = parse_extent_node(&fs.disk.read_block(root.indexes[0].child_pblock)).unwrap();
    let right = parse_extent_node(&fs.disk.read_block(root.indexes[1].child_pblock)).unwrap();
    assert_eq!(left.leaves.len() + right.leaves.len(), 341);
    assert_eq!(root.indexes[1].first_block, right.leaves[0].first_block);
    // every logical block still resolves
    for lb in 0..341u32 {
        fs.extent_query(&file, lb).unwrap();
    }
}
