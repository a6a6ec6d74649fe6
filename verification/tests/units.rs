//! Unit tests for the codec, checksum, bitmap and record layers.

use ext4_core::bitmap::{bitmap_clear, bitmap_find_and_set_first_clear, bitmap_set, bitmap_test};
use ext4_core::block_group::Ext4BlockGroupDesc;
use ext4_core::codec::{get_u16, get_u32, get_u64, put_u16, put_u32, put_u64};
use ext4_core::crc32c::{crc32c_update, crc32c_update_range, crc32c_update_u32le, CRC32C_INIT};
use ext4_core::dir_entry::{ext4_fs_correspond_inode_mode, parse_dir_block, serialize_dir_block,
    Ext4DirEntry, Ext4DirEntryTail, EXT4_DE_DIR, EXT4_DE_REG_FILE};
use ext4_core::extent::parse_extent_node;
use ext4_core::inode::{Ext4Inode, Ext4InodeRef, EXT4_INODE_MODE_DIRECTORY, EXT4_INODE_MODE_FILE};
use ext4_core::mount_point::Ext4MountPoint;
use ext4_core::super_block::Ext4Superblock;
use ext4_core::{ErrCode, FileType, BLOCK_SIZE};

#[test]
fn crc32c_known_vector() {
    // CRC32C("123456789") with initial value !0 and a final complement
    let data = b"123456789";
    let raw = crc32c_update(CRC32C_INIT, data);
    assert_eq!(!raw, 0xE3069283);
}

#[test]
fn crc32c_empty_is_initial() {
    let data: [u8; 0] = [];
    assert_eq!(crc32c_update(CRC32C_INIT, &data), CRC32C_INIT);
}

#[test]
fn crc32c_incremental_matches_whole() {
    let data = b"hello, world";
    let whole = crc32c_update(CRC32C_INIT, data);
    let part = crc32c_update(CRC32C_INIT, &data[..5]);
    let part = crc32c_update(part, &data[5..]);
    assert_eq!(whole, part);
    let ranged = crc32c_update_range(CRC32C_INIT, data, 0, data.len());
    assert_eq!(whole, ranged);
}

#[test]
fn crc32c_u32le_matches_bytes() {
    let v: u32 = 0xDEAD_BEEF;
    let bytes = v.to_le_bytes();
    assert_eq!(
        crc32c_update_u32le(CRC32C_INIT, v),
        crc32c_update(CRC32C_INIT, &bytes)
    );
}

#[test]
fn codec_round_trips() {
    let mut v = vec![0u8; 64];
    put_u16(&mut v, 0, 0xBEEF);
    put_u32(&mut v, 2, 0xCAFEBABE);
    put_u64(&mut v, 6, 0x0123_4567_89AB_CDEF);
    assert_eq!(get_u16(&v, 0), 0xBEEF);
    assert_eq!(get_u32(&v, 2), 0xCAFEBABE);
    assert_eq!(get_u64(&v, 6), 0x0123_4567_89AB_CDEF);
    // little-endian order
    assert_eq!(v[0], 0xEF);
    assert_eq!(v[1], 0xBE);
    assert_eq!(v[2], 0xBE);
    assert_eq!(v[5], 0xCA);
}

#[test]
fn bitmap_operations() {
    let mut bm = vec![0u8; 8];
    assert!(!bitmap_test(&bm, 13));
    bitmap_set(&mut bm, 13);
    assert!(bitmap_test(&bm, 13));
    assert!(!bitmap_test(&bm, 12));
    assert!(!bitmap_test(&bm, 14));
    bitmap_clear(&mut bm, 13);
    assert!(!bitmap_test(&bm, 13));

    bitmap_set(&mut bm, 0);
    bitmap_set(&mut bm, 1);
    let hit = bitmap_find_and_set_first_clear(&mut bm, 0, 64);
    assert_eq!(hit, Some(2));
    assert!(bitmap_test(&bm, 2));

    // an exhausted range
    let mut full = vec![0xFFu8; 2];
    assert_eq!(bitmap_find_and_set_first_clear(&mut full, 0, 16), None);
}

#[test]
fn superblock_encode_decode_and_csum() {
    let sb = Ext4Superblock {
        inodes_count: 8192,
        blocks_count: 2048,
        free_blocks_count: 1500,
        free_inodes_count: 8182,
        first_data_block: 0,
        blocks_per_group: 32768,
        inodes_per_group: 8192,
        creator_os: 0,
        inode_size: 256,
        feature_compat: 0,
        feature_incompat: 0x242,
        feature_ro_compat: 0x400,
        uuid: vec![7u8; 16],
        block_group_count: 1,
    };
    let enc = sb.encode();
    assert_eq!(enc.len(), 1024);
    let dec = Ext4Superblock::decode(&enc, 1);
    assert_eq!(dec.inodes_count, 8192);
    assert_eq!(dec.blocks_count, 2048);
    assert_eq!(dec.free_blocks_count, 1500);
    assert_eq!(dec.free_inodes_count, 8182);
    assert_eq!(dec.blocks_per_group, 32768);
    assert_eq!(dec.inodes_per_group, 8192);
    assert_eq!(dec.inode_size, 256);
    assert_eq!(dec.uuid, vec![7u8; 16]);
    // magic and stored checksum
    assert_eq!(get_u16(&enc, 56), 0xEF53);
    let csum = crc32c_update_range(CRC32C_INIT, &enc, 0, 1020);
    assert_eq!(get_u32(&enc, 1020), csum);
}

#[test]
fn group_desc_encode_decode_and_csum() {
    let d = Ext4BlockGroupDesc {
        block_bitmap_block: 517,
        inode_bitmap_block: 518,
        inode_table_block: 519,
        free_blocks_count: 1500,
        free_inodes_count: 8182,
        used_dirs_count: 1,
        itable_unused: 8190,
        block_bitmap_csum: 0x1111,
        inode_bitmap_csum: 0x2222,
    };
    let uuid = vec![9u8; 16];
    let enc = d.encode(&uuid, 0, 8192, 32768);
    assert_eq!(enc.len(), 64);
    let dec = Ext4BlockGroupDesc::decode(&enc);
    assert_eq!(dec.block_bitmap_block, 517);
    assert_eq!(dec.inode_bitmap_block, 518);
    assert_eq!(dec.inode_table_block, 519);
    assert_eq!(dec.free_blocks_count, 1500);
    assert_eq!(dec.free_inodes_count, 8182);
    assert_eq!(dec.used_dirs_count, 1);
    assert_eq!(dec.itable_unused, 8190);
    assert_eq!(dec.block_bitmap_csum, 0x1111);
    assert_eq!(dec.inode_bitmap_csum, 0x2222);
    // the stored checksum covers uuid, the group index, and the record with
    // its checksum field zeroed
    let mut zeroed = enc.clone();
    zeroed[0x1E] = 0;
    zeroed[0x1F] = 0;
    let c = crc32c_update(CRC32C_INIT, &uuid);
    let c = crc32c_update_u32le(c, 0);
    let c = crc32c_update(c, &zeroed);
    assert_eq!(get_u16(&enc, 0x1E), (c & 0xFFFF) as u16);
}

#[test]
fn inode_encode_decode() {
    let mut ino = Ext4Inode::empty();
    ino.set_mode(EXT4_INODE_MODE_FILE | 0o644);
    ino.set_uid(1000);
    ino.set_gid(1000);
    ino.set_size(123456789012);
    ino.set_access_time(111);
    ino.set_change_inode_time(222);
    ino.set_modif_time(333);
    ino.set_del_time(0);
    ino.set_links_cnt(1);
    ino.set_blocks_count(42);
    ino.set_generation(7);
    ino.set_extra_isize(32);
    ino.set_flags(0x80000);
    let enc = ino.encode(256);
    assert_eq!(enc.len(), 256);
    let dec = Ext4Inode::decode(&enc, 256);
    assert_eq!(dec.mode, EXT4_INODE_MODE_FILE | 0o644);
    assert_eq!(dec.uid, 1000);
    assert_eq!(dec.gid, 1000);
    let dec2 = dec;
    assert_eq!(dec2.size(), 123456789012);
    assert_eq!(dec2.atime, 111);
    assert_eq!(dec2.ctime, 222);
    assert_eq!(dec2.mtime, 333);
    assert_eq!(dec2.links_cnt(), 1);
    assert_eq!(dec2.blocks_count(), 42);
    assert_eq!(dec2.generation, 7);
    assert_eq!(dec2.i_extra_isize, 32);
    assert_eq!(dec2.flags(), 0x80000);
    assert_eq!(dec2.file_type(), FileType::RegularFile);
    assert!(!dec2.is_dir());
}

#[test]
fn inode_type_and_size_split() {
    let mut ino = Ext4Inode::empty();
    ino.set_mode(EXT4_INODE_MODE_DIRECTORY | 0o755);
    assert!(ino.is_dir());
    assert_eq!(ino.file_type(), FileType::Directory);
    ino.set_size(0x1_0000_0001);
    assert_eq!(ino.size, 1);
    assert_eq!(ino.size_hi, 1);
    assert_eq!(ino.size(), 0x1_0000_0001);
}

#[test]
fn dir_block_serialize_parse_round_trip() {
    let uuid = vec![3u8; 16];
    let e1 = Ext4DirEntry::new(2, 12, b".", EXT4_DE_DIR);
    let e2 = Ext4DirEntry::new(2, 4072, b"..", EXT4_DE_DIR);
    let es = vec![e1, e2];
    let bytes = serialize_dir_block(&es, &uuid, 2, 0);
    assert_eq!(bytes.len(), BLOCK_SIZE);
    let parsed = parse_dir_block(&bytes).unwrap();
    assert_eq!(parsed.len(), 2);
    assert_eq!(parsed[0].inode, 2);
    assert_eq!(parsed[0].entry_len, 12);
    assert_eq!(parsed[0].get_name(), b".".to_vec());
    assert_eq!(parsed[1].entry_len, 4072);
    assert_eq!(parsed[1].get_name_len(), 2);
    // tail fields and checksum
    let tail = Ext4DirEntryTail::from(&bytes, BLOCK_SIZE).unwrap();
    assert_eq!(tail.rec_len, 12);
    assert_eq!(tail.reserved_ft, 0xDE);
    let c = crc32c_update(CRC32C_INIT, &uuid);
    let c = crc32c_update_u32le(c, 2);
    let c = crc32c_update_u32le(c, 0);
    let c = crc32c_update_range(c, &bytes, 0, 4084);
    let c = crc32c_update_range(c, &bytes, 4084, 4092);
    assert_eq!(tail.checksum, c);
    assert_eq!(get_u32(&bytes, 4092), c);
}

#[test]
fn dir_tail_set_csum_matches_serializer() {
    let uuid = vec![3u8; 16];
    let e1 = Ext4DirEntry::new(2, 4084, b"x", EXT4_DE_REG_FILE);
    let es = vec![e1];
    let sb = Ext4Superblock {
        inodes_count: 8192,
        blocks_count: 2048,
        free_blocks_count: 0,
        free_inodes_count: 0,
        first_data_block: 0,
        blocks_per_group: 32768,
        inodes_per_group: 8192,
        creator_os: 0,
        inode_size: 256,
        feature_compat: 0,
        feature_incompat: 0x242,
        feature_ro_compat: 0x400,
        uuid: uuid.clone(),
        block_group_count: 1,
    };
    let bytes = serialize_dir_block(&es, &uuid, 5, 9);
    let mut tail = Ext4DirEntryTail::new();
    tail.ext4_dir_set_csum(&sb, 5, 9, &bytes);
    assert_eq!(tail.checksum, get_u32(&bytes, 4092));
}

#[test]
fn parse_rejects_corrupt_dir_block() {
    // all-zero bytes: the first record length is 0, under the header size
    let zero = vec![0u8; BLOCK_SIZE];
    assert!(matches!(parse_dir_block(&zero), Err(ErrCode::Efscorrupted)));
    // a valid block with the tail magic clobbered
    let uuid = vec![3u8; 16];
    let es = vec![Ext4DirEntry::new(7, 4084, b"y", EXT4_DE_REG_FILE)];
    let mut bytes = serialize_dir_block(&es, &uuid, 7, 0);
    bytes[4091] = 0;
    assert!(matches!(parse_dir_block(&bytes), Err(ErrCode::Efscorrupted)));
}

#[test]
fn parse_rejects_corrupt_extent_node() {
    let zero = vec![0u8; 60];
    assert!(matches!(parse_extent_node(&zero), Err(ErrCode::Efscorrupted)));
}

#[test]
fn extent_root_init_parses_empty() {
    let mut ino = Ext4Inode::empty();
    ino.extent_tree_init();
    let h = ino.extent_header();
    assert_eq!(h.magic, 0xF30A);
    assert_eq!(h.entries_count, 0);
    assert_eq!(h.max_entries_count, 4);
    assert_eq!(h.depth, 0);
    let node = parse_extent_node(&ino.block).unwrap();
    assert_eq!(node.leaves.len(), 0);
}

#[test]
fn correspond_inode_mode_mapping() {
    assert_eq!(ext4_fs_correspond_inode_mode(EXT4_DE_DIR), 0x4000);
    assert_eq!(ext4_fs_correspond_inode_mode(EXT4_DE_REG_FILE), 0x8000);
    assert_eq!(ext4_fs_correspond_inode_mode(7), 0xA000);
    assert_eq!(ext4_fs_correspond_inode_mode(3), 0x2000);
    assert_eq!(ext4_fs_correspond_inode_mode(4), 0x6000);
    assert_eq!(ext4_fs_correspond_inode_mode(5), 0x1000);
    assert_eq!(ext4_fs_correspond_inode_mode(6), 0xC000);
    // an unrecognized byte maps to a regular file
    assert_eq!(ext4_fs_correspond_inode_mode(0), 0x8000);
    assert_eq!(ext4_fs_correspond_inode_mode(200), 0x8000);
}

#[test]
fn mount_point_new() {
    let mp = Ext4MountPoint::new("/");
    assert!(!mp.mounted);
    assert_eq!(mp.mount_name, "/");
}

#[test]
fn inode_ref_duplicate_keeps_fields() {
    let mut ino = Ext4Inode::empty();
    ino.set_mode(EXT4_INODE_MODE_FILE);
    ino.set_links_cnt(3);
    let r = Ext4InodeRef::new(11, ino);
    let d = r.duplicate();
    assert_eq!(d.inode_id, 11);
    assert_eq!(d.inode.mode, EXT4_INODE_MODE_FILE);
    assert_eq!(d.inode.links_count, 3);
}

#[test]
fn dir_entry_name_compare() {
    let e = Ext4DirEntry::new(9, 16, b"abc", EXT4_DE_REG_FILE);
    assert!(e.compare_name(b"abc"));
    assert!(!e.compare_name(b"abd"));
    assert!(!e.compare_name(b"ab"));
    assert!(!e.unused());
    let mut t = e;
    t.set_unused();
    assert!(t.unused());
}
