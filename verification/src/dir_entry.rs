//! Directory entries: variable-length records packed into a directory data
//! block, followed by a 12-byte checksummed tail.
//!
//! An entry is an 8-byte header (inode, record length, name length,
//! file-type byte) and the name bytes. Record lengths are 4-byte aligned and
//! chain each entry to the next; the chain fills `[0, BLOCK_SIZE - 12)`
//! exactly, with no gap. An entry whose inode is 0 is a tombstone: its bytes
//! keep the chain walkable. Names are opaque byte strings, compared byte for
//! byte.

use vstd::prelude::*;

use crate::codec::{clone_bytes, get_u16, get_u32, le16_at, le32_at, put_bytes, put_u16, put_u32,
    sub_bytes, zero_vec};
use crate::crc32c::{crc32c_seq, crc32c_update, crc32c_update_range, crc32c_update_u32le,
    u32_le_bytes, CRC32C_INIT};
use crate::block::Ext4Block;
use crate::inode::{EXT4_INODE_MODE_BLOCKDEV, EXT4_INODE_MODE_CHARDEV, EXT4_INODE_MODE_DIRECTORY,
    EXT4_INODE_MODE_FIFO, EXT4_INODE_MODE_FILE, EXT4_INODE_MODE_SOCKET, EXT4_INODE_MODE_SOFTLINK};
use crate::super_block::Ext4Superblock;
use crate::{ErrCode, BLOCK_SIZE};

verus! {

/// Size of a directory entry header.
pub const DIR_ENTRY_HEADER_SIZE: usize = 8;

/// Size of the directory-block tail.
pub const DIR_TAIL_SIZE: usize = 12;

/// Bytes of a directory block available to the entry chain.
pub const DIR_CONTENT_SIZE: usize = 4084;

/// The tail's magic byte.
pub const DIR_TAIL_MAGIC: u8 = 0xDE;

/// Directory-entry file-type byte: unknown.
pub const EXT4_DE_UNKNOWN: u8 = 0;

/// Directory-entry file-type byte: regular file.
pub const EXT4_DE_REG_FILE: u8 = 1;

/// Directory-entry file-type byte: directory.
pub const EXT4_DE_DIR: u8 = 2;

/// Directory-entry file-type byte: character device.
pub const EXT4_DE_CHRDEV: u8 = 3;

/// Directory-entry file-type byte: block device.
pub const EXT4_DE_BLKDEV: u8 = 4;

/// Directory-entry file-type byte: FIFO.
pub const EXT4_DE_FIFO: u8 = 5;

/// Directory-entry file-type byte: socket.
pub const EXT4_DE_SOCK: u8 = 6;

/// Directory-entry file-type byte: symbolic link.
pub const EXT4_DE_SYMLINK: u8 = 7;

/// An in-memory directory entry.
pub struct Ext4DirEntry {
    /// Inode the entry points at; 0 marks a tombstone.
    pub inode: u32,
    /// Distance to the next entry in the block.
    pub entry_len: u16,
    /// Length of the name in bytes.
    pub name_len: u8,
    /// File-type byte.
    pub file_type: u8,
    /// The name bytes, `name_len` of them.
    pub name: Vec<u8>,
}

/// `n` rounded up to a multiple of 4.
pub open spec fn align4(n: int) -> int {
    ((n + 3) / 4) * 4
}

/// Bytes an entry actually occupies: header plus aligned name.
pub open spec fn de_used_size(e: Ext4DirEntry) -> int {
    DIR_ENTRY_HEADER_SIZE + align4(e.name_len as int)
}

/// A well-formed entry: the name matches its length field and the record
/// length covers the used bytes, 4-byte aligned, within one block's chain.
pub open spec fn de_wf(e: Ext4DirEntry) -> bool {
    &&& e.name@.len() == e.name_len
    &&& de_used_size(e) <= e.entry_len
    &&& e.entry_len % 4 == 0
    &&& e.entry_len <= DIR_CONTENT_SIZE
}

/// Sum of the record lengths of the first `n` entries: the offset where
/// entry `n` starts.
pub open spec fn entries_size(es: Seq<Ext4DirEntry>, n: int) -> int
    decreases n,
{
    if n <= 0 {
        0
    } else {
        entries_size(es, n - 1) + es[n - 1].entry_len
    }
}

/// A well-formed entry chain: every entry well-formed and the record
/// lengths summing exactly to the content size.
pub open spec fn dblock_entries_wf(es: Seq<Ext4DirEntry>) -> bool {
    &&& forall|i: int| 0 <= i < es.len() ==> de_wf(#[trigger] es[i])
    &&& entries_size(es, es.len() as int) == DIR_CONTENT_SIZE
}

/// What entry `e` looks like at byte offset `off` of a block.
#[verifier::opaque]
pub open spec fn de_matches_at(e: Ext4DirEntry, s: Seq<u8>, off: int) -> bool {
    &&& le32_at(s, off) == e.inode
    &&& le16_at(s, off + 4) == e.entry_len
    &&& s[off + 6] == e.name_len
    &&& s[off + 7] == e.file_type
    &&& s.subrange(off + 8, off + 8 + e.name_len) == e.name@
}

/// The tail's fixed fields: two zero paddings, record length 12, magic.
pub open spec fn dtail_matches(s: Seq<u8>) -> bool {
    &&& le32_at(s, 4084) == 0
    &&& le16_at(s, 4088) == DIR_TAIL_SIZE as u16
    &&& s[4090] == 0u8
    &&& s[4091] == DIR_TAIL_MAGIC
}

/// A whole directory block: every entry at its chained offset, tail present.
pub open spec fn dblock_region_matches(es: Seq<Ext4DirEntry>, s: Seq<u8>) -> bool {
    &&& s.len() == BLOCK_SIZE
    &&& forall|i: int|
        0 <= i < es.len() ==> de_matches_at(#[trigger] es[i], s, entries_size(es, i))
    &&& dtail_matches(s)
}

/// The keyed CRC32C of a directory block: UUID, the directory's inode id and
/// generation as little-endian words, the entry chain bytes, then the tail
/// without its checksum field.
pub open spec fn dir_block_csum_of(uuid: Seq<u8>, dir_ino: u32, gen: u32, s: Seq<u8>) -> u32 {
    crc32c_seq(
        crc32c_seq(
            crc32c_seq(
                crc32c_seq(crc32c_seq(CRC32C_INIT, uuid), u32_le_bytes(dir_ino)),
                u32_le_bytes(gen),
            ),
            s.subrange(0, 4084),
        ),
        s.subrange(4084, 4092),
    )
}

/// The stored tail checksum verifies.
pub open spec fn dir_block_csum_valid(uuid: Seq<u8>, dir_ino: u32, gen: u32, s: Seq<u8>) -> bool {
    &&& s.len() == BLOCK_SIZE
    &&& le32_at(s, 4092) == dir_block_csum_of(uuid, dir_ino, gen, s)
}

/// Whether the record chain starting at byte `off` is well-formed through
/// the end of the content region: each record 4-byte aligned, at least the
/// bytes it uses, inside the region, the chain landing exactly on the
/// region's end.
pub open spec fn chain_wf(s: Seq<u8>, off: int) -> bool
    decreases DIR_CONTENT_SIZE - off
        when 0 <= off <= DIR_CONTENT_SIZE
{
    if off == DIR_CONTENT_SIZE {
        true
    } else if off + DIR_ENTRY_HEADER_SIZE > DIR_CONTENT_SIZE {
        false
    } else {
        let el = le16_at(s, off + 4) as int;
        &&& el % 4 == 0
        &&& el >= DIR_ENTRY_HEADER_SIZE + align4(s[off + 6] as int)
        &&& off + el <= DIR_CONTENT_SIZE
        &&& chain_wf(s, off + el)
    }
}

/// A directory block's bytes as a whole: a well-formed chain plus the
/// tail's fixed fields.
pub open spec fn dblock_bytes_wf(s: Seq<u8>) -> bool {
    &&& s.len() == BLOCK_SIZE
    &&& chain_wf(s, 0)
    &&& dtail_matches(s)
}

/// The inode carried by the first live entry named `name` along the byte
/// chain, walking from byte `off`; `None` past the region's end or where
/// the chain breaks.
pub open spec fn chain_find_live(s: Seq<u8>, off: int, name: Seq<u8>) -> Option<u32>
    decreases DIR_CONTENT_SIZE - off
        when 0 <= off <= DIR_CONTENT_SIZE
{
    if off == DIR_CONTENT_SIZE || off + DIR_ENTRY_HEADER_SIZE > DIR_CONTENT_SIZE {
        None
    } else {
        let el = le16_at(s, off + 4) as int;
        if !(el % 4 == 0 && el >= DIR_ENTRY_HEADER_SIZE + align4(s[off + 6] as int) && off + el
            <= DIR_CONTENT_SIZE) {
            None
        } else if le32_at(s, off) != 0 && s[off + 6] as int == name.len() && s.subrange(
            off + 8,
            off + 8 + name.len() as int,
        ) == name {
            Some(le32_at(s, off))
        } else {
            chain_find_live(s, off + el, name)
        }
    }
}

/// Over bytes that match a parsed record sequence, the byte-level search
/// agrees with the sequence-level one, record by record.
pub proof fn lemma_chain_find_matches(es: Seq<Ext4DirEntry>, s: Seq<u8>, name: Seq<u8>, k: int)
    requires
        dblock_entries_wf(es),
        dblock_region_matches(es, s),
        0 <= k <= es.len(),
    ensures
        chain_find_live(s, entries_size(es, k), name) == (match dblock_find_from(es, name, k) {
            Some(i) => Some(es[i].inode),
            None => None::<u32>,
        }),
    decreases es.len() - k,
{
    lemma_entries_size_monotone(es, 0, k);
    let off = entries_size(es, k);
    if k == es.len() {
        assert(off == DIR_CONTENT_SIZE);
    } else {
        reveal(de_matches_at);
        assert(de_wf(es[k]));
        assert(de_matches_at(es[k], s, off));
        assert(entries_size(es, k + 1) == off + es[k].entry_len);
        lemma_entries_size_monotone(es, k + 1, es.len() as int);
        let el = le16_at(s, off + 4) as int;
        assert(el == es[k].entry_len);
        assert(s[off + 6] == es[k].name_len);
        assert(off + DIR_ENTRY_HEADER_SIZE <= DIR_CONTENT_SIZE);
        if le32_at(s, off) != 0 && s[off + 6] as int == name.len() && s.subrange(
            off + 8,
            off + 8 + name.len() as int,
        ) == name {
            assert(es[k].name@ == s.subrange(off + 8, off + 8 + es[k].name_len as int));
            assert(es[k].inode != 0 && es[k].name@ == name);
        } else {
            if es[k].inode != 0 && es[k].name@ == name {
                assert(name.len() == es[k].name_len);
                assert(s.subrange(off + 8, off + 8 + name.len() as int) == name);
                assert(false);
            }
            lemma_chain_find_matches(es, s, name, k + 1);
        }
    }
}

/// Bytes that a well-formed record sequence matches carry a well-formed
/// chain from any record boundary on.
pub proof fn lemma_chain_wf_from_entries(es: Seq<Ext4DirEntry>, s: Seq<u8>, k: int)
    requires
        dblock_entries_wf(es),
        dblock_region_matches(es, s),
        0 <= k <= es.len(),
    ensures
        chain_wf(s, entries_size(es, k)),
    decreases es.len() - k,
{
    lemma_entries_size_monotone(es, 0, k);
    let off = entries_size(es, k);
    if k < es.len() {
        reveal(de_matches_at);
        assert(de_wf(es[k]));
        assert(de_matches_at(es[k], s, off));
        assert(entries_size(es, k + 1) == off + es[k].entry_len);
        lemma_entries_size_monotone(es, k + 1, es.len() as int);
        lemma_chain_wf_from_entries(es, s, k + 1);
        assert(le16_at(s, off + 4) == es[k].entry_len);
        assert(s[off + 6] == es[k].name_len);
    }
}

/// The (inode, name) pairs of the chain's live entries in offset order,
/// walking from byte `off`.
pub open spec fn chain_live_list(s: Seq<u8>, off: int) -> Seq<(u32, Seq<u8>)>
    decreases DIR_CONTENT_SIZE - off
        when 0 <= off <= DIR_CONTENT_SIZE
{
    if off == DIR_CONTENT_SIZE || off + DIR_ENTRY_HEADER_SIZE > DIR_CONTENT_SIZE {
        Seq::empty()
    } else {
        let el = le16_at(s, off + 4) as int;
        if !(el % 4 == 0 && el >= DIR_ENTRY_HEADER_SIZE + align4(s[off + 6] as int) && off + el
            <= DIR_CONTENT_SIZE) {
            Seq::empty()
        } else if le32_at(s, off) != 0 {
            seq![(le32_at(s, off), s.subrange(off + 8, off + 8 + s[off + 6] as int))]
                + chain_live_list(s, off + el)
        } else {
            chain_live_list(s, off + el)
        }
    }
}

/// The same pairs read from a record sequence, from record `k` on.
pub open spec fn entries_live_list(es: Seq<Ext4DirEntry>, k: int) -> Seq<(u32, Seq<u8>)>
    decreases es.len() - k
        when 0 <= k
{
    if k >= es.len() {
        Seq::empty()
    } else if es[k].inode != 0 {
        seq![(es[k].inode, es[k].name@)] + entries_live_list(es, k + 1)
    } else {
        entries_live_list(es, k + 1)
    }
}

/// Over bytes that match a record sequence, the byte-level live listing
/// agrees with the sequence-level one, record by record.
pub proof fn lemma_chain_live_matches(es: Seq<Ext4DirEntry>, s: Seq<u8>, k: int)
    requires
        dblock_entries_wf(es),
        dblock_region_matches(es, s),
        0 <= k <= es.len(),
    ensures
        chain_live_list(s, entries_size(es, k)) == entries_live_list(es, k),
    decreases es.len() - k,
{
    lemma_entries_size_monotone(es, 0, k);
    let off = entries_size(es, k);
    if k == es.len() {
        assert(off == DIR_CONTENT_SIZE);
    } else {
        reveal(de_matches_at);
        assert(de_wf(es[k]));
        assert(de_matches_at(es[k], s, off));
        assert(entries_size(es, k + 1) == off + es[k].entry_len);
        lemma_entries_size_monotone(es, k + 1, es.len() as int);
        assert(le16_at(s, off + 4) == es[k].entry_len);
        assert(s[off + 6] == es[k].name_len);
        assert(le32_at(s, off) == es[k].inode);
        assert(s.subrange(off + 8, off + 8 + es[k].name_len as int) == es[k].name@);
        lemma_chain_live_matches(es, s, k + 1);
    }
}

/// Whether some record of the chain has at least `need` bytes of slack
/// past the bytes it uses, walking from byte `off`.
pub open spec fn chain_has_slack(s: Seq<u8>, off: int, need: int) -> bool
    decreases DIR_CONTENT_SIZE - off
        when 0 <= off <= DIR_CONTENT_SIZE
{
    if off == DIR_CONTENT_SIZE || off + DIR_ENTRY_HEADER_SIZE > DIR_CONTENT_SIZE {
        false
    } else {
        let el = le16_at(s, off + 4) as int;
        if !(el % 4 == 0 && el >= DIR_ENTRY_HEADER_SIZE + align4(s[off + 6] as int) && off + el
            <= DIR_CONTENT_SIZE) {
            false
        } else if el - (DIR_ENTRY_HEADER_SIZE + align4(s[off + 6] as int)) >= need {
            true
        } else {
            chain_has_slack(s, off + el, need)
        }
    }
}

/// Whether some record from `k` on has at least `need` bytes of slack.
pub open spec fn entries_have_slack(es: Seq<Ext4DirEntry>, k: int, need: int) -> bool
    decreases es.len() - k
        when 0 <= k
{
    if k >= es.len() {
        false
    } else if es[k].entry_len - de_used_size(es[k]) >= need {
        true
    } else {
        entries_have_slack(es, k + 1, need)
    }
}

/// Over bytes that match a record sequence, the byte-level slack test
/// agrees with the records', one by one.
pub proof fn lemma_chain_slack_matches(es: Seq<Ext4DirEntry>, s: Seq<u8>, need: int, k: int)
    requires
        dblock_entries_wf(es),
        dblock_region_matches(es, s),
        0 <= k <= es.len(),
    ensures
        chain_has_slack(s, entries_size(es, k), need) == entries_have_slack(es, k, need),
    decreases es.len() - k,
{
    lemma_entries_size_monotone(es, 0, k);
    let off = entries_size(es, k);
    if k == es.len() {
        assert(off == DIR_CONTENT_SIZE);
    } else {
        reveal(de_matches_at);
        assert(de_wf(es[k]));
        assert(de_matches_at(es[k], s, off));
        assert(entries_size(es, k + 1) == off + es[k].entry_len);
        lemma_entries_size_monotone(es, k + 1, es.len() as int);
        assert(le16_at(s, off + 4) == es[k].entry_len);
        assert(s[off + 6] == es[k].name_len);
        if es[k].entry_len - de_used_size(es[k]) >= need {
        } else {
            lemma_chain_slack_matches(es, s, need, k + 1);
        }
    }
}

/// When no record has the needed slack, the scan confirms it.
pub proof fn lemma_no_slack(es: Seq<Ext4DirEntry>, k: int, need: int)
    requires
        0 <= k <= es.len(),
        forall|i: int|
            0 <= i < es.len() ==> (#[trigger] es[i]).entry_len - de_used_size(es[i]) < need,
    ensures
        !entries_have_slack(es, k, need),
    decreases es.len() - k,
{
    if k < es.len() {
        lemma_no_slack(es, k + 1, need);
    }
}

/// Index of the first live entry named `name`, searching from `i`.
pub open spec fn dblock_find_from(es: Seq<Ext4DirEntry>, name: Seq<u8>, i: int) -> Option<int>
    decreases es.len() - i,
{
    if i < 0 || i >= es.len() {
        None
    } else if es[i].inode != 0 && es[i].name@ == name {
        Some(i)
    } else {
        dblock_find_from(es, name, i + 1)
    }
}

/// Index of the first live entry named `name`.
pub open spec fn dblock_find(es: Seq<Ext4DirEntry>, name: Seq<u8>) -> Option<int> {
    dblock_find_from(es, name, 0)
}

/// Whether a live entry named `name` exists.
pub open spec fn dblock_contains(es: Seq<Ext4DirEntry>, name: Seq<u8>) -> bool {
    dblock_find(es, name) is Some
}

/// What a search result means: the hit is in range, live, and named `name`,
/// and nothing before it matches.
pub proof fn lemma_dblock_find_from_spec(es: Seq<Ext4DirEntry>, name: Seq<u8>, i: int)
    requires
        0 <= i <= es.len(),
    ensures
        match dblock_find_from(es, name, i) {
            Some(j) => {
                &&& i <= j < es.len()
                &&& es[j].inode != 0
                &&& es[j].name@ == name
                &&& forall|k: int| i <= k < j ==> !((#[trigger] es[k]).inode != 0 && es[k].name@ == name)
            },
            None => forall|k: int|
                i <= k < es.len() ==> !((#[trigger] es[k]).inode != 0 && es[k].name@ == name),
        },
    decreases es.len() - i,
{
    if i < es.len() {
        if !(es[i].inode != 0 && es[i].name@ == name) {
            lemma_dblock_find_from_spec(es, name, i + 1);
        }
    }
}

/// Chain `es1` is chain `es0` with entry `i` shrunk in place and a fresh
/// live entry for `child` named `name` inserted right after it: the shape
/// the in-place split produces.
pub open spec fn split_inserted(
    es0: Seq<Ext4DirEntry>,
    es1: Seq<Ext4DirEntry>,
    i: int,
    child: u32,
    name: Seq<u8>,
) -> bool {
    &&& 0 <= i < es0.len()
    &&& es1 == es0.update(i, (Ext4DirEntry { entry_len: es1[i].entry_len, ..es0[i] })).insert(
        i + 1,
        es1[i + 1],
    )
    // the split entry shrinks to exactly the bytes it uses
    &&& es1[i].entry_len == de_used_size(es0[i])
    &&& es1[i + 1].inode == child
    &&& es1[i + 1].name@ == name
}

/// Chain `es1` is chain `es0` with its first live entry named `name`
/// turned into a tombstone: the shape removal produces.
pub open spec fn tombstoned(es0: Seq<Ext4DirEntry>, es1: Seq<Ext4DirEntry>, name: Seq<u8>) -> bool {
    match dblock_find(es0, name) {
        Some(i) => es1 == es0.update(i, (Ext4DirEntry { inode: 0, ..es0[i] })),
        None => false,
    }
}

/// Two chains whose record lengths agree entry by entry occupy the same
/// offsets.
pub proof fn lemma_entries_size_same_lens(es1: Seq<Ext4DirEntry>, es2: Seq<Ext4DirEntry>, n: int)
    requires
        forall|k: int| 0 <= k < n ==> es1[k].entry_len == es2[k].entry_len,
    ensures
        entries_size(es1, n) == entries_size(es2, n),
    decreases n,
{
    if n > 0 {
        lemma_entries_size_same_lens(es1, es2, n - 1);
    }
}

/// Offsets grow along the chain.
pub proof fn lemma_entries_size_monotone(es: Seq<Ext4DirEntry>, m: int, n: int)
    requires
        0 <= m <= n,
    ensures
        entries_size(es, m) <= entries_size(es, n),
    decreases n,
{
    if m < n {
        lemma_entries_size_monotone(es, m, n - 1);
    }
}

/// How the chain total changes when entry `i` is shrunk to `a` and `b` is
/// inserted right after it.
pub proof fn lemma_entries_size_update_insert(
    es: Seq<Ext4DirEntry>,
    i: int,
    a: Ext4DirEntry,
    b: Ext4DirEntry,
    n: int,
)
    requires
        0 <= i < es.len(),
        i + 2 <= n <= es.len() + 1,
    ensures
        entries_size(es.update(i, a).insert(i + 1, b), n) == entries_size(es, n - 1)
            - es[i].entry_len + a.entry_len + b.entry_len,
    decreases n,
{
    let es2 = es.update(i, a).insert(i + 1, b);
    if n == i + 2 {
        lemma_entries_size_same_lens(es2, es, i);
        assert(es2[i] == a && es2[i + 1] == b);
        assert(entries_size(es2, i + 2) == entries_size(es2, i + 1) + es2[i + 1].entry_len);
        assert(entries_size(es2, i + 1) == entries_size(es2, i) + es2[i].entry_len);
        assert(entries_size(es, i + 1) == entries_size(es, i) + es[i].entry_len);
    } else {
        lemma_entries_size_update_insert(es, i, a, b, n - 1);
        assert(es2[n - 1] == es[n - 2]);
        assert(entries_size(es2, n) == entries_size(es2, n - 1) + es2[n - 1].entry_len);
        assert(entries_size(es, n - 1) == entries_size(es, n - 2) + es[n - 2].entry_len);
    }
}

/// A region match survives writes outside the entry's bytes.
pub proof fn lemma_de_matches_preserved(e: Ext4DirEntry, s1: Seq<u8>, s2: Seq<u8>, off: int)
    requires
        de_matches_at(e, s1, off),
        s1.len() == s2.len(),
        0 <= off,
        off + 8 + e.name_len <= s1.len(),
        forall|j: int| off <= j < off + 8 + e.name_len ==> s2[j] == s1[j],
    ensures
        de_matches_at(e, s2, off),
{
    reveal(de_matches_at);
    assert(s2.subrange(off + 8, off + 8 + e.name_len) =~= s1.subrange(
        off + 8,
        off + 8 + e.name_len,
    ));
}

/// Byte-for-byte equality of two byte strings.
pub fn bytes_equal(a: &[u8], b: &[u8]) -> (r: bool)
    ensures
        r == (a@ == b@),
{
    if a.len() != b.len() {
        proof {
            assert(a@ != b@);
        }
        return false;
    }
    let n = a.len();
    let mut i: usize = 0;
    while i < n
        invariant
            i <= n,
            a@.len() == n == b@.len(),
            forall|j: int| 0 <= j < i ==> a@[j] == b@[j],
        decreases n - i,
    {
        if a[i] != b[i] {
            return false;
        }
        i = i + 1;
    }
    proof {
        assert(a@ =~= b@);
    }
    true
}

impl Default for Ext4DirEntry {
    /// An all-zero entry: a tombstone with an empty name.
    fn default() -> (r: Ext4DirEntry)
        ensures
            r.inode == 0 && r.entry_len == 0 && r.name_len == 0 && r.file_type == 0,
            r.name@.len() == 0,
    {
        Ext4DirEntry { inode: 0, entry_len: 0, name_len: 0, file_type: 0, name: Vec::new() }
    }
}

impl Ext4DirEntry {
    /// A fresh entry.
    pub fn new(inode: u32, entry_len: u16, name: &[u8], file_type: u8) -> (r: Ext4DirEntry)
        requires
            name@.len() <= 255,
        ensures
            r.inode == inode,
            r.entry_len == entry_len,
            r.name_len == name@.len(),
            r.file_type == file_type,
            r.name@ == name@,
    {
        Ext4DirEntry {
            inode,
            entry_len,
            name_len: name.len() as u8,
            file_type,
            name: sub_bytes(name, 0, name.len()),
        }
    }

    /// A field-for-field copy.
    pub fn clone_entry(&self) -> (r: Ext4DirEntry)
        ensures
            r.inode == self.inode,
            r.entry_len == self.entry_len,
            r.name_len == self.name_len,
            r.file_type == self.file_type,
            r.name@ == self.name@,
    {
        Ext4DirEntry {
            inode: self.inode,
            entry_len: self.entry_len,
            name_len: self.name_len,
            file_type: self.file_type,
            name: clone_bytes(&self.name),
        }
    }

    /// A copy of the name bytes.
    pub fn get_name(&self) -> (r: Vec<u8>)
        ensures
            r@ == self.name@,
    {
        clone_bytes(&self.name)
    }

    /// Length of the name in bytes.
    pub fn get_name_len(&self) -> (r: usize)
        ensures
            r == self.name_len,
    {
        self.name_len as usize
    }

    /// Bytes this entry actually occupies: header plus aligned name.
    pub fn used_size(&self) -> (r: usize)
        ensures
            r == de_used_size(*self),
    {
        DIR_ENTRY_HEADER_SIZE + ((self.name_len as usize) + 3) / 4 * 4
    }

    /// Bytes a fresh entry for a `name_len`-byte name would occupy.
    pub fn required_size(name_len: usize) -> (r: usize)
        requires
            name_len <= 255,
        ensures
            r == DIR_ENTRY_HEADER_SIZE + align4(name_len as int),
    {
        DIR_ENTRY_HEADER_SIZE + (name_len + 3) / 4 * 4
    }

    /// Whether this entry is a tombstone.
    pub fn unused(&self) -> (r: bool)
        ensures
            r == (self.inode == 0),
    {
        self.inode == 0
    }

    /// Mark this entry as a tombstone, keeping its record length.
    pub fn set_unused(&mut self)
        ensures
            *final(self) == (Ext4DirEntry { inode: 0, ..*old(self) }),
    {
        self.inode = 0;
    }

    /// Write this entry's header and name into a block at byte `offset`,
    /// leaving every other byte unchanged.
    pub fn write_de_to_blk(&self, dst_blk: &mut Ext4Block, offset: usize)
        requires
            de_wf(*self),
            offset + self.entry_len <= DIR_CONTENT_SIZE,
            old(dst_blk).wf(),
        ensures
            final(dst_blk).wf(),
            final(dst_blk).disk_block_id == old(dst_blk).disk_block_id,
            de_matches_at(*self, final(dst_blk).block_data@, offset as int),
            forall|j: int|
                0 <= j < BLOCK_SIZE && !(offset <= j < offset + 8 + self.name_len)
                    ==> final(dst_blk).block_data@[j] == old(dst_blk).block_data@[j],
    {
        write_entry_at(&mut dst_blk.block_data, offset, self);
    }

    /// Whether this entry's name equals `name`, byte for byte.
    pub fn compare_name(&self, name: &[u8]) -> (r: bool)
        ensures
            r == (self.name@ == name@),
    {
        bytes_equal(self.name.as_slice(), name)
    }
}

/// Parse a directory block's entry chain and tail.
///
/// Succeeds exactly on a chain of well-formed records that fills the content
/// region and a tail with the fixed fields; the parsed entries then match
/// the bytes. Malformed bytes are `EFSCORRUPTED`.
#[verifier::rlimit(60)]
pub fn parse_dir_block(s: &[u8]) -> (r: Result<Vec<Ext4DirEntry>, ErrCode>)
    requires
        s@.len() == BLOCK_SIZE,
    ensures
        match r {
            Ok(es) => {
                &&& dblock_entries_wf(es@)
                &&& dblock_region_matches(es@, s@)
            },
            Err(c) => c == ErrCode::Efscorrupted,
        },
        // success exactly on well-formed bytes
        r is Ok <==> dblock_bytes_wf(s@),
{
    let mut es: Vec<Ext4DirEntry> = Vec::new();
    let mut off: usize = 0;
    while off < DIR_CONTENT_SIZE
        invariant
            s@.len() == BLOCK_SIZE,
            off <= DIR_CONTENT_SIZE,
            entries_size(es@, es@.len() as int) == off,
            chain_wf(s@, off as int) ==> chain_wf(s@, 0),
            chain_wf(s@, 0) ==> chain_wf(s@, off as int),
            forall|i: int| 0 <= i < es@.len() ==> de_wf(#[trigger] es@[i]),
            forall|i: int|
                0 <= i < es@.len() ==> de_matches_at(#[trigger] es@[i], s@, entries_size(es@, i)),
        decreases DIR_CONTENT_SIZE - off,
    {
        if off + DIR_ENTRY_HEADER_SIZE > DIR_CONTENT_SIZE {
            proof {
                assert(!chain_wf(s@, off as int));
            }
            return Err(ErrCode::Efscorrupted);
        }
        let inode = get_u32(s, off);
        let entry_len = get_u16(s, off + 4);
        let name_len = s[off + 6];
        let file_type = s[off + 7];
        let el = entry_len as usize;
        if el % 4 != 0 {
            proof {
                assert(!chain_wf(s@, off as int));
            }
            return Err(ErrCode::Efscorrupted);
        }
        if el < DIR_ENTRY_HEADER_SIZE + ((name_len as usize) + 3) / 4 * 4 {
            proof {
                assert(!chain_wf(s@, off as int));
            }
            return Err(ErrCode::Efscorrupted);
        }
        if off + el > DIR_CONTENT_SIZE {
            proof {
                assert(!chain_wf(s@, off as int));
            }
            return Err(ErrCode::Efscorrupted);
        }
        proof {
            assert(chain_wf(s@, off as int) == chain_wf(s@, off + el));
        }
        let name = sub_bytes(s, off + 8, off + 8 + name_len as usize);
        let e = Ext4DirEntry { inode, entry_len, name_len, file_type, name };
        let ghost old_es = es@;
        es.push(e);
        proof {
            reveal(de_matches_at);
            assert(es@ == old_es.push(e));
            assert(entries_size(es@, es@.len() as int) == entries_size(es@, es@.len() - 1)
                + e.entry_len);
            lemma_entries_size_same_lens(es@, old_es, old_es.len() as int);
            assert forall|i: int| 0 <= i < es@.len() implies de_matches_at(
                #[trigger] es@[i],
                s@,
                entries_size(es@, i),
            ) by {
                lemma_entries_size_same_lens(es@, old_es, i);
                if i < old_es.len() {
                    assert(es@[i] == old_es[i]);
                } else {
                    assert(es@[i] == e);
                    assert(entries_size(es@, i) == off);
                }
            }
        }
        off = off + el;
    }
    // the chain ends exactly at the tail
    if get_u32(s, 4084) != 0 {
        return Err(ErrCode::Efscorrupted);
    }
    if get_u16(s, 4088) != DIR_TAIL_SIZE as u16 {
        return Err(ErrCode::Efscorrupted);
    }
    if s[4090] != 0 {
        return Err(ErrCode::Efscorrupted);
    }
    if s[4091] != DIR_TAIL_MAGIC {
        return Err(ErrCode::Efscorrupted);
    }
    Ok(es)
}

/// Write one entry's header and name at byte offset `off`, leaving every
/// byte outside `[off, off + 8 + name_len)` unchanged.
fn write_entry_at(v: &mut Vec<u8>, off: usize, e: &Ext4DirEntry)
    requires
        de_wf(*e),
        off + e.entry_len <= DIR_CONTENT_SIZE,
        old(v)@.len() == BLOCK_SIZE,
    ensures
        final(v)@.len() == BLOCK_SIZE,
        de_matches_at(*e, final(v)@, off as int),
        forall|j: int|
            0 <= j < BLOCK_SIZE && !(off <= j < off + 8 + e.name_len) ==> final(v)@[j] == old(
                v,
            )@[j],
{
    proof {
        assert(8 + e.name_len <= de_used_size(*e));
    }
    put_u32(v, off, e.inode);
    put_u16(v, off + 4, e.entry_len);
    crate::codec::put_u8(v, off + 6, e.name_len);
    crate::codec::put_u8(v, off + 7, e.file_type);
    put_bytes(v, off + 8, e.name.as_slice());
    proof {
        reveal(de_matches_at);
        assert(final(v)@.subrange(off + 8, off + 8 + e.name_len) =~= e.name@);
    }
}

/// Serialize an entry chain into a directory block, tail and keyed checksum
/// included.
#[verifier::rlimit(100)]
pub fn serialize_dir_block(
    es: &Vec<Ext4DirEntry>,
    uuid: &[u8],
    dir_ino: u32,
    gen: u32,
) -> (r: Vec<u8>)
    requires
        dblock_entries_wf(es@),
    ensures
        dblock_region_matches(es@, r@),
        dir_block_csum_valid(uuid@, dir_ino, gen, r@),
{
    let mut v = zero_vec(BLOCK_SIZE);
    let mut off: usize = 0;
    let n = es.len();
    let mut i: usize = 0;
    while i < n
        invariant
            n == es@.len(),
            i <= n,
            v@.len() == BLOCK_SIZE,
            dblock_entries_wf(es@),
            off == entries_size(es@, i as int),
            off <= DIR_CONTENT_SIZE,
            forall|k: int|
                0 <= k < i ==> de_matches_at(#[trigger] es@[k], v@, entries_size(es@, k)),
        decreases n - i,
    {
        proof {
            assert(de_wf(es@[i as int]));
            assert(entries_size(es@, i + 1 as int) == off + es@[i as int].entry_len);
            lemma_entries_size_monotone(es@, i + 1 as int, n as int);
        }
        let ghost v0 = v@;
        let el: usize = es[i].entry_len as usize;
        write_entry_at(&mut v, off, &es[i]);
        proof {
            assert forall|k: int| 0 <= k < i implies de_matches_at(
                #[trigger] es@[k],
                v@,
                entries_size(es@, k),
            ) by {
                let ko = entries_size(es@, k);
                lemma_entries_size_monotone(es@, 0, k);
                lemma_entries_size_monotone(es@, k + 1, i as int);
                assert(entries_size(es@, k + 1) == ko + es@[k].entry_len);
                assert(ko + 8 + es@[k].name_len <= ko + es@[k].entry_len <= off);
                lemma_de_matches_preserved(es@[k], v0, v@, ko);
            }
        }
        off = off + el;
        i = i + 1;
    }
    // tail: padding, record length 12, magic
    let ghost v1 = v@;
    put_u32(&mut v, 4084, 0);
    put_u16(&mut v, 4088, DIR_TAIL_SIZE as u16);
    crate::codec::put_u8(&mut v, 4090, 0);
    crate::codec::put_u8(&mut v, 4091, DIR_TAIL_MAGIC);
    let ghost v2 = v@;
    let c = crc32c_update(CRC32C_INIT, uuid);
    let c = crc32c_update_u32le(c, dir_ino);
    let c = crc32c_update_u32le(c, gen);
    let c = crc32c_update_range(c, v.as_slice(), 0, 4084);
    let c = crc32c_update_range(c, v.as_slice(), 4084, 4092);
    put_u32(&mut v, 4092, c);
    proof {
        assert(v@.subrange(0, 4084) =~= v2.subrange(0, 4084));
        assert(v@.subrange(4084, 4092) =~= v2.subrange(4084, 4092));
        assert forall|k: int| 0 <= k < es@.len() implies de_matches_at(
            #[trigger] es@[k],
            v@,
            entries_size(es@, k),
        ) by {
            let ko = entries_size(es@, k);
            lemma_entries_size_monotone(es@, 0, k);
            lemma_entries_size_monotone(es@, k + 1, es@.len() as int);
            assert(entries_size(es@, k + 1) == ko + es@[k].entry_len);
            assert(ko + 8 + es@[k].name_len <= DIR_CONTENT_SIZE);
            lemma_de_matches_preserved(es@[k], v1, v@, ko);
        }
    }
    v
}

/// Find the first live entry named `name` in a parsed chain.
pub fn find_entry_index(es: &Vec<Ext4DirEntry>, name: &[u8]) -> (r: Option<usize>)
    ensures
        match r {
            Some(i) => i < es@.len() && dblock_find(es@, name@) == Some(i as int),
            None => dblock_find(es@, name@) is None,
        },
{
    let n = es.len();
    let mut i: usize = 0;
    while i < n
        invariant
            i <= n == es@.len(),
            dblock_find(es@, name@) == dblock_find_from(es@, name@, i as int),
        decreases n - i,
    {
        let e = &es[i];
        if e.inode != 0 && bytes_equal(e.name.as_slice(), name) {
            return Some(i);
        }
        i = i + 1;
    }
    None
}

/// Split the first entry with enough slack and place a fresh entry for
/// `name` in the reclaimed space.
///
/// Returns the index of the split entry, or `None` (chain unchanged) when no
/// entry has `required_size` bytes of slack.
pub fn insert_entry_split(
    es: &mut Vec<Ext4DirEntry>,
    child_id: u32,
    file_type: u8,
    name: &[u8],
) -> (r: Option<usize>)
    requires
        dblock_entries_wf(old(es)@),
        name@.len() <= 255,
        child_id != 0,
    ensures
        match r {
            Some(i) => {
                &&& 0 <= i < old(es)@.len()
                &&& final(es)@ == old(es)@.update(
                    i as int,
                    (Ext4DirEntry {
                        entry_len: (de_used_size(old(es)@[i as int])) as u16,
                        ..old(es)@[i as int]
                    }),
                ).insert(
                    i + 1,
                    (Ext4DirEntry {
                        inode: child_id,
                        entry_len: (old(es)@[i as int].entry_len - de_used_size(
                            old(es)@[i as int],
                        )) as u16,
                        name_len: name@.len() as u8,
                        file_type,
                        name: final(es)@[i + 1].name,
                    }),
                )
                &&& final(es)@[i + 1].name@ == name@
                &&& old(es)@[i as int].entry_len - de_used_size(old(es)@[i as int])
                    >= DIR_ENTRY_HEADER_SIZE + align4(name@.len() as int)
                &&& forall|k: int|
                    0 <= k < i ==> (#[trigger] old(es)@[k]).entry_len - de_used_size(old(es)@[k])
                        < DIR_ENTRY_HEADER_SIZE + align4(name@.len() as int)
                &&& dblock_entries_wf(final(es)@)
            },
            None => {
                &&& final(es)@ == old(es)@
                &&& forall|k: int|
                    0 <= k < old(es)@.len() ==> (#[trigger] old(es)@[k]).entry_len - de_used_size(
                        old(es)@[k],
                    ) < DIR_ENTRY_HEADER_SIZE + align4(name@.len() as int)
            },
        },
{
    let required = Ext4DirEntry::required_size(name.len());
    let n = es.len();
    let mut i: usize = 0;
    while i < n
        invariant
            n == es@.len(),
            i <= n,
            es@ == old(es)@,
            dblock_entries_wf(es@),
            name@.len() <= 255,
            required == DIR_ENTRY_HEADER_SIZE + align4(name@.len() as int),
            forall|k: int|
                0 <= k < i ==> (#[trigger] es@[k]).entry_len - de_used_size(es@[k]) < required,
        decreases n - i,
    {
        let used = es[i].used_size();
        let rec_len = es[i].entry_len as usize;
        proof {
            assert(de_wf(es@[i as int]));
        }
        let free = rec_len - used;
        if free >= required {
            let new_entry = Ext4DirEntry::new(child_id, free as u16, name, file_type);
            let ghost pre = es@;
            let ghost shrunk = (Ext4DirEntry { entry_len: used as u16, ..pre[i as int] });
            let ghost newe = new_entry;
            let slot = &mut es[i];
            slot.entry_len = used as u16;
            proof {
                assert(es@[i as int] == shrunk);
                assert(es@ =~= pre.update(i as int, shrunk));
            }
            es.insert(i + 1, new_entry);
            proof {
                let es2 = pre.update(i as int, shrunk).insert(i + 1, newe);
                assert(es@ == es2);
                lemma_entries_size_update_insert(pre, i as int, shrunk, newe, es2.len() as int);
                assert(entries_size(es2, es2.len() as int) == DIR_CONTENT_SIZE);
                assert(de_wf(shrunk));
                assert(de_wf(newe));
                assert forall|k: int| 0 <= k < es2.len() implies de_wf(#[trigger] es2[k]) by {
                    if k < i {
                        assert(es2[k] == pre[k]);
                    } else if k == i {
                    } else if k == i + 1 {
                    } else {
                        assert(es2[k] == pre[k - 1]);
                    }
                }
            }
            return Some(i);
        }
        i = i + 1;
    }
    None
}

/// Tombstone the first live entry named `name`: set its inode to 0, keeping
/// its record length so the chain stays walkable.
pub fn remove_entry_tombstone(es: &mut Vec<Ext4DirEntry>, name: &[u8]) -> (r: bool)
    requires
        dblock_entries_wf(old(es)@),
    ensures
        r == dblock_contains(old(es)@, name@),
        match dblock_find(old(es)@, name@) {
            Some(i) => final(es)@ == old(es)@.update(
                i,
                (Ext4DirEntry { inode: 0, ..old(es)@[i] }),
            ),
            None => final(es)@ == old(es)@,
        },
        dblock_entries_wf(final(es)@),
{
    let found = find_entry_index(es, name);
    match found {
        Some(i) => {
            let ghost pre = es@;
            let slot = &mut es[i];
            slot.inode = 0;
            proof {
                let tomb = (Ext4DirEntry { inode: 0, ..pre[i as int] });
                assert(es@ == pre.update(i as int, es@[i as int]));
                assert(es@[i as int] == tomb);
                assert forall|k: int| 0 <= k < pre.len() implies es@[k].entry_len
                    == pre[k].entry_len by {}
                lemma_entries_size_same_lens(es@, pre, pre.len() as int);
                assert(de_wf(tomb));
                assert(dblock_entries_wf(es@));
            }
            true
        },
        None => false,
    }
}

/// The 12-byte directory-block tail.
#[derive(Clone, Copy, PartialEq, Eq, Structural, Debug)]
pub struct Ext4DirEntryTail {
    /// Padding that reads as a tombstone inode.
    pub reserved_zero1: u32,
    /// Record length of the tail itself: always 12.
    pub rec_len: u16,
    /// Padding.
    pub reserved_zero2: u8,
    /// The magic byte `0xDE`.
    pub reserved_ft: u8,
    /// Keyed CRC32C of the block.
    pub checksum: u32,
}

impl Ext4DirEntryTail {
    /// Read the tail from the end of a directory block, checking its fixed
    /// fields.
    pub fn from(data: &[u8], blocksize: usize) -> (r: Option<Ext4DirEntryTail>)
        requires
            blocksize == BLOCK_SIZE,
            data@.len() == BLOCK_SIZE,
        ensures
            r is Some <==> dtail_matches(data@),
            r is Some ==> r->Some_0.checksum == le32_at(data@, 4092),
            r is Some ==> r->Some_0.reserved_zero1 == 0 && r->Some_0.rec_len == 12
                && r->Some_0.reserved_zero2 == 0 && r->Some_0.reserved_ft == DIR_TAIL_MAGIC,
    {
        let z1 = get_u32(data, blocksize - 12);
        let rl = get_u16(data, blocksize - 8);
        let z2 = data[blocksize - 6];
        let ft = data[blocksize - 5];
        let cs = get_u32(data, blocksize - 4);
        if z1 != 0 {
            return None;
        }
        if rl != DIR_TAIL_SIZE as u16 {
            return None;
        }
        if z2 != 0 {
            return None;
        }
        if ft != DIR_TAIL_MAGIC {
            return None;
        }
        Some(
            Ext4DirEntryTail {
                reserved_zero1: z1,
                rec_len: rl,
                reserved_zero2: z2,
                reserved_ft: ft,
                checksum: cs,
            },
        )
    }

    /// A fresh tail with the fixed fields and checksum 0.
    pub fn new() -> (r: Ext4DirEntryTail)
        ensures
            r.reserved_zero1 == 0 && r.rec_len == 12 && r.reserved_zero2 == 0,
            r.reserved_ft == DIR_TAIL_MAGIC,
            r.checksum == 0,
    {
        Ext4DirEntryTail {
            reserved_zero1: 0,
            rec_len: DIR_TAIL_SIZE as u16,
            reserved_zero2: 0,
            reserved_ft: DIR_TAIL_MAGIC,
            checksum: 0,
        }
    }

    /// Write this tail into a block at byte `offset`, leaving every other
    /// byte unchanged.
    pub fn write_de_tail_to_blk(&self, dst_blk: &mut Ext4Block, offset: usize)
        requires
            old(dst_blk).wf(),
            offset + DIR_TAIL_SIZE <= BLOCK_SIZE,
        ensures
            final(dst_blk).wf(),
            final(dst_blk).disk_block_id == old(dst_blk).disk_block_id,
            le32_at(final(dst_blk).block_data@, offset as int) == self.reserved_zero1,
            le16_at(final(dst_blk).block_data@, offset + 4) == self.rec_len,
            final(dst_blk).block_data@[offset + 6] == self.reserved_zero2,
            final(dst_blk).block_data@[offset + 7] == self.reserved_ft,
            le32_at(final(dst_blk).block_data@, offset + 8) == self.checksum,
            forall|j: int|
                0 <= j < BLOCK_SIZE && !(offset <= j < offset + DIR_TAIL_SIZE)
                    ==> final(dst_blk).block_data@[j] == old(dst_blk).block_data@[j],
    {
        let v = &mut dst_blk.block_data;
        put_u32(v, offset, self.reserved_zero1);
        put_u16(v, offset + 4, self.rec_len);
        crate::codec::put_u8(v, offset + 6, self.reserved_zero2);
        crate::codec::put_u8(v, offset + 7, self.reserved_ft);
        put_u32(v, offset + 8, self.checksum);
    }

    /// Write this tail into its place at the block's end and flush the
    /// whole block to the device.
    pub fn sync_de_tail_to_disk(&self, disk: &mut crate::disk::Disk, dst_blk: &mut Ext4Block)
        requires
            old(disk).wf(),
            old(dst_blk).wf(),
            old(dst_blk).disk_block_id < old(disk)@.len(),
        ensures
            final(disk).wf(),
            final(dst_blk).wf(),
            final(dst_blk).disk_block_id == old(dst_blk).disk_block_id,
            final(disk)@ == old(disk)@.update(
                old(dst_blk).disk_block_id as int,
                final(dst_blk).block_data@,
            ),
            le32_at(final(dst_blk).block_data@, (BLOCK_SIZE - 4) as int) == self.checksum,
    {
        self.write_de_tail_to_blk(dst_blk, BLOCK_SIZE - DIR_TAIL_SIZE);
        disk.write_block(dst_blk.disk_block_id, dst_blk.block_data.as_slice());
    }

    /// Recompute the tail checksum from the block bytes, keyed by the
    /// filesystem UUID and the owning directory's inode id and generation.
    pub fn ext4_dir_set_csum(
        &mut self,
        s: &Ext4Superblock,
        dir_ino: u32,
        generation: u32,
        blk_data: &[u8],
    )
        requires
            blk_data@.len() == BLOCK_SIZE,
        ensures
            final(self).checksum == dir_block_csum_of(s.uuid@, dir_ino, generation, blk_data@),
            *final(self) == (Ext4DirEntryTail { checksum: final(self).checksum, ..*old(self) }),
    {
        let c = crc32c_update(CRC32C_INIT, s.uuid.as_slice());
        let c = crc32c_update_u32le(c, dir_ino);
        let c = crc32c_update_u32le(c, generation);
        let c = crc32c_update_range(c, blk_data, 0, 4084);
        let c = crc32c_update_range(c, blk_data, 4084, 4092);
        self.checksum = c;
    }
}

/// A directory search result: the block that held the match and the entry.
pub struct Ext4DirSearchResult {
    /// The block the entry was found in.
    pub block: Ext4Block,
    /// The matching entry.
    pub dentry: Ext4DirEntry,
}

impl Ext4DirSearchResult {
    /// Pair a block with an entry.
    pub fn new(block: Ext4Block, dentry: Ext4DirEntry) -> (r: Ext4DirSearchResult)
        ensures
            r.block.logical_block_id == block.logical_block_id,
            r.block.disk_block_id == block.disk_block_id,
            r.block.block_data@ == block.block_data@,
            r.block.dirty == block.dirty,
            r.dentry.inode == dentry.inode,
            r.dentry.entry_len == dentry.entry_len,
            r.dentry.name_len == dentry.name_len,
            r.dentry.file_type == dentry.file_type,
            r.dentry.name@ == dentry.name@,
    {
        Ext4DirSearchResult { block, dentry }
    }
}

/// A directory entry header alone, without the name.
pub struct Ext4FakeDirEntry {
    inode: u32,
    entry_length: u16,
    name_length: u8,
    inode_type: u8,
}

impl Ext4FakeDirEntry {
    /// The referenced inode.
    pub closed spec fn spec_inode(&self) -> u32 {
        self.inode
    }

    /// The record length.
    pub closed spec fn spec_entry_length(&self) -> u16 {
        self.entry_length
    }

    /// The name length.
    pub closed spec fn spec_name_length(&self) -> u8 {
        self.name_length
    }

    /// The file-type byte.
    pub closed spec fn spec_inode_type(&self) -> u8 {
        self.inode_type
    }

    /// A bare header.
    pub fn new(inode: u32, entry_length: u16, name_length: u8, inode_type: u8) -> (r:
        Ext4FakeDirEntry)
        ensures
            r.spec_inode() == inode,
            r.spec_entry_length() == entry_length,
            r.spec_name_length() == name_length,
            r.spec_inode_type() == inode_type,
    {
        Ext4FakeDirEntry { inode, entry_length, name_length, inode_type }
    }

    /// The referenced inode.
    pub fn inode(&self) -> (r: u32)
        ensures
            r == self.spec_inode(),
    {
        self.inode
    }

    /// The record length.
    pub fn entry_length(&self) -> (r: u16)
        ensures
            r == self.spec_entry_length(),
    {
        self.entry_length
    }

    /// The name length.
    pub fn name_length(&self) -> (r: u8)
        ensures
            r == self.spec_name_length(),
    {
        self.name_length
    }

    /// The file-type byte.
    pub fn inode_type(&self) -> (r: u8)
        ensures
            r == self.spec_inode_type(),
    {
        self.inode_type
    }
}

/// The directory-entry file-type byte for a file type.
pub fn de_byte_of_file_type(ft: crate::FileType) -> (r: u8)
    ensures
        r == spec_de_byte_of_file_type(ft),
{
    match ft {
        crate::FileType::RegularFile => EXT4_DE_REG_FILE,
        crate::FileType::Directory => EXT4_DE_DIR,
        crate::FileType::CharacterDev => EXT4_DE_CHRDEV,
        crate::FileType::BlockDev => EXT4_DE_BLKDEV,
        crate::FileType::Fifo => EXT4_DE_FIFO,
        crate::FileType::Socket => EXT4_DE_SOCK,
        crate::FileType::SymLink => EXT4_DE_SYMLINK,
        crate::FileType::Unknown => EXT4_DE_UNKNOWN,
    }
}

/// The directory-entry file-type byte for a file type.
pub open spec fn spec_de_byte_of_file_type(ft: crate::FileType) -> u8 {
    match ft {
        crate::FileType::RegularFile => EXT4_DE_REG_FILE,
        crate::FileType::Directory => EXT4_DE_DIR,
        crate::FileType::CharacterDev => EXT4_DE_CHRDEV,
        crate::FileType::BlockDev => EXT4_DE_BLKDEV,
        crate::FileType::Fifo => EXT4_DE_FIFO,
        crate::FileType::Socket => EXT4_DE_SOCK,
        crate::FileType::SymLink => EXT4_DE_SYMLINK,
        crate::FileType::Unknown => EXT4_DE_UNKNOWN,
    }
}

/// The inode mode bits corresponding to a directory-entry file-type byte.
pub open spec fn spec_correspond_inode_mode(filetype: u8) -> u32 {
    if filetype == EXT4_DE_DIR {
        EXT4_INODE_MODE_DIRECTORY as u32
    } else if filetype == EXT4_DE_SYMLINK {
        EXT4_INODE_MODE_SOFTLINK as u32
    } else if filetype == EXT4_DE_CHRDEV {
        EXT4_INODE_MODE_CHARDEV as u32
    } else if filetype == EXT4_DE_BLKDEV {
        EXT4_INODE_MODE_BLOCKDEV as u32
    } else if filetype == EXT4_DE_FIFO {
        EXT4_INODE_MODE_FIFO as u32
    } else if filetype == EXT4_DE_SOCK {
        EXT4_INODE_MODE_SOCKET as u32
    } else {
        EXT4_INODE_MODE_FILE as u32
    }
}

/// The inode mode bits corresponding to a directory-entry file-type byte;
/// an unrecognized byte maps to a regular file.
pub fn ext4_fs_correspond_inode_mode(filetype: u8) -> (r: u32)
    ensures
        r == spec_correspond_inode_mode(filetype),
{
    if filetype == EXT4_DE_DIR {
        EXT4_INODE_MODE_DIRECTORY as u32
    } else if filetype == EXT4_DE_SYMLINK {
        EXT4_INODE_MODE_SOFTLINK as u32
    } else if filetype == EXT4_DE_CHRDEV {
        EXT4_INODE_MODE_CHARDEV as u32
    } else if filetype == EXT4_DE_BLKDEV {
        EXT4_INODE_MODE_BLOCKDEV as u32
    } else if filetype == EXT4_DE_FIFO {
        EXT4_INODE_MODE_FIFO as u32
    } else if filetype == EXT4_DE_SOCK {
        EXT4_INODE_MODE_SOCKET as u32
    } else {
        EXT4_INODE_MODE_FILE as u32
    }
}

} // verus!
