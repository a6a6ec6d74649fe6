//! The block store: a random-access array of 4096-byte blocks, addressed by
//! physical block id.
//!
//! Reads and writes are synchronous and total on in-range ids. Loading the
//! store from, or saving it to, a backing medium is the caller's business.

use vstd::prelude::*;

use crate::codec::{clone_bytes, put_bytes, sub_bytes, zero_vec};
use crate::BLOCK_SIZE;

verus! {

/// An array of `BLOCK_SIZE`-byte blocks.
pub struct Disk {
    blocks: Vec<Vec<u8>>,
}

impl View for Disk {
    type V = Seq<Seq<u8>>;

    closed spec fn view(&self) -> Seq<Seq<u8>> {
        self.blocks@.map_values(|b: Vec<u8>| b@)
    }
}

impl Disk {
    /// How the view relates to the stored vectors.
    proof fn lemma_view(d: Disk)
        ensures
            d@.len() == d.blocks@.len(),
            forall|i: int| 0 <= i < d@.len() ==> d@[i] == d.blocks@[i]@,
    {
    }

    /// Every block holds exactly `BLOCK_SIZE` bytes.
    pub open spec fn wf(&self) -> bool {
        forall|i: int| 0 <= i < self@.len() ==> (#[trigger] self@[i]).len() == BLOCK_SIZE
    }

    /// A store of `n` zeroed blocks.
    pub fn new(n: usize) -> (d: Disk)
        ensures
            d.wf(),
            d@.len() == n,
            forall|i: int, j: int| 0 <= i < n && 0 <= j < BLOCK_SIZE ==> d@[i][j] == 0u8,
    {
        let mut blocks: Vec<Vec<u8>> = Vec::new();
        let mut i: usize = 0;
        while i < n
            invariant
                i <= n,
                blocks@.len() == i,
                forall|b: int|
                    0 <= b < i ==> (#[trigger] blocks@[b])@.len() == BLOCK_SIZE,
                forall|b: int, j: int|
                    0 <= b < i && 0 <= j < BLOCK_SIZE ==> #[trigger] blocks@[b]@[j] == 0u8,
            decreases n - i,
        {
            let blk = zero_vec(BLOCK_SIZE);
            blocks.push(blk);
            i = i + 1;
        }
        Disk { blocks }
    }

    /// Number of blocks in the store.
    pub fn block_count(&self) -> (r: usize)
        ensures
            r == self@.len(),
    {
        self.blocks.len()
    }

    /// A copy of block `id`.
    pub fn read_block(&self, id: u64) -> (r: Vec<u8>)
        requires
            self.wf(),
            id < self@.len(),
        ensures
            r@ == self@[id as int],
            r@.len() == BLOCK_SIZE,
    {
        let _nb: usize = self.blocks.len();
        proof {
            Disk::lemma_view(*self);
        }
        clone_bytes(&self.blocks[id as usize])
    }

    /// Replace block `id` with `data`.
    pub fn write_block(&mut self, id: u64, data: &[u8])
        requires
            old(self).wf(),
            id < old(self)@.len(),
            data@.len() == BLOCK_SIZE,
        ensures
            final(self).wf(),
            final(self)@ == old(self)@.update(id as int, data@),
    {
        let _nb: usize = self.blocks.len();
        proof {
            Disk::lemma_view(*old(self));
        }
        let mut blk = zero_vec(BLOCK_SIZE);
        put_bytes(&mut blk, 0, data);
        proof {
            assert(blk@ =~= data@);
        }
        self.blocks[id as usize] = blk;
        proof {
            Disk::lemma_view(*self);
            assert(final(self)@ =~= old(self)@.update(id as int, data@));
        }
    }

    /// Overwrite `data.len()` bytes of block `id` starting at byte `off`,
    /// leaving the rest of the block and every other block unchanged.
    pub fn write_at(&mut self, id: u64, off: usize, data: &[u8])
        requires
            old(self).wf(),
            id < old(self)@.len(),
            off + data@.len() <= BLOCK_SIZE,
        ensures
            final(self).wf(),
            final(self)@.len() == old(self)@.len(),
            forall|b: int| 0 <= b < old(self)@.len() && b != id ==> final(self)@[b] == old(self)@[b],
            final(self)@[id as int].subrange(off as int, off + data@.len()) == data@,
            forall|j: int|
                0 <= j < BLOCK_SIZE && !(off <= j < off + data@.len())
                    ==> final(self)@[id as int][j] == old(self)@[id as int][j],
    {
        let _nb: usize = self.blocks.len();
        proof {
            Disk::lemma_view(*old(self));
            assert(old(self)@[id as int].len() == BLOCK_SIZE);
            assert(old(self).blocks@[id as int]@.len() == BLOCK_SIZE);
        }
        let blk = &mut self.blocks[id as usize];
        put_bytes(blk, off, data);
        proof {
            Disk::lemma_view(*self);
            assert(final(self).blocks@ == old(self).blocks@.update(
                id as int,
                final(self).blocks@[id as int],
            ));
            assert forall|b: int| 0 <= b < old(self)@.len() && b != id implies final(self)@[b]
                == old(self)@[b] by {
                assert(final(self).blocks@[b] == old(self).blocks@[b]);
            }
        }
    }

    /// A copy of bytes `[off, off + len)` of block `id`.
    pub fn read_at(&self, id: u64, off: usize, len: usize) -> (r: Vec<u8>)
        requires
            self.wf(),
            id < self@.len(),
            off + len <= BLOCK_SIZE,
        ensures
            r@ == self@[id as int].subrange(off as int, off + len),
    {
        let _nb: usize = self.blocks.len();
        proof {
            Disk::lemma_view(*self);
            assert(self@[id as int].len() == BLOCK_SIZE);
            assert(self.blocks@[id as int]@.len() == BLOCK_SIZE);
        }
        sub_bytes(self.blocks[id as usize].as_slice(), off, off + len)
    }

    /// Zero out block `id`.
    pub fn zero_block(&mut self, id: u64)
        requires
            old(self).wf(),
            id < old(self)@.len(),
        ensures
            final(self).wf(),
            final(self)@.len() == old(self)@.len(),
            forall|b: int| 0 <= b < old(self)@.len() && b != id ==> final(self)@[b] == old(self)@[b],
            final(self)@[id as int].len() == BLOCK_SIZE,
            forall|j: int| 0 <= j < BLOCK_SIZE ==> final(self)@[id as int][j] == 0u8,
    {
        let blk = zero_vec(BLOCK_SIZE);
        let ghost blkview = blk@;
        self.write_block(id, blk.as_slice());
    }
}

} // verus!
