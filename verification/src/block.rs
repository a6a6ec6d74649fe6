//! A single block in flight: its logical and physical ids, its bytes, and a
//! dirty flag.

use vstd::prelude::*;

use crate::disk::Disk;
use crate::BLOCK_SIZE;

verus! {

/// A block descriptor: one block's bytes together with where they belong.
pub struct Ext4Block {
    /// Logical block id within the owning file.
    pub logical_block_id: u32,
    /// Physical block id on the device.
    pub disk_block_id: u64,
    /// The block's bytes, `BLOCK_SIZE` of them.
    pub block_data: Vec<u8>,
    /// Whether the bytes differ from what the device holds.
    pub dirty: bool,
}

impl Ext4Block {
    /// Bytes fill exactly one block.
    pub open spec fn wf(&self) -> bool {
        self.block_data@.len() == BLOCK_SIZE
    }

    /// Write the block's bytes back to the device.
    pub fn sync_to_disk(&self, disk: &mut Disk)
        requires
            old(disk).wf(),
            self.wf(),
            self.disk_block_id < old(disk)@.len(),
        ensures
            final(disk).wf(),
            final(disk)@ == old(disk)@.update(self.disk_block_id as int, self.block_data@),
    {
        disk.write_block(self.disk_block_id, self.block_data.as_slice());
    }
}

} // verus!
