//! Mount point descriptor: a name and a mounted flag.

use vstd::prelude::*;

verus! {

/// A mount point: where the filesystem is attached.
pub struct Ext4MountPoint {
    /// Whether the mount has completed.
    pub mounted: bool,
    /// The mount point's name.
    pub mount_name: String,
}

impl Ext4MountPoint {
    /// A fresh, not yet mounted, mount point.
    pub fn new(name: &str) -> (r: Ext4MountPoint)
        ensures
            r.mounted == false,
            r.mount_name@ == name@,
    {
        Ext4MountPoint { mounted: false, mount_name: name.to_owned() }
    }
}

} // verus!
