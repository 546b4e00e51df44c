//! In-memory model of block devices and their partition tables.
//!
//! A [`Disk`] records the geometry of a device and the partitions on it. Edits
//! (`add_partition`, `resize_partition`, ...) change the record only; `diff`
//! turns the difference between the probed layout and the wanted one into
//! [`DiskOps`], and `DiskOps::steps` puts those in the order in which they are
//! to be run on the device.

pub mod error;
pub mod search;
pub mod text;
pub mod partitions;
pub mod disk;
pub mod edits;
pub mod operations;
pub mod commit;
pub mod disks;
pub mod probe;
pub mod mounts;
pub mod swaps;
pub mod fstab;
pub mod install;
pub mod laws;

pub use crate::disk::{Disk, PartitionTable, Sector};
pub use crate::partitions::{
    FileSystemType, PartitionBuilder, PartitionFlag, PartitionInfo, PartitionType,
};
pub use crate::error::DiskError;
pub use crate::operations::{DiskOps, PartitionChange, PartitionCreate};
pub use crate::commit::CommitStep;
pub use crate::disks::{Bootloader, Disks, VerifyError};
pub use crate::probe::{skips_device_type, DeviceProbe, PartitionProbe};
pub use crate::mounts::UnmountStep;
pub use crate::fstab::{get_serial_no, BlockInfo, BlockLink};
pub use crate::swaps::{Mount, Mounts, Swaps};
