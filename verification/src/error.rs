//! The errors of configuring a disk and of committing changes to it.

use vstd::prelude::*;
use crate::text::{decimal, push_decimal};

verus! {

/// What can go wrong while a disk is configured or changes are committed to it.
///
/// `why` holds the text of the error that the operating system reported.
#[derive(Clone, Debug, PartialEq, Eq)]
pub enum DiskError {
    /// The device could not be obtained.
    DeviceGet { why: String },
    /// The devices could not be probed.
    DeviceProbe,
    /// The partition table could not be written.
    DiskCommit { why: String },
    /// A fresh partition table could not be made.
    DiskFresh { why: String },
    /// The disk could not be found.
    DiskGet,
    /// The disk could not be opened.
    DiskNew { why: String },
    /// The kernel could not be made to read the partition table again.
    DiskSync { why: String },
    /// No device has the serial of the disk.
    InvalidSerial,
    /// A partition geometry could not be made.
    GeometryCreate { why: String },
    /// A partition geometry could not be duplicated.
    GeometryDuplicate,
    /// A partition geometry could not be set.
    GeometrySet,
    /// The wanted layout does not hold the partitions that are on the disk.
    LayoutChanged,
    /// The mount points could not be read.
    MountsObtain { why: String },
    /// The partition that was created could not be found again.
    NewPartNotFound,
    /// The partition holds no file system.
    NoFilesystem,
    /// The partition could not be created.
    PartitionCreate { why: String },
    /// The partition could not be formatted.
    PartitionFormat { why: String },
    /// The disk has no partition of this number.
    PartitionNotFound { partition: i32 },
    /// The partition overlaps other partitions.
    PartitionOverlaps,
    /// The partition of this number could not be removed.
    PartitionRemove { partition: i32, why: String },
    /// The partition could not be resized.
    PartitionResize,
    /// The disk has no partition table.
    PartitionTableNotFound,
    /// An MSDOS table has no room for another primary partition.
    PrimaryPartitionsExceeded,
    /// The sectors lie within the partition of this number.
    SectorOverlaps { id: i32 },
    /// The serial of the device could not be read.
    SerialGet { why: String },
    /// The partition does not fit on the disk.
    PartitionOOB,
    /// The length is too small for a partition.
    ResizeTooSmall,
    /// A partition could not be unmounted.
    Unmount { why: String },
}

impl DiskError {
    /// The error in words.
    pub open spec fn text(self) -> Seq<char> {
        match self {
            DiskError::DeviceGet { why } => "unable to get device: "@ + why@,
            DiskError::DeviceProbe => "unable to probe for devices"@,
            DiskError::DiskCommit { why } => "unable to commit changes to disk: "@ + why@,
            DiskError::DiskFresh { why } => "unable to format partition table: "@ + why@,
            DiskError::DiskGet => "unable to find disk"@,
            DiskError::DiskNew { why } => "unable to open disk: "@ + why@,
            DiskError::DiskSync { why } => "unable to sync disk changes with OS: "@ + why@,
            DiskError::InvalidSerial => "serial model does not match"@,
            DiskError::GeometryCreate { why } => "failed to create partition geometry: "@ + why@,
            DiskError::GeometryDuplicate => "failed to duplicate partition geometry"@,
            DiskError::GeometrySet => "failed to set values on partition geometry"@,
            DiskError::LayoutChanged => "partition layout on disk has changed"@,
            DiskError::MountsObtain { why } => "unable to get mount points: "@ + why@,
            DiskError::NewPartNotFound => "new partition could not be found"@,
            DiskError::NoFilesystem => "no file system was found on the partition"@,
            DiskError::PartitionCreate { why } => "unable to create partition: "@ + why@,
            DiskError::PartitionFormat { why } => "unable to format partition: "@ + why@,
            DiskError::PartitionOverlaps => "partition overlaps other partitions"@,
            DiskError::PartitionResize => "unable to resize partition"@,
            DiskError::PartitionTableNotFound => "partition table not found on disk"@,
            DiskError::PrimaryPartitionsExceeded => "too many primary partitions in MSDOS partition table"@,
            DiskError::SerialGet { why } => "unable to get serial model of device: "@ + why@,
            DiskError::PartitionOOB => "partition exceeds size of disk"@,
            DiskError::ResizeTooSmall => "partition resize value is too small"@,
            DiskError::Unmount { why } => "unable to unmount partition(s): "@ + why@,
            DiskError::PartitionNotFound { partition } => "partition "@ + decimal(partition as int)
                + " not be found on disk"@,
            DiskError::PartitionRemove { partition, why } => "unable to remove partition "@
                + decimal(partition as int) + ": "@ + why@,
            DiskError::SectorOverlaps { id } => "sector overlaps partition "@ + decimal(id as int),
        }
    }

    /// The error in words, with the number of the partition and the reason that
    /// the operating system gave, where there is one.
    pub fn message(&self) -> (r: String)
        ensures
            r@ == self.text(),
    {
        match self {
            DiskError::DeviceGet { why } => {
                let mut text = String::from_str("unable to get device: ");
                text.append(why.as_str());
                text
            },
            DiskError::DeviceProbe => String::from_str("unable to probe for devices"),
            DiskError::DiskCommit { why } => {
                let mut text = String::from_str("unable to commit changes to disk: ");
                text.append(why.as_str());
                text
            },
            DiskError::DiskFresh { why } => {
                let mut text = String::from_str("unable to format partition table: ");
                text.append(why.as_str());
                text
            },
            DiskError::DiskGet => String::from_str("unable to find disk"),
            DiskError::DiskNew { why } => {
                let mut text = String::from_str("unable to open disk: ");
                text.append(why.as_str());
                text
            },
            DiskError::DiskSync { why } => {
                let mut text = String::from_str("unable to sync disk changes with OS: ");
                text.append(why.as_str());
                text
            },
            DiskError::InvalidSerial => String::from_str("serial model does not match"),
            DiskError::GeometryCreate { why } => {
                let mut text = String::from_str("failed to create partition geometry: ");
                text.append(why.as_str());
                text
            },
            DiskError::GeometryDuplicate => String::from_str("failed to duplicate partition geometry"),
            DiskError::GeometrySet => String::from_str("failed to set values on partition geometry"),
            DiskError::LayoutChanged => String::from_str("partition layout on disk has changed"),
            DiskError::MountsObtain { why } => {
                let mut text = String::from_str("unable to get mount points: ");
                text.append(why.as_str());
                text
            },
            DiskError::NewPartNotFound => String::from_str("new partition could not be found"),
            DiskError::NoFilesystem => String::from_str("no file system was found on the partition"),
            DiskError::PartitionCreate { why } => {
                let mut text = String::from_str("unable to create partition: ");
                text.append(why.as_str());
                text
            },
            DiskError::PartitionFormat { why } => {
                let mut text = String::from_str("unable to format partition: ");
                text.append(why.as_str());
                text
            },
            DiskError::PartitionOverlaps => String::from_str("partition overlaps other partitions"),
            DiskError::PartitionResize => String::from_str("unable to resize partition"),
            DiskError::PartitionTableNotFound => String::from_str("partition table not found on disk"),
            DiskError::PrimaryPartitionsExceeded => String::from_str("too many primary partitions in MSDOS partition table"),
            DiskError::SerialGet { why } => {
                let mut text = String::from_str("unable to get serial model of device: ");
                text.append(why.as_str());
                text
            },
            DiskError::PartitionOOB => String::from_str("partition exceeds size of disk"),
            DiskError::ResizeTooSmall => String::from_str("partition resize value is too small"),
            DiskError::Unmount { why } => {
                let mut text = String::from_str("unable to unmount partition(s): ");
                text.append(why.as_str());
                text
            },
            DiskError::PartitionNotFound { partition } => {
                let mut text = String::from_str("partition ");
                push_decimal(&mut text, *partition);
                text.append(" not be found on disk");
                text
            },
            DiskError::PartitionRemove { partition, why } => {
                let mut text = String::from_str("unable to remove partition ");
                push_decimal(&mut text, *partition);
                text.append(": ");
                text.append(why.as_str());
                text
            },
            DiskError::SectorOverlaps { id } => {
                let mut text = String::from_str("sector overlaps partition ");
                push_decimal(&mut text, *id);
                text
            },
        }
    }
}

} // verus!
