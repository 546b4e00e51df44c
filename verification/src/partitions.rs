//! Partitions: their record, their flags and file systems, and the builder of
//! new ones.

use vstd::prelude::*;
use vstd::seq_lib::{to_multiset_build, to_multiset_contains};
use crate::text::same_text;

verus! {

/// A flag that a partition table can carry for a partition.
#[derive(Clone, Copy, Debug, PartialEq, Eq, Hash, Structural)]
pub enum PartitionFlag {
    Boot,
    Root,
    Swap,
    Hidden,
    Raid,
    Lvm,
    Lba,
    HpService,
    Palo,
    Prep,
    MsftReserved,
    BiosGrub,
    AppleTvRecovery,
    Diag,
    LegacyBoot,
    MsftData,
    Irst,
    Esp,
}

/// The file systems that a partition can be formatted with.
#[derive(Clone, Copy, Debug, PartialEq, Eq, Hash, Structural)]
pub enum FileSystemType {
    Btrfs,
    Exfat,
    Ext2,
    Ext3,
    Ext4,
    F2fs,
    Fat16,
    Fat32,
    Ntfs,
    Swap,
    Xfs,
}

/// The class of a partition in an MSDOS table.
#[derive(Clone, Copy, Debug, PartialEq, Eq, Hash, Structural)]
pub enum PartitionType {
    Primary,
    Logical,
}

/// The mathematical value of a path, a name or another optional string.
pub open spec fn text_of(s: Option<String>) -> Option<Seq<char>> {
    match s {
        Some(s) => Some(s@),
        None => None,
    }
}

/// What a [`PartitionInfo`] stands for: the same record over mathematical values.
#[verifier::ext_equal]
pub struct PartitionView {
    pub is_source: bool,
    pub remove: bool,
    pub format: bool,
    pub active: bool,
    pub busy: bool,
    pub swapped: bool,
    pub number: int,
    pub start_sector: nat,
    pub end_sector: nat,
    pub part_type: PartitionType,
    pub filesystem: Option<FileSystemType>,
    pub flags: Seq<PartitionFlag>,
    pub name: Option<Seq<char>>,
    pub device_path: Seq<char>,
    pub mount_point: Option<Seq<char>>,
    pub target: Option<Seq<char>>,
}

/// One partition of a disk: what was found on the device, and what is wanted of it.
#[derive(Clone, Debug, PartialEq)]
pub struct PartitionInfo {
    /// Whether the partition was on the device when it was probed.
    pub is_source: bool,
    /// Whether the partition is to be deleted.
    pub remove: bool,
    /// Whether the partition is to be formatted.
    pub format: bool,
    /// Whether the partition is active.
    pub active: bool,
    /// Whether the partition is in use.
    pub busy: bool,
    /// Whether the partition is in use as swap space.
    pub swapped: bool,
    /// The number of the partition in the table; `-1` until the table has placed it.
    pub number: i32,
    /// The first sector of the partition.
    pub start_sector: u64,
    /// The last sector of the partition (inclusive).
    pub end_sector: u64,
    /// Primary or logical.
    pub part_type: PartitionType,
    /// The file system on the partition, or the one that it is to be formatted with.
    pub filesystem: Option<FileSystemType>,
    /// The flags of the partition; their order carries no meaning.
    pub flags: Vec<PartitionFlag>,
    /// The label of the partition; MSDOS tables have none.
    pub name: Option<String>,
    /// The device node of the partition.
    pub device_path: String,
    /// Where the partition is mounted now.
    pub mount_point: Option<String>,
    /// Where the partition is to be mounted in the installed system.
    pub target: Option<String>,
}

impl View for PartitionInfo {
    type V = PartitionView;

    open spec fn view(&self) -> PartitionView {
        PartitionView {
            is_source: self.is_source,
            remove: self.remove,
            format: self.format,
            active: self.active,
            busy: self.busy,
            swapped: self.swapped,
            number: self.number as int,
            start_sector: self.start_sector as nat,
            end_sector: self.end_sector as nat,
            part_type: self.part_type,
            filesystem: self.filesystem,
            flags: self.flags@,
            name: text_of(self.name),
            device_path: self.device_path@,
            mount_point: text_of(self.mount_point),
            target: text_of(self.target),
        }
    }
}

/// The file system that the partition table library calls `name`.
pub open spec fn filesystem_named(name: Seq<char>) -> Option<FileSystemType> {
    if name == "btrfs"@ {
        Some(FileSystemType::Btrfs)
    } else if name == "exfat"@ {
        Some(FileSystemType::Exfat)
    } else if name == "ext2"@ {
        Some(FileSystemType::Ext2)
    } else if name == "ext3"@ {
        Some(FileSystemType::Ext3)
    } else if name == "ext4"@ {
        Some(FileSystemType::Ext4)
    } else if name == "f2fs"@ {
        Some(FileSystemType::F2fs)
    } else if name == "fat16"@ {
        Some(FileSystemType::Fat16)
    } else if name == "fat32"@ {
        Some(FileSystemType::Fat32)
    } else if name == "swap"@ || name == "linux-swap(v1)"@ {
        Some(FileSystemType::Swap)
    } else if name == "ntfs"@ {
        Some(FileSystemType::Ntfs)
    } else if name == "xfs"@ {
        Some(FileSystemType::Xfs)
    } else {
        None
    }
}

/// The class of partition that the partition table library calls `name`.
pub open spec fn partition_type_named(name: Seq<char>) -> Option<PartitionType> {
    if name == "primary"@ {
        Some(PartitionType::Primary)
    } else if name == "logical"@ {
        Some(PartitionType::Logical)
    } else {
        None
    }
}

impl FileSystemType {
    /// The name of the file system in the mount table.
    pub open spec fn mount_name(self) -> Seq<char> {
        match self {
            FileSystemType::Btrfs => "btrfs"@,
            FileSystemType::Exfat => "exfat"@,
            FileSystemType::Ext2 => "ext2"@,
            FileSystemType::Ext3 => "ext3"@,
            FileSystemType::Ext4 => "ext4"@,
            FileSystemType::F2fs => "f2fs"@,
            FileSystemType::Fat16 | FileSystemType::Fat32 => "vfat"@,
            FileSystemType::Ntfs => "ntfs"@,
            FileSystemType::Swap => "swap"@,
            FileSystemType::Xfs => "xfs"@,
        }
    }

    /// The mount options that suit the file system.
    pub open spec fn mount_options(self) -> Seq<char> {
        match self {
            FileSystemType::Fat16 | FileSystemType::Fat32 => "umask=0077"@,
            FileSystemType::Ext4 => "noatime,errors=remount-ro"@,
            FileSystemType::Swap => "sw"@,
            _ => "defaults"@,
        }
    }

    /// The name that the partition table library has for the file system.
    pub open spec fn table_name(self) -> Seq<char> {
        match self {
            FileSystemType::Btrfs => "btrfs"@,
            FileSystemType::Exfat => "exfat"@,
            FileSystemType::Ext2 => "ext2"@,
            FileSystemType::Ext3 => "ext3"@,
            FileSystemType::Ext4 => "ext4"@,
            FileSystemType::F2fs => "f2fs"@,
            FileSystemType::Fat16 => "fat16"@,
            FileSystemType::Fat32 => "fat32"@,
            FileSystemType::Ntfs => "ntfs"@,
            FileSystemType::Swap => "linux-swap(v1)"@,
            FileSystemType::Xfs => "xfs"@,
        }
    }

    /// The program that makes the file system, and what it is told before the
    /// device node.
    pub open spec fn formatter(self) -> (Seq<char>, Seq<Seq<char>>) {
        match self {
            FileSystemType::Btrfs => ("mkfs.btrfs"@, seq!["-f"@]),
            FileSystemType::Exfat => ("mkfs.exfat"@, Seq::empty()),
            FileSystemType::Ext2 => ("mkfs.ext2"@, seq!["-F"@, "-q"@]),
            FileSystemType::Ext3 => ("mkfs.ext3"@, seq!["-F"@, "-q"@]),
            FileSystemType::Ext4 => ("mkfs.ext4"@, seq!["-F"@, "-q"@]),
            FileSystemType::F2fs => ("mkfs.f2fs"@, seq!["-q"@]),
            FileSystemType::Fat16 => ("mkfs.fat"@, seq!["-F"@, "16"@]),
            FileSystemType::Fat32 => ("mkfs.fat"@, seq!["-F"@, "32"@]),
            FileSystemType::Ntfs => ("mkfs.ntfs"@, seq!["-F"@, "-q"@]),
            FileSystemType::Swap => ("mkswap"@, seq!["-f"@]),
            FileSystemType::Xfs => ("mkfs.xfs"@, seq!["-f"@]),
        }
    }

    /// The program that makes the file system, and what it is told before the
    /// device node.
    pub fn get_formatter(&self) -> (r: (&'static str, Vec<&'static str>))
        ensures
            r.0@ == self.formatter().0,
            r.1@.map_values(|a: &'static str| a@) == self.formatter().1,
    {
        let r: (&'static str, Vec<&'static str>) = match self {
            FileSystemType::Btrfs => ("mkfs.btrfs", vec!["-f"]),
            FileSystemType::Exfat => ("mkfs.exfat", Vec::new()),
            FileSystemType::Ext2 => ("mkfs.ext2", vec!["-F", "-q"]),
            FileSystemType::Ext3 => ("mkfs.ext3", vec!["-F", "-q"]),
            FileSystemType::Ext4 => ("mkfs.ext4", vec!["-F", "-q"]),
            FileSystemType::F2fs => ("mkfs.f2fs", vec!["-q"]),
            FileSystemType::Fat16 => ("mkfs.fat", vec!["-F", "16"]),
            FileSystemType::Fat32 => ("mkfs.fat", vec!["-F", "32"]),
            FileSystemType::Ntfs => ("mkfs.ntfs", vec!["-F", "-q"]),
            FileSystemType::Swap => ("mkswap", vec!["-f"]),
            FileSystemType::Xfs => ("mkfs.xfs", vec!["-f"]),
        };
        assert(r.1@.map_values(|a: &'static str| a@) =~= self.formatter().1);
        r
    }

    /// The file system that the partition table library calls `name`.
    pub fn from_name(name: &str) -> (r: Option<FileSystemType>)
        ensures
            r == filesystem_named(name@),
    {
        if same_text(name, "btrfs") {
            Some(FileSystemType::Btrfs)
        } else if same_text(name, "exfat") {
            Some(FileSystemType::Exfat)
        } else if same_text(name, "ext2") {
            Some(FileSystemType::Ext2)
        } else if same_text(name, "ext3") {
            Some(FileSystemType::Ext3)
        } else if same_text(name, "ext4") {
            Some(FileSystemType::Ext4)
        } else if same_text(name, "f2fs") {
            Some(FileSystemType::F2fs)
        } else if same_text(name, "fat16") {
            Some(FileSystemType::Fat16)
        } else if same_text(name, "fat32") {
            Some(FileSystemType::Fat32)
        } else if same_text(name, "swap") || same_text(name, "linux-swap(v1)") {
            Some(FileSystemType::Swap)
        } else if same_text(name, "ntfs") {
            Some(FileSystemType::Ntfs)
        } else if same_text(name, "xfs") {
            Some(FileSystemType::Xfs)
        } else {
            None
        }
    }

    /// The name that the partition table library has for the file system.
    pub fn name(&self) -> (r: &'static str)
        ensures
            r@ == self.table_name(),
    {
        match self {
            FileSystemType::Btrfs => "btrfs",
            FileSystemType::Exfat => "exfat",
            FileSystemType::Ext2 => "ext2",
            FileSystemType::Ext3 => "ext3",
            FileSystemType::Ext4 => "ext4",
            FileSystemType::F2fs => "f2fs",
            FileSystemType::Fat16 => "fat16",
            FileSystemType::Fat32 => "fat32",
            FileSystemType::Ntfs => "ntfs",
            FileSystemType::Swap => "linux-swap(v1)",
            FileSystemType::Xfs => "xfs",
        }
    }

    /// The name of the file system in the mount table.
    pub fn get_mount_name(&self) -> (r: &'static str)
        ensures
            r@ == self.mount_name(),
    {
        match self {
            FileSystemType::Btrfs => "btrfs",
            FileSystemType::Exfat => "exfat",
            FileSystemType::Ext2 => "ext2",
            FileSystemType::Ext3 => "ext3",
            FileSystemType::Ext4 => "ext4",
            FileSystemType::F2fs => "f2fs",
            FileSystemType::Fat16 | FileSystemType::Fat32 => "vfat",
            FileSystemType::Ntfs => "ntfs",
            FileSystemType::Swap => "swap",
            FileSystemType::Xfs => "xfs",
        }
    }

    /// The mount options that suit the file system.
    pub fn get_preferred_options(&self) -> (r: &'static str)
        ensures
            r@ == self.mount_options(),
    {
        match self {
            FileSystemType::Fat16 | FileSystemType::Fat32 => "umask=0077",
            FileSystemType::Ext4 => "noatime,errors=remount-ro",
            FileSystemType::Swap => "sw",
            _ => "defaults",
        }
    }
}

impl PartitionType {
    /// The class of partition that the partition table library calls `name`.
    pub fn from_name(name: &str) -> (r: Option<PartitionType>)
        ensures
            r == partition_type_named(name@),
    {
        if same_text(name, "primary") {
            Some(PartitionType::Primary)
        } else if same_text(name, "logical") {
            Some(PartitionType::Logical)
        } else {
            None
        }
    }
}

/// Whether the sector ranges `[a, b]` and `[c, d]` overlap.
pub open spec fn ranges_overlap(a: int, b: int, c: int, d: int) -> bool {
    !(b < c || a > d)
}

/// The flags of `flags` that `source` does not hold, in the order of `flags`.
pub open spec fn flag_diff(source: Seq<PartitionFlag>, flags: Seq<PartitionFlag>) -> Seq<
    PartitionFlag,
> {
    flags.filter(|f: PartitionFlag| !source.contains(f))
}

impl PartitionView {
    /// Whether the partition shares a sector with the range `[start, end]`.
    pub open spec fn overlaps(self, start: int, end: int) -> bool {
        ranges_overlap(start, end, self.start_sector as int, self.end_sector as int)
    }

    /// Whether the partition holds `sector`.
    pub open spec fn holds_sector(self, sector: int) -> bool {
        self.start_sector <= sector <= self.end_sector
    }

    /// Whether `other` is this partition in another snapshot of the disk: the
    /// number and the first sector identify a partition.
    pub open spec fn is_same_partition_as(self, other: PartitionView) -> bool {
        self.number == other.number && self.start_sector == other.start_sector
    }

    /// Whether the two snapshots hold the same flags, whatever their order.
    pub open spec fn same_flags(self, other: PartitionView) -> bool {
        self.flags.to_multiset() == other.flags.to_multiset()
    }

    /// Whether the table has to be touched to turn this partition into `other`.
    pub open spec fn requires_changes(self, other: PartitionView) -> bool {
        ||| self.start_sector != other.start_sector
        ||| self.end_sector != other.end_sector
        ||| (other.format && self.filesystem != other.filesystem)
        ||| !self.same_flags(other)
    }
}

impl PartitionFlag {
    /// Every flag, once.
    pub open spec fn every() -> Seq<PartitionFlag> {
        seq![
            PartitionFlag::Boot,
            PartitionFlag::Root,
            PartitionFlag::Swap,
            PartitionFlag::Hidden,
            PartitionFlag::Raid,
            PartitionFlag::Lvm,
            PartitionFlag::Lba,
            PartitionFlag::HpService,
            PartitionFlag::Palo,
            PartitionFlag::Prep,
            PartitionFlag::MsftReserved,
            PartitionFlag::BiosGrub,
            PartitionFlag::AppleTvRecovery,
            PartitionFlag::Diag,
            PartitionFlag::LegacyBoot,
            PartitionFlag::MsftData,
            PartitionFlag::Irst,
            PartitionFlag::Esp,
        ]
    }

    /// `every()` holds every flag.
    pub proof fn lemma_every(f: PartitionFlag)
        ensures
            PartitionFlag::every().contains(f),
    {
        let all = PartitionFlag::every();
        match f {
            PartitionFlag::Boot => assert(all[0] == f),
            PartitionFlag::Root => assert(all[1] == f),
            PartitionFlag::Swap => assert(all[2] == f),
            PartitionFlag::Hidden => assert(all[3] == f),
            PartitionFlag::Raid => assert(all[4] == f),
            PartitionFlag::Lvm => assert(all[5] == f),
            PartitionFlag::Lba => assert(all[6] == f),
            PartitionFlag::HpService => assert(all[7] == f),
            PartitionFlag::Palo => assert(all[8] == f),
            PartitionFlag::Prep => assert(all[9] == f),
            PartitionFlag::MsftReserved => assert(all[10] == f),
            PartitionFlag::BiosGrub => assert(all[11] == f),
            PartitionFlag::AppleTvRecovery => assert(all[12] == f),
            PartitionFlag::Diag => assert(all[13] == f),
            PartitionFlag::LegacyBoot => assert(all[14] == f),
            PartitionFlag::MsftData => assert(all[15] == f),
            PartitionFlag::Irst => assert(all[16] == f),
            PartitionFlag::Esp => assert(all[17] == f),
        }
    }

    /// Every flag, once.
    pub fn all() -> (r: Vec<PartitionFlag>)
        ensures
            r@ == PartitionFlag::every(),
    {
        let r = vec![
            PartitionFlag::Boot,
            PartitionFlag::Root,
            PartitionFlag::Swap,
            PartitionFlag::Hidden,
            PartitionFlag::Raid,
            PartitionFlag::Lvm,
            PartitionFlag::Lba,
            PartitionFlag::HpService,
            PartitionFlag::Palo,
            PartitionFlag::Prep,
            PartitionFlag::MsftReserved,
            PartitionFlag::BiosGrub,
            PartitionFlag::AppleTvRecovery,
            PartitionFlag::Diag,
            PartitionFlag::LegacyBoot,
            PartitionFlag::MsftData,
            PartitionFlag::Irst,
            PartitionFlag::Esp,
        ];
        assert(r@ =~= PartitionFlag::every());
        r
    }
}

/// Whether `flags` holds `flag`.
pub fn has_flag(flags: &Vec<PartitionFlag>, flag: PartitionFlag) -> (r: bool)
    ensures
        r == flags@.contains(flag),
{
    let mut i: usize = 0;
    while i < flags.len()
        invariant
            i <= flags.len(),
            forall|j: int| 0 <= j < i ==> flags@[j] != flag,
        decreases flags.len() - i,
    {
        if flags[i] == flag {
            return true;
        }
        i += 1;
    }
    false
}

/// How often `flags` holds `flag`.
pub fn count_flag(flags: &Vec<PartitionFlag>, flag: PartitionFlag) -> (n: usize)
    ensures
        n == flags@.to_multiset().count(flag),
{
    broadcast use vstd::multiset::group_multiset_axioms;

    let mut n: usize = 0;
    let mut i: usize = 0;
    proof {
        to_multiset_contains(flags@.take(0), flag);
    }
    while i < flags.len()
        invariant
            i <= flags.len(),
            n <= i,
            n == flags@.take(i as int).to_multiset().count(flag),
        decreases flags.len() - i,
    {
        proof {
            assert(flags@.take(i + 1) =~= flags@.take(i as int).push(flags@[i as int]));
            to_multiset_build(flags@.take(i as int), flags@[i as int]);
        }
        if flags[i] == flag {
            n += 1;
        }
        i += 1;
    }
    proof {
        assert(flags@.take(i as int) =~= flags@);
    }
    n
}

/// Whether `a` and `b` hold the same flags, each as often, whatever the order.
pub fn same_flags(a: &Vec<PartitionFlag>, b: &Vec<PartitionFlag>) -> (r: bool)
    ensures
        r == (a@.to_multiset() == b@.to_multiset()),
{
    let all = PartitionFlag::all();
    let mut i: usize = 0;
    while i < all.len()
        invariant
            i <= all.len(),
            forall|j: int|
                0 <= j < i ==> a@.to_multiset().count(all@[j]) == b@.to_multiset().count(all@[j]),
        decreases all.len() - i,
    {
        if count_flag(a, all[i]) != count_flag(b, all[i]) {
            return false;
        }
        i += 1;
    }
    proof {
        assert forall|f: PartitionFlag|
            a@.to_multiset().count(f) == b@.to_multiset().count(f) by {
            PartitionFlag::lemma_every(f);
            let j = choose|j: int| 0 <= j < all@.len() && all@[j] == f;
            assert(a@.to_multiset().count(all@[j]) == b@.to_multiset().count(all@[j]));
        }
        assert(a@.to_multiset() =~= b@.to_multiset());
    }
    true
}

/// The flags of `flags` that `source` does not hold, in the order of `flags`.
pub fn flags_diff(source: &Vec<PartitionFlag>, flags: &Vec<PartitionFlag>) -> (r: Vec<
    PartitionFlag,
>)
    ensures
        r@ == flag_diff(source@, flags@),
{
    let ghost absent = |f: PartitionFlag| !source@.contains(f);
    let mut r: Vec<PartitionFlag> = Vec::new();
    let mut i: usize = 0;
    while i < flags.len()
        invariant
            i <= flags.len(),
            absent == (|f: PartitionFlag| !source@.contains(f)),
            r@ == flags@.take(i as int).filter(absent),
        decreases flags.len() - i,
    {
        proof {
            assert(flags@.take(i + 1) =~= flags@.take(i as int).push(flags@[i as int]));
            Seq::lemma_filter_push(flags@.take(i as int), flags@[i as int], absent);
        }
        if !has_flag(source, flags[i]) {
            r.push(flags[i]);
        }
        i += 1;
    }
    proof {
        assert(flags@.take(i as int) =~= flags@);
    }
    r
}

/// A copy of `flags`.
pub fn copy_flags(flags: &Vec<PartitionFlag>) -> (r: Vec<PartitionFlag>)
    ensures
        r@ == flags@,
{
    let mut r: Vec<PartitionFlag> = Vec::new();
    let mut i: usize = 0;
    while i < flags.len()
        invariant
            i <= flags.len(),
            r@ == flags@.take(i as int),
        decreases flags.len() - i,
    {
        r.push(flags[i]);
        proof {
            assert(flags@.take(i + 1) =~= flags@.take(i as int).push(flags@[i as int]));
        }
        i += 1;
    }
    proof {
        assert(flags@.take(i as int) =~= flags@);
    }
    r
}

impl PartitionInfo {
    /// Whether `other` is this partition in another snapshot of the disk.
    pub fn is_same_partition_as(&self, other: &PartitionInfo) -> (r: bool)
        ensures
            r == self@.is_same_partition_as(other@),
    {
        self.number == other.number && self.start_sector == other.start_sector
    }

    /// Whether the table has to be touched to turn this partition into `other`:
    /// an end point differs, `other` is to be formatted with another file
    /// system, or the flags differ.
    pub fn requires_changes(&self, other: &PartitionInfo) -> (r: bool)
        ensures
            r == self@.requires_changes(other@),
    {
        self.start_sector != other.start_sector || self.end_sector != other.end_sector || (
        other.format && self.filesystem != other.filesystem) || !same_flags(
            &self.flags,
            &other.flags,
        )
    }

    /// The device node of the partition.
    pub fn path(&self) -> (r: &str)
        ensures
            r@ == self@.device_path,
    {
        self.device_path.as_str()
    }

    /// Whether the partition holds swap space.
    pub fn is_swap(&self) -> (r: bool)
        ensures
            r == (self@.filesystem == Some(FileSystemType::Swap)),
    {
        match self.filesystem {
            Some(FileSystemType::Swap) => true,
            _ => false,
        }
    }

    /// Declares where the partition is to be mounted in the installed system.
    pub fn set_mount(&mut self, target: String)
        ensures
            final(self)@ == (PartitionView { target: Some(target@), ..old(self)@ }),
    {
        self.target = Some(target);
    }
}

/// Collects what a new partition is to be, and builds its record.
#[derive(Clone, Debug, PartialEq)]
pub struct PartitionBuilder {
    pub start_sector: u64,
    pub end_sector: u64,
    pub filesystem: FileSystemType,
    pub part_type: PartitionType,
    pub name: Option<String>,
    pub flags: Vec<PartitionFlag>,
    pub mount: Option<String>,
}

impl View for PartitionBuilder {
    type V = PartitionView;

    /// The partition that `build` makes of the builder.
    open spec fn view(&self) -> PartitionView {
        PartitionView {
            is_source: false,
            remove: false,
            format: true,
            active: false,
            busy: false,
            swapped: false,
            number: -1,
            start_sector: self.start_sector as nat,
            end_sector: self.end_sector as nat,
            part_type: self.part_type,
            filesystem: Some(self.filesystem),
            flags: self.flags@,
            name: text_of(self.name),
            device_path: Seq::empty(),
            mount_point: None,
            target: text_of(self.mount),
        }
    }
}

impl PartitionBuilder {
    /// A primary partition from sector `start` up to, and without, sector `end`,
    /// to be formatted with `fs`.
    pub fn new(start: u64, end: u64, fs: FileSystemType) -> (r: PartitionBuilder)
        requires
            end > 0,
        ensures
            r.start_sector == start,
            r.end_sector == end - 1,
            r.filesystem == fs,
            r.part_type == PartitionType::Primary,
            r.name is None,
            r.flags@ == Seq::<PartitionFlag>::empty(),
            r.mount is None,
    {
        PartitionBuilder {
            start_sector: start,
            end_sector: end - 1,
            filesystem: fs,
            part_type: PartitionType::Primary,
            name: None,
            flags: Vec::new(),
            mount: None,
        }
    }

    /// Gives the partition a label.
    pub fn name(self, name: String) -> (r: PartitionBuilder)
        ensures
            r@ == (PartitionView { name: Some(name@), ..self@ }),
    {
        let mut r = self;
        r.name = Some(name);
        r
    }

    /// Makes the partition primary or logical.
    pub fn partition_type(self, part_type: PartitionType) -> (r: PartitionBuilder)
        ensures
            r@ == (PartitionView { part_type: part_type, ..self@ }),
    {
        let mut r = self;
        r.part_type = part_type;
        r
    }

    /// Adds a flag to the partition.
    pub fn flag(self, flag: PartitionFlag) -> (r: PartitionBuilder)
        ensures
            r@ == (PartitionView { flags: self@.flags.push(flag), ..self@ }),
    {
        let mut r = self;
        r.flags.push(flag);
        r
    }

    /// Declares where the partition is to be mounted in the installed system.
    pub fn mount(self, target: String) -> (r: PartitionBuilder)
        ensures
            r@ == (PartitionView { target: Some(target@), ..self@ }),
    {
        let mut r = self;
        r.mount = Some(target);
        r
    }

    /// The record of the partition: not on the device yet, without a number,
    /// and to be formatted.
    pub fn build(self) -> (r: PartitionInfo)
        ensures
            r@ == self@,
    {
        PartitionInfo {
            is_source: false,
            remove: false,
            format: true,
            active: false,
            busy: false,
            swapped: false,
            number: -1,
            start_sector: self.start_sector,
            end_sector: self.end_sector,
            part_type: self.part_type,
            filesystem: Some(self.filesystem),
            flags: self.flags,
            name: self.name,
            device_path: String::new(),
            mount_point: None,
            target: self.mount,
        }
    }
}

} // verus!
