//! The layout of a disk that an installation takes whole, and the program
//! that makes the disk bootable.

use vstd::prelude::*;
use crate::disk::{sector_at, Disk, DiskView, PartitionTable, Sector, MIB2};
use crate::disks::Bootloader;
use crate::error::DiskError;
use crate::partitions::{
    FileSystemType, PartitionBuilder, PartitionFlag, PartitionType, PartitionView,
};

verus! {

/// A new primary partition `[start, end]` with one flag at most, to be mounted
/// at `target`.
pub open spec fn planned(
    start: int,
    end: int,
    fs: FileSystemType,
    flags: Seq<PartitionFlag>,
    target: Seq<char>,
) -> PartitionView {
    PartitionView {
        is_source: false,
        remove: false,
        format: true,
        active: false,
        busy: false,
        swapped: false,
        number: -1,
        start_sector: start as nat,
        end_sector: end as nat,
        part_type: PartitionType::Primary,
        filesystem: Some(fs),
        flags,
        name: None,
        device_path: Seq::empty(),
        mount_point: None,
        target: Some(target),
    }
}

impl Bootloader {
    /// The kind of partition table that the boot loader wants.
    pub open spec fn table(self) -> PartitionTable {
        match self {
            Bootloader::Bios => PartitionTable::Msdos,
            Bootloader::Efi => PartitionTable::Gpt,
        }
    }

    /// The program that makes a disk bootable, and what it is told before the
    /// device node.
    pub open spec fn installer(self) -> (Seq<char>, Seq<Seq<char>>) {
        match self {
            Bootloader::Bios => ("grub-install"@, seq!["--recheck"@, "--target=i386-pc"@]),
            Bootloader::Efi => ("grub-install"@, seq!["--recheck"@, "--target=x86_64-efi"@]),
        }
    }

    /// The program that makes a disk bootable, and what it is told before the
    /// device node.
    pub fn get_installer(&self) -> (r: (&'static str, Vec<&'static str>))
        ensures
            r.0@ == self.installer().0,
            r.1@.map_values(|a: &'static str| a@) == self.installer().1,
    {
        let r: (&'static str, Vec<&'static str>) = match self {
            Bootloader::Bios => ("grub-install", vec!["--recheck", "--target=i386-pc"]),
            Bootloader::Efi => ("grub-install", vec!["--recheck", "--target=x86_64-efi"]),
        };
        assert(r.1@.map_values(|a: &'static str| a@) =~= self.installer().1);
        r
    }
}

impl DiskView {
    /// The disk with one more partition, or as it is with the reason why the
    /// partition cannot be added.
    pub open spec fn try_add(self, p: PartitionView) -> (DiskView, Option<DiskError>) {
        match self.add_error(p) {
            Some(e) => (self, Some(e)),
            None => (self.with_new_partition(self.placed(p)), None),
        }
    }

    /// The disk laid out for an installation that takes it whole, and why the
    /// layout is not complete, if it is not.
    ///
    /// A fresh table of the kind that the boot loader wants is asked for. Two
    /// mebibytes stay free at both ends. For BIOS the rest is the root
    /// partition, with the boot flag; for EFI the first 512 megabytes of the
    /// disk end the EFI system partition, and the root partition follows it.
    /// `PartitionOOB` where the disk is too small for each of them to have a
    /// sector.
    pub open spec fn partitioned_for(self, bootloader: Bootloader) -> (DiskView, Option<
        DiskError,
    >) {
        let fresh = self.after_mklabel(bootloader.table());
        let start = MIB2 as int / self.sector_size as int;
        let end = self.size - start;
        let middle = sector_at(Sector::Megabyte(512), self.size, self.sector_size);
        if end <= start {
            (fresh, Some(DiskError::PartitionOOB))
        } else {
            match bootloader {
                Bootloader::Bios => fresh.try_add(
                    planned(start, end - 1, FileSystemType::Ext4, seq![PartitionFlag::Boot], "/"@),
                ),
                Bootloader::Efi => if middle <= start || end <= middle {
                    (fresh, Some(DiskError::PartitionOOB))
                } else {
                    let (with_efi, error) = fresh.try_add(
                        planned(
                            start,
                            middle - 1,
                            FileSystemType::Fat32,
                            seq![PartitionFlag::Esp],
                            "/boot/efi"@,
                        ),
                    );
                    if error is Some {
                        (with_efi, error)
                    } else {
                        with_efi.try_add(
                            planned(middle, end - 1, FileSystemType::Ext4, Seq::empty(), "/"@),
                        )
                    }
                },
            }
        }
    }
}

impl Disk {
    /// Adds a partition, and says what the disk is then.
    fn try_add(&mut self, builder: PartitionBuilder) -> (r: Result<(), DiskError>)
        ensures
            final(self)@ == old(self)@.try_add(builder@).0,
            match old(self)@.try_add(builder@).1 {
                Some(e) => r == Err::<(), DiskError>(e),
                None => r is Ok,
            },
            old(self)@.non_overlapping() ==> final(self)@.non_overlapping(),
            old(self)@.within_msdos_quota() ==> final(self)@.within_msdos_quota(),
            old(self)@.within_bounds() ==> final(self)@.within_bounds(),
            old(self)@.msdos_unnamed() ==> final(self)@.msdos_unnamed(),
    {
        self.add_partition(builder)
    }

    /// Lays the disk out for an installation that takes it whole: a fresh
    /// table of the kind that the boot loader wants, the EFI system partition
    /// where the boot loader is EFI, and the root partition.
    pub fn partition_for(&mut self, bootloader: Bootloader) -> (r: Result<(), DiskError>)
        requires
            old(self).sector_size > 0,
        ensures
            final(self)@ == old(self)@.partitioned_for(bootloader).0,
            match old(self)@.partitioned_for(bootloader).1 {
                Some(e) => r == Err::<(), DiskError>(e),
                None => r is Ok,
            },
            final(self)@.non_overlapping(),
            final(self)@.within_msdos_quota(),
            final(self)@.within_bounds(),
            final(self)@.msdos_unnamed(),
    {
        let kind = match bootloader {
            Bootloader::Bios => PartitionTable::Msdos,
            Bootloader::Efi => PartitionTable::Gpt,
        };
        self.mklabel(kind);
        let start = self.get_sector(Sector::Start);
        if self.size <= start || self.size - start <= start {
            return Err(DiskError::PartitionOOB);
        }
        let end = self.get_sector(Sector::End);
        match bootloader {
            Bootloader::Bios => {
                let root = PartitionBuilder::new(start, end, FileSystemType::Ext4).flag(
                    PartitionFlag::Boot,
                ).mount(String::from_str("/"));
                assert(root@ =~= planned(
                    start as int,
                    end - 1,
                    FileSystemType::Ext4,
                    seq![PartitionFlag::Boot],
                    "/"@,
                ));
                self.try_add(root)
            },
            Bootloader::Efi => {
                assert(512u64 * 1_000_000 / self.sector_size as int <= u64::MAX) by (nonlinear_arith)
                    requires
                        self.sector_size > 0,
                ;
                let middle = self.get_sector(Sector::Megabyte(512));
                if middle <= start || end <= middle {
                    return Err(DiskError::PartitionOOB);
                }
                let efi = PartitionBuilder::new(start, middle, FileSystemType::Fat32).flag(
                    PartitionFlag::Esp,
                ).mount(String::from_str("/boot/efi"));
                assert(efi@ =~= planned(
                    start as int,
                    middle - 1,
                    FileSystemType::Fat32,
                    seq![PartitionFlag::Esp],
                    "/boot/efi"@,
                ));
                match self.try_add(efi) {
                    Err(e) => {
                        return Err(e);
                    },
                    Ok(()) => {},
                }
                let root = PartitionBuilder::new(middle, end, FileSystemType::Ext4).mount(
                    String::from_str("/"),
                );
                assert(root@ =~= planned(
                    middle as int,
                    end - 1,
                    FileSystemType::Ext4,
                    Seq::empty(),
                    "/"@,
                ));
                self.try_add(root)
            },
        }
    }
}

} // verus!
