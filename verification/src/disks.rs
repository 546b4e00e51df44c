//! The disks of a machine, and the partitions that an installed system needs.

use vstd::prelude::*;
use crate::disk::{Disk, DiskView};
use crate::error::DiskError;
use crate::partitions::{has_flag, PartitionFlag, PartitionInfo};
use crate::search::{first_below, is_first, lemma_first_below, lemma_first_below_is};

verus! {

/// The firmware interface that the installed system boots through.
#[derive(Clone, Copy, Debug, PartialEq, Eq, Hash, Structural)]
pub enum Bootloader {
    Bios,
    Efi,
}

impl Bootloader {
    /// The boot loader for a machine, given whether its firmware offers the EFI
    /// interface.
    pub fn detect(has_efi_firmware: bool) -> (r: Bootloader)
        ensures
            r == if has_efi_firmware {
                Bootloader::Efi
            } else {
                Bootloader::Bios
            },
    {
        if has_efi_firmware {
            Bootloader::Efi
        } else {
            Bootloader::Bios
        }
    }
}

/// Why a set of disks cannot take the installed system.
#[derive(Clone, Copy, Debug, PartialEq, Eq, Hash, Structural)]
pub enum VerifyError {
    /// No partition is to be mounted at `/`.
    RootMissing,
    /// No partition is to be mounted at `/boot/efi`.
    EfiMissing,
    /// The partition for `/boot/efi` does not carry the ESP flag.
    EfiWithoutEsp,
}

impl VerifyError {
    /// The error in words.
    pub fn message(&self) -> (r: String)
        ensures
            r@ == match *self {
                VerifyError::RootMissing => "root partition was not defined"@,
                VerifyError::EfiMissing => "EFI partition was not defined"@,
                VerifyError::EfiWithoutEsp => "EFI partition did not have ESP flag set"@,
            },
    {
        match *self {
            VerifyError::RootMissing => String::from_str("root partition was not defined"),
            VerifyError::EfiMissing => String::from_str("EFI partition was not defined"),
            VerifyError::EfiWithoutEsp => String::from_str(
                "EFI partition did not have ESP flag set",
            ),
        }
    }
}

/// The disks of a machine.
#[derive(Clone, Debug, PartialEq)]
pub struct Disks(pub Vec<Disk>);

impl View for Disks {
    type V = Seq<DiskView>;

    open spec fn view(&self) -> Seq<DiskView> {
        self.0@.map_values(|d: Disk| d@)
    }
}

impl DiskView {
    /// The index of the first partition that is to be mounted at `target`.
    pub open spec fn target_index(self, target: Seq<char>) -> Option<int> {
        first_below(
            self.partitions.len() as int,
            |i: int| self.partitions[i].target == Some(target),
        )
    }
}

/// Where the first partition that is to be mounted at `target` stands: the
/// index of its disk, and its index on that disk.
pub open spec fn find_target(disks: Seq<DiskView>, target: Seq<char>) -> Option<(int, int)> {
    match first_below(disks.len() as int, |d: int| disks[d].target_index(target) is Some) {
        Some(d) => Some((d, disks[d].target_index(target)->Some_0)),
        None => None,
    }
}

/// What `find_target` gives is a partition that is to be mounted at `target`;
/// it gives nothing only where there is none.
pub proof fn lemma_find_target(disks: Seq<DiskView>, target: Seq<char>)
    ensures
        match find_target(disks, target) {
            Some((d, i)) => 0 <= d < disks.len() && 0 <= i < disks[d].partitions.len()
                && disks[d].partitions[i].target == Some(target),
            None => forall|d: int, i: int|
                0 <= d < disks.len() && 0 <= i < disks[d].partitions.len() ==> (
                #[trigger] disks[d].partitions[i]).target != Some(target),
        },
{
    let on_disk = |d: int| disks[d].target_index(target) is Some;
    lemma_first_below(disks.len() as int, on_disk);
    match find_target(disks, target) {
        Some((d, i)) => {
            lemma_first_below(
                disks[d].partitions.len() as int,
                |i: int| disks[d].partitions[i].target == Some(target),
            );
        },
        None => {
            assert forall|d: int, i: int|
                0 <= d < disks.len() && 0 <= i < disks[d].partitions.len() implies (
            #[trigger] disks[d].partitions[i]).target != Some(target) by {
                assert(!on_disk(d));
                let here = |i: int| disks[d].partitions[i].target == Some(target);
                lemma_first_below(disks[d].partitions.len() as int, here);
                assert(!here(i));
            }
        },
    }
}

/// The index of the first disk with this serial.
pub open spec fn serial_index(disks: Seq<DiskView>, serial: Seq<char>) -> Option<int> {
    first_below(disks.len() as int, |d: int| disks[d].serial == serial)
}

/// Whether the disks hold the partitions that `get_base_partitions` hands out.
pub open spec fn has_base_partitions(disks: Seq<DiskView>, bootloader: Bootloader) -> bool {
    &&& find_target(disks, "/"@) is Some
    &&& bootloader == Bootloader::Efi ==> find_target(disks, "/boot/efi"@) is Some
}

/// Why the disks cannot take the installed system, if they cannot: a root
/// partition is wanted, and for EFI a partition for `/boot/efi` with the ESP flag.
pub open spec fn verify_error(disks: Seq<DiskView>, bootloader: Bootloader) -> Option<
    VerifyError,
> {
    if find_target(disks, "/"@) is None {
        Some(VerifyError::RootMissing)
    } else if bootloader == Bootloader::Efi {
        match find_target(disks, "/boot/efi"@) {
            None => Some(VerifyError::EfiMissing),
            Some((d, i)) => if disks[d].partitions[i].flags.contains(PartitionFlag::Esp) {
                None
            } else {
                Some(VerifyError::EfiWithoutEsp)
            },
        }
    } else {
        None
    }
}

/// Disks that `verify_partitions` accepts hold the partitions that
/// `get_base_partitions` hands out.
pub proof fn lemma_verified_has_base_partitions(disks: Seq<DiskView>, bootloader: Bootloader)
    requires
        verify_error(disks, bootloader) is None,
    ensures
        has_base_partitions(disks, bootloader),
{
}

impl Disk {
    /// Whether the disk has this serial.
    pub fn has_serial(&self, serial: &str) -> (r: bool)
        ensures
            r == (self@.serial == serial@),
    {
        let wanted = String::from_str(serial);
        self.serial == wanted
    }

    /// The index of the first partition that is to be mounted at `target`.
    pub fn target_index(&self, target: &String) -> (r: Option<usize>)
        ensures
            match r {
                Some(i) => self@.target_index(target@) == Some(i as int) && i
                    < self.partitions.len(),
                None => self@.target_index(target@) is None,
            },
    {
        let ghost found = |i: int| self@.partitions[i].target == Some(target@);
        let mut i: usize = 0;
        while i < self.partitions.len()
            invariant
                i <= self.partitions.len(),
                found == (|i: int| self@.partitions[i].target == Some(target@)),
                forall|j: int| 0 <= j < i ==> !#[trigger] found(j),
            decreases self.partitions.len() - i,
        {
            let hit = match &self.partitions[i].target {
                Some(t) => *t == *target,
                None => false,
            };
            if hit {
                proof {
                    assert(is_first(self@.partitions.len() as int, found, i as int));
                    lemma_first_below_is(self@.partitions.len() as int, found, i as int);
                }
                return Some(i);
            }
            i += 1;
        }
        proof {
            lemma_first_below(self@.partitions.len() as int, found);
        }
        None
    }
}

impl Disks {
    /// Whether `part` is the first partition that is to be mounted at `target`,
    /// and `path` the device node of its disk.
    pub open spec fn is_found(&self, target: Seq<char>, path: &str, part: &PartitionInfo) -> bool {
        &&& find_target(self@, target) matches Some((d, i))
        &&& 0 <= d < self.0@.len()
        &&& 0 <= i < self.0@[d].partitions@.len()
        &&& path@ == self@[d].device_path
        &&& *part == self.0@[d].partitions@[i]
    }

    /// The first partition that is to be mounted at `target`, with the device
    /// node of its disk.
    pub fn find_partition(&self, target: &str) -> (r: Option<(&str, &PartitionInfo)>)
        ensures
            match r {
                Some((path, part)) => self.is_found(target@, path, part),
                None => find_target(self@, target@) is None,
            },
    {
        let wanted = String::from_str(target);
        let ghost found = |d: int| self@[d].target_index(target@) is Some;
        let mut d: usize = 0;
        while d < self.0.len()
            invariant
                d <= self.0.len(),
                wanted@ == target@,
                found == (|d: int| self@[d].target_index(target@) is Some),
                forall|j: int| 0 <= j < d ==> !#[trigger] found(j),
            decreases self.0.len() - d,
        {
            let disk = &self.0[d];
            if let Some(i) = disk.target_index(&wanted) {
                proof {
                    assert(is_first(self@.len() as int, found, d as int));
                    lemma_first_below_is(self@.len() as int, found, d as int);
                }
                return Some((disk.device_path.as_str(), &disk.partitions[i]));
            }
            d += 1;
        }
        proof {
            lemma_first_below(self@.len() as int, found);
        }
        None
    }

    /// Checks that the disks can take the installed system: `RootMissing` where
    /// no partition is to be mounted at `/`; for EFI, `EfiMissing` where none is
    /// to be mounted at `/boot/efi`, and `EfiWithoutEsp` where the first such
    /// partition does not carry the ESP flag.
    pub fn verify_partitions(&self, bootloader: Bootloader) -> (r: Result<(), VerifyError>)
        ensures
            match verify_error(self@, bootloader) {
                Some(e) => r == Err::<(), VerifyError>(e),
                None => r is Ok && has_base_partitions(self@, bootloader),
            },
    {
        if self.find_partition("/").is_none() {
            return Err(VerifyError::RootMissing);
        }
        if bootloader == Bootloader::Efi {
            match self.find_partition("/boot/efi") {
                None => {
                    return Err(VerifyError::EfiMissing);
                },
                Some((_, part)) => {
                    proof {
                        let (d, i) = find_target(self@, "/boot/efi"@)->Some_0;
                        assert(self@[d].partitions[i] == self.0@[d].partitions@[i]@);
                    }
                    if !has_flag(&part.flags, PartitionFlag::Esp) {
                        return Err(VerifyError::EfiWithoutEsp);
                    }
                },
            }
        }
        Ok(())
    }

    /// The root partition and, for EFI, the EFI partition, each with the device
    /// node of its disk.
    pub fn get_base_partitions(&self, bootloader: Bootloader) -> (r: (
        (&str, &PartitionInfo),
        Option<(&str, &PartitionInfo)>,
    ))
        requires
            has_base_partitions(self@, bootloader),
        ensures
            self.is_found("/"@, r.0.0, r.0.1),
            match r.1 {
                Some((path, part)) => bootloader == Bootloader::Efi && self.is_found(
                    "/boot/efi"@,
                    path,
                    part,
                ),
                None => bootloader == Bootloader::Bios,
            },
    {
        let root = self.find_partition("/").unwrap();
        match bootloader {
            Bootloader::Bios => (root, None),
            Bootloader::Efi => (root, self.find_partition("/boot/efi")),
        }
    }

    /// Hands out the first disk with this serial; `InvalidSerial` where no disk has it.
    pub fn find_serial(self, serial: &str) -> (r: Result<Disk, DiskError>)
        ensures
            match r {
                Ok(disk) => serial_index(self@, serial@) matches Some(d) && disk == self.0@[d],
                Err(e) => serial_index(self@, serial@) is None && e == DiskError::InvalidSerial,
            },
    {
        let ghost found = |d: int| self@[d].serial == serial@;
        let mut disks = self.0;
        let mut d: usize = 0;
        while d < disks.len()
            invariant
                d <= disks.len(),
                disks == self.0,
                found == (|d: int| self@[d].serial == serial@),
                forall|j: int| 0 <= j < d ==> !#[trigger] found(j),
            decreases disks.len() - d,
        {
            if disks[d].has_serial(serial) {
                proof {
                    assert(is_first(self@.len() as int, found, d as int));
                    lemma_first_below_is(self@.len() as int, found, d as int);
                }
                return Ok(disks.remove(d));
            }
            d += 1;
        }
        proof {
            lemma_first_below(self@.len() as int, found);
        }
        Err(DiskError::InvalidSerial)
    }
}

} // verus!
