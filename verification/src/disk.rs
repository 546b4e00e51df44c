//! Disks: their record, the sectors on them, and where their partitions lie.

use vstd::prelude::*;
use crate::partitions::{PartitionInfo, PartitionType, PartitionView};
use crate::search::{first_below, is_first, lemma_first_below, lemma_first_below_is};

verus! {

/// The kind of partition table on a disk.
#[derive(Clone, Copy, Debug, PartialEq, Eq, Hash, Structural)]
pub enum PartitionTable {
    Msdos,
    Gpt,
}

/// A place on a disk, in one of several units; `Disk::get_sector` resolves it.
#[derive(Clone, Copy, Debug, PartialEq, Eq, Hash, Structural)]
pub enum Sector {
    /// The first sector where partitions should begin.
    Start,
    /// The last sector where partitions should end.
    End,
    /// A sector given by its number.
    Unit(u64),
    /// An offset in decimal megabytes.
    Megabyte(u64),
    /// A share of the disk: `0` is 0%, `u16::MAX` is 100%.
    Percent(u16),
}

/// Two mebibytes, in bytes: the room kept free at both ends of a disk.
pub const MIB2: u64 = 2097152;

/// The sector that `sector` names on a disk of `size` sectors of `sector_size` bytes.
pub open spec fn sector_at(sector: Sector, size: nat, sector_size: nat) -> int {
    match sector {
        Sector::Start => MIB2 as int / sector_size as int,
        Sector::End => size - MIB2 as int / sector_size as int,
        Sector::Unit(n) => n as int,
        Sector::Megabyte(n) => (n * 1_000_000) / sector_size as int,
        Sector::Percent(p) => ((size * sector_size) / 65535) * p / sector_size as int,
    }
}

/// What a [`Disk`] stands for: the same record over mathematical values.
#[verifier::ext_equal]
pub struct DiskView {
    pub model_name: Seq<char>,
    pub serial: Seq<char>,
    pub device_path: Seq<char>,
    pub size: nat,
    pub sector_size: nat,
    pub device_type: Seq<char>,
    pub table_type: Option<PartitionTable>,
    pub read_only: bool,
    pub mklabel: bool,
    pub partitions: Seq<PartitionView>,
}

/// A block device and the partitions on it.
#[derive(Clone, Debug, PartialEq)]
pub struct Disk {
    /// The model name of the device, assigned by the manufacturer.
    pub model_name: String,
    /// The serial of the device: what identifies it across reboots.
    pub serial: String,
    /// The device node, such as `/dev/sda`.
    pub device_path: String,
    /// The size of the disk in sectors.
    pub size: u64,
    /// The size of a sector in bytes.
    pub sector_size: u64,
    /// The type of the device, such as SCSI.
    pub device_type: String,
    /// The kind of partition table on the disk, if it has one.
    pub table_type: Option<PartitionTable>,
    /// Whether the device is read-only.
    pub read_only: bool,
    /// Whether a fresh partition table of kind `table_type` is to be written.
    pub mklabel: bool,
    /// The partitions of the disk, in the order of the table.
    pub partitions: Vec<PartitionInfo>,
}

impl View for Disk {
    type V = DiskView;

    open spec fn view(&self) -> DiskView {
        DiskView {
            model_name: self.model_name@,
            serial: self.serial@,
            device_path: self.device_path@,
            size: self.size as nat,
            sector_size: self.sector_size as nat,
            device_type: self.device_type@,
            table_type: self.table_type,
            read_only: self.read_only,
            mklabel: self.mklabel,
            partitions: self.partitions@.map_values(|p: PartitionInfo| p@),
        }
    }
}


/// Ten mebibytes, in bytes: a partition must be longer than this.
pub const MIB10: u64 = 10485760;

/// The index of an exec value as a mathematical integer.
pub open spec fn index_of(i: Option<usize>) -> Option<int> {
    match i {
        Some(i) => Some(i as int),
        None => None,
    }
}

impl DiskView {
    /// The index of the first partition with this number.
    pub open spec fn position(self, number: int) -> Option<int> {
        first_below(self.partitions.len() as int, |i: int| self.partitions[i].number == number)
    }

    /// The index of the first partition that shares a sector with `[start, end]`,
    /// partitions that are to be removed and the one at `exclude` left aside.
    pub open spec fn overlap_index(self, start: int, end: int, exclude: Option<int>) -> Option<
        int,
    > {
        first_below(
            self.partitions.len() as int,
            |i: int|
                !self.partitions[i].remove && exclude != Some(i) && self.partitions[i].overlaps(
                    start,
                    end,
                ),
        )
    }

    /// The index of the first partition that holds `sector` and is not to be removed.
    pub open spec fn index_at(self, sector: int) -> Option<int> {
        first_below(
            self.partitions.len() as int,
            |i: int| !self.partitions[i].remove && self.partitions[i].holds_sector(sector),
        )
    }

    /// The number of the partition at an index, where there is an index.
    pub open spec fn number_at(self, i: Option<int>) -> Option<int> {
        match i {
            Some(i) => Some(self.partitions[i].number),
            None => None,
        }
    }

    /// How many partitions are primary.
    pub open spec fn primary_count(self) -> nat {
        self.partitions.filter(|p: PartitionView| p.part_type == PartitionType::Primary).len()
    }

    /// How many partitions are logical.
    pub open spec fn logical_count(self) -> nat {
        self.partitions.filter(|p: PartitionView| p.part_type == PartitionType::Logical).len()
    }

    /// Whether an MSDOS table with these partitions has no room for one more of
    /// this type: four primaries fill it, and so do three beside a logical one,
    /// which needs the fourth entry for its container.
    pub open spec fn msdos_full(self, part_type: PartitionType) -> bool {
        match part_type {
            PartitionType::Primary => self.primary_count() == 4 || (self.primary_count() == 3
                && self.logical_count() != 0),
            PartitionType::Logical => self.primary_count() == 4,
        }
    }

    /// No two partitions that are to stay share a sector.
    pub open spec fn non_overlapping(self) -> bool {
        forall|i: int, j: int|
            0 <= i < j < self.partitions.len() && !(#[trigger] self.partitions[i]).remove && !(
            #[trigger] self.partitions[j]).remove ==> !self.partitions[i].overlaps(
                self.partitions[j].start_sector as int,
                self.partitions[j].end_sector as int,
            )
    }

    /// An MSDOS table holds at most four entries, the container of the logical
    /// partitions being one.
    pub open spec fn within_msdos_quota(self) -> bool {
        self.table_type == Some(PartitionTable::Msdos) ==> self.primary_count() + (
        if self.logical_count() > 0 {
            1int
        } else {
            0int
        }) <= 4
    }

    /// Every partition ends before the end of the disk: its last sector is a
    /// sector of the disk.
    pub open spec fn within_bounds(self) -> bool {
        forall|i: int|
            0 <= i < self.partitions.len() ==> (#[trigger] self.partitions[i]).end_sector
                < self.size
    }

    /// On an MSDOS table no partition has a label.
    pub open spec fn msdos_unnamed(self) -> bool {
        self.table_type == Some(PartitionTable::Msdos) ==> forall|i: int|
            0 <= i < self.partitions.len() ==> (#[trigger] self.partitions[i]).name is None
    }

    /// What a partition becomes where it is put on this disk: on an MSDOS
    /// table it loses its label.
    pub open spec fn placed(self, p: PartitionView) -> PartitionView {
        if self.table_type == Some(PartitionTable::Msdos) {
            PartitionView { name: None, ..p }
        } else {
            p
        }
    }

    /// The disk with the partition at `i` replaced.
    pub open spec fn with_partition(self, i: int, p: PartitionView) -> DiskView {
        DiskView { partitions: self.partitions.update(i, p), ..self }
    }

    /// The disk with one more partition at the end.
    pub open spec fn with_new_partition(self, p: PartitionView) -> DiskView {
        DiskView { partitions: self.partitions.push(p), ..self }
    }

    /// The disk without the partition at `i`.
    pub open spec fn without_partition(self, i: int) -> DiskView {
        DiskView { partitions: self.partitions.remove(i), ..self }
    }
}

impl Disk {
    /// Resolves `sector` to a sector number on this disk.
    pub fn get_sector(&self, sector: Sector) -> (r: u64)
        requires
            self.sector_size > 0,
            sector is End ==> self.size >= MIB2 / self.sector_size,
            sector matches Sector::Megabyte(n) ==> n * 1_000_000 / self.sector_size as int
                <= u64::MAX,
        ensures
            r == sector_at(sector, self@.size, self@.sector_size),
            sector is Start ==> r >= MIB2 / self.sector_size,
            sector is End ==> r <= self.size - MIB2 / self.sector_size,
    {
        match sector {
            Sector::Start => MIB2 / self.sector_size,
            Sector::End => self.size - MIB2 / self.sector_size,
            Sector::Unit(n) => n,
            Sector::Megabyte(n) => {
                let bytes: u128 = (n as u128) * 1_000_000u128;
                (bytes / (self.sector_size as u128)) as u64
            },
            Sector::Percent(p) => {
                let size: u128 = self.size as u128;
                let sector_size: u128 = self.sector_size as u128;
                assert(size * sector_size <= 0xffff_ffff_ffff_ffff * 0xffff_ffff_ffff_ffff)
                    by (nonlinear_arith)
                    requires
                        size <= 0xffff_ffff_ffff_ffff,
                        sector_size <= 0xffff_ffff_ffff_ffff,
                ;
                let bytes: u128 = size * sector_size;
                let unit: u128 = bytes / 65535u128;
                assert(unit * p <= bytes) by (nonlinear_arith)
                    requires
                        unit == bytes / 65535,
                        0 <= p <= 65535,
                        0 <= bytes,
                ;
                let part: u128 = unit * (p as u128);
                assert(part / sector_size <= size) by (nonlinear_arith)
                    requires
                        part <= size * sector_size,
                        sector_size > 0,
                        0 <= part,
                ;
                (part / sector_size) as u64
            },
        }
    }

    /// The device node of the disk.
    pub fn path(&self) -> (r: &str)
        ensures
            r@ == self@.device_path,
    {
        self.device_path.as_str()
    }

    /// The index of the first partition with this number.
    pub fn position(&self, partition: i32) -> (r: Option<usize>)
        ensures
            index_of(r) == self@.position(partition as int),
            r matches Some(i) ==> i < self.partitions.len(),
    {
        let ghost found = |i: int| self@.partitions[i].number == partition as int;
        let mut i: usize = 0;
        while i < self.partitions.len()
            invariant
                i <= self.partitions.len(),
                found == (|i: int| self@.partitions[i].number == partition as int),
                forall|j: int| 0 <= j < i ==> !#[trigger] found(j),
            decreases self.partitions.len() - i,
        {
            if self.partitions[i].number == partition {
                proof {
                    assert(is_first(self@.partitions.len() as int, found, i as int));
                    lemma_first_below_is(self@.partitions.len() as int, found, i as int);
                }
                return Some(i);
            }
            i += 1;
        }
        proof {
            lemma_first_below(self@.partitions.len() as int, found);
        }
        None
    }

    /// The index of the first partition that shares a sector with `[start, end]`,
    /// partitions that are to be removed and the one at `exclude` left aside.
    pub fn overlap_index(&self, start: u64, end: u64, exclude: Option<usize>) -> (r: Option<
        usize,
    >)
        ensures
            index_of(r) == self@.overlap_index(start as int, end as int, index_of(exclude)),
            r matches Some(i) ==> i < self.partitions.len(),
    {
        let ghost found = |i: int|
            !self@.partitions[i].remove && index_of(exclude) != Some(i)
                && self@.partitions[i].overlaps(start as int, end as int);
        let mut i: usize = 0;
        while i < self.partitions.len()
            invariant
                i <= self.partitions.len(),
                found == (|i: int|
                    !self@.partitions[i].remove && index_of(exclude) != Some(i)
                        && self@.partitions[i].overlaps(start as int, end as int)),
                forall|j: int| 0 <= j < i ==> !#[trigger] found(j),
            decreases self.partitions.len() - i,
        {
            let part = &self.partitions[i];
            let excluded = match exclude {
                Some(e) => e == i,
                None => false,
            };
            if !part.remove && !excluded && !(end < part.start_sector || start
                > part.end_sector) {
                proof {
                    assert(is_first(self@.partitions.len() as int, found, i as int));
                    lemma_first_below_is(self@.partitions.len() as int, found, i as int);
                }
                return Some(i);
            }
            i += 1;
        }
        proof {
            lemma_first_below(self@.partitions.len() as int, found);
        }
        None
    }

    /// The number of the first partition that shares a sector with `[start, end]`
    /// and is not to be removed.
    pub fn overlaps_region(&self, start: u64, end: u64) -> (r: Option<i32>)
        ensures
            match r {
                Some(id) => self@.number_at(self@.overlap_index(start as int, end as int, None))
                    == Some(id as int),
                None => self@.overlap_index(start as int, end as int, None) is None,
            },
    {
        match self.overlap_index(start, end, None) {
            Some(i) => Some(self.partitions[i].number),
            None => None,
        }
    }

    /// The number of the first partition that shares a sector with `[start, end]`,
    /// partitions that are to be removed and the one at index `exclude` left aside.
    pub fn overlaps_region_excluding(&self, start: u64, end: u64, exclude: usize) -> (r: Option<
        i32,
    >)
        ensures
            match r {
                Some(id) => self@.number_at(
                    self@.overlap_index(start as int, end as int, Some(exclude as int)),
                ) == Some(id as int),
                None => self@.overlap_index(start as int, end as int, Some(exclude as int))
                    is None,
            },
    {
        match self.overlap_index(start, end, Some(exclude)) {
            Some(i) => Some(self.partitions[i].number),
            None => None,
        }
    }

    /// The number of the first partition that holds `sector` and is not to be removed.
    pub fn get_partition_at(&self, sector: u64) -> (r: Option<i32>)
        ensures
            match r {
                Some(id) => self@.number_at(self@.index_at(sector as int)) == Some(id as int),
                None => self@.index_at(sector as int) is None,
            },
    {
        let ghost found = |i: int|
            !self@.partitions[i].remove && self@.partitions[i].holds_sector(sector as int);
        let mut i: usize = 0;
        while i < self.partitions.len()
            invariant
                i <= self.partitions.len(),
                found == (|i: int|
                    !self@.partitions[i].remove && self@.partitions[i].holds_sector(
                        sector as int,
                    )),
                forall|j: int| 0 <= j < i ==> !#[trigger] found(j),
            decreases self.partitions.len() - i,
        {
            let part = &self.partitions[i];
            if !part.remove && sector >= part.start_sector && sector <= part.end_sector {
                proof {
                    assert(is_first(self@.partitions.len() as int, found, i as int));
                    lemma_first_below_is(self@.partitions.len() as int, found, i as int);
                }
                return Some(part.number);
            }
            i += 1;
        }
        proof {
            lemma_first_below(self@.partitions.len() as int, found);
        }
        None
    }

    /// How many partitions are primary, and how many logical.
    pub fn get_partition_type_count(&self) -> (r: (usize, usize))
        ensures
            r.0 == self@.primary_count(),
            r.1 == self@.logical_count(),
    {
        let ghost primary = |p: PartitionView| p.part_type == PartitionType::Primary;
        let ghost logical = |p: PartitionView| p.part_type == PartitionType::Logical;
        let mut primaries: usize = 0;
        let mut logicals: usize = 0;
        let mut i: usize = 0;
        while i < self.partitions.len()
            invariant
                i <= self.partitions.len(),
                primary == (|p: PartitionView| p.part_type == PartitionType::Primary),
                logical == (|p: PartitionView| p.part_type == PartitionType::Logical),
                primaries == self@.partitions.take(i as int).filter(primary).len(),
                logicals == self@.partitions.take(i as int).filter(logical).len(),
                primaries + logicals == i,
            decreases self.partitions.len() - i,
        {
            proof {
                let seen = self@.partitions.take(i as int);
                assert(self@.partitions.take(i + 1) =~= seen.push(self@.partitions[i as int]));
                Seq::lemma_filter_len_push(seen, primary, self@.partitions[i as int]);
                Seq::lemma_filter_len_push(seen, logical, self@.partitions[i as int]);
            }
            match self.partitions[i].part_type {
                PartitionType::Primary => {
                    primaries += 1;
                },
                PartitionType::Logical => {
                    logicals += 1;
                },
            }
            i += 1;
        }
        proof {
            assert(self@.partitions.take(i as int) =~= self@.partitions);
        }
        (primaries, logicals)
    }
}

impl DiskView {
    /// What `position` gives is the first partition with the number.
    pub proof fn lemma_position(self, number: int)
        ensures
            match self.position(number) {
                Some(i) => 0 <= i < self.partitions.len() && self.partitions[i].number == number
                    && forall|j: int| 0 <= j < i ==> (#[trigger] self.partitions[j]).number != number,
                None => forall|j: int|
                    0 <= j < self.partitions.len() ==> (#[trigger] self.partitions[j]).number
                        != number,
            },
    {
        let found = |i: int| self.partitions[i].number == number;
        lemma_first_below(self.partitions.len() as int, found);
        assert forall|j: int| 0 <= j < self.partitions.len() && !found(j) implies (
        #[trigger] self.partitions[j]).number != number by {}
    }

    /// What `overlap_index` gives is the first partition that overlaps the range.
    pub proof fn lemma_overlap_index(self, start: int, end: int, exclude: Option<int>)
        ensures
            match self.overlap_index(start, end, exclude) {
                Some(i) => 0 <= i < self.partitions.len() && !self.partitions[i].remove && exclude
                    != Some(i) && self.partitions[i].overlaps(start, end),
                None => forall|j: int|
                    0 <= j < self.partitions.len() && !(#[trigger] self.partitions[j]).remove
                        && exclude != Some(j) ==> !self.partitions[j].overlaps(start, end),
            },
    {
        let found = |i: int|
            !self.partitions[i].remove && exclude != Some(i) && self.partitions[i].overlaps(
                start,
                end,
            );
        lemma_first_below(self.partitions.len() as int, found);
        assert forall|j: int|
            0 <= j < self.partitions.len() && !found(j) && !(#[trigger] self.partitions[j]).remove
                && exclude != Some(j) implies !self.partitions[j].overlaps(start, end) by {}
    }

    /// What `index_at` gives is the first partition that holds the sector.
    pub proof fn lemma_index_at(self, sector: int)
        ensures
            match self.index_at(sector) {
                Some(i) => 0 <= i < self.partitions.len() && !self.partitions[i].remove
                    && self.partitions[i].holds_sector(sector),
                None => forall|j: int|
                    0 <= j < self.partitions.len() && !(#[trigger] self.partitions[j]).remove
                        ==> !self.partitions[j].holds_sector(sector),
            },
    {
        let found = |i: int| !self.partitions[i].remove && self.partitions[i].holds_sector(sector);
        lemma_first_below(self.partitions.len() as int, found);
        assert forall|j: int|
            0 <= j < self.partitions.len() && !found(j) && !(#[trigger] self.partitions[j]).remove
            implies !self.partitions[j].holds_sector(sector) by {}
    }
}

} // verus!
