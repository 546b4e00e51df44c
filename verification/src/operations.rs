//! From two layouts to the operations that turn one into the other.

use vstd::prelude::*;
use crate::disk::{Disk, DiskView, PartitionTable};
use crate::error::DiskError;
use crate::search::lemma_map_push;
use crate::partitions::{
    copy_flags, flag_diff, flags_diff, FileSystemType, PartitionFlag, PartitionType,
    PartitionView,
};

verus! {

/// What a [`PartitionChange`] stands for.
#[verifier::ext_equal]
pub struct PartitionChangeView {
    pub num: int,
    pub start: nat,
    pub end: nat,
    pub format: Option<FileSystemType>,
    pub flags: Seq<PartitionFlag>,
}

/// What is to become of a partition that is on the device.
#[derive(Clone, Debug, PartialEq)]
pub struct PartitionChange {
    /// The number of the partition in the table.
    pub num: i32,
    /// The first sector that the partition is to have.
    pub start: u64,
    /// The last sector that the partition is to have.
    pub end: u64,
    /// The file system to format the partition with, if it is to be formatted.
    pub format: Option<FileSystemType>,
    /// The flags that the partition is to get.
    pub flags: Vec<PartitionFlag>,
}

impl View for PartitionChange {
    type V = PartitionChangeView;

    open spec fn view(&self) -> PartitionChangeView {
        PartitionChangeView {
            num: self.num as int,
            start: self.start as nat,
            end: self.end as nat,
            format: self.format,
            flags: self.flags@,
        }
    }
}

/// What a [`PartitionCreate`] stands for.
#[verifier::ext_equal]
pub struct PartitionCreateView {
    pub start_sector: nat,
    pub end_sector: nat,
    pub file_system: FileSystemType,
    pub kind: PartitionType,
    pub flags: Seq<PartitionFlag>,
}

/// A partition that is to be made on the device.
#[derive(Clone, Debug, PartialEq)]
pub struct PartitionCreate {
    /// The first sector of the partition.
    pub start_sector: u64,
    /// The last sector of the partition.
    pub end_sector: u64,
    /// The file system to format the partition with.
    pub file_system: FileSystemType,
    /// Primary or logical.
    pub kind: PartitionType,
    /// The flags that the partition is to get.
    pub flags: Vec<PartitionFlag>,
}

impl View for PartitionCreate {
    type V = PartitionCreateView;

    open spec fn view(&self) -> PartitionCreateView {
        PartitionCreateView {
            start_sector: self.start_sector as nat,
            end_sector: self.end_sector as nat,
            file_system: self.file_system,
            kind: self.kind,
            flags: self.flags@,
        }
    }
}

/// What a [`DiskOps`] stands for.
#[verifier::ext_equal]
pub struct DiskOpsView {
    pub mklabel: Option<PartitionTable>,
    pub device_path: Seq<char>,
    pub remove_partitions: Seq<int>,
    pub change_partitions: Seq<PartitionChangeView>,
    pub create_partitions: Seq<PartitionCreateView>,
}

/// What has to be done to a device to give it the layout that is wanted.
#[derive(Clone, Debug, PartialEq)]
pub struct DiskOps {
    /// The kind of the fresh partition table to write first, if one is wanted.
    pub mklabel: Option<PartitionTable>,
    /// The device node of the disk.
    pub device_path: String,
    /// The numbers of the partitions to delete.
    pub remove_partitions: Vec<i32>,
    /// The partitions to resize, move, flag or format.
    pub change_partitions: Vec<PartitionChange>,
    /// The partitions to make.
    pub create_partitions: Vec<PartitionCreate>,
}

impl View for DiskOps {
    type V = DiskOpsView;

    open spec fn view(&self) -> DiskOpsView {
        DiskOpsView {
            mklabel: self.mklabel,
            device_path: self.device_path@,
            remove_partitions: self.remove_partitions@.map_values(|n: i32| n as int),
            change_partitions: self.change_partitions@.map_values(|c: PartitionChange| c@),
            create_partitions: self.create_partitions@.map_values(|c: PartitionCreate| c@),
        }
    }
}

/// The change that turns the partition `source` of the device into `new`.
pub open spec fn change_of(source: PartitionView, new: PartitionView) -> PartitionChangeView {
    PartitionChangeView {
        num: source.number,
        start: new.start_sector,
        end: new.end_sector,
        format: if new.format {
            new.filesystem
        } else {
            None
        },
        flags: flag_diff(source.flags, new.flags),
    }
}

/// The partition to make for `new`, which has a file system.
pub open spec fn create_of(new: PartitionView) -> PartitionCreateView {
    PartitionCreateView {
        start_sector: new.start_sector,
        end_sector: new.end_sector,
        file_system: new.filesystem->Some_0,
        kind: new.part_type,
        flags: new.flags,
    }
}

impl DiskView {
    /// Whether `new` is a layout that this disk, as it was probed, can be given:
    /// either a fresh table is asked for, or `new` begins with the partitions of
    /// this disk, one for one and in their order.
    pub open spec fn keeps_layout(self, new: DiskView) -> bool {
        new.mklabel || (self.partitions.len() <= new.partitions.len() && forall|i: int|
            0 <= i < self.partitions.len() ==> (#[trigger] self.partitions[i]).is_same_partition_as(
                new.partitions[i],
            ))
    }

    /// Whether every partition of the list from index `from` on has a file system.
    pub open spec fn has_filesystems_from(self, from: int) -> bool {
        forall|i: int|
            from <= i < self.partitions.len() ==> (#[trigger] self.partitions[i]).filesystem
                is Some
    }

    /// The kind of the fresh table to write where `new` asks for one: the kind
    /// of the table that the device has, and for a device without a table the
    /// kind that `new` names.
    pub open spec fn relabel_kind(self, new: DiskView) -> Option<PartitionTable> {
        if self.table_type is Some {
            self.table_type
        } else {
            new.table_type
        }
    }

    /// Why there are no operations that give this disk the layout `new`, if
    /// there are none: `new` does not hold the partitions of this disk, or it
    /// asks for a fresh table and neither disk names a kind of table.
    pub open spec fn diff_error(self, new: DiskView) -> Option<DiskError> {
        if !self.keeps_layout(new) {
            Some(DiskError::LayoutChanged)
        } else if new.mklabel && self.relabel_kind(new) is None {
            Some(DiskError::PartitionTableNotFound)
        } else {
            None
        }
    }

    /// The index from which on the partitions of `new` are to be made on this disk.
    pub open spec fn first_new(self, new: DiskView) -> int {
        if new.mklabel {
            0
        } else {
            self.partitions.len() as int
        }
    }

    /// The partitions of this disk, each beside the one of `new` that stands in its place.
    pub open spec fn paired(self, new: DiskView) -> Seq<(PartitionView, PartitionView)> {
        Seq::new(self.partitions.len(), |i: int| (self.partitions[i], new.partitions[i]))
    }

    /// The numbers of the partitions of this disk that `new` marks for removal.
    pub open spec fn removals(self, new: DiskView) -> Seq<int> {
        self.paired(new).filter(|pair: (PartitionView, PartitionView)| pair.1.remove).map_values(
            |pair: (PartitionView, PartitionView)| pair.1.number,
        )
    }

    /// The changes to the partitions of this disk that `new` keeps and alters.
    pub open spec fn changes(self, new: DiskView) -> Seq<PartitionChangeView> {
        self.paired(new).filter(
            |pair: (PartitionView, PartitionView)|
                !pair.1.remove && pair.0.requires_changes(pair.1),
        ).map_values(|pair: (PartitionView, PartitionView)| change_of(pair.0, pair.1))
    }

    /// What has to be done to this disk, as it was probed, to give it the layout `new`.
    pub open spec fn diff(self, new: DiskView) -> DiskOpsView {
        if new.mklabel {
            DiskOpsView {
                mklabel: self.relabel_kind(new),
                device_path: self.device_path,
                remove_partitions: Seq::empty(),
                change_partitions: Seq::empty(),
                create_partitions: new.partitions.map_values(|p: PartitionView| create_of(p)),
            }
        } else {
            DiskOpsView {
                mklabel: None,
                device_path: self.device_path,
                remove_partitions: self.removals(new),
                change_partitions: self.changes(new),
                create_partitions: new.partitions.skip(self.partitions.len() as int).map_values(
                    |p: PartitionView| create_of(p),
                ),
            }
        }
    }
}

impl Disk {
    /// Checks that `new` holds the partitions of this disk: `Ok` where a fresh
    /// table is asked for or `new` begins with the partitions of this disk, one
    /// for one and in their order; `LayoutChanged` otherwise.
    pub fn validate_layout(&self, new: &Disk) -> (r: Result<(), DiskError>)
        ensures
            self@.keeps_layout(new@) ==> r is Ok,
            !self@.keeps_layout(new@) ==> r == Err::<(), DiskError>(DiskError::LayoutChanged),
    {
        if new.mklabel {
            return Ok(());
        }
        let mut i: usize = 0;
        while i < self.partitions.len()
            invariant
                i <= self.partitions.len(),
                !new.mklabel,
                forall|j: int|
                    0 <= j < i ==> j < new.partitions.len() && (
                    #[trigger] self@.partitions[j]).is_same_partition_as(new@.partitions[j]),
            decreases self.partitions.len() - i,
        {
            if i >= new.partitions.len() {
                return Err(DiskError::LayoutChanged);
            }
            if !self.partitions[i].is_same_partition_as(&new.partitions[i]) {
                assert(!self@.partitions[i as int].is_same_partition_as(new@.partitions[i as int]));
                return Err(DiskError::LayoutChanged);
            }
            i += 1;
        }
        assert(self.partitions.len() <= new.partitions.len()) by {
            if self.partitions.len() > 0 {
                assert(self@.partitions[self.partitions.len() - 1].is_same_partition_as(
                    new@.partitions[self.partitions.len() - 1],
                ));
            }
        }
        Ok(())
    }

    /// Whether every partition of the list from index `from` on has a file system.
    pub fn has_filesystems_from(&self, from: usize) -> (r: bool)
        ensures
            r == self@.has_filesystems_from(from as int),
    {
        let mut i: usize = from;
        while i < self.partitions.len()
            invariant
                from <= i,
                forall|j: int|
                    from <= j < i && j < self.partitions.len() ==> (
                    #[trigger] self@.partitions[j]).filesystem is Some,
            decreases self.partitions.len() - i,
        {
            if self.partitions[i].filesystem.is_none() {
                assert(self@.partitions[i as int].filesystem is None);
                return false;
            }
            i += 1;
        }
        true
    }

    /// The partitions to make for those of `new` from index `from` on.
    fn creations(new: &Disk, from: usize) -> (r: Vec<PartitionCreate>)
        requires
            from <= new.partitions.len(),
            new@.has_filesystems_from(from as int),
        ensures
            r@.map_values(|c: PartitionCreate| c@) == new@.partitions.skip(from as int).map_values(
                |p: PartitionView| create_of(p),
            ),
    {
        let mut r: Vec<PartitionCreate> = Vec::new();
        let mut i: usize = from;
        while i < new.partitions.len()
            invariant
                from <= i <= new.partitions.len(),
                new@.has_filesystems_from(from as int),
                r@.len() == i - from,
                forall|j: int|
                    0 <= j < i - from ==> (#[trigger] r@[j])@ == create_of(
                        new@.partitions[from + j],
                    ),
            decreases new.partitions.len() - i,
        {
            let p = &new.partitions[i];
            assert(new@.partitions[i as int].filesystem is Some);
            let file_system = p.filesystem.unwrap();
            r.push(
                PartitionCreate {
                    start_sector: p.start_sector,
                    end_sector: p.end_sector,
                    file_system,
                    kind: p.part_type,
                    flags: copy_flags(&p.flags),
                },
            );
            i += 1;
        }
        assert(r@.map_values(|c: PartitionCreate| c@) =~= new@.partitions.skip(
            from as int,
        ).map_values(|p: PartitionView| create_of(p)));
        r
    }

    /// Compares this disk, as it was probed, with the layout `new` that is
    /// wanted, and gives what has to be done to the device.
    ///
    /// Where a fresh table is asked for, it is to be written, and every
    /// partition of `new` is to be made. Otherwise the partitions of this disk
    /// are taken with those that stand in their places in `new`: one that is
    /// marked is to be removed, one that differs is to be changed, and the
    /// partitions that follow in `new` are to be made.
    ///
    /// `LayoutChanged` where `new` does not hold the partitions of this disk;
    /// `PartitionTableNotFound` where a fresh table is asked for and neither
    /// disk names a kind of table. Where there are operations, the partitions
    /// to make have file systems.
    pub fn diff(&self, new: &Disk) -> (r: Result<DiskOps, DiskError>)
        requires
            self@.keeps_layout(new@) ==> new@.has_filesystems_from(self@.first_new(new@)),
        ensures
            match self@.diff_error(new@) {
                Some(e) => r == Err::<DiskOps, DiskError>(e),
                None => r matches Ok(ops) && ops@ == self@.diff(new@),
            },
            r matches Ok(ops) ==> (ops@.mklabel is Some <==> new@.mklabel),
    {
        match self.validate_layout(new) {
            Err(e) => {
                return Err(e);
            },
            Ok(()) => {},
        }
        if new.mklabel {
            let kind = match self.table_type {
                Some(kind) => kind,
                None => match new.table_type {
                    Some(kind) => kind,
                    None => {
                        return Err(DiskError::PartitionTableNotFound);
                    },
                },
            };
            let creates = Disk::creations(new, 0);
            let ops = DiskOps {
                mklabel: Some(kind),
                device_path: self.device_path.clone(),
                remove_partitions: Vec::new(),
                change_partitions: Vec::new(),
                create_partitions: creates,
            };
            assert(new@.partitions.skip(0) =~= new@.partitions);
            assert(ops@ =~= self@.diff(new@));
            return Ok(ops);
        }
        let ghost pairs = self@.paired(new@);
        let ghost removed = |pair: (PartitionView, PartitionView)| pair.1.remove;
        let ghost changed = |pair: (PartitionView, PartitionView)|
            !pair.1.remove && pair.0.requires_changes(pair.1);
        let ghost number = |pair: (PartitionView, PartitionView)| pair.1.number;
        let ghost change = |pair: (PartitionView, PartitionView)| change_of(pair.0, pair.1);
        let mut remove_partitions: Vec<i32> = Vec::new();
        let mut change_partitions: Vec<PartitionChange> = Vec::new();
        let mut i: usize = 0;
        while i < self.partitions.len()
            invariant
                i <= self.partitions.len() <= new.partitions.len(),
                pairs == self@.paired(new@),
                removed == (|pair: (PartitionView, PartitionView)| pair.1.remove),
                changed == (|pair: (PartitionView, PartitionView)|
                    !pair.1.remove && pair.0.requires_changes(pair.1)),
                number == (|pair: (PartitionView, PartitionView)| pair.1.number),
                change == (|pair: (PartitionView, PartitionView)| change_of(pair.0, pair.1)),
                remove_partitions@.map_values(|n: i32| n as int) == pairs.take(i as int).filter(
                    removed,
                ).map_values(number),
                change_partitions@.map_values(|c: PartitionChange| c@) == pairs.take(
                    i as int,
                ).filter(changed).map_values(change),
            decreases self.partitions.len() - i,
        {
            let source = &self.partitions[i];
            let target = &new.partitions[i];
            let ghost removes_before = remove_partitions@;
            let ghost changes_before = change_partitions@;
            proof {
                let seen = pairs.take(i as int);
                assert(pairs.take(i + 1) =~= seen.push(pairs[i as int]));
                assert(pairs[i as int] == (source@, target@));
                Seq::lemma_filter_push(seen, pairs[i as int], removed);
                Seq::lemma_filter_push(seen, pairs[i as int], changed);
                lemma_map_push(seen.filter(removed), pairs[i as int], number);
                lemma_map_push(seen.filter(changed), pairs[i as int], change);
            }
            if target.remove {
                remove_partitions.push(target.number);
                proof {
                    lemma_map_push(removes_before, target.number, |n: i32| n as int);
                }
            } else if source.requires_changes(target) {
                change_partitions.push(
                    PartitionChange {
                        num: source.number,
                        start: target.start_sector,
                        end: target.end_sector,
                        format: if target.format {
                            target.filesystem
                        } else {
                            None
                        },
                        flags: flags_diff(&source.flags, &target.flags),
                    },
                );
                proof {
                    let last = change_partitions@[changes_before.len() as int];
                    assert(last@ =~= change_of(source@, target@));
                    lemma_map_push(changes_before, last, |c: PartitionChange| c@);
                }
            }
            i += 1;
        }
        assert(pairs.take(i as int) =~= pairs);
        let creates = Disk::creations(new, self.partitions.len());
        let ops = DiskOps {
            mklabel: None,
            device_path: self.device_path.clone(),
            remove_partitions,
            change_partitions,
            create_partitions: creates,
        };
        assert(ops@ =~= self@.diff(new@));
        Ok(ops)
    }
}

} // verus!
