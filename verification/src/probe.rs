//! From what was probed of a device to the record of its disk.

use vstd::prelude::*;
use crate::disk::{Disk, DiskView, PartitionTable};
use crate::partitions::{
    copy_flags, filesystem_named, partition_type_named, text_of, FileSystemType, PartitionFlag,
    PartitionInfo, PartitionType, PartitionView,
};
use crate::text::{copy_text, same_text};

verus! {

/// What the partition table library reports of one entry of a partition table.
#[derive(Clone, Debug, PartialEq)]
pub struct PartitionProbe {
    /// The number of the entry; `-1` for free space and for the table's own data.
    pub number: i32,
    /// The library's name for the class of the entry, such as `primary`.
    pub kind_name: String,
    /// The library's name for the file system, where it found one.
    pub fs_name: Option<String>,
    /// The flags that are set on the entry.
    pub flags: Vec<PartitionFlag>,
    /// The label of the entry.
    pub name: Option<String>,
    /// Whether the entry is active.
    pub active: bool,
    /// Whether the entry is in use.
    pub busy: bool,
    /// The first sector of the entry.
    pub start_sector: u64,
    /// The last sector of the entry.
    pub end_sector: u64,
    /// The device node of the entry.
    pub device_path: String,
    /// Where the entry is mounted now.
    pub mount_point: Option<String>,
    /// Whether the entry is in use as swap space.
    pub swapped: bool,
}

/// What the partition table library reports of one device.
#[derive(Clone, Debug, PartialEq)]
pub struct DeviceProbe {
    /// The model name of the device.
    pub model_name: String,
    /// The device node.
    pub device_path: String,
    /// The serial of the device.
    pub serial: String,
    /// The size of the device in sectors.
    pub size: u64,
    /// The size of a sector in bytes.
    pub sector_size: u64,
    /// The library's name for the type of the device.
    pub device_type: String,
    /// Whether the device is read-only.
    pub read_only: bool,
    /// The library's name for the kind of partition table, where there is a table.
    pub table_name: Option<String>,
    /// The entries of the partition table.
    pub partitions: Vec<PartitionProbe>,
}

/// The kind of partition table that the library calls `name`.
pub open spec fn table_named(name: Option<Seq<char>>) -> Option<PartitionTable> {
    match name {
        Some(name) => if name == "gpt"@ {
            Some(PartitionTable::Gpt)
        } else if name == "msdos"@ {
            Some(PartitionTable::Msdos)
        } else {
            None
        },
        None => None,
    }
}

/// Whether a device of the type that the library calls `device_type` is left
/// out of a probe: devices of unknown type, loop devices and files are.
pub open spec fn device_type_skipped(device_type: Seq<char>) -> bool {
    device_type == "PED_DEVICE_UNKNOWN"@ || device_type == "PED_DEVICE_LOOP"@ || device_type
        == "PED_DEVICE_FILE"@
}

/// Whether a device of this type is left out of a probe.
pub fn skips_device_type(device_type: &str) -> (r: bool)
    ensures
        r == device_type_skipped(device_type@),
{
    same_text(device_type, "PED_DEVICE_UNKNOWN") || same_text(device_type, "PED_DEVICE_LOOP")
        || same_text(device_type, "PED_DEVICE_FILE")
}

impl PartitionProbe {
    /// The partition that the entry stands for, if it stands for one: free
    /// space and the table's own data have the number `-1` and stand for none,
    /// nor does an entry that is neither primary nor logical. An MSDOS table
    /// has no labels.
    pub open spec fn info(self, is_msdos: bool) -> Option<PartitionView> {
        if self.number == -1 {
            None
        } else {
            match partition_type_named(self.kind_name@) {
                None => None,
                Some(part_type) => Some(
                    PartitionView {
                        is_source: true,
                        remove: false,
                        format: false,
                        active: self.active,
                        busy: self.busy,
                        swapped: self.swapped,
                        number: self.number as int,
                        start_sector: self.start_sector as nat,
                        end_sector: self.end_sector as nat,
                        part_type,
                        filesystem: match self.fs_name {
                            Some(name) => filesystem_named(name@),
                            None => None,
                        },
                        flags: self.flags@,
                        name: if is_msdos {
                            None
                        } else {
                            text_of(self.name)
                        },
                        device_path: self.device_path@,
                        mount_point: text_of(self.mount_point),
                        target: None,
                    },
                ),
            }
        }
    }
}

impl DeviceProbe {
    /// The disk that the probe stands for. Without a partition table of a known
    /// kind it has no partitions.
    pub open spec fn disk(self) -> DiskView {
        let table_type = table_named(text_of(self.table_name));
        DiskView {
            model_name: self.model_name@,
            serial: self.serial@,
            device_path: self.device_path@,
            size: self.size as nat,
            sector_size: self.sector_size as nat,
            device_type: self.device_type@,
            table_type,
            read_only: self.read_only,
            mklabel: false,
            partitions: if table_type is Some {
                self.partitions@.filter_map(
                    |p: PartitionProbe| p.info(table_type == Some(PartitionTable::Msdos)),
                )
            } else {
                Seq::empty()
            },
        }
    }
}

/// The partitions of a probed disk were all on the device, and nothing is
/// asked of them yet: none is marked for removal or for formatting, none has a
/// mount target. On an MSDOS table none has a label.
pub proof fn lemma_probed_partitions_are_sources(probe: DeviceProbe)
    ensures
        forall|i: int|
            0 <= i < probe.disk().partitions.len() ==> {
                let p = #[trigger] probe.disk().partitions[i];
                p.is_source && !p.remove && !p.format && p.target is None
            },
        probe.disk().msdos_unnamed(),
        !probe.disk().mklabel,
{
    let table_type = table_named(text_of(probe.table_name));
    let is_msdos = table_type == Some(PartitionTable::Msdos);
    let each = |p: PartitionProbe| p.info(table_type == Some(PartitionTable::Msdos));
    let parts = probe.disk().partitions;
    assert forall|i: int| 0 <= i < parts.len() implies {
        let p = #[trigger] parts[i];
        p.is_source && !p.remove && !p.format && p.target is None && (is_msdos ==> p.name is None)
    } by {
        assert(table_type is Some);
        assert(parts == probe.partitions@.filter_map(each));
        assert(parts.contains(parts[i]));
        probe.partitions@.lemma_filter_map_contains(each, parts[i]);
        let t = choose|t: PartitionProbe| #[trigger]
            probe.partitions@.contains(t) && each(t) == Some(parts[i]);
        assert(t.info(is_msdos) == Some(parts[i]));
    }
}

impl PartitionInfo {
    /// The partition that an entry of a probed partition table stands for, if
    /// it stands for one.
    pub fn new_from_probe(probe: &PartitionProbe, is_msdos: bool) -> (r: Option<PartitionInfo>)
        ensures
            match r {
                Some(p) => probe.info(is_msdos) == Some(p@),
                None => probe.info(is_msdos) is None,
            },
    {
        if probe.number == -1 {
            return None;
        }
        let part_type = match PartitionType::from_name(probe.kind_name.as_str()) {
            Some(part_type) => part_type,
            None => {
                return None;
            },
        };
        let filesystem = match &probe.fs_name {
            Some(name) => FileSystemType::from_name(name.as_str()),
            None => None,
        };
        let p = PartitionInfo {
            is_source: true,
            remove: false,
            format: false,
            active: probe.active,
            busy: probe.busy,
            swapped: probe.swapped,
            number: probe.number,
            start_sector: probe.start_sector,
            end_sector: probe.end_sector,
            part_type,
            filesystem,
            flags: copy_flags(&probe.flags),
            name: if is_msdos {
                None
            } else {
                copy_text(&probe.name)
            },
            device_path: probe.device_path.clone(),
            mount_point: copy_text(&probe.mount_point),
            target: None,
        };
        assert(p@ =~= probe.info(is_msdos)->Some_0);
        Some(p)
    }
}

impl Disk {
    /// The record of a device as it was probed: its partitions are those that
    /// the entries of its table stand for, in the order of the table.
    pub fn new(probe: &DeviceProbe) -> (r: Disk)
        ensures
            r@ == probe.disk(),
    {
        let table_type = match &probe.table_name {
            Some(name) => if same_text(name.as_str(), "gpt") {
                Some(PartitionTable::Gpt)
            } else if same_text(name.as_str(), "msdos") {
                Some(PartitionTable::Msdos)
            } else {
                None
            },
            None => None,
        };
        let is_msdos = match table_type {
            Some(PartitionTable::Msdos) => true,
            _ => false,
        };
        let mut partitions: Vec<PartitionInfo> = Vec::new();
        if table_type.is_some() {
            let ghost info = |p: PartitionProbe| p.info(table_type == Some(PartitionTable::Msdos));
            let mut i: usize = 0;
            while i < probe.partitions.len()
                invariant
                    i <= probe.partitions.len(),
                    is_msdos == (table_type == Some(PartitionTable::Msdos)),
                    info == (|p: PartitionProbe|
                        p.info(table_type == Some(PartitionTable::Msdos))),
                    partitions@.map_values(|p: PartitionInfo| p@) == probe.partitions@.take(
                        i as int,
                    ).filter_map(info),
                decreases probe.partitions.len() - i,
            {
                proof {
                    probe.partitions@.lemma_filter_map_take_succ(info, i as int);
                }
                let ghost before = partitions@;
                if let Some(p) = PartitionInfo::new_from_probe(&probe.partitions[i], is_msdos) {
                    partitions.push(p);
                    assert(partitions@.map_values(|p: PartitionInfo| p@) =~= before.map_values(
                        |p: PartitionInfo| p@,
                    ) + seq![p@]);
                }
                i += 1;
            }
            assert(probe.partitions@.take(i as int) =~= probe.partitions@);
        }
        let disk = Disk {
            model_name: probe.model_name.clone(),
            serial: probe.serial.clone(),
            device_path: probe.device_path.clone(),
            size: probe.size,
            sector_size: probe.sector_size,
            device_type: probe.device_type.clone(),
            table_type,
            read_only: probe.read_only,
            mklabel: false,
            partitions,
        };
        assert(disk@ =~= probe.disk());
        disk
    }
}

impl DiskView {
    /// The disk with `target` as the mount target of a partition: the first
    /// partition with the number of the partition that holds `sector`. Where no
    /// partition that is to stay holds `sector`, the disk itself.
    pub open spec fn with_target(self, sector: int, target: Seq<char>) -> DiskView {
        match self.index_at(sector) {
            Some(k) => match self.position(self.partitions[k].number) {
                Some(m) => self.with_partition(
                    m,
                    PartitionView { target: Some(target), ..self.partitions[m] },
                ),
                None => self,
            },
            None => self,
        }
    }

    /// The disk with the mount targets of the partitions `old`, each given to
    /// the partition that holds the first sector of the one that had it.
    pub open spec fn with_targets_of(self, old: Seq<PartitionView>) -> DiskView
        decreases old.len(),
    {
        if old.len() == 0 {
            self
        } else {
            let d = self.with_targets_of(old.drop_last());
            match old.last().target {
                Some(target) => d.with_target(old.last().start_sector as int, target),
                None => d,
            }
        }
    }

    /// Whether every partition of `old` that has a mount target begins within
    /// a partition of this disk.
    pub open spec fn takes_targets_of(self, old: Seq<PartitionView>) -> bool {
        forall|i: int|
            0 <= i < old.len() && (#[trigger] old[i]).target is Some ==> self.index_at(
                old[i].start_sector as int,
            ) is Some
    }

    /// Whether `other` is this disk but for the mount targets of its partitions.
    pub open spec fn same_but_targets(self, other: DiskView) -> bool {
        &&& other.partitions.len() == self.partitions.len()
        &&& forall|i: int|
            0 <= i < self.partitions.len() ==> #[trigger] other.partitions[i] == (PartitionView {
                target: other.partitions[i].target,
                ..self.partitions[i]
            })
        &&& other == (DiskView { partitions: other.partitions, ..self })
    }
}

impl Disk {
    /// Whether every partition of `old` that has a mount target begins within
    /// a partition of this disk that is to stay.
    pub fn takes_targets_of(&self, old: &Disk) -> (r: bool)
        ensures
            r == self@.takes_targets_of(old@.partitions),
    {
        let mut i: usize = 0;
        while i < old.partitions.len()
            invariant
                i <= old.partitions.len(),
                forall|j: int|
                    0 <= j < i && (#[trigger] old@.partitions[j]).target is Some
                        ==> self@.index_at(old@.partitions[j].start_sector as int) is Some,
            decreases old.partitions.len() - i,
        {
            if old.partitions[i].target.is_some() {
                if self.get_partition_at(old.partitions[i].start_sector).is_none() {
                    assert(old@.partitions[i as int].target is Some);
                    return false;
                }
            }
            i += 1;
        }
        true
    }

    /// Gives `target` as mount target to the first partition with the number
    /// of the partition that holds `sector`; where no partition that is to stay
    /// holds it, nothing changes.
    pub fn set_target_at(&mut self, sector: u64, target: String)
        ensures
            final(self)@ == old(self)@.with_target(sector as int, target@),
            old(self)@.same_but_targets(final(self)@),
    {
        proof {
            self@.lemma_index_at(sector as int);
        }
        if let Some(number) = self.get_partition_at(sector) {
            proof {
                self@.lemma_position(number as int);
            }
            if let Some(m) = self.position(number) {
                self.partitions[m].target = Some(target);
                assert(self@ =~= old(self)@.with_target(sector as int, target@));
            }
        }
        assert(self@ =~= old(self)@.with_target(sector as int, target@));
    }

    /// Replaces the record by `fresh`, the disk as it was probed again, and
    /// keeps the mount targets: each goes to the partition of `fresh` that
    /// holds the first sector of the partition that had it. A target whose
    /// sector no partition of `fresh` holds is lost; `takes_targets_of` tells
    /// beforehand whether there is one.
    pub fn reload(&mut self, fresh: Disk)
        ensures
            final(self)@ == fresh@.with_targets_of(old(self)@.partitions),
            fresh@.same_but_targets(final(self)@),
    {
        let mut next = fresh;
        let mut i: usize = 0;
        while i < self.partitions.len()
            invariant
                i <= self.partitions.len(),
                *self == *old(self),
                fresh@.same_but_targets(next@),
                next@ == fresh@.with_targets_of(self@.partitions.take(i as int)),
            decreases self.partitions.len() - i,
        {
            let ghost before = next@;
            proof {
                assert(self@.partitions.take(i + 1).drop_last() =~= self@.partitions.take(
                    i as int,
                ));
                assert(self@.partitions.take(i + 1).last() == self@.partitions[i as int]);
            }
            if let Some(target) = &self.partitions[i].target {
                next.set_target_at(self.partitions[i].start_sector, target.clone());
                proof {
                    lemma_same_but_targets_twice(fresh@, before, next@);
                }
            }
            i += 1;
        }
        assert(self@.partitions.take(i as int) =~= self@.partitions);
        *self = next;
    }
}

/// Disks that differ in mount targets only from a disk that differs in mount
/// targets only from a third differ from it in mount targets only.
pub proof fn lemma_same_but_targets_twice(a: DiskView, b: DiskView, c: DiskView)
    requires
        a.same_but_targets(b),
        b.same_but_targets(c),
    ensures
        a.same_but_targets(c),
{
    assert forall|i: int| 0 <= i < a.partitions.len() implies #[trigger] c.partitions[i] == (
    PartitionView { target: c.partitions[i].target, ..a.partitions[i] }) by {
        assert(b.partitions[i] == (PartitionView {
            target: b.partitions[i].target,
            ..a.partitions[i]
        }));
    }
}

} // verus!
