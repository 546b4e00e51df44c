//! The edits of a disk: adding, removing, resizing, moving and formatting
//! partitions. They change the record only, refuse what would break the
//! layout, and leave the disk as it was where they refuse.

use vstd::prelude::*;
use crate::disk::{Disk, DiskView, PartitionTable, MIB10};
use crate::error::DiskError;
use crate::partitions::{
    FileSystemType, PartitionBuilder, PartitionInfo, PartitionType, PartitionView,
};
use crate::search::{lemma_filter_len_remove, lemma_filter_len_same};

verus! {

impl DiskView {
    /// Why a partition of this shape cannot be added, if it cannot: the first of
    /// an overlap, a last sector that is no sector of the disk, a missing table,
    /// a full MSDOS table.
    pub open spec fn add_error(self, p: PartitionView) -> Option<DiskError> {
        if let Some(i) = self.overlap_index(p.start_sector as int, p.end_sector as int, None) {
            Some(DiskError::SectorOverlaps { id: self.partitions[i].number as i32 })
        } else if self.size <= p.end_sector {
            Some(DiskError::PartitionOOB)
        } else {
            match self.table_type {
                Some(PartitionTable::Gpt) => None,
                Some(PartitionTable::Msdos) => if self.msdos_full(p.part_type) {
                    Some(DiskError::PrimaryPartitionsExceeded)
                } else {
                    None
                },
                None => Some(DiskError::PartitionTableNotFound),
            }
        }
    }

    /// The disk after the partition with this number was asked to be removed, or
    /// why it cannot be: a partition that was on the device is marked, another
    /// one leaves the list.
    pub open spec fn after_remove(self, number: i32) -> Result<DiskView, DiskError> {
        match self.position(number as int) {
            None => Err(DiskError::PartitionNotFound { partition: number }),
            Some(i) => if self.partitions[i].is_source {
                Ok(self.with_partition(i, PartitionView { remove: true, ..self.partitions[i] }))
            } else {
                Ok(self.without_partition(i))
            },
        }
    }

    /// The disk after the partition at index `i` got the end points
    /// `[start, end]`, or why it cannot get them: the end is no sector of the
    /// disk, or they overlap another partition that is to stay.
    pub open spec fn after_placing(self, i: int, start: int, end: int) -> Result<
        DiskView,
        DiskError,
    > {
        if end < 0 || end >= self.size {
            Err(DiskError::PartitionOOB)
        } else if let Some(j) = self.overlap_index(start, end, Some(i)) {
            Err(DiskError::SectorOverlaps { id: self.partitions[j].number as i32 })
        } else {
            Ok(
                self.with_partition(
                    i,
                    PartitionView {
                        start_sector: start as nat,
                        end_sector: end as nat,
                        ..self.partitions[i]
                    },
                ),
            )
        }
    }

    /// The disk after the partition with this number was resized to `length`
    /// sectors, or why it cannot be.
    pub open spec fn after_resize(self, number: i32, length: int) -> Result<DiskView, DiskError> {
        if length <= MIB10 as int / self.sector_size as int {
            Err(DiskError::ResizeTooSmall)
        } else {
            match self.position(number as int) {
                None => Err(DiskError::PartitionNotFound { partition: number }),
                Some(i) => {
                    let start = self.partitions[i].start_sector as int;
                    self.after_placing(i, start, start + length - 1)
                },
            }
        }
    }

    /// The disk after the partition with this number was moved to begin at
    /// `start`, its length kept, or why it cannot be.
    pub open spec fn after_move(self, number: i32, start: int) -> Result<DiskView, DiskError> {
        match self.position(number as int) {
            None => Err(DiskError::PartitionNotFound { partition: number }),
            Some(i) => {
                let p = self.partitions[i];
                if start == p.start_sector {
                    Ok(self)
                } else {
                    self.after_placing(i, start, p.end_sector + start - p.start_sector)
                }
            },
        }
    }

    /// The disk after the partition with this number was asked to be formatted
    /// with `fs`, or why it cannot be.
    pub open spec fn after_format(self, number: i32, fs: FileSystemType) -> Result<
        DiskView,
        DiskError,
    > {
        match self.position(number as int) {
            None => Err(DiskError::PartitionNotFound { partition: number }),
            Some(i) => Ok(
                self.with_partition(
                    i,
                    PartitionView { format: true, filesystem: Some(fs), ..self.partitions[i] },
                ),
            ),
        }
    }

    /// The disk after a fresh table of this kind was asked for.
    pub open spec fn after_mklabel(self, kind: PartitionTable) -> DiskView {
        DiskView {
            partitions: Seq::empty(),
            mklabel: true,
            table_type: Some(kind),
            ..self
        }
    }
}

impl Disk {
    /// Asks for a fresh partition table of this kind: the record loses its
    /// partitions. Nothing on the device is touched; whoever holds mounts of
    /// the disk unmounts them first.
    pub fn mklabel(&mut self, kind: PartitionTable)
        ensures
            final(self)@ == old(self)@.after_mklabel(kind),
            final(self)@.non_overlapping(),
            final(self)@.within_msdos_quota(),
            final(self)@.within_bounds(),
            final(self)@.msdos_unnamed(),
    {
        self.partitions.clear();
        self.mklabel = true;
        self.table_type = Some(kind);
        assert(self@.partitions =~= Seq::empty());
    }

    /// Adds the partition that `builder` describes at the end of the list.
    ///
    /// It is refused where it would share a sector with a partition that is to
    /// stay (`SectorOverlaps`, with the number of the first such partition),
    /// where its last sector is no sector of the disk (`PartitionOOB`), where
    /// the disk has no table (`PartitionTableNotFound`) or an MSDOS table has
    /// no room for it (`PrimaryPartitionsExceeded`). A refusal leaves the disk
    /// as it was. On an MSDOS table, which has no labels, the partition loses
    /// its name.
    pub fn add_partition(&mut self, builder: PartitionBuilder) -> (r: Result<(), DiskError>)
        ensures
            match old(self)@.add_error(builder@) {
                Some(e) => r == Err::<(), DiskError>(e) && *final(self) == *old(self),
                None => r is Ok && final(self)@ == old(self)@.with_new_partition(
                    old(self)@.placed(builder@),
                ),
            },
            old(self)@.non_overlapping() ==> final(self)@.non_overlapping(),
            old(self)@.within_msdos_quota() ==> final(self)@.within_msdos_quota(),
            old(self)@.within_bounds() ==> final(self)@.within_bounds(),
            old(self)@.msdos_unnamed() ==> final(self)@.msdos_unnamed(),
    {
        if let Some(id) = self.overlaps_region(builder.start_sector, builder.end_sector) {
            return Err(DiskError::SectorOverlaps { id });
        }
        if self.size <= builder.end_sector {
            return Err(DiskError::PartitionOOB);
        }
        let mut is_msdos = false;
        match self.table_type {
            Some(PartitionTable::Gpt) => (),
            Some(PartitionTable::Msdos) => {
                is_msdos = true;
                let (primary, logical) = self.get_partition_type_count();
                match builder.part_type {
                    PartitionType::Primary => {
                        if primary == 4 || (primary == 3 && logical != 0) {
                            return Err(DiskError::PrimaryPartitionsExceeded);
                        }
                    },
                    PartitionType::Logical => {
                        if primary == 4 {
                            return Err(DiskError::PrimaryPartitionsExceeded);
                        }
                    },
                }
            },
            None => {
                return Err(DiskError::PartitionTableNotFound);
            },
        }
        proof {
            lemma_add_keeps_invariants(self@, builder@);
        }
        let mut part = builder.build();
        if is_msdos {
            part.name = None;
        }
        assert(part@ =~= old(self)@.placed(builder@));
        self.partitions.push(part);
        assert(self@.partitions =~= old(self)@.partitions.push(old(self)@.placed(builder@)));
        Ok(())
    }

    /// Asks for the first partition with this number to be removed: one that was
    /// on the device is marked and keeps its place, another one leaves the list.
    pub fn remove_partition(&mut self, partition: i32) -> (r: Result<(), DiskError>)
        ensures
            match old(self)@.after_remove(partition) {
                Ok(d) => r is Ok && final(self)@ == d,
                Err(e) => r == Err::<(), DiskError>(e) && *final(self) == *old(self),
            },
            old(self)@.non_overlapping() ==> final(self)@.non_overlapping(),
            old(self)@.within_msdos_quota() ==> final(self)@.within_msdos_quota(),
            old(self)@.within_bounds() ==> final(self)@.within_bounds(),
            old(self)@.msdos_unnamed() ==> final(self)@.msdos_unnamed(),
    {
        match self.position(partition) {
            None => Err(DiskError::PartitionNotFound { partition }),
            Some(i) => {
                proof {
                    lemma_remove_keeps_invariants(self@, partition);
                }
                if self.partitions[i].is_source {
                    self.partitions[i].remove = true;
                    assert(self@.partitions =~= old(self)@.partitions.update(
                        i as int,
                        PartitionView { remove: true, ..old(self)@.partitions[i as int] },
                    ));
                } else {
                    self.partitions.remove(i);
                    assert(self@.partitions =~= old(self)@.partitions.remove(i as int));
                }
                Ok(())
            },
        }
    }

    /// The first partition with this number, to be changed in place.
    pub fn get_partition_mut(&mut self, partition: i32) -> (r: Option<&mut PartitionInfo>)
        ensures
            match r {
                Some(p) => old(self)@.position(partition as int) matches Some(i) && p@ == old(
                    self,
                )@.partitions[i] && final(self)@ =~= old(self)@.with_partition(i, final(p)@),
                None => old(self)@.position(partition as int) is None && *final(self) == *old(
                    self,
                ),
            },
    {
        match self.position(partition) {
            None => None,
            Some(i) => {
                Some(&mut self.partitions[i])
            },
        }
    }

    /// Gives the partition at index `i` the end points `[start, end]`, unless
    /// the end is no sector of the disk or they overlap another partition that
    /// is to stay.
    fn place(&mut self, i: usize, start: u64, end: u64) -> (r: Result<(), DiskError>)
        requires
            i < old(self).partitions.len(),
        ensures
            match old(self)@.after_placing(i as int, start as int, end as int) {
                Ok(d) => r is Ok && final(self)@ =~= d,
                Err(e) => r == Err::<(), DiskError>(e) && *final(self) == *old(self),
            },
            old(self)@.non_overlapping() ==> final(self)@.non_overlapping(),
            old(self)@.within_msdos_quota() ==> final(self)@.within_msdos_quota(),
            old(self)@.within_bounds() ==> final(self)@.within_bounds(),
            old(self)@.msdos_unnamed() ==> final(self)@.msdos_unnamed(),
    {
        if end >= self.size {
            return Err(DiskError::PartitionOOB);
        }
        if let Some(id) = self.overlaps_region_excluding(start, end, i) {
            return Err(DiskError::SectorOverlaps { id });
        }
        proof {
            lemma_placing_keeps_invariants(self@, i as int, start as int, end as int);
        }
        self.partitions[i].start_sector = start;
        self.partitions[i].end_sector = end;
        assert(self@ =~= old(self)@.after_placing(i as int, start as int, end as int)->Ok_0);
        Ok(())
    }

    /// Resizes the first partition with this number to `length` sectors, its
    /// first sector kept.
    ///
    /// It is refused where `length` is not above ten mebibytes
    /// (`ResizeTooSmall`), no partition has the number (`PartitionNotFound`),
    /// the last sector would be no sector of the disk (`PartitionOOB`), or the
    /// new range shares a sector with another partition that is to stay
    /// (`SectorOverlaps`). A refusal leaves the disk as it was.
    pub fn resize_partition(&mut self, partition: i32, length: u64) -> (r: Result<(), DiskError>)
        requires
            old(self).sector_size > 0,
        ensures
            match old(self)@.after_resize(partition, length as int) {
                Ok(d) => r is Ok && final(self)@ =~= d,
                Err(e) => r == Err::<(), DiskError>(e) && *final(self) == *old(self),
            },
            old(self)@.non_overlapping() ==> final(self)@.non_overlapping(),
            old(self)@.within_msdos_quota() ==> final(self)@.within_msdos_quota(),
            old(self)@.within_bounds() ==> final(self)@.within_bounds(),
            old(self)@.msdos_unnamed() ==> final(self)@.msdos_unnamed(),
    {
        if length <= MIB10 / self.sector_size {
            return Err(DiskError::ResizeTooSmall);
        }
        let i = match self.position(partition) {
            Some(i) => i,
            None => {
                return Err(DiskError::PartitionNotFound { partition });
            },
        };
        let start = self.partitions[i].start_sector;
        match start.checked_add(length - 1) {
            Some(end) => self.place(i, start, end),
            None => Err(DiskError::PartitionOOB),
        }
    }

    /// Moves the first partition with this number to begin at `start`, its
    /// length kept.
    ///
    /// It is refused where no partition has the number (`PartitionNotFound`),
    /// the last sector would lie below zero or be no sector of the disk
    /// (`PartitionOOB`), or the new range shares a sector with another
    /// partition that is to stay (`SectorOverlaps`). A refusal leaves the disk
    /// as it was.
    pub fn move_partition(&mut self, partition: i32, start: u64) -> (r: Result<(), DiskError>)
        ensures
            match old(self)@.after_move(partition, start as int) {
                Ok(d) => r is Ok && final(self)@ =~= d,
                Err(e) => r == Err::<(), DiskError>(e) && *final(self) == *old(self),
            },
            old(self)@.non_overlapping() ==> final(self)@.non_overlapping(),
            old(self)@.within_msdos_quota() ==> final(self)@.within_msdos_quota(),
            old(self)@.within_bounds() ==> final(self)@.within_bounds(),
            old(self)@.msdos_unnamed() ==> final(self)@.msdos_unnamed(),
    {
        let i = match self.position(partition) {
            Some(i) => i,
            None => {
                return Err(DiskError::PartitionNotFound { partition });
            },
        };
        let old_start = self.partitions[i].start_sector;
        let old_end = self.partitions[i].end_sector;
        if start == old_start {
            return Ok(());
        }
        let end = if start > old_start {
            old_end.checked_add(start - old_start)
        } else {
            old_end.checked_sub(old_start - start)
        };
        match end {
            Some(end) => self.place(i, start, end),
            None => Err(DiskError::PartitionOOB),
        }
    }

    /// Asks for the first partition with this number to be formatted with `fs`.
    pub fn format_partition(&mut self, partition: i32, fs: FileSystemType) -> (r: Result<
        (),
        DiskError,
    >)
        ensures
            match old(self)@.after_format(partition, fs) {
                Ok(d) => r is Ok && final(self)@ =~= d,
                Err(e) => r == Err::<(), DiskError>(e) && *final(self) == *old(self),
            },
            old(self)@.non_overlapping() ==> final(self)@.non_overlapping(),
            old(self)@.within_msdos_quota() ==> final(self)@.within_msdos_quota(),
            old(self)@.within_bounds() ==> final(self)@.within_bounds(),
            old(self)@.msdos_unnamed() ==> final(self)@.msdos_unnamed(),
    {
        match self.position(partition) {
            None => Err(DiskError::PartitionNotFound { partition }),
            Some(i) => {
                proof {
                    lemma_format_keeps_invariants(self@, partition, fs);
                }
                self.partitions[i].format = true;
                self.partitions[i].filesystem = Some(fs);
                assert(self@ =~= old(self)@.after_format(partition, fs)->Ok_0);
                Ok(())
            },
        }
    }
}

/// Adding a partition that `add_error` lets through keeps the partitions
/// apart and on the disk, an MSDOS table within its quota, and its
/// partitions without labels.
pub proof fn lemma_add_keeps_invariants(d: DiskView, p: PartitionView)
    requires
        d.add_error(p) is None,
    ensures
        d.non_overlapping() ==> d.with_new_partition(d.placed(p)).non_overlapping(),
        d.within_msdos_quota() ==> d.with_new_partition(d.placed(p)).within_msdos_quota(),
        d.within_bounds() ==> d.with_new_partition(d.placed(p)).within_bounds(),
        d.msdos_unnamed() ==> d.with_new_partition(d.placed(p)).msdos_unnamed(),
{
    let after = d.with_new_partition(d.placed(p));
    if d.within_bounds() {
        assert forall|i: int| 0 <= i < after.partitions.len() implies (
        #[trigger] after.partitions[i]).end_sector < after.size by {
            if i < d.partitions.len() {
                assert(after.partitions[i] == d.partitions[i]);
            }
        }
    }
    if d.msdos_unnamed() && d.table_type == Some(PartitionTable::Msdos) {
        assert forall|i: int| 0 <= i < after.partitions.len() implies (
        #[trigger] after.partitions[i]).name is None by {
            if i < d.partitions.len() {
                assert(after.partitions[i] == d.partitions[i]);
            }
        }
    }
    d.lemma_overlap_index(p.start_sector as int, p.end_sector as int, None);
    if d.non_overlapping() {
        assert forall|i: int, j: int|
            0 <= i < j < after.partitions.len() && !(#[trigger] after.partitions[i]).remove && !(
            #[trigger] after.partitions[j]).remove implies !after.partitions[i].overlaps(
            after.partitions[j].start_sector as int,
            after.partitions[j].end_sector as int,
        ) by {
            if j < d.partitions.len() {
                assert(after.partitions[i] == d.partitions[i]);
                assert(after.partitions[j] == d.partitions[j]);
            } else {
                assert(after.partitions[i] == d.partitions[i]);
                assert(!d.partitions[i].overlaps(p.start_sector as int, p.end_sector as int));
            }
        }
    }
    Seq::lemma_filter_len_push(
        d.partitions,
        |q: PartitionView| q.part_type == PartitionType::Primary,
        d.placed(p),
    );
    Seq::lemma_filter_len_push(
        d.partitions,
        |q: PartitionView| q.part_type == PartitionType::Logical,
        d.placed(p),
    );
}

/// Removing a partition keeps the partitions apart and on the disk, an MSDOS
/// table within its quota, and its partitions without labels.
pub proof fn lemma_remove_keeps_invariants(d: DiskView, number: i32)
    requires
        d.after_remove(number) is Ok,
    ensures
        d.non_overlapping() ==> d.after_remove(number)->Ok_0.non_overlapping(),
        d.within_msdos_quota() ==> d.after_remove(number)->Ok_0.within_msdos_quota(),
        d.within_bounds() ==> d.after_remove(number)->Ok_0.within_bounds(),
        d.msdos_unnamed() ==> d.after_remove(number)->Ok_0.msdos_unnamed(),
{
    let after = d.after_remove(number)->Ok_0;
    d.lemma_position(number as int);
    let i = d.position(number as int)->Some_0;
    assert forall|k: int| 0 <= k < after.partitions.len() implies exists|k0: int|
        0 <= k0 < d.partitions.len() && (#[trigger] after.partitions[k]).end_sector
            == d.partitions[k0].end_sector && after.partitions[k].name == d.partitions[k0].name by {
        if d.partitions[i].is_source {
            assert(after.partitions[k].end_sector == d.partitions[k].end_sector);
        } else {
            d.partitions.remove_ensures(i);
            let k0 = if k < i {
                k
            } else {
                k + 1
            };
            assert(after.partitions[k] == d.partitions[k0]);
        }
    }
    let primary = |q: PartitionView| q.part_type == PartitionType::Primary;
    let logical = |q: PartitionView| q.part_type == PartitionType::Logical;
    if d.partitions[i].is_source {
        lemma_filter_len_same(d.partitions, after.partitions, primary);
        lemma_filter_len_same(d.partitions, after.partitions, logical);
        if d.non_overlapping() {
            assert forall|a: int, b: int|
                0 <= a < b < after.partitions.len() && !(#[trigger] after.partitions[a]).remove
                    && !(#[trigger] after.partitions[b]).remove implies !after.partitions[a].overlaps(
                after.partitions[b].start_sector as int,
                after.partitions[b].end_sector as int,
            ) by {
                assert(after.partitions[a] == d.partitions[a]);
                assert(after.partitions[b] == d.partitions[b]);
            }
        }
    } else {
        lemma_filter_len_remove(d.partitions, i, primary);
        lemma_filter_len_remove(d.partitions, i, logical);
        d.partitions.remove_ensures(i);
        if d.non_overlapping() {
            assert forall|a: int, b: int|
                0 <= a < b < after.partitions.len() && !(#[trigger] after.partitions[a]).remove
                    && !(#[trigger] after.partitions[b]).remove implies !after.partitions[a].overlaps(
                after.partitions[b].start_sector as int,
                after.partitions[b].end_sector as int,
            ) by {
                let a0 = if a < i { a } else { a + 1 };
                let b0 = if b < i { b } else { b + 1 };
                assert(after.partitions[a] == d.partitions[a0]);
                assert(after.partitions[b] == d.partitions[b0]);
            }
        }
    }
}

/// A partition whose new range is free and on the disk leaves the partitions
/// apart and on the disk, an MSDOS table within its quota, and its partitions
/// without labels.
pub proof fn lemma_placing_keeps_invariants(d: DiskView, i: int, start: int, end: int)
    requires
        0 <= i < d.partitions.len(),
        d.after_placing(i, start, end) is Ok,
    ensures
        d.non_overlapping() ==> d.after_placing(i, start, end)->Ok_0.non_overlapping(),
        d.within_msdos_quota() ==> d.after_placing(i, start, end)->Ok_0.within_msdos_quota(),
        d.within_bounds() ==> d.after_placing(i, start, end)->Ok_0.within_bounds(),
        d.msdos_unnamed() ==> d.after_placing(i, start, end)->Ok_0.msdos_unnamed(),
{
    let after = d.after_placing(i, start, end)->Ok_0;
    assert forall|k: int| 0 <= k < after.partitions.len() implies (
    #[trigger] after.partitions[k]).name == d.partitions[k].name && (k != i
        ==> after.partitions[k].end_sector == d.partitions[k].end_sector) by {}
    d.lemma_overlap_index(start, end, Some(i));
    lemma_filter_len_same(
        d.partitions,
        after.partitions,
        |q: PartitionView| q.part_type == PartitionType::Primary,
    );
    lemma_filter_len_same(
        d.partitions,
        after.partitions,
        |q: PartitionView| q.part_type == PartitionType::Logical,
    );
    if d.non_overlapping() {
        assert forall|a: int, b: int|
            0 <= a < b < after.partitions.len() && !(#[trigger] after.partitions[a]).remove && !(
            #[trigger] after.partitions[b]).remove implies !after.partitions[a].overlaps(
            after.partitions[b].start_sector as int,
            after.partitions[b].end_sector as int,
        ) by {
            if a == i {
                assert(after.partitions[b] == d.partitions[b]);
                assert(!d.partitions[b].overlaps(start, end));
            } else if b == i {
                assert(after.partitions[a] == d.partitions[a]);
                assert(!d.partitions[a].overlaps(start, end));
            } else {
                assert(after.partitions[a] == d.partitions[a]);
                assert(after.partitions[b] == d.partitions[b]);
            }
        }
    }
}

/// Asking for a partition to be formatted leaves the partitions apart and on
/// the disk, an MSDOS table within its quota, and its partitions without
/// labels.
pub proof fn lemma_format_keeps_invariants(d: DiskView, number: i32, fs: FileSystemType)
    requires
        d.after_format(number, fs) is Ok,
    ensures
        d.non_overlapping() ==> d.after_format(number, fs)->Ok_0.non_overlapping(),
        d.within_msdos_quota() ==> d.after_format(number, fs)->Ok_0.within_msdos_quota(),
        d.within_bounds() ==> d.after_format(number, fs)->Ok_0.within_bounds(),
        d.msdos_unnamed() ==> d.after_format(number, fs)->Ok_0.msdos_unnamed(),
{
    let after = d.after_format(number, fs)->Ok_0;
    d.lemma_position(number as int);
    assert forall|k: int| 0 <= k < after.partitions.len() implies (
    #[trigger] after.partitions[k]).name == d.partitions[k].name && after.partitions[k].end_sector
        == d.partitions[k].end_sector by {}
    lemma_filter_len_same(
        d.partitions,
        after.partitions,
        |q: PartitionView| q.part_type == PartitionType::Primary,
    );
    lemma_filter_len_same(
        d.partitions,
        after.partitions,
        |q: PartitionView| q.part_type == PartitionType::Logical,
    );
    if d.non_overlapping() {
        assert forall|a: int, b: int|
            0 <= a < b < after.partitions.len() && !(#[trigger] after.partitions[a]).remove && !(
            #[trigger] after.partitions[b]).remove implies !after.partitions[a].overlaps(
            after.partitions[b].start_sector as int,
            after.partitions[b].end_sector as int,
        ) by {
            assert(after.partitions[a].remove == d.partitions[a].remove);
            assert(after.partitions[b].remove == d.partitions[b].remove);
        }
    }
}

} // verus!
