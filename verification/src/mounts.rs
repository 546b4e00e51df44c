//! Letting go of the partitions of a disk: what to unmount, and in what order.

use vstd::prelude::*;
use crate::disk::{Disk, DiskView};
use crate::partitions::PartitionView;
use crate::search::{
    first_below, is_first, lemma_filter_len_update, lemma_first_below, lemma_first_below_is,
};

verus! {

/// One thing to do to a running system to let go of a partition.
#[derive(Clone, Debug, PartialEq, Eq)]
pub enum UnmountStep {
    /// Unmount what is mounted at `mount_point`: the partition at `index`.
    Unmount { index: usize, mount_point: String },
    /// Stop swapping to the device `device_path`: the partition at `index`.
    Swapoff { index: usize, device_path: String },
}

impl DiskView {
    /// Whether the running system holds the partition at `i`: it is mounted or
    /// swapped to.
    pub open spec fn held(self, i: int) -> bool {
        self.partitions[i].mount_point is Some || self.partitions[i].swapped
    }

    /// The index of the first partition that the running system holds.
    pub open spec fn first_held(self) -> Option<int> {
        first_below(self.partitions.len() as int, |i: int| self.held(i))
    }

    /// How many steps it takes to let go of every partition: one for each that
    /// is mounted, one for each that is swapped to.
    pub open spec fn holds(self) -> nat {
        self.partitions.filter(|p: PartitionView| p.mount_point is Some).len()
            + self.partitions.filter(|p: PartitionView| p.swapped).len()
    }

    /// The disk after the partition at `i` was unmounted.
    pub open spec fn unmounted(self, i: int) -> DiskView {
        self.with_partition(i, PartitionView { mount_point: None, ..self.partitions[i] })
    }

    /// The disk after swapping to the partition at `i` was stopped.
    pub open spec fn unswapped(self, i: int) -> DiskView {
        self.with_partition(i, PartitionView { swapped: false, ..self.partitions[i] })
    }

    /// The disk after `step` was done; a step for a partition that the disk
    /// does not have changes nothing.
    pub open spec fn after_unmount(self, step: UnmountStep) -> DiskView {
        match step {
            UnmountStep::Unmount { index, .. } => if index < self.partitions.len() {
                self.unmounted(index as int)
            } else {
                self
            },
            UnmountStep::Swapoff { index, .. } => if index < self.partitions.len() {
                self.unswapped(index as int)
            } else {
                self
            },
        }
    }

    /// Whether `step` is what is to be done next to let go of the disk: it is
    /// for the first partition that is held, to unmount it where it is
    /// mounted, else to stop swapping to it.
    pub open spec fn is_next_unmount(self, step: UnmountStep) -> bool {
        match step {
            UnmountStep::Unmount { index, mount_point } => self.first_held() == Some(index as int)
                && self.partitions[index as int].mount_point == Some(mount_point@),
            UnmountStep::Swapoff { index, device_path } => self.first_held() == Some(index as int)
                && self.partitions[index as int].mount_point is None && device_path@
                == self.partitions[index as int].device_path,
        }
    }
}

impl Disk {
    /// What is to be done next to let go of the disk, or nothing where no
    /// partition is mounted or swapped to. The partitions are let go in their
    /// order, each unmounted first and then no longer swapped to.
    pub fn next_unmount(&self) -> (r: Option<UnmountStep>)
        ensures
            match r {
                Some(step) => self@.is_next_unmount(step),
                None => self@.first_held() is None,
            },
    {
        let ghost found = |i: int| self@.held(i);
        let mut i: usize = 0;
        while i < self.partitions.len()
            invariant
                i <= self.partitions.len(),
                found == (|i: int| self@.held(i)),
                forall|j: int| 0 <= j < i ==> !#[trigger] found(j),
            decreases self.partitions.len() - i,
        {
            let part = &self.partitions[i];
            match &part.mount_point {
                Some(mount_point) => {
                    proof {
                        assert(is_first(self@.partitions.len() as int, found, i as int));
                        lemma_first_below_is(self@.partitions.len() as int, found, i as int);
                    }
                    return Some(UnmountStep::Unmount { index: i, mount_point: mount_point.clone() });
                },
                None => {
                    if part.swapped {
                        proof {
                            assert(is_first(self@.partitions.len() as int, found, i as int));
                            lemma_first_below_is(self@.partitions.len() as int, found, i as int);
                        }
                        return Some(
                            UnmountStep::Swapoff { index: i, device_path: part.device_path.clone() },
                        );
                    }
                },
            }
            i += 1;
        }
        proof {
            lemma_first_below(self@.partitions.len() as int, found);
        }
        None
    }

    /// Records that `step` was done.
    pub fn finish_unmount(&mut self, step: &UnmountStep)
        ensures
            final(self)@ == old(self)@.after_unmount(*step),
    {
        match step {
            UnmountStep::Unmount { index, .. } => {
                if *index < self.partitions.len() {
                    self.partitions[*index].mount_point = None;
                    assert(self@ =~= old(self)@.unmounted(*index as int));
                }
            },
            UnmountStep::Swapoff { index, .. } => {
                if *index < self.partitions.len() {
                    self.partitions[*index].swapped = false;
                    assert(self@ =~= old(self)@.unswapped(*index as int));
                }
            },
        }
    }
}

/// Doing the step that is next leaves one step less to do, so that a disk is
/// let go of after `holds()` steps.
pub proof fn lemma_unmount_progress(d: DiskView, step: UnmountStep)
    requires
        d.is_next_unmount(step),
    ensures
        d.after_unmount(step).holds() + 1 == d.holds(),
{
    lemma_first_below(d.partitions.len() as int, |i: int| d.held(i));
    let mounted = |p: PartitionView| p.mount_point is Some;
    let swapped = |p: PartitionView| p.swapped;
    match step {
        UnmountStep::Unmount { index, .. } => {
            let p = PartitionView { mount_point: None, ..d.partitions[index as int] };
            lemma_filter_len_update(d.partitions, index as int, p, mounted);
            lemma_filter_len_update(d.partitions, index as int, p, swapped);
        },
        UnmountStep::Swapoff { index, .. } => {
            let p = PartitionView { swapped: false, ..d.partitions[index as int] };
            lemma_filter_len_update(d.partitions, index as int, p, mounted);
            lemma_filter_len_update(d.partitions, index as int, p, swapped);
        },
    }
}

/// A disk with no step left holds no partition that is mounted or swapped to.
pub proof fn lemma_unmount_done(d: DiskView)
    requires
        d.first_held() is None,
    ensures
        forall|i: int|
            0 <= i < d.partitions.len() ==> (#[trigger] d.partitions[i]).mount_point is None
                && !d.partitions[i].swapped,
{
    let held = |i: int| d.held(i);
    lemma_first_below(d.partitions.len() as int, held);
    assert forall|i: int| 0 <= i < d.partitions.len() implies (
    #[trigger] d.partitions[i]).mount_point is None && !d.partitions[i].swapped by {
        assert(!held(i));
    }
}

} // verus!
