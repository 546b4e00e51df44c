//! What holds of layouts, edits and commits, whatever the disk.

use vstd::prelude::*;
use crate::commit::{
    lemma_no_relabel_without_kind, lemma_removals_are_listed, relabel_steps, CommitStep,
};
use crate::probe::{lemma_probed_partitions_are_sources, DeviceProbe};
use crate::disk::DiskView;
use crate::partitions::{FileSystemType, PartitionView};

verus! {

/// On a disk whose partitions are apart, no sector lies in two partitions
/// that are to stay.
pub proof fn lemma_partitions_share_no_sector(d: DiskView, i: int, j: int, sector: int)
    requires
        d.non_overlapping(),
        0 <= i < d.partitions.len(),
        0 <= j < d.partitions.len(),
        i != j,
        !d.partitions[i].remove,
        !d.partitions[j].remove,
    ensures
        !(d.partitions[i].holds_sector(sector) && d.partitions[j].holds_sector(sector)),
{
    if i < j {
        assert(!d.partitions[i].overlaps(
            d.partitions[j].start_sector as int,
            d.partitions[j].end_sector as int,
        ));
    } else {
        assert(!d.partitions[j].overlaps(
            d.partitions[i].start_sector as int,
            d.partitions[i].end_sector as int,
        ));
    }
}

/// A layout holds the partitions of the disk that it is a copy of.
pub proof fn lemma_layout_kept_by_copy(source: DiskView)
    ensures
        source.keeps_layout(source),
{
}

/// A layout holds the partitions of a disk where it is that disk with more
/// partitions behind those that it had.
pub proof fn lemma_layout_kept_with_more(source: DiskView, new: DiskView, more: Seq<PartitionView>)
    requires
        new.partitions == source.partitions + more,
    ensures
        source.keeps_layout(new),
{
    assert forall|i: int| 0 <= i < source.partitions.len() implies (
    #[trigger] source.partitions[i]).is_same_partition_as(new.partitions[i]) by {
        assert(new.partitions[i] == source.partitions[i]);
    }
}

/// A layout that asks for no fresh table, and lacks a partition of the disk,
/// does not hold the partitions of that disk.
pub proof fn lemma_layout_lost_without(source: DiskView, new: DiskView, i: int)
    requires
        !new.mklabel,
        0 <= i < source.partitions.len(),
        forall|j: int|
            0 <= j < new.partitions.len() ==> !source.partitions[i].is_same_partition_as(
                #[trigger] new.partitions[j],
            ),
    ensures
        !source.keeps_layout(new),
{
    if source.keeps_layout(new) {
        assert(source.partitions[i].is_same_partition_as(new.partitions[i]));
    }
}

impl DiskView {
    /// Whether the first `n` partitions are those that were on the device, and
    /// the others are new.
    pub open spec fn sources_first(self, n: int) -> bool {
        &&& 0 <= n <= self.partitions.len()
        &&& forall|i: int|
            0 <= i < self.partitions.len() ==> ((#[trigger] self.partitions[i]).is_source <==> i
                < n)
    }
}

/// A new partition goes behind those that were on the device, and leaves the
/// layout one that the device can be given.
pub proof fn lemma_add_keeps_sources(source: DiskView, d: DiskView, p: PartitionView, n: int)
    requires
        d.sources_first(n),
        !p.is_source,
    ensures
        d.with_new_partition(p).sources_first(n),
        source.keeps_layout(d) ==> source.keeps_layout(d.with_new_partition(p)),
{
    let after = d.with_new_partition(p);
    assert forall|i: int| 0 <= i < after.partitions.len() implies ((
    #[trigger] after.partitions[i]).is_source <==> i < n) by {
        if i < d.partitions.len() {
            assert(after.partitions[i] == d.partitions[i]);
        }
    }
    if source.keeps_layout(d) && !d.mklabel {
        assert forall|i: int| 0 <= i < source.partitions.len() implies (
        #[trigger] source.partitions[i]).is_same_partition_as(after.partitions[i]) by {
            assert(after.partitions[i] == d.partitions[i]);
        }
    }
}

/// A partition that was on the device is never dropped from the list: a
/// removal marks it, and drops only a partition that is new. So the layout
/// stays one that the device can be given.
pub proof fn lemma_remove_keeps_sources(source: DiskView, d: DiskView, number: i32, n: int)
    requires
        d.sources_first(n),
        d.after_remove(number) is Ok,
    ensures
        d.after_remove(number)->Ok_0.sources_first(n),
        forall|i: int|
            0 <= i < n ==> (#[trigger] d.after_remove(number)->Ok_0.partitions[i]).number
                == d.partitions[i].number && d.after_remove(number)->Ok_0.partitions[i].start_sector
                == d.partitions[i].start_sector,
        source.partitions.len() == n && source.keeps_layout(d) ==> source.keeps_layout(
            d.after_remove(number)->Ok_0,
        ),
{
    let after = d.after_remove(number)->Ok_0;
    d.lemma_position(number as int);
    let at = d.position(number as int)->Some_0;
    if d.partitions[at].is_source {
        assert forall|i: int| 0 <= i < after.partitions.len() implies ((
        #[trigger] after.partitions[i]).is_source <==> i < n) by {
            assert(after.partitions[i].is_source == d.partitions[i].is_source);
        }
    } else {
        d.partitions.remove_ensures(at);
        assert(at >= n);
        assert forall|i: int| 0 <= i < after.partitions.len() implies ((
        #[trigger] after.partitions[i]).is_source <==> i < n) by {
            if i < at {
                assert(after.partitions[i] == d.partitions[i]);
            } else {
                assert(after.partitions[i] == d.partitions[i + 1]);
            }
        }
        assert forall|i: int| 0 <= i < n implies #[trigger] after.partitions[i]
            == d.partitions[i] by {}
    }
    if source.partitions.len() == n && source.keeps_layout(d) && !d.mklabel {
        assert forall|i: int| 0 <= i < source.partitions.len() implies (
        #[trigger] source.partitions[i]).is_same_partition_as(after.partitions[i]) by {
            assert(source.partitions[i].is_same_partition_as(d.partitions[i]));
            assert(after.partitions[i].number == d.partitions[i].number);
        }
    }
}

/// Resizing a partition, or asking for it to be formatted, leaves the layout
/// one that the device can be given, with the partitions that were on the
/// device first.
pub proof fn lemma_resize_and_format_keep_sources(
    source: DiskView,
    d: DiskView,
    number: i32,
    length: int,
    fs: FileSystemType,
    n: int,
)
    requires
        d.sources_first(n),
    ensures
        d.after_resize(number, length) matches Ok(after) ==> after.sources_first(n) && (
        source.keeps_layout(d) ==> source.keeps_layout(after)),
        d.after_format(number, fs) matches Ok(after) ==> after.sources_first(n) && (
        source.keeps_layout(d) ==> source.keeps_layout(after)),
{
    d.lemma_position(number as int);
    if let Ok(after) = d.after_resize(number, length) {
        assert forall|i: int| 0 <= i < after.partitions.len() implies ((
        #[trigger] after.partitions[i]).is_source <==> i < n) by {
            assert(after.partitions[i].is_source == d.partitions[i].is_source);
        }
        if source.keeps_layout(d) && !d.mklabel {
            assert forall|i: int| 0 <= i < source.partitions.len() implies (
            #[trigger] source.partitions[i]).is_same_partition_as(after.partitions[i]) by {
                assert(source.partitions[i].is_same_partition_as(d.partitions[i]));
                assert(after.partitions[i].number == d.partitions[i].number);
                assert(after.partitions[i].start_sector == d.partitions[i].start_sector);
            }
        }
    }
    if let Ok(after) = d.after_format(number, fs) {
        assert forall|i: int| 0 <= i < after.partitions.len() implies ((
        #[trigger] after.partitions[i]).is_source <==> i < n) by {
            assert(after.partitions[i].is_source == d.partitions[i].is_source);
        }
        if source.keeps_layout(d) && !d.mklabel {
            assert forall|i: int| 0 <= i < source.partitions.len() implies (
            #[trigger] source.partitions[i]).is_same_partition_as(after.partitions[i]) by {
                assert(source.partitions[i].is_same_partition_as(d.partitions[i]));
                assert(after.partitions[i].number == d.partitions[i].number);
                assert(after.partitions[i].start_sector == d.partitions[i].start_sector);
            }
        }
    }
}

/// Nothing has to be done to a device to give it the layout that it has:
/// where no partition is marked for removal, the operations for a copy of
/// the disk are empty.
pub proof fn lemma_diff_of_copy_is_empty(source: DiskView)
    requires
        !source.mklabel,
        forall|i: int| 0 <= i < source.partitions.len() ==> !(#[trigger] source.partitions[i]).remove,
    ensures
        source.diff(source).mklabel is None,
        source.diff(source).remove_partitions.len() == 0,
        source.diff(source).change_partitions.len() == 0,
        source.diff(source).create_partitions.len() == 0,
{
    let pairs = source.paired(source);
    let removed = |pair: (PartitionView, PartitionView)| pair.1.remove;
    let changed = |pair: (PartitionView, PartitionView)|
        !pair.1.remove && pair.0.requires_changes(pair.1);
    assert forall|i: int| 0 <= i < pairs.len() implies !removed(#[trigger] pairs[i]) by {
        assert(!source.partitions[i].remove);
    }
    assert forall|i: int| 0 <= i < pairs.len() implies !changed(#[trigger] pairs[i]) by {
        assert(pairs[i].0 == pairs[i].1);
    }
    pairs.lemma_all_neg_filter_empty(removed);
    pairs.lemma_all_neg_filter_empty(changed);
}

/// A fresh table is planned exactly where the layout asks for one, and then
/// it is the first thing done to the device.
pub proof fn lemma_relabel_is_planned(source: DiskView, new: DiskView)
    requires
        source.diff_error(new) is None,
    ensures
        source.diff(new).mklabel is Some <==> new.mklabel,
        new.mklabel ==> source.diff(new).steps()[0] == CommitStep::Relabel(
            source.relabel_kind(new)->Some_0,
        ),
        !new.mklabel ==> forall|k: int|
            0 <= k < source.diff(new).steps().len() ==> !(
            #[trigger] source.diff(new).steps()[k] is Relabel),
{
    let ops = source.diff(new);
    if new.mklabel {
        assert(relabel_steps(ops.mklabel)[0] == CommitStep::Relabel(ops.mklabel->Some_0));
        assert(ops.steps()[0] == relabel_steps(ops.mklabel)[0]);
    } else {
        assert forall|k: int| 0 <= k < ops.steps().len() implies !(
        #[trigger] ops.steps()[k] is Relabel) by {
            lemma_no_relabel_without_kind(ops, k);
        }
    }
}

/// A disk that was reloaded from a probe holds the partitions of the device
/// as they are: each was on the device, and none is marked for removal or for
/// formatting any more.
pub proof fn lemma_reloaded_disk_is_clean(probe: DeviceProbe, reloaded: DiskView)
    requires
        probe.disk().same_but_targets(reloaded),
    ensures
        reloaded.partitions.len() == probe.disk().partitions.len(),
        !reloaded.mklabel,
        forall|i: int|
            0 <= i < reloaded.partitions.len() ==> {
                let p = #[trigger] reloaded.partitions[i];
                p.is_source && !p.remove && !p.format && p.number
                    == probe.disk().partitions[i].number
            },
{
    lemma_probed_partitions_are_sources(probe);
    assert forall|i: int| 0 <= i < reloaded.partitions.len() implies {
        let p = #[trigger] reloaded.partitions[i];
        p.is_source && !p.remove && !p.format && p.number == probe.disk().partitions[i].number
    } by {
        let q = probe.disk().partitions[i];
        assert(q.is_source && !q.remove && !q.format);
    }
}

/// Where the partitions of the disk have numbers of their own, the number of
/// one that the layout keeps is not among those to delete.
pub proof fn lemma_kept_partition_is_not_removed(source: DiskView, new: DiskView, i: int)
    requires
        source.keeps_layout(new),
        0 <= i < source.partitions.len(),
        new.mklabel || !new.partitions[i].remove,
        forall|a: int, b: int|
            0 <= a < b < source.partitions.len() ==> (#[trigger] source.partitions[a]).number != (
            #[trigger] source.partitions[b]).number,
    ensures
        !source.diff(new).remove_partitions.contains(source.partitions[i].number),
{
    if !new.mklabel {
        let pairs = source.paired(new);
        let removed = |pair: (PartitionView, PartitionView)| pair.1.remove;
        let number = |pair: (PartitionView, PartitionView)| pair.1.number;
        let marked = pairs.filter(removed);
        let numbers = source.diff(new).remove_partitions;
        assert(numbers == marked.map_values(number));
        if numbers.contains(source.partitions[i].number) {
            let k = choose|k: int| 0 <= k < numbers.len() && numbers[k] == source.partitions[i].number;
            assert(numbers[k] == number(marked[k]));
            assert(marked.contains(marked[k]));
            pairs.lemma_filter_contains_rev(removed, marked[k]);
            let a = choose|a: int| 0 <= a < pairs.len() && pairs[a] == marked[k];
            pairs.lemma_filter_pred(removed, k);
            assert(removed(marked[k]));
            assert(source.partitions[a].is_same_partition_as(new.partitions[a]));
            assert(source.partitions[i].is_same_partition_as(new.partitions[i]));
            if a < i {
                assert(source.partitions[a].number != source.partitions[i].number);
            } else if i < a {
                assert(source.partitions[i].number != source.partitions[a].number);
            }
        }
    }
}

/// A commit never deletes a partition that the layout keeps: where the
/// partitions of the device have numbers of their own, and the layout asks
/// for no fresh table, no step removes a partition that is not marked.
pub proof fn lemma_commit_keeps_unmarked_partitions(
    source: DiskView,
    new: DiskView,
    i: int,
    k: int,
)
    requires
        source.keeps_layout(new),
        !new.mklabel,
        0 <= i < source.partitions.len(),
        !new.partitions[i].remove,
        forall|a: int, b: int|
            0 <= a < b < source.partitions.len() ==> (#[trigger] source.partitions[a]).number != (
            #[trigger] source.partitions[b]).number,
        forall|a: int|
            0 <= a < source.partitions.len() ==> i32::MIN <= (
            #[trigger] source.partitions[a]).number <= i32::MAX,
        0 <= k < source.diff(new).steps().len(),
    ensures
        source.diff(new).steps()[k] != CommitStep::Remove(source.partitions[i].number as i32),
{
    let ops = source.diff(new);
    if ops.steps()[k] == CommitStep::Remove(source.partitions[i].number as i32) {
        lemma_removals_are_listed(ops, k);
        let j = choose|j: int|
            0 <= j < ops.remove_partitions.len() && ops.steps()[k] == CommitStep::Remove(
                #[trigger] ops.remove_partitions[j] as i32,
            );
        let number = ops.remove_partitions[j];
        let pairs = source.paired(new);
        let removed = |pair: (PartitionView, PartitionView)| pair.1.remove;
        let marked = pairs.filter(removed);
        assert(number == marked[j].1.number);
        assert(marked.contains(marked[j]));
        pairs.lemma_filter_contains_rev(removed, marked[j]);
        let a = choose|a: int| 0 <= a < pairs.len() && pairs[a] == marked[j];
        assert(source.partitions[a].is_same_partition_as(new.partitions[a]));
        assert(i32::MIN <= source.partitions[a].number <= i32::MAX);
        assert(number == source.partitions[i].number);
        lemma_kept_partition_is_not_removed(source, new, i);
        assert(ops.remove_partitions.contains(number));
    }
}

} // verus!
