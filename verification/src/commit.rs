//! The steps of a commit, in the order in which they are run.

use vstd::prelude::*;
use crate::disk::{Disk, PartitionTable};
use crate::error::DiskError;
use crate::operations::{
    DiskOps, DiskOpsView, PartitionChange, PartitionChangeView, PartitionCreate,
    PartitionCreateView,
};
use crate::partitions::{FileSystemType, PartitionFlag};
use crate::search::lemma_map_push;

verus! {

/// One thing to do to a device while a layout is committed to it.
///
/// The steps between two `Sync`s make a phase: they act on the partition table
/// that was opened when the phase began, `Commit` writes that table to the
/// device, and `Sync` makes the kernel read it again.
#[derive(Clone, Copy, Debug, PartialEq, Eq, Structural)]
pub enum CommitStep {
    /// Begin with a fresh, empty partition table of this kind.
    Relabel(PartitionTable),
    /// Delete the partition with this number.
    Remove(i32),
    /// Give the partition with number `num` the end points `[start, end]`.
    Resize { num: i32, start: u64, end: u64 },
    /// Set a flag on the partition with number `num`.
    SetFlag { num: i32, flag: PartitionFlag },
    /// Format the partition with number `num`.
    Format { num: i32, fs: FileSystemType },
    /// Make the partition that stands at `index` among the partitions to create.
    Create { index: usize },
    /// Format the partition that was made for `index`.
    FormatNew { index: usize, fs: FileSystemType },
    /// Write the partition table to the device.
    Commit,
    /// Make the kernel read the partition table again.
    Sync,
}

/// The two steps that end a phase.
pub open spec fn phase_end() -> Seq<CommitStep> {
    seq![CommitStep::Commit, CommitStep::Sync]
}

/// The phase that writes a fresh table, where one is wanted.
pub open spec fn relabel_steps(mklabel: Option<PartitionTable>) -> Seq<CommitStep> {
    match mklabel {
        Some(kind) => seq![CommitStep::Relabel(kind)] + phase_end(),
        None => Seq::empty(),
    }
}

/// The phase that deletes the partitions with these numbers.
pub open spec fn remove_steps(numbers: Seq<int>) -> Seq<CommitStep> {
    numbers.map_values(|n: int| CommitStep::Remove(n as i32)) + phase_end()
}

/// The steps for one partition that stays: its end points, each of its new
/// flags, and the formatting where it is asked for.
pub open spec fn change_steps(c: PartitionChangeView) -> Seq<CommitStep> {
    seq![CommitStep::Resize { num: c.num as i32, start: c.start as u64, end: c.end as u64 }]
        + c.flags.map_values(|flag: PartitionFlag| CommitStep::SetFlag { num: c.num as i32, flag })
        + match c.format {
        Some(fs) => seq![CommitStep::Format { num: c.num as i32, fs }],
        None => Seq::empty(),
    }
}

/// The phase that changes the partitions that stay.
pub open spec fn changes_steps(changes: Seq<PartitionChangeView>) -> Seq<CommitStep> {
    changes.map_values(|c: PartitionChangeView| change_steps(c)).flatten() + phase_end()
}

/// The phase that makes the new partitions, then formats each of them.
pub open spec fn create_steps(creates: Seq<PartitionCreateView>) -> Seq<CommitStep> {
    Seq::new(creates.len(), |i: int| CommitStep::Create { index: i as usize }) + Seq::new(
        creates.len(),
        |i: int| CommitStep::FormatNew { index: i as usize, fs: creates[i].file_system },
    ) + phase_end()
}

impl DiskOpsView {
    /// The steps that carry the operations out, in their order: the fresh
    /// table, the removals, the changes, the new partitions.
    pub open spec fn steps(self) -> Seq<CommitStep> {
        relabel_steps(self.mklabel) + remove_steps(self.remove_partitions) + changes_steps(
            self.change_partitions,
        ) + create_steps(self.create_partitions)
    }
}

/// Appends the two steps that end a phase.
fn push_phase_end(steps: &mut Vec<CommitStep>)
    ensures
        final(steps)@ == old(steps)@ + phase_end(),
{
    steps.push(CommitStep::Commit);
    steps.push(CommitStep::Sync);
    assert(steps@ =~= old(steps)@ + phase_end());
}

/// Appends the phase that deletes the partitions with these numbers.
fn push_remove_steps(steps: &mut Vec<CommitStep>, numbers: &Vec<i32>)
    ensures
        final(steps)@ == old(steps)@ + remove_steps(numbers@.map_values(|n: i32| n as int)),
{
    let ghost wanted = numbers@.map_values(|n: i32| n as int).map_values(
        |n: int| CommitStep::Remove(n as i32),
    );
    let mut i: usize = 0;
    while i < numbers.len()
        invariant
            i <= numbers.len(),
            wanted == numbers@.map_values(|n: i32| n as int).map_values(
                |n: int| CommitStep::Remove(n as i32),
            ),
            steps@ == old(steps)@ + wanted.take(i as int),
        decreases numbers.len() - i,
    {
        steps.push(CommitStep::Remove(numbers[i]));
        assert(steps@ =~= old(steps)@ + wanted.take(i + 1));
        i += 1;
    }
    assert(wanted.take(i as int) =~= wanted);
    push_phase_end(steps);
    assert(steps@ =~= old(steps)@ + remove_steps(numbers@.map_values(|n: i32| n as int)));
}

/// Appends the steps for one partition that stays.
fn push_change_steps(steps: &mut Vec<CommitStep>, change: &PartitionChange)
    ensures
        final(steps)@ == old(steps)@ + change_steps(change@),
{
    let num = change.num;
    steps.push(CommitStep::Resize { num, start: change.start, end: change.end });
    let ghost flagged = change@.flags.map_values(
        |flag: PartitionFlag| CommitStep::SetFlag { num: change@.num as i32, flag },
    );
    let ghost first = seq![
        CommitStep::Resize {
            num: change@.num as i32,
            start: change@.start as u64,
            end: change@.end as u64,
        },
    ];
    assert(steps@ =~= old(steps)@ + first);
    let mut i: usize = 0;
    while i < change.flags.len()
        invariant
            i <= change.flags.len(),
            num == change.num,
            flagged == change@.flags.map_values(
                |flag: PartitionFlag| CommitStep::SetFlag { num: change@.num as i32, flag },
            ),
            steps@ == old(steps)@ + first + flagged.take(i as int),
        decreases change.flags.len() - i,
    {
        steps.push(CommitStep::SetFlag { num, flag: change.flags[i] });
        assert(steps@ =~= old(steps)@ + first + flagged.take(i + 1));
        i += 1;
    }
    assert(flagged.take(i as int) =~= flagged);
    match change.format {
        Some(fs) => {
            steps.push(CommitStep::Format { num, fs });
        },
        None => {},
    }
    assert(steps@ =~= old(steps)@ + change_steps(change@));
}

/// Appends the phase that changes the partitions that stay.
fn push_changes_steps(steps: &mut Vec<CommitStep>, changes: &Vec<PartitionChange>)
    ensures
        final(steps)@ == old(steps)@ + changes_steps(
            changes@.map_values(|c: PartitionChange| c@),
        ),
{
    let ghost views = changes@.map_values(|c: PartitionChange| c@);
    let ghost each = |c: PartitionChangeView| change_steps(c);
    let mut i: usize = 0;
    assert(views.take(0).map_values(each) =~= Seq::<Seq<CommitStep>>::empty());
    while i < changes.len()
        invariant
            i <= changes.len(),
            views == changes@.map_values(|c: PartitionChange| c@),
            each == (|c: PartitionChangeView| change_steps(c)),
            steps@ == old(steps)@ + views.take(i as int).map_values(each).flatten(),
        decreases changes.len() - i,
    {
        proof {
            let seen = views.take(i as int);
            assert(views.take(i + 1) =~= seen.push(views[i as int]));
            lemma_map_push(seen, views[i as int], each);
            Seq::lemma_flatten_push(seen.map_values(each), change_steps(views[i as int]));
        }
        push_change_steps(steps, &changes[i]);
        assert(steps@ =~= old(steps)@ + views.take(i + 1).map_values(each).flatten());
        i += 1;
    }
    assert(views.take(i as int) =~= views);
    push_phase_end(steps);
    assert(steps@ =~= old(steps)@ + changes_steps(changes@.map_values(|c: PartitionChange| c@)));
}

/// Appends the phase that makes the new partitions.
fn push_create_steps(steps: &mut Vec<CommitStep>, creates: &Vec<PartitionCreate>)
    ensures
        final(steps)@ == old(steps)@ + create_steps(
            creates@.map_values(|c: PartitionCreate| c@),
        ),
{
    let ghost views = creates@.map_values(|c: PartitionCreate| c@);
    let ghost made = Seq::new(views.len(), |i: int| CommitStep::Create { index: i as usize });
    let ghost formatted = Seq::new(
        views.len(),
        |i: int| CommitStep::FormatNew { index: i as usize, fs: views[i].file_system },
    );
    let mut i: usize = 0;
    while i < creates.len()
        invariant
            i <= creates.len(),
            made == Seq::new(
                creates@.len(),
                |i: int| CommitStep::Create { index: i as usize },
            ),
            steps@ == old(steps)@ + made.take(i as int),
        decreases creates.len() - i,
    {
        steps.push(CommitStep::Create { index: i });
        assert(steps@ =~= old(steps)@ + made.take(i + 1));
        i += 1;
    }
    assert(made.take(i as int) =~= made);
    let mut j: usize = 0;
    while j < creates.len()
        invariant
            j <= creates.len(),
            views == creates@.map_values(|c: PartitionCreate| c@),
            formatted == Seq::new(
                views.len(),
                |i: int| CommitStep::FormatNew { index: i as usize, fs: views[i].file_system },
            ),
            steps@ == old(steps)@ + made + formatted.take(j as int),
        decreases creates.len() - j,
    {
        steps.push(CommitStep::FormatNew { index: j, fs: creates[j].file_system });
        assert(steps@ =~= old(steps)@ + made + formatted.take(j + 1));
        j += 1;
    }
    assert(formatted.take(j as int) =~= formatted);
    push_phase_end(steps);
    assert(steps@ =~= old(steps)@ + create_steps(creates@.map_values(|c: PartitionCreate| c@)));
}

impl DiskOps {
    /// The steps that carry the operations out, in the order in which they are
    /// to be run: a fresh table where one is wanted, then the removals, the
    /// changes and the new partitions, each phase ended by `Commit` and `Sync`.
    pub fn steps(&self) -> (r: Vec<CommitStep>)
        ensures
            r@ == self@.steps(),
    {
        let mut steps: Vec<CommitStep> = Vec::new();
        match self.mklabel {
            Some(kind) => {
                steps.push(CommitStep::Relabel(kind));
                push_phase_end(&mut steps);
            },
            None => {},
        }
        assert(steps@ =~= relabel_steps(self@.mklabel));
        push_remove_steps(&mut steps, &self.remove_partitions);
        push_changes_steps(&mut steps, &self.change_partitions);
        push_create_steps(&mut steps, &self.create_partitions);
        steps
    }
}

impl CommitStep {
    /// The phase of a commit that the step belongs to: 0 for the fresh table, 1
    /// for a removal, 2 for a change, 3 for a new partition; 4 for the two steps
    /// that end every phase.
    pub open spec fn rank(self) -> int {
        match self {
            CommitStep::Relabel(_) => 0,
            CommitStep::Remove(_) => 1,
            CommitStep::Resize { .. } | CommitStep::SetFlag { .. } | CommitStep::Format { .. } => 2,
            CommitStep::Create { .. } | CommitStep::FormatNew { .. } => 3,
            CommitStep::Commit | CommitStep::Sync => 4,
        }
    }

    /// Whether the step is one of the two that end a phase.
    pub open spec fn ends_phase(self) -> bool {
        self is Commit || self is Sync
    }

    /// The error to report where the device refused the step for the reason `why`.
    pub fn failure(&self, why: String) -> (r: DiskError)
        ensures
            r == match *self {
                CommitStep::Relabel(_) => DiskError::DiskFresh { why },
                CommitStep::Remove(partition) => DiskError::PartitionRemove { partition, why },
                CommitStep::Resize { .. } | CommitStep::SetFlag { .. } => DiskError::PartitionResize,
                CommitStep::Format { .. } | CommitStep::FormatNew { .. } => DiskError::PartitionFormat {
                    why,
                },
                CommitStep::Create { .. } => DiskError::PartitionCreate { why },
                CommitStep::Commit => DiskError::DiskCommit { why },
                CommitStep::Sync => DiskError::DiskSync { why },
            },
    {
        match *self {
            CommitStep::Relabel(_) => DiskError::DiskFresh { why },
            CommitStep::Remove(partition) => DiskError::PartitionRemove { partition, why },
            CommitStep::Resize { .. } | CommitStep::SetFlag { .. } => DiskError::PartitionResize,
            CommitStep::Format { .. } | CommitStep::FormatNew { .. } => DiskError::PartitionFormat {
                why,
            },
            CommitStep::Create { .. } => DiskError::PartitionCreate { why },
            CommitStep::Commit => DiskError::DiskCommit { why },
            CommitStep::Sync => DiskError::DiskSync { why },
        }
    }
}

impl Disk {
    /// Plans how this layout is committed to its device, of which `source` is
    /// the probe: the operations that `source.diff(self)` gives.
    ///
    /// `InvalidSerial` where `source` is the probe of another device;
    /// otherwise `LayoutChanged` or `PartitionTableNotFound` where
    /// `source.diff(self)` gives them. The steps to run are `steps()` of the
    /// result. Where there is a plan, the partitions to make have file systems.
    pub fn commit(&self, source: &Disk) -> (r: Result<DiskOps, DiskError>)
        requires
            source@.serial == self@.serial && source@.keeps_layout(self@)
                ==> self@.has_filesystems_from(source@.first_new(self@)),
        ensures
            if source@.serial != self@.serial {
                r == Err::<DiskOps, DiskError>(DiskError::InvalidSerial)
            } else {
                match source@.diff_error(self@) {
                    Some(e) => r == Err::<DiskOps, DiskError>(e),
                    None => r matches Ok(ops) && ops@ == source@.diff(self@),
                }
            },
            r matches Ok(ops) ==> (ops@.mklabel is Some <==> self@.mklabel),
    {
        if source.serial != self.serial {
            return Err(DiskError::InvalidSerial);
        }
        source.diff(self)
    }
}

/// Whether the step at `i` is an operation: a step, and none that ends a phase.
pub open spec fn op_at(s: Seq<CommitStep>, i: int) -> bool {
    0 <= i < s.len() && !s[i].ends_phase()
}

/// Whether a `Commit` stands at `k`, with a `Sync` behind it.
pub open spec fn synced_at(s: Seq<CommitStep>, k: int) -> bool {
    0 <= k && k + 1 < s.len() && s[k] == CommitStep::Commit && s[k + 1] == CommitStep::Sync
}

/// The operations among the steps are of the phases `lo` to `hi`.
pub open spec fn within_phases(s: Seq<CommitStep>, lo: int, hi: int) -> bool {
    forall|k: int| #[trigger] op_at(s, k) ==> lo <= s[k].rank() <= hi
}

/// The operations among the steps stand in the order of their phases.
pub open spec fn in_phase_order(s: Seq<CommitStep>) -> bool {
    forall|i: int, j: int|
        #[trigger] op_at(s, i) && #[trigger] op_at(s, j) && i < j ==> s[i].rank() <= s[j].rank()
}

/// Between two operations of different phases stands a `Commit` with its `Sync`.
pub open spec fn phases_are_synced(s: Seq<CommitStep>) -> bool {
    forall|i: int, j: int|
        #[trigger] op_at(s, i) && #[trigger] op_at(s, j) && i < j && s[i].rank() < s[j].rank()
            ==> exists|k: int| i < k < j - 1 && #[trigger] synced_at(s, k)
}

/// Whether the step at `k`, if it is a `Commit`, is followed at once by a
/// `Sync`, and, if it is a `Sync`, follows a `Commit`.
pub open spec fn paired_at(s: Seq<CommitStep>, k: int) -> bool {
    &&& s[k] == CommitStep::Commit ==> k + 1 < s.len() && s[k + 1] == CommitStep::Sync
    &&& s[k] == CommitStep::Sync ==> k > 0 && s[k - 1] == CommitStep::Commit
}

/// Every `Commit` is followed at once by a `Sync`, and every `Sync` follows a `Commit`.
pub open spec fn commits_are_synced(s: Seq<CommitStep>) -> bool {
    forall|k: int| 0 <= k < s.len() ==> #[trigger] paired_at(s, k)
}

/// The last step, if there is one, is a `Sync`.
pub open spec fn ends_synced(s: Seq<CommitStep>) -> bool {
    s.len() > 0 ==> s.last() == CommitStep::Sync
}

/// What holds of the steps of a commit, or of the first phases of one, whose
/// operations are of the phases `lo` to `hi`.
pub open spec fn phased(s: Seq<CommitStep>, lo: int, hi: int) -> bool {
    &&& within_phases(s, lo, hi)
    &&& in_phase_order(s)
    &&& phases_are_synced(s)
    &&& commits_are_synced(s)
    &&& ends_synced(s)
}

/// Operations of one phase, ended by `Commit` and `Sync`, are phased.
proof fn lemma_one_phase(ops: Seq<CommitStep>, rank: int)
    requires
        forall|k: int| 0 <= k < ops.len() ==> (#[trigger] ops[k]).rank() == rank,
        rank < 4,
    ensures
        phased(ops + phase_end(), rank, rank),
{
    let s = ops + phase_end();
    let n = ops.len() as int;
    assert(s[n] == CommitStep::Commit);
    assert(s[n + 1] == CommitStep::Sync);
    assert forall|k: int| #[trigger] op_at(s, k) implies k < n && s[k].rank() == rank by {
        if k < n {
            assert(s[k] == ops[k]);
        }
    }
    assert forall|k: int| 0 <= k < s.len() implies #[trigger] paired_at(s, k) by {
        if k < n {
            assert(s[k] == ops[k]);
            assert(ops[k].rank() == rank);
        }
    }
}

proof fn lemma_join_within(x: Seq<CommitStep>, y: Seq<CommitStep>, lo: int, mid: int, next: int, hi: int)
    requires
        within_phases(x, lo, mid),
        within_phases(y, next, hi),
        lo <= mid < next <= hi,
    ensures
        within_phases(x + y, lo, hi),
{
    let s = x + y;
    let n = x.len() as int;
    assert forall|k: int| #[trigger] op_at(s, k) implies lo <= s[k].rank() <= hi by {
        if k < n {
            assert(op_at(x, k));
        } else {
            assert(op_at(y, k - n));
        }
    }
}

proof fn lemma_join_order(x: Seq<CommitStep>, y: Seq<CommitStep>, lo: int, mid: int, next: int, hi: int)
    requires
        within_phases(x, lo, mid),
        within_phases(y, next, hi),
        in_phase_order(x),
        in_phase_order(y),
        mid < next,
    ensures
        in_phase_order(x + y),
{
    let s = x + y;
    let n = x.len() as int;
    assert forall|i: int, j: int| #[trigger] op_at(s, i) && #[trigger] op_at(s, j) && i
        < j implies s[i].rank() <= s[j].rank() by {
        if j < n {
            assert(op_at(x, i) && op_at(x, j));
        } else if i >= n {
            assert(op_at(y, i - n) && op_at(y, j - n));
        } else {
            assert(op_at(x, i) && op_at(y, j - n));
        }
    }
}

proof fn lemma_join_commits(x: Seq<CommitStep>, y: Seq<CommitStep>)
    requires
        commits_are_synced(x),
        commits_are_synced(y),
        ends_synced(x),
        ends_synced(y),
    ensures
        commits_are_synced(x + y),
        ends_synced(x + y),
{
    let s = x + y;
    let n = x.len() as int;
    assert forall|k: int| 0 <= k < s.len() implies #[trigger] paired_at(s, k) by {
        if k < n {
            assert(paired_at(x, k));
            assert(s[k] == x[k]);
            if x[k] == CommitStep::Commit {
                assert(s[k + 1] == x[k + 1]);
            }
            if x[k] == CommitStep::Sync {
                assert(s[k - 1] == x[k - 1]);
            }
        } else {
            assert(paired_at(y, k - n));
            assert(s[k] == y[k - n]);
            if y[k - n] == CommitStep::Commit {
                assert(s[k + 1] == y[k + 1 - n]);
            }
            if y[k - n] == CommitStep::Sync {
                assert(s[k - 1] == y[k - 1 - n]);
            }
        }
    }
    if s.len() > 0 {
        if y.len() > 0 {
            assert(s.last() == y.last());
        } else {
            assert(s =~= x);
        }
    }
}

proof fn lemma_join_synced(x: Seq<CommitStep>, y: Seq<CommitStep>)
    requires
        phases_are_synced(x),
        phases_are_synced(y),
        commits_are_synced(x),
        ends_synced(x),
    ensures
        phases_are_synced(x + y),
{
    let s = x + y;
    let n = x.len() as int;
    assert forall|i: int, j: int|
        #[trigger] op_at(s, i) && #[trigger] op_at(s, j) && i < j && s[i].rank()
            < s[j].rank() implies exists|k: int| i < k < j - 1 && #[trigger] synced_at(s, k) by {
        if j < n {
            assert(op_at(x, i) && op_at(x, j));
            let k = choose|k: int| i < k < j - 1 && #[trigger] synced_at(x, k);
            assert(s[k] == x[k] && s[k + 1] == x[k + 1]);
            assert(synced_at(s, k));
        } else if i >= n {
            assert(op_at(y, i - n) && op_at(y, j - n));
            let k = choose|k: int| i - n < k < j - n - 1 && #[trigger] synced_at(y, k);
            assert(s[k + n] == y[k] && s[k + n + 1] == y[k + 1]);
            assert(synced_at(s, k + n));
        } else {
            assert(x[n - 1] == CommitStep::Sync);
            assert(paired_at(x, n - 1));
            assert(s[n - 2] == x[n - 2] && s[n - 1] == x[n - 1]);
            assert(s[i] == x[i]);
            assert(synced_at(s, n - 2));
        }
    }
}

/// Phased steps of earlier phases, followed by phased steps of later phases, are phased.
proof fn lemma_phases_join(
    x: Seq<CommitStep>,
    y: Seq<CommitStep>,
    lo: int,
    mid: int,
    next: int,
    hi: int,
)
    requires
        phased(x, lo, mid),
        phased(y, next, hi),
        lo <= mid < next <= hi,
    ensures
        phased(x + y, lo, hi),
{
    lemma_join_within(x, y, lo, mid, next, hi);
    lemma_join_order(x, y, lo, mid, next, hi);
    lemma_join_commits(x, y);
    lemma_join_synced(x, y);
}

/// Every element of a flattened sequence comes from one of its parts.
proof fn lemma_flatten_all<A>(parts: Seq<Seq<A>>, p: spec_fn(A) -> bool)
    requires
        forall|i: int, j: int|
            0 <= i < parts.len() && 0 <= j < parts[i].len() ==> p(#[trigger] parts[i][j]),
    ensures
        forall|k: int| 0 <= k < parts.flatten().len() ==> p(#[trigger] parts.flatten()[k]),
    decreases parts.len(),
{
    if parts.len() > 0 {
        let rest = parts.drop_first();
        assert forall|i: int, j: int| 0 <= i < rest.len() && 0 <= j < rest[i].len() implies p(
            #[trigger] rest[i][j],
        ) by {
            assert(rest[i][j] == parts[i + 1][j]);
        }
        lemma_flatten_all(rest, p);
        assert forall|k: int| 0 <= k < parts.flatten().len() implies p(
            #[trigger] parts.flatten()[k],
        ) by {
            if k < parts.first().len() {
                assert(parts.flatten()[k] == parts[0][k]);
            } else {
                assert(parts.flatten()[k] == rest.flatten()[k - parts.first().len()]);
            }
        }
    }
}

/// The steps of a commit run in phases: the operations are in the order fresh
/// table, removals, changes, new partitions; where two operations are of
/// different phases, a `Commit` with its `Sync` stands between them; every
/// `Commit` is followed at once by a `Sync` and every `Sync` follows a
/// `Commit`; and the last step is a `Sync`.
pub proof fn lemma_steps_are_phased(ops: DiskOpsView)
    ensures
        phased(ops.steps(), 0, 3),
        ops.steps().len() >= 6,
{
    let relabel = relabel_steps(ops.mklabel);
    match ops.mklabel {
        Some(kind) => {
            lemma_one_phase(seq![CommitStep::Relabel(kind)], 0);
        },
        None => {},
    }
    assert(phased(relabel, 0, 0));
    lemma_one_phase(ops.remove_partitions.map_values(|n: int| CommitStep::Remove(n as i32)), 1);
    let parts = ops.change_partitions.map_values(|c: PartitionChangeView| change_steps(c));
    assert forall|i: int, j: int| 0 <= i < parts.len() && 0 <= j < parts[i].len() implies (
    #[trigger] parts[i][j]).rank() == 2 by {
        let c = ops.change_partitions[i];
        assert(parts[i] == change_steps(c));
        if j == 0 {
        } else if j <= c.flags.len() {
            assert(parts[i][j] == CommitStep::SetFlag { num: c.num as i32, flag: c.flags[j - 1] });
        } else {
        }
    }
    lemma_flatten_all(parts, |step: CommitStep| step.rank() == 2);
    lemma_one_phase(parts.flatten(), 2);
    let made = Seq::new(
        ops.create_partitions.len(),
        |i: int| CommitStep::Create { index: i as usize },
    );
    let formatted = Seq::new(
        ops.create_partitions.len(),
        |i: int|
            CommitStep::FormatNew { index: i as usize, fs: ops.create_partitions[i].file_system },
    );
    assert forall|k: int| 0 <= k < (made + formatted).len() implies (#[trigger] (made
        + formatted)[k]).rank() == 3 by {
        if k < made.len() {
            assert((made + formatted)[k] == made[k]);
        } else {
            assert((made + formatted)[k] == formatted[k - made.len()]);
        }
    }
    lemma_one_phase(made + formatted, 3);
    let removes = remove_steps(ops.remove_partitions);
    let changes = changes_steps(ops.change_partitions);
    let creates = create_steps(ops.create_partitions);
    lemma_phases_join(relabel, removes, 0, 0, 1, 1);
    lemma_phases_join(relabel + removes, changes, 0, 1, 2, 2);
    lemma_phases_join(relabel + removes + changes, creates, 0, 2, 3, 3);
}

/// A partition is deleted only where the operations list its number: every
/// `Remove` among the steps names a number of `remove_partitions`.
pub proof fn lemma_removals_are_listed(ops: DiskOpsView, k: int)
    requires
        0 <= k < ops.steps().len(),
        ops.steps()[k] is Remove,
    ensures
        exists|j: int|
            0 <= j < ops.remove_partitions.len() && ops.steps()[k] == CommitStep::Remove(
                #[trigger] ops.remove_partitions[j] as i32,
            ),
{
    let relabel = relabel_steps(ops.mklabel);
    let removes = remove_steps(ops.remove_partitions);
    let changes = changes_steps(ops.change_partitions);
    let creates = create_steps(ops.create_partitions);
    let parts = ops.change_partitions.map_values(|c: PartitionChangeView| change_steps(c));
    assert forall|i: int, j: int| 0 <= i < parts.len() && 0 <= j < parts[i].len() implies (
    #[trigger] parts[i][j]).rank() == 2 by {
        let c = ops.change_partitions[i];
        assert(parts[i] == change_steps(c));
        if 0 < j <= c.flags.len() {
            assert(parts[i][j] == CommitStep::SetFlag { num: c.num as i32, flag: c.flags[j - 1] });
        }
    }
    lemma_flatten_all(parts, |step: CommitStep| step.rank() == 2);
    let a = relabel.len() as int;
    let b = removes.len() as int;
    let c = changes.len() as int;
    let step = ops.steps()[k];
    if k < a {
        assert(step == relabel[k]);
    } else if k < a + b {
        assert(step == removes[k - a]);
        assert(k - a < ops.remove_partitions.len());
        assert(step == CommitStep::Remove(ops.remove_partitions[k - a] as i32));
    } else if k < a + b + c {
        assert(step == changes[k - a - b]);
        if k - a - b < parts.flatten().len() {
            assert(changes[k - a - b] == parts.flatten()[k - a - b]);
            assert(parts.flatten()[k - a - b].rank() == 2);
        }
    } else {
        assert(step == creates[k - a - b - c]);
    }
}

/// Operations that ask for no fresh table have no `Relabel` among their steps.
pub proof fn lemma_no_relabel_without_kind(ops: DiskOpsView, k: int)
    requires
        ops.mklabel is None,
        0 <= k < ops.steps().len(),
    ensures
        !(ops.steps()[k] is Relabel),
{
    let removes = remove_steps(ops.remove_partitions);
    let changes = changes_steps(ops.change_partitions);
    let creates = create_steps(ops.create_partitions);
    let parts = ops.change_partitions.map_values(|c: PartitionChangeView| change_steps(c));
    assert forall|i: int, j: int| 0 <= i < parts.len() && 0 <= j < parts[i].len() implies (
    #[trigger] parts[i][j]).rank() == 2 by {
        let c = ops.change_partitions[i];
        assert(parts[i] == change_steps(c));
        if 0 < j <= c.flags.len() {
            assert(parts[i][j] == CommitStep::SetFlag { num: c.num as i32, flag: c.flags[j - 1] });
        }
    }
    lemma_flatten_all(parts, |step: CommitStep| step.rank() == 2);
    let b = removes.len() as int;
    let c = changes.len() as int;
    let step = ops.steps()[k];
    assert(relabel_steps(ops.mklabel).len() == 0);
    if k < b {
        assert(step == removes[k]);
    } else if k < b + c {
        assert(step == changes[k - b]);
        if k - b < parts.flatten().len() {
            assert(changes[k - b] == parts.flatten()[k - b]);
            assert(parts.flatten()[k - b].rank() == 2);
        }
    } else {
        assert(step == creates[k - b - c]);
    }
}

} // verus!
