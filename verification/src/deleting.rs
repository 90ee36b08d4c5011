//! Deleting snapshots step by step: what follows when a step could not be done, and what is left
//! in the table of snapshots.
use crate::controller::Deletion;
use crate::database::{
    cleaned, cleanup_rows, lemma_filter_keyed, newest_first, read_snapshot, same_snapshot, snapshots_of,
    without_snapshot, Tables, TrackedSnapshot,
};
use crate::order::{arranged, lemma_arranged_contains, lemma_arranged_items, lemma_wanted};
use crate::structs::{subvolume_in, Snapshot, SnapshotRecord};
use crate::text::{decimal, lemma_cut, numeral, text_option};
use vstd::prelude::*;

verus! {

/// What deleting a snapshot does now.
#[derive(Debug, Clone, Copy, PartialEq, Eq, Structural)]
pub enum DeleteStep {
    /// Says what would be deleted.
    Describe,
    /// Deletes the subvolume.
    Remove,
    /// Deletes the filtered copies of the snapshot.
    RemoveCopies,
    /// Removes the row of the snapshot.
    Forget,
    /// Nothing: it is said what would be deleted.
    Described,
    /// Nothing: the snapshot is deleted.
    Deleted,
    /// Nothing: the subvolume could not be deleted, and its row stays.
    NotRemoved,
    /// Nothing: the row could not be removed.
    NotForgotten,
}

impl DeleteStep {
    /// The first step of deleting a snapshot in this way.
    pub open spec fn first(way: Deletion) -> DeleteStep {
        match way {
            Deletion::Describe => DeleteStep::Describe,
            Deletion::FromDisk => DeleteStep::Remove,
            Deletion::RowOnly => DeleteStep::RemoveCopies,
        }
    }

    /// The step after this one, which was done or could not be. Filtered copies that can't be
    /// deleted don't stop the deletion.
    pub open spec fn after(self, done: bool) -> DeleteStep {
        match (self, done) {
            (DeleteStep::Describe, _) => DeleteStep::Described,
            (DeleteStep::Remove, true) => DeleteStep::RemoveCopies,
            (DeleteStep::Remove, false) => DeleteStep::NotRemoved,
            (DeleteStep::RemoveCopies, _) => DeleteStep::Forget,
            (DeleteStep::Forget, true) => DeleteStep::Deleted,
            (DeleteStep::Forget, false) => DeleteStep::NotForgotten,
            (_, _) => self,
        }
    }

    /// The first step of deleting a snapshot in this way.
    pub fn start(way: Deletion) -> (step: DeleteStep)
        ensures
            step == DeleteStep::first(way),
    {
        match way {
            Deletion::Describe => DeleteStep::Describe,
            Deletion::FromDisk => DeleteStep::Remove,
            Deletion::RowOnly => DeleteStep::RemoveCopies,
        }
    }

    /// The step after this one, which was done or could not be.
    pub fn next(self, done: bool) -> (step: DeleteStep)
        ensures
            step == self.after(done),
    {
        match (self, done) {
            (DeleteStep::Describe, _) => DeleteStep::Described,
            (DeleteStep::Remove, true) => DeleteStep::RemoveCopies,
            (DeleteStep::Remove, false) => DeleteStep::NotRemoved,
            (DeleteStep::RemoveCopies, _) => DeleteStep::Forget,
            (DeleteStep::Forget, true) => DeleteStep::Deleted,
            (DeleteStep::Forget, false) => DeleteStep::NotForgotten,
            (_, _) => self,
        }
    }
}

/// The step that a deletion has reached after what came of its steps, one after the other.
pub open spec fn reached(way: Deletion, events: Seq<bool>) -> DeleteStep
    decreases events.len(),
{
    if events.len() == 0 {
        DeleteStep::first(way)
    } else {
        reached(way, events.drop_last()).after(events.last())
    }
}

/// The row of a snapshot whose subvolume is there is removed only once the subvolume is deleted,
/// and so are its filtered copies; if the subvolume can't be deleted nothing else is done. A dry
/// run gets to none of that.
pub proof fn lemma_row_stays_with_the_subvolume(way: Deletion, events: Seq<bool>)
    ensures
        way == Deletion::Describe <==> reached(way, events) is Describe || reached(
            way,
            events,
        ) is Described,
        way == Deletion::FromDisk && (reached(way, events) is RemoveCopies || reached(
            way,
            events,
        ) is Forget || reached(way, events) is Deleted || reached(way, events) is NotForgotten)
            ==> events.len() > 0 && events[0],
        reached(way, events) is NotRemoved <==> way == Deletion::FromDisk && events.len() > 0
            && !events[0],
        reached(way, events) is Remove <==> way == Deletion::FromDisk && events.len() == 0,
    decreases events.len(),
{
    if events.len() > 0 {
        lemma_row_stays_with_the_subvolume(way, events.drop_last());
        if events.len() > 1 {
            assert(events.drop_last()[0] == events[0]);
        }
    }
}

/// A deletion succeeds if and only if the subvolume, where it is there, and the row could both be
/// removed, whatever becomes of the filtered copies.
pub proof fn lemma_deletion_outcome(removed: bool, copies: bool, forgotten: bool)
    ensures
        reached(Deletion::FromDisk, seq![removed, copies, forgotten]) == if !removed {
            DeleteStep::NotRemoved
        } else if forgotten {
            DeleteStep::Deleted
        } else {
            DeleteStep::NotForgotten
        },
        reached(Deletion::RowOnly, seq![copies, forgotten]) == if forgotten {
            DeleteStep::Deleted
        } else {
            DeleteStep::NotForgotten
        },
        reached(Deletion::Describe, seq![removed]) == DeleteStep::Described,
{
    reveal_with_fuel(reached, 4);
    assert(seq![removed, copies, forgotten].drop_last() =~= seq![removed, copies]);
    assert(seq![removed, copies].drop_last() =~= seq![removed]);
    assert(seq![removed].drop_last() =~= Seq::<bool>::empty());
    assert(seq![copies, forgotten].drop_last() =~= seq![copies]);
    assert(seq![copies].drop_last() =~= Seq::<bool>::empty());
}

/// The rows of the table after what came of the steps of a deletion: removing the row is the only
/// step that changes them.
pub open spec fn rows_after(
    rows: Seq<TrackedSnapshot>,
    snapshot: Snapshot,
    way: Deletion,
    events: Seq<bool>,
) -> Seq<TrackedSnapshot>
    decreases events.len(),
{
    if events.len() == 0 {
        rows
    } else {
        let left = rows_after(rows, snapshot, way, events.drop_last());
        if reached(way, events.drop_last()) is Forget && events.last() {
            left.filter(without_snapshot(snapshot))
        } else {
            left
        }
    }
}

/// A deletion that succeeded has removed the row of its snapshot and no other. Until then, and
/// after a failure or a dry run, the table is as it was.
pub proof fn lemma_rows_after(
    rows: Seq<TrackedSnapshot>,
    snapshot: Snapshot,
    way: Deletion,
    events: Seq<bool>,
)
    ensures
        rows_after(rows, snapshot, way, events) == if reached(way, events) is Deleted {
            rows.filter(without_snapshot(snapshot))
        } else {
            rows
        },
    decreases events.len(),
{
    if events.len() > 0 {
        lemma_rows_after(rows, snapshot, way, events.drop_last());
    }
}

/// What is said before a snapshot is deleted in some way.
pub open spec fn notice(way: Deletion, snapshot: Snapshot, path: Seq<char>) -> Option<Seq<char>> {
    match way {
        Deletion::Describe => Some(
            "[dry-run] would delete snapshot "@ + snapshot.name + " ("@ + snapshot.snap_id
                + ") at "@ + path,
        ),
        Deletion::FromDisk => None,
        Deletion::RowOnly => Some(
            "Warning: snapshot "@ + snapshot.name + " ("@ + snapshot.snap_id
                + ") no longer exists at "@ + path + ", removing it from the database only."@,
        ),
    }
}

/// What is said before a snapshot is deleted in some way.
pub fn deletion_notice(way: Deletion, record: &SnapshotRecord) -> (text: Option<String>)
    ensures
        text_option(text) == notice(
            way,
            record@,
            subvolume_in(record@.destination, record@.name),
        ),
{
    let path: String = record.path();
    match way {
        Deletion::Describe => Some(
            "[dry-run] would delete snapshot ".to_owned().concat(record.name.as_str()).concat(
                " (",
            ).concat(record.snap_id.as_str()).concat(") at ").concat(path.as_str()),
        ),
        Deletion::FromDisk => None,
        Deletion::RowOnly => Some(
            "Warning: snapshot ".to_owned().concat(record.name.as_str()).concat(" (").concat(
                record.snap_id.as_str(),
            ).concat(") no longer exists at ").concat(path.as_str()).concat(
                ", removing it from the database only.",
            ),
        ),
    }
}

/// What is said of a snapshot that was deleted in some way.
pub open spec fn report(way: Deletion, snapshot: Snapshot) -> Option<Seq<char>> {
    let start = "Snapshot "@ + snapshot.name + " ("@ + snapshot.snap_id;
    match way {
        Deletion::Describe => None,
        Deletion::FromDisk => Some(start + ") deleted"@),
        Deletion::RowOnly => Some(start + ") removed from the database"@),
    }
}

/// What is said of a snapshot that was deleted in some way.
pub fn deletion_report(way: Deletion, record: &SnapshotRecord) -> (text: Option<String>)
    ensures
        text_option(text) == report(way, record@),
{
    let start: String = "Snapshot ".to_owned().concat(record.name.as_str()).concat(" (").concat(
        record.snap_id.as_str(),
    );
    match way {
        Deletion::Describe => None,
        Deletion::FromDisk => Some(start.concat(") deleted")),
        Deletion::RowOnly => Some(start.concat(") removed from the database")),
    }
}

/// A cleanup that deletes its snapshots one after the other.
#[derive(Debug, Clone, Copy, PartialEq, Eq, Structural)]
pub struct Clearing {
    /// How many snapshots were tried: those at the positions before this one.
    pub tried: usize,
    /// How many snapshots there are to delete.
    pub count: usize,
    /// How many of those that were tried could not be deleted.
    pub failures: usize,
}

impl Clearing {
    /// A cleanup of this many snapshots that has not started.
    pub open spec fn started(count: usize) -> Clearing {
        Clearing { tried: 0, count, failures: 0 }
    }

    /// The cleanup after the next snapshot was deleted or could not be. It goes on either way.
    pub open spec fn after(self, deleted: bool) -> Clearing {
        if self.tried < self.count {
            Clearing {
                tried: (self.tried + 1) as usize,
                count: self.count,
                failures: if deleted {
                    self.failures
                } else {
                    (self.failures + 1) as usize
                },
            }
        } else {
            self
        }
    }

    /// What holds of a cleanup at every step.
    pub open spec fn sound(self) -> bool {
        self.failures <= self.tried <= self.count
    }

    /// A cleanup of this many snapshots that has not started.
    pub fn start(count: usize) -> (clearing: Clearing)
        ensures
            clearing == Clearing::started(count),
            clearing.sound(),
    {
        Clearing { tried: 0, count, failures: 0 }
    }

    /// The position of the snapshot to delete now, or nothing when all were tried.
    pub fn current(&self) -> (position: Option<usize>)
        ensures
            position == if self.tried < self.count {
                Some(self.tried)
            } else {
                None
            },
    {
        if self.tried < self.count {
            Some(self.tried)
        } else {
            None
        }
    }

    /// Takes in whether the snapshot was deleted.
    pub fn next(&mut self, deleted: bool)
        requires
            old(self).sound(),
        ensures
            *final(self) == old(self).after(deleted),
            final(self).sound(),
    {
        if self.tried < self.count {
            self.tried = self.tried + 1;
            if !deleted {
                self.failures = self.failures + 1;
            }
        }
    }

    /// What the cleanup ends with: an error if a snapshot could not be deleted.
    pub fn result(&self) -> (result: Result<(), String>)
        ensures
            match result {
                Ok(()) => self.failures == 0,
                Err(message) => self.failures > 0 && message@ == numeral(self.failures as nat)
                    + " of "@ + numeral(self.count as nat) + " snapshot(s) could not be deleted"@,
            },
    {
        if self.failures > 0 {
            let failed: String = decimal(self.failures as u64);
            let total: String = decimal(self.count as u64);
            Err(
                failed.concat(" of ").concat(total.as_str()).concat(
                    " snapshot(s) could not be deleted",
                ),
            )
        } else {
            Ok(())
        }
    }
}

/// A cleanup after what came of its snapshots, one after the other.
pub open spec fn cleared(clearing: Clearing, deleted: Seq<bool>) -> Clearing
    decreases deleted.len(),
{
    if deleted.len() == 0 {
        clearing
    } else {
        cleared(clearing, deleted.drop_last()).after(deleted.last())
    }
}

/// How many of the first `n` snapshots could not be deleted.
pub open spec fn failures_in(deleted: Seq<bool>, n: nat) -> nat
    decreases n,
{
    if n == 0 || n > deleted.len() {
        0
    } else {
        failures_in(deleted, (n - 1) as nat) + if deleted[n - 1] {
            0nat
        } else {
            1nat
        }
    }
}

proof fn lemma_failures_in_front(deleted: Seq<bool>, n: nat)
    requires
        n < deleted.len(),
    ensures
        failures_in(deleted.drop_last(), n) == failures_in(deleted, n),
    decreases n,
{
    if n > 0 {
        lemma_failures_in_front(deleted, (n - 1) as nat);
    }
}

/// A cleanup tries every one of its snapshots once and in their order, whatever became of those
/// before it, and counts those that could not be deleted.
pub proof fn lemma_every_snapshot_is_tried(count: usize, deleted: Seq<bool>)
    requires
        deleted.len() <= count,
    ensures
        ({
            let clearing = cleared(Clearing::started(count), deleted);
            &&& clearing.tried == deleted.len()
            &&& clearing.count == count
            &&& clearing.failures == failures_in(deleted, deleted.len())
            &&& clearing.sound()
        }),
    decreases deleted.len(),
{
    if deleted.len() > 0 {
        lemma_every_snapshot_is_tried(count, deleted.drop_last());
        lemma_failures_in_front(deleted, (deleted.len() - 1) as nat);
    }
}

/// There are no failures if and only if every snapshot was deleted.
pub proof fn lemma_no_failures(deleted: Seq<bool>, n: nat)
    requires
        n <= deleted.len(),
    ensures
        failures_in(deleted, n) == 0 <==> forall|i: int| 0 <= i < n ==> #[trigger] deleted[i],
        failures_in(deleted, n) <= n,
    decreases n,
{
    if n > 0 {
        lemma_no_failures(deleted, (n - 1) as nat);
        if failures_in(deleted, n) == 0 {
            assert forall|i: int| 0 <= i < n implies #[trigger] deleted[i] by {
                if i == n - 1 {
                    assert(deleted[n - 1]);
                }
            }
        }
    }
}

/// The rows after the first `n` snapshots of a cleanup were tried: those that were deleted have
/// lost theirs.
pub open spec fn cleaned_rows(
    rows: Seq<TrackedSnapshot>,
    gone: Seq<Snapshot>,
    deleted: Seq<bool>,
    n: nat,
) -> Seq<TrackedSnapshot>
    decreases n,
{
    if n == 0 {
        rows
    } else {
        let left = cleaned_rows(rows, gone, deleted, (n - 1) as nat);
        if deleted[n - 1] {
            left.filter(without_snapshot(gone[n - 1]))
        } else {
            left
        }
    }
}

/// A cleanup removes the rows of the snapshots that it deleted, and every other row stays: those
/// of the snapshots that it could not delete, and those that it does not look at.
pub proof fn lemma_cleanup_removes_only_what_it_deleted(
    rows: Seq<TrackedSnapshot>,
    gone: Seq<Snapshot>,
    deleted: Seq<bool>,
    n: nat,
)
    requires
        n <= gone.len(),
        n <= deleted.len(),
    ensures
        forall|row: TrackedSnapshot| #[trigger]
            cleaned_rows(rows, gone, deleted, n).contains(row) <==> rows.contains(row) && forall|
                i: int,
            |
                0 <= i < n && #[trigger] deleted[i] ==> !same_snapshot(row.record, gone[i]),
    decreases n,
{
    if n > 0 {
        let m = (n - 1) as nat;
        let left = cleaned_rows(rows, gone, deleted, m);
        lemma_cleanup_removes_only_what_it_deleted(rows, gone, deleted, m);
        lemma_wanted(left, without_snapshot(gone[m as int]));
        assert forall|row: TrackedSnapshot| #[trigger]
            cleaned_rows(rows, gone, deleted, n).contains(row) <==> rows.contains(row) && forall|
                i: int,
            |
                0 <= i < n && #[trigger] deleted[i] ==> !same_snapshot(row.record, gone[i]) by {
            assert(left.contains(row) <==> rows.contains(row) && forall|i: int|
                0 <= i < m && #[trigger] deleted[i] ==> !same_snapshot(row.record, gone[i]));
            assert(without_snapshot(gone[m as int])(row) == !same_snapshot(
                row.record,
                gone[m as int],
            ));
            assert((forall|i: int|
                0 <= i < n && #[trigger] deleted[i] ==> !same_snapshot(row.record, gone[i])) <==> (
            forall|i: int|
                0 <= i < m && #[trigger] deleted[i] ==> !same_snapshot(row.record, gone[i])) && (
            deleted[m as int] ==> !same_snapshot(row.record, gone[m as int])));
        }
    }
}

/// Whether the name and the id of a snapshot are read as they are stored.
pub open spec fn whole_key(snapshot: Snapshot) -> bool {
    !snapshot.name.contains('\0') && !snapshot.snap_id.contains('\0')
}

proof fn lemma_cleaned_rows_keyed(
    rows: Seq<TrackedSnapshot>,
    gone: Seq<Snapshot>,
    deleted: Seq<bool>,
    n: nat,
    same: spec_fn(TrackedSnapshot, TrackedSnapshot) -> bool,
)
    requires
        forall|i: int, j: int|
            0 <= i < j < rows.len() ==> !same(#[trigger] rows[i], #[trigger] rows[j]),
    ensures
        ({
            let left = cleaned_rows(rows, gone, deleted, n);
            forall|i: int, j: int|
                0 <= i < j < left.len() ==> !same(#[trigger] left[i], #[trigger] left[j])
        }),
    decreases n,
{
    if n > 0 {
        lemma_cleaned_rows_keyed(rows, gone, deleted, (n - 1) as nat, same);
        lemma_filter_keyed(
            cleaned_rows(rows, gone, deleted, (n - 1) as nat),
            without_snapshot(gone[n - 1]),
            same,
        );
    }
}

/// After a cleanup that succeeded the same cleanup finds nothing to delete. Snapshots whose name or
/// id holds a NUL character are left out: they are read only up to it, and their rows are not found
/// by what was read.
pub proof fn lemma_cleanup_leaves_nothing_to_clean(
    before: Tables,
    after: Tables,
    deleted: Seq<bool>,
    prefix: Seq<char>,
    kind: Seq<char>,
    read_write: bool,
    machine: Seq<char>,
    keep: nat,
)
    requires
        before.keyed(),
        forall|i: int|
            0 <= i < cleanup_rows(before, prefix, kind, read_write, machine, keep).len()
                ==> whole_key((#[trigger] cleanup_rows(
                before,
                prefix,
                kind,
                read_write,
                machine,
                keep,
            )[i]).record),
        deleted.len() == cleanup_rows(before, prefix, kind, read_write, machine, keep).len(),
        failures_in(deleted, deleted.len()) == 0,
        after.snapshots == cleaned_rows(
            before.snapshots,
            snapshots_of(cleanup_rows(before, prefix, kind, read_write, machine, keep)),
            deleted,
            deleted.len(),
        ),
    ensures
        cleanup_rows(after, prefix, kind, read_write, machine, keep).len() == 0,
{
    let wants = cleaned(prefix, kind, read_write, machine);
    let looked_at = before.snapshots.filter(wants);
    let all = arranged(looked_at, newest_first());
    let gone = cleanup_rows(before, prefix, kind, read_write, machine, keep);
    let records = snapshots_of(gone);
    let left = after.snapshots.filter(wants);
    let n = deleted.len();
    lemma_no_failures(deleted, n);
    lemma_cleanup_removes_only_what_it_deleted(before.snapshots, records, deleted, n);
    lemma_wanted(before.snapshots, wants);
    lemma_wanted(after.snapshots, wants);
    lemma_arranged_contains(looked_at, newest_first());
    lemma_arranged_items(looked_at, newest_first());
    lemma_arranged_items(left, newest_first());
    if keep < all.len() {
        let kept = all.take(keep as int);
        assert forall|row: TrackedSnapshot| #[trigger] left.contains(row) implies kept.contains(
            row,
        ) by {
            assert(after.snapshots.contains(row));
            assert(looked_at.contains(row));
            assert(all.contains(row));
            let k = choose|k: int| 0 <= k < all.len() && all[k] == row;
            if k >= keep {
                assert(gone[k - keep] == row);
                assert(whole_key(gone[k - keep].record));
                assert(records[k - keep] == read_snapshot(row.record));
                lemma_cut(row.record.name);
                lemma_cut(row.record.snap_id);
                assert(same_snapshot(row.record, records[k - keep]));
                assert(deleted[k - keep]);
            } else {
                assert(kept[k] == row);
            }
        }
        let same = |a: TrackedSnapshot, b: TrackedSnapshot| same_snapshot(a.record, b.record);
        lemma_cleaned_rows_keyed(before.snapshots, records, deleted, n, same);
        lemma_filter_keyed(after.snapshots, wants, same);
        assert forall|i: int, j: int|
            0 <= i < left.len() && 0 <= j < left.len() && i != j implies left[i] != left[j] by {
            if i < j {
                assert(!same(left[i], left[j]));
            } else {
                assert(!same(left[j], left[i]));
            }
        }
        vstd::seq_lib::seq_to_set_is_finite(kept);
        left.unique_seq_to_set();
        kept.lemma_cardinality_of_set();
        assert(left.to_set().subset_of(kept.to_set())) by {
            assert forall|row: TrackedSnapshot| left.to_set().contains(row) implies kept.to_set().contains(row) by {
                assert(left.contains(row));
            }
        }
        vstd::set_lib::lemma_len_subset(left.to_set(), kept.to_set());
        assert(left.len() <= keep);
    } else {
        assert(n == 0);
        assert(after.snapshots == before.snapshots);
    }
}

} // verus!
