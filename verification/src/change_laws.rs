//! What is written to the database file when its rows changed.
use crate::changes::{
    all_changed, changed, is_called_for, of_one_replica, of_one_snapshot, same_rows, RowChange,
};
use crate::database::{TrackedReplica, TrackedSnapshot};
use crate::order::lemma_wanted;
use vstd::prelude::*;

verus! {

/// Rows are one and the same if they have one key: the name and the id of the snapshot, and for a
/// replica the target too.
pub proof fn lemma_keys_of_rows(
    a: TrackedSnapshot,
    b: TrackedSnapshot,
    x: TrackedReplica,
    y: TrackedReplica,
)
    ensures
        of_one_snapshot()(a, b) <==> a.record.name == b.record.name && a.record.snap_id
            == b.record.snap_id,
        of_one_replica()(x, y) <==> x.record.name == y.record.name && x.record.snap_id
            == y.record.snap_id && x.record.target == y.record.target,
{
}

/// Removing a row leaves every row with another key, adding one leaves every row and has it too,
/// and replacing one puts it in the place of those with its key.
pub proof fn lemma_single_changes<R: View>(
    rows: Seq<R::V>,
    row: R,
    same: spec_fn(R::V, R::V) -> bool,
    x: R::V,
)
    ensures
        changed(rows, RowChange::Remove(row), same).contains(x) <==> rows.contains(x) && !same(
            x,
            row@,
        ),
        changed(rows, RowChange::Add(row), same) == rows.push(row@),
        changed(rows, RowChange::Replace(row), same).len() == rows.len(),
        forall|i: int|
            0 <= i < rows.len() ==> #[trigger] changed(rows, RowChange::Replace(row), same)[i]
                == if same(rows[i], row@) {
                row@
            } else {
                rows[i]
            },
{
    let wants = |other: R::V| !same(other, row@);
    lemma_wanted(rows, wants);
    assert(rows.filter(wants).contains(x) <==> rows.contains(x) && wants(x));
}

/// Several changes are made one after the other, and no change changes nothing.
pub proof fn lemma_changes_in_turn<R: View>(
    rows: Seq<R::V>,
    changes: Seq<RowChange<R>>,
    change: RowChange<R>,
    same: spec_fn(R::V, R::V) -> bool,
)
    ensures
        all_changed(rows, Seq::<RowChange<R>>::empty(), same) == rows,
        all_changed(rows, changes.push(change), same) == changed(
            all_changed(rows, changes, same),
            change,
            same,
        ),
{
    assert(changes.push(change).drop_last() =~= changes);
}

/// A row is removed only if it was there and none with its key is there now, added only if it is
/// there and none with its key was, and written anew only if one with its key was there that was
/// another one. Tables have the same rows if each row of one is in the other.
pub proof fn lemma_called_for<R: View>(
    before: Seq<R::V>,
    after: Seq<R::V>,
    row: R,
    same: spec_fn(R::V, R::V) -> bool,
    i: int,
)
    ensures
        is_called_for(RowChange::Remove(row), before, after, same) && 0 <= i < after.len()
            ==> before.contains(row@) && !same(after[i], row@),
        is_called_for(RowChange::Add(row), before, after, same) && 0 <= i < before.len()
            ==> after.contains(row@) && !same(before[i], row@),
        is_called_for(RowChange::Replace(row), before, after, same) ==> after.contains(row@)
            && !before.contains(row@) && exists|k: int|
            0 <= k < before.len() && same(#[trigger] before[k], row@),
        same_rows(before, after) && 0 <= i < before.len() ==> after.contains(before[i]),
        same_rows(before, after) && 0 <= i < after.len() ==> before.contains(after[i]),
{
    if same_rows(before, after) {
        if 0 <= i < before.len() {
            assert(before.contains(before[i]));
        }
        if 0 <= i < after.len() {
            assert(after.contains(after[i]));
        }
    }
}

} // verus!
