//! What has to be written so that stored tables become others.
use crate::database::{
    is_same_replica, is_same_snapshot, same_replica, same_snapshot, Database, ReplicaRow,
    SnapshotRow, TrackedReplica, TrackedSnapshot,
};
use crate::order::{lemma_wanted, views};
use crate::structs::{ReplicaRecord, SnapshotRecord};
use crate::text::{same_text, text_option};
use vstd::prelude::*;

verus! {

/// One change of a table.
#[derive(Debug, Clone, PartialEq, Eq)]
pub enum RowChange<R> {
    /// The row with the key of this one goes.
    Remove(R),
    /// This row is added.
    Add(R),
    /// This row takes the place of the one with its key.
    Replace(R),
}

/// The rows after a change, where `same` says whether two rows have one key.
pub open spec fn changed<R: View>(
    rows: Seq<R::V>,
    change: RowChange<R>,
    same: spec_fn(R::V, R::V) -> bool,
) -> Seq<R::V> {
    match change {
        RowChange::Remove(row) => rows.filter(|other: R::V| !same(other, row@)),
        RowChange::Add(row) => rows.push(row@),
        RowChange::Replace(row) => rows.map_values(
            |other: R::V|
                if same(other, row@) {
                    row@
                } else {
                    other
                },
        ),
    }
}

/// The rows after changes that are made one after the other.
pub open spec fn all_changed<R: View>(
    rows: Seq<R::V>,
    changes: Seq<RowChange<R>>,
    same: spec_fn(R::V, R::V) -> bool,
) -> Seq<R::V>
    decreases changes.len(),
{
    if changes.len() == 0 {
        rows
    } else {
        changed(all_changed(rows, changes.drop_last(), same), changes.last(), same)
    }
}

/// Whether two lists hold the same rows.
pub open spec fn same_rows<V>(a: Seq<V>, b: Seq<V>) -> bool {
    forall|row: V| #[trigger] a.contains(row) <==> b.contains(row)
}

/// Whether a row of the list has the key of `row`.
pub open spec fn has_key<V>(rows: Seq<V>, row: V, same: spec_fn(V, V) -> bool) -> bool {
    exists|i: int| 0 <= i < rows.len() && same(#[trigger] rows[i], row)
}

/// Whether no two rows have one key.
pub open spec fn all_keyed<V>(rows: Seq<V>, same: spec_fn(V, V) -> bool) -> bool {
    forall|i: int, j: int|
        0 <= i < j < rows.len() ==> !same(#[trigger] rows[i], #[trigger] rows[j])
}

/// Whether `same` says of rows that they have one key.
pub open spec fn is_key<V>(same: spec_fn(V, V) -> bool) -> bool {
    &&& forall|a: V| #[trigger] same(a, a)
    &&& forall|a: V, b: V| #[trigger] same(a, b) ==> same(b, a)
    &&& forall|a: V, b: V, c: V| #[trigger] same(a, b) && #[trigger] same(b, c) ==> same(a, c)
}

/// What the rows are when those without a counterpart were removed as far as position `i`.
spec fn removed_to<V>(
    rows: Seq<V>,
    before: Seq<V>,
    after: Seq<V>,
    i: int,
    same: spec_fn(V, V) -> bool,
) -> bool {
    forall|x: V| #[trigger]
        rows.contains(x) <==> exists|k: int|
            0 <= k < before.len() && #[trigger] before[k] == x && (k >= i || has_key(
                after,
                x,
                same,
            ))
}

/// What the rows are when those of `after` were written as far as position `j`.
spec fn written_to<V>(
    rows: Seq<V>,
    before: Seq<V>,
    after: Seq<V>,
    j: int,
    same: spec_fn(V, V) -> bool,
) -> bool {
    forall|x: V| #[trigger]
        rows.contains(x) <==> {
            ||| exists|k: int| 0 <= k < j && #[trigger] after[k] == x
            ||| before.contains(x) && has_key(after, x, same) && !has_key(after.take(j), x, same)
        }
}

proof fn lemma_pushed<R: View>(
    rows: Seq<R::V>,
    changes: Seq<RowChange<R>>,
    change: RowChange<R>,
    same: spec_fn(R::V, R::V) -> bool,
)
    ensures
        all_changed(rows, changes.push(change), same) == changed(
            all_changed(rows, changes, same),
            change,
            same,
        ),
{
    assert(changes.push(change).drop_last() =~= changes);
}

proof fn lemma_remove_step<V>(
    rows: Seq<V>,
    before: Seq<V>,
    after: Seq<V>,
    i: int,
    same: spec_fn(V, V) -> bool,
)
    requires
        0 <= i < before.len(),
        is_key(same),
        all_keyed(before, same),
        removed_to(rows, before, after, i, same),
    ensures
        removed_to(
            if has_key(after, before[i], same) {
                rows
            } else {
                rows.filter(|other: V| !same(other, before[i]))
            },
            before,
            after,
            i + 1,
            same,
        ),
{
    let r = before[i];
    let wants = |other: V| !same(other, r);
    let left = if has_key(after, r, same) {
        rows
    } else {
        rows.filter(wants)
    };
    lemma_wanted(rows, wants);
    assert forall|x: V| #[trigger] left.contains(x) <==> exists|k: int|
        0 <= k < before.len() && #[trigger] before[k] == x && (k >= i + 1 || has_key(
            after,
            x,
            same,
        )) by {
        assert(rows.filter(wants).contains(x) <==> rows.contains(x) && wants(x));
        if left.contains(x) {
            assert(rows.contains(x));
            let k = choose|k: int|
                0 <= k < before.len() && #[trigger] before[k] == x && (k >= i || has_key(
                    after,
                    x,
                    same,
                ));
            if k == i {
                assert(same(r, r));
            }
            assert(before[k] == x && (k >= i + 1 || has_key(after, x, same)));
        }
        if exists|k: int|
            0 <= k < before.len() && #[trigger] before[k] == x && (k >= i + 1 || has_key(
                after,
                x,
                same,
            )) {
            let k = choose|k: int|
                0 <= k < before.len() && #[trigger] before[k] == x && (k >= i + 1 || has_key(
                    after,
                    x,
                    same,
                ));
            assert(before[k] == x && (k >= i || has_key(after, x, same)));
            assert(rows.contains(x));
            if k < i {
                assert(!same(before[k], before[i]));
            } else if k > i {
                assert(!same(before[i], before[k]));
                if same(x, r) {
                    assert(same(r, x));
                }
            }
        }
    }
}

proof fn lemma_removed<V>(
    rows: Seq<V>,
    before: Seq<V>,
    after: Seq<V>,
    same: spec_fn(V, V) -> bool,
)
    requires
        removed_to(rows, before, after, before.len() as int, same),
    ensures
        written_to(rows, before, after, 0, same),
{
    assert forall|x: V| #[trigger] rows.contains(x) <==> {
        ||| exists|k: int| 0 <= k < 0 && #[trigger] after[k] == x
        ||| before.contains(x) && has_key(after, x, same) && !has_key(after.take(0), x, same)
    } by {
        if rows.contains(x) {
            let k = choose|k: int|
                0 <= k < before.len() && #[trigger] before[k] == x && (k >= before.len() || has_key(
                    after,
                    x,
                    same,
                ));
            assert(before.contains(x));
        }
        if before.contains(x) && has_key(after, x, same) {
            let k = choose|k: int| 0 <= k < before.len() && before[k] == x;
            assert(before[k] == x && (k >= before.len() || has_key(after, x, same)));
        }
    }
}

/// Whether a row of the first `j + 1` has a key: one of the first `j` has it, or the next one.
proof fn lemma_key_in_front<V>(after: Seq<V>, j: int, x: V, same: spec_fn(V, V) -> bool)
    requires
        0 <= j < after.len(),
    ensures
        has_key(after.take(j + 1), x, same) <==> has_key(after.take(j), x, same) || same(
            after[j],
            x,
        ),
{
    if has_key(after.take(j + 1), x, same) {
        let k = choose|k: int| 0 <= k < j + 1 && same(#[trigger] after.take(j + 1)[k], x);
        if k < j {
            assert(same(after.take(j)[k], x));
        }
    }
    if has_key(after.take(j), x, same) {
        let k = choose|k: int| 0 <= k < j && same(#[trigger] after.take(j)[k], x);
        assert(same(after.take(j + 1)[k], x));
    }
    if same(after[j], x) {
        assert(same(after.take(j + 1)[j], x));
    }
}

/// The rows after one more row of `after` was written.
spec fn written<V>(rows: Seq<V>, before: Seq<V>, row: V, same: spec_fn(V, V) -> bool) -> Seq<V> {
    if !has_key(before, row, same) {
        rows.push(row)
    } else if before.contains(row) {
        rows
    } else {
        rows.map_values(
            |other: V|
                if same(other, row) {
                    row
                } else {
                    other
                },
        )
    }
}

proof fn lemma_write_step<V>(
    rows: Seq<V>,
    before: Seq<V>,
    after: Seq<V>,
    j: int,
    same: spec_fn(V, V) -> bool,
)
    requires
        0 <= j < after.len(),
        is_key(same),
        all_keyed(before, same),
        all_keyed(after, same),
        written_to(rows, before, after, j, same),
    ensures
        written_to(written(rows, before, after[j], same), before, after, j + 1, same),
{
    let r = after[j];
    let next = written(rows, before, r, same);
    assert(same(r, r));
    assert(has_key(after, r, same));
    // No row that was written has the key of this one.
    assert forall|k: int| 0 <= k < j implies !same(#[trigger] after[k], r) && !same(
        r,
        after[k],
    ) by {
        assert(!same(after[k], after[j]));
        if same(r, after[k]) {
            assert(same(after[k], r));
        }
    }
    assert(!has_key(after.take(j), r, same)) by {
        if has_key(after.take(j), r, same) {
            let k = choose|k: int| 0 <= k < j && same(#[trigger] after.take(j)[k], r);
            assert(same(after[k], r));
        }
    }
    assert forall|x: V| #[trigger] next.contains(x) <==> {
        ||| exists|k: int| 0 <= k < j + 1 && #[trigger] after[k] == x
        ||| before.contains(x) && has_key(after, x, same) && !has_key(after.take(j + 1), x, same)
    } by {
        lemma_key_in_front(after, j, x, same);
        lemma_written_row(rows, before, after, j, x, same);
    }
}

/// The one row that has the key of another one in a list, if it is there.
proof fn lemma_one_of_key<V>(rows: Seq<V>, x: V, y: V, same: spec_fn(V, V) -> bool)
    requires
        is_key(same),
        all_keyed(rows, same),
        rows.contains(x),
        rows.contains(y),
        same(x, y),
    ensures
        x == y,
{
    let i = choose|i: int| 0 <= i < rows.len() && rows[i] == x;
    let j = choose|j: int| 0 <= j < rows.len() && rows[j] == y;
    if i < j {
        assert(!same(rows[i], rows[j]));
    } else if j < i {
        assert(!same(rows[j], rows[i]));
        assert(same(y, x));
    }
}

proof fn lemma_written_row<V>(
    rows: Seq<V>,
    before: Seq<V>,
    after: Seq<V>,
    j: int,
    x: V,
    same: spec_fn(V, V) -> bool,
)
    requires
        0 <= j < after.len(),
        is_key(same),
        all_keyed(before, same),
        all_keyed(after, same),
        written_to(rows, before, after, j, same),
        has_key(after, after[j], same),
        !has_key(after.take(j), after[j], same),
        forall|k: int|
            0 <= k < j ==> !same(#[trigger] after[k], after[j]) && !same(after[j], after[k]),
        has_key(after.take(j + 1), x, same) <==> has_key(after.take(j), x, same) || same(
            after[j],
            x,
        ),
    ensures
        written(rows, before, after[j], same).contains(x) <==> {
            ||| exists|k: int| 0 <= k < j + 1 && #[trigger] after[k] == x
            ||| before.contains(x) && has_key(after, x, same) && !has_key(
                after.take(j + 1),
                x,
                same,
            )
        },
{
    let r = after[j];
    let next = written(rows, before, r, same);
    let early = exists|k: int| 0 <= k < j && #[trigger] after[k] == x;
    let late = exists|k: int| 0 <= k < j + 1 && #[trigger] after[k] == x;
    let kept = before.contains(x) && has_key(after, x, same) && !has_key(after.take(j), x, same);
    assert(rows.contains(x) <==> early || kept);
    assert(late <==> early || x == r) by {
        if late {
            let k = choose|k: int| 0 <= k < j + 1 && #[trigger] after[k] == x;
            if k < j {
                assert(0 <= k < j && after[k] == x);
            }
        }
        if early {
            let k = choose|k: int| 0 <= k < j && #[trigger] after[k] == x;
            assert(0 <= k < j + 1 && after[k] == x);
        }
        if x == r {
            assert(0 <= j < j + 1 && after[j] == x);
        }
    }
    if early {
        let k = choose|k: int| 0 <= k < j && #[trigger] after[k] == x;
        assert(!same(after[k], r) && !same(r, after[k]));
    }
    if same(x, r) {
        assert(same(r, x));
    }
    if !has_key(before, r, same) {
        if before.contains(x) && same(r, x) {
            let k = choose|k: int| 0 <= k < before.len() && before[k] == x;
            assert(same(x, r));
            assert(same(before[k], r));
        }
        assert(next.contains(x) <==> rows.contains(x) || x == r) by {
            if rows.contains(x) {
                let k = choose|k: int| 0 <= k < rows.len() && rows[k] == x;
                assert(next[k] == x);
            }
            assert(next[rows.len() as int] == r);
            if next.contains(x) && x != r {
                let k = choose|k: int| 0 <= k < next.len() && next[k] == x;
                assert(rows[k] == x);
            }
        }
    } else if before.contains(r) {
        assert(rows.contains(r));
        if before.contains(x) && same(r, x) {
            lemma_one_of_key(before, r, x, same);
        }
    } else {
        let m = choose|m: int| 0 <= m < before.len() && same(#[trigger] before[m], r);
        let b = before[m];
        assert(before.contains(b));
        assert(same(r, b));
        assert(has_key(after, b, same)) by {
            assert(same(after[j], b));
        }
        assert(!has_key(after.take(j), b, same)) by {
            if has_key(after.take(j), b, same) {
                let k = choose|k: int| 0 <= k < j && same(#[trigger] after.take(j)[k], b);
                assert(same(after[k], b) && same(b, r));
                assert(same(after[k], r));
            }
        }
        assert(rows.contains(b));
        let k = choose|k: int| 0 <= k < rows.len() && rows[k] == b;
        assert(next[k] == r);
        assert(next.contains(r));
        if next.contains(x) && x != r {
            let i = choose|i: int| 0 <= i < next.len() && next[i] == x;
            assert(rows[i] == x && !same(x, r));
            assert(rows.contains(x));
            if same(r, x) {
                assert(same(x, r));
            }
        }
        if rows.contains(x) && !same(x, r) {
            let i = choose|i: int| 0 <= i < rows.len() && rows[i] == x;
            assert(next[i] == x);
        }
    }
}

proof fn lemma_written<V>(
    rows: Seq<V>,
    before: Seq<V>,
    after: Seq<V>,
    same: spec_fn(V, V) -> bool,
)
    requires
        written_to(rows, before, after, after.len() as int, same),
    ensures
        same_rows(rows, after),
{
    assert(after.take(after.len() as int) =~= after);
    assert forall|x: V| #[trigger] rows.contains(x) <==> after.contains(x) by {
        if after.contains(x) {
            let k = choose|k: int| 0 <= k < after.len() && after[k] == x;
            assert(0 <= k < after.len() && after[k] == x);
        }
    }
}

/// Whether a change is called for: a row is removed if its key is gone, added if its key is new,
/// and replaced if it is another one than before.
pub open spec fn is_called_for<R: View>(
    change: RowChange<R>,
    before: Seq<R::V>,
    after: Seq<R::V>,
    same: spec_fn(R::V, R::V) -> bool,
) -> bool {
    match change {
        RowChange::Remove(row) => before.contains(row@) && !has_key(after, row@, same),
        RowChange::Add(row) => after.contains(row@) && !has_key(before, row@, same),
        RowChange::Replace(row) => after.contains(row@) && has_key(before, row@, same)
            && !before.contains(row@),
    }
}

/// Whether a row of the list is like `row`, where `like` says whether two rows are.
fn any_like<R: View, F: Fn(&R, &R) -> bool>(
    rows: &Vec<R>,
    row: &R,
    like: F,
    Ghost(alike): Ghost<spec_fn(R::V, R::V) -> bool>,
) -> (yes: bool)
    requires
        forall|a: &R, b: &R| #[trigger] like.requires((a, b)),
        forall|a: &R, b: &R, r: bool|
            #[trigger] like.ensures((a, b), r) ==> r == alike((*a)@, (*b)@),
    ensures
        yes == has_key(views(rows@), row@, alike),
{
    let ghost shown = views(rows@);
    let mut i: usize = 0;
    while i < rows.len()
        invariant
            i <= rows@.len(),
            shown == views(rows@),
            forall|k: int| 0 <= k < i ==> !alike(#[trigger] shown[k], row@),
            forall|a: &R, b: &R| #[trigger] like.requires((a, b)),
            forall|a: &R, b: &R, r: bool|
                #[trigger] like.ensures((a, b), r) ==> r == alike((*a)@, (*b)@),
        decreases rows@.len() - i,
    {
        assert(shown[i as int] == rows@[i as int]@);
        if like(&rows[i], row) {
            return true;
        }
        i += 1;
    }
    false
}

proof fn lemma_contains<V>(rows: Seq<V>, row: V)
    ensures
        has_key(rows, row, |a: V, b: V| a == b) == rows.contains(row),
{
    let equal = |a: V, b: V| a == b;
    if rows.contains(row) {
        let k = choose|k: int| 0 <= k < rows.len() && rows[k] == row;
        assert(equal(rows[k], row));
    }
    if has_key(rows, row, equal) {
        let k = choose|k: int| 0 <= k < rows.len() && equal(#[trigger] rows[k], row);
        assert(rows[k] == row);
    }
}

fn row_changes<
    R: View,
    F: Fn(&R, &R) -> bool + Copy,
    G: Fn(&R, &R) -> bool + Copy,
    H: Fn(&R) -> R,
>(
    before: &Vec<R>,
    after: &Vec<R>,
    one_key: F,
    equal: G,
    copy: H,
    Ghost(same): Ghost<spec_fn(R::V, R::V) -> bool>,
) -> (changes: Vec<RowChange<R>>)
    requires
        is_key(same),
        forall|a: &R, b: &R| #[trigger] one_key.requires((a, b)),
        forall|a: &R, b: &R, r: bool|
            #[trigger] one_key.ensures((a, b), r) ==> r == same((*a)@, (*b)@),
        forall|a: &R, b: &R| #[trigger] equal.requires((a, b)),
        forall|a: &R, b: &R, r: bool|
            #[trigger] equal.ensures((a, b), r) ==> r == ((*a)@ == (*b)@),
        forall|a: &R| #[trigger] copy.requires((a,)),
        forall|a: &R, r: R| #[trigger] copy.ensures((a,), r) ==> r@ == (*a)@,
    ensures
        forall|i: int|
            0 <= i < changes@.len() ==> is_called_for(
                #[trigger] changes@[i],
                views(before@),
                views(after@),
                same,
            ),
        all_keyed(views(before@), same) && all_keyed(views(after@), same) ==> same_rows(
            all_changed(views(before@), changes@, same),
            views(after@),
        ),
{
    let ghost old_rows = views(before@);
    let ghost new_rows = views(after@);
    let ghost keyed = all_keyed(old_rows, same) && all_keyed(new_rows, same);
    let ghost is_equal = |a: R::V, b: R::V| a == b;
    let mut changes: Vec<RowChange<R>> = Vec::new();
    let mut i: usize = 0;
    proof {
        assert(removed_to(old_rows, old_rows, new_rows, 0, same)) by {
            assert forall|x: R::V| #[trigger] old_rows.contains(x) <==> exists|k: int|
                0 <= k < old_rows.len() && #[trigger] old_rows[k] == x && (k >= 0 || has_key(
                    new_rows,
                    x,
                    same,
                )) by {
                if old_rows.contains(x) {
                    let k = choose|k: int| 0 <= k < old_rows.len() && old_rows[k] == x;
                    assert(old_rows[k] == x && k >= 0);
                }
            }
        }
    }
    while i < before.len()
        invariant
            i <= before@.len(),
            old_rows == views(before@),
            new_rows == views(after@),
            keyed == (all_keyed(old_rows, same) && all_keyed(new_rows, same)),
            is_key(same),
            forall|a: &R, b: &R| #[trigger] one_key.requires((a, b)),
            forall|a: &R, b: &R, r: bool|
                #[trigger] one_key.ensures((a, b), r) ==> r == same((*a)@, (*b)@),
            forall|a: &R| #[trigger] copy.requires((a,)),
            forall|a: &R, r: R| #[trigger] copy.ensures((a,), r) ==> r@ == (*a)@,
            forall|k: int|
                0 <= k < changes@.len() ==> is_called_for(
                    #[trigger] changes@[k],
                    old_rows,
                    new_rows,
                    same,
                ),
            keyed ==> removed_to(
                all_changed(old_rows, changes@, same),
                old_rows,
                new_rows,
                i as int,
                same,
            ),
        decreases before@.len() - i,
    {
        let ghost rows = all_changed(old_rows, changes@, same);
        proof {
            assert(old_rows[i as int] == before@[i as int]@);
            assert(old_rows.contains(old_rows[i as int]));
            if keyed {
                lemma_remove_step(rows, old_rows, new_rows, i as int, same);
            }
        }
        if !any_like(after, &before[i], one_key, Ghost(same)) {
            let change: RowChange<R> = RowChange::Remove(copy(&before[i]));
            proof {
                lemma_pushed(old_rows, changes@, change, same);
                assert(changed(rows, change, same) == rows.filter(
                    |other: R::V| !same(other, old_rows[i as int]),
                ));
            }
            changes.push(change);
        }
        i += 1;
    }
    proof {
        if keyed {
            assert(old_rows.len() == before@.len());
            lemma_removed(all_changed(old_rows, changes@, same), old_rows, new_rows, same);
        }
    }
    let mut j: usize = 0;
    while j < after.len()
        invariant
            j <= after@.len(),
            old_rows == views(before@),
            new_rows == views(after@),
            keyed == (all_keyed(old_rows, same) && all_keyed(new_rows, same)),
            is_equal == (|a: R::V, b: R::V| a == b),
            is_key(same),
            forall|a: &R, b: &R| #[trigger] one_key.requires((a, b)),
            forall|a: &R, b: &R, r: bool|
                #[trigger] one_key.ensures((a, b), r) ==> r == same((*a)@, (*b)@),
            forall|a: &R, b: &R| #[trigger] equal.requires((a, b)),
            forall|a: &R, b: &R, r: bool|
                #[trigger] equal.ensures((a, b), r) ==> r == ((*a)@ == (*b)@),
            forall|a: &R| #[trigger] copy.requires((a,)),
            forall|a: &R, r: R| #[trigger] copy.ensures((a,), r) ==> r@ == (*a)@,
            forall|k: int|
                0 <= k < changes@.len() ==> is_called_for(
                    #[trigger] changes@[k],
                    old_rows,
                    new_rows,
                    same,
                ),
            keyed ==> written_to(
                all_changed(old_rows, changes@, same),
                old_rows,
                new_rows,
                j as int,
                same,
            ),
        decreases after@.len() - j,
    {
        let ghost rows = all_changed(old_rows, changes@, same);
        let ghost row = after@[j as int]@;
        proof {
            assert(new_rows[j as int] == row);
            assert(new_rows.contains(new_rows[j as int]));
            lemma_contains(old_rows, row);
            if keyed {
                lemma_write_step(rows, old_rows, new_rows, j as int, same);
            }
        }
        if !any_like(before, &after[j], one_key, Ghost(same)) {
            let change: RowChange<R> = RowChange::Add(copy(&after[j]));
            proof {
                lemma_pushed(old_rows, changes@, change, same);
            }
            changes.push(change);
        } else if !any_like(before, &after[j], equal, Ghost(is_equal)) {
            let change: RowChange<R> = RowChange::Replace(copy(&after[j]));
            proof {
                lemma_pushed(old_rows, changes@, change, same);
                assert(changed(rows, change, same) =~= written(rows, old_rows, row, same));
            }
            changes.push(change);
        }
        j += 1;
    }
    proof {
        if keyed {
            assert(new_rows.len() == after@.len());
            lemma_written(all_changed(old_rows, changes@, same), old_rows, new_rows, same);
        }
    }
    changes
}

/// Whether two rows are of one snapshot.
pub open spec fn of_one_snapshot() -> spec_fn(TrackedSnapshot, TrackedSnapshot) -> bool {
    |a: TrackedSnapshot, b: TrackedSnapshot| same_snapshot(a.record, b.record)
}

/// Whether two rows are of one replica.
pub open spec fn of_one_replica() -> spec_fn(TrackedReplica, TrackedReplica) -> bool {
    |a: TrackedReplica, b: TrackedReplica| same_replica(a.record, b.record)
}

fn same_date(a: &Option<String>, b: &Option<String>) -> (same: bool)
    ensures
        same == (text_option(*a) == text_option(*b)),
{
    match (a, b) {
        (Some(a), Some(b)) => same_text(a.as_str(), b.as_str()),
        (None, None) => true,
        (_, _) => false,
    }
}

fn equal_snapshots(a: &SnapshotRecord, b: &SnapshotRecord) -> (equal: bool)
    ensures
        equal == (a@ == b@),
{
    same_text(a.name.as_str(), b.name.as_str()) && same_text(a.snap_id.as_str(), b.snap_id.as_str())
        && same_text(a.kind.as_str(), b.kind.as_str()) && same_text(
        a.source.as_str(),
        b.source.as_str(),
    ) && same_text(a.destination.as_str(), b.destination.as_str()) && same_text(
        a.machine.as_str(),
        b.machine.as_str(),
    ) && same_text(a.ro_rw.as_str(), b.ro_rw.as_str()) && same_text(
        a.date.as_str(),
        b.date.as_str(),
    )
}

fn equal_replicas(a: &ReplicaRecord, b: &ReplicaRecord) -> (equal: bool)
    ensures
        equal == (a@ == b@),
{
    same_text(a.name.as_str(), b.name.as_str()) && same_text(a.snap_id.as_str(), b.snap_id.as_str())
        && same_text(a.target.as_str(), b.target.as_str()) && same_text(
        a.local_path.as_str(),
        b.local_path.as_str(),
    ) && same_text(a.source.as_str(), b.source.as_str()) && same_text(
        a.kind.as_str(),
        b.kind.as_str(),
    ) && same_text(a.machine.as_str(), b.machine.as_str()) && same_text(
        a.snapshot_date.as_str(),
        b.snapshot_date.as_str(),
    ) && same_date(&a.parent_name, &b.parent_name) && same_text(a.date.as_str(), b.date.as_str())
}

/// What has to be written to the `snapshots` table so that it holds other rows.
pub fn snapshot_changes(before: &Database, after: &Database) -> (changes: Vec<
    RowChange<SnapshotRow>,
>)
    ensures
        forall|i: int|
            0 <= i < changes@.len() ==> is_called_for(
                #[trigger] changes@[i],
                before@.snapshots,
                after@.snapshots,
                of_one_snapshot(),
            ),
        before@.keyed() && after@.keyed() ==> same_rows(
            all_changed(before@.snapshots, changes@, of_one_snapshot()),
            after@.snapshots,
        ),
{
    let one_key = |a: &SnapshotRow, b: &SnapshotRow| -> (yes: bool)
        ensures
            yes == of_one_snapshot()(a@, b@),
        { is_same_snapshot(&a.record, &b.record) };
    let equal = |a: &SnapshotRow, b: &SnapshotRow| -> (yes: bool)
        ensures
            yes == (a@ == b@),
        { equal_snapshots(&a.record, &b.record) && same_date(&a.date, &b.date) };
    let copy = |a: &SnapshotRow| -> (row: SnapshotRow)
        ensures
            row@ == a@,
        { a.copy() };
    row_changes(
        &before.snapshots,
        &after.snapshots,
        one_key,
        equal,
        copy,
        Ghost(of_one_snapshot()),
    )
}

/// What has to be written to the `replicas` table so that it holds other rows.
pub fn replica_changes(before: &Database, after: &Database) -> (changes: Vec<RowChange<ReplicaRow>>)
    ensures
        forall|i: int|
            0 <= i < changes@.len() ==> is_called_for(
                #[trigger] changes@[i],
                before@.replicas,
                after@.replicas,
                of_one_replica(),
            ),
        before@.keyed() && after@.keyed() ==> same_rows(
            all_changed(before@.replicas, changes@, of_one_replica()),
            after@.replicas,
        ),
{
    let one_key = |a: &ReplicaRow, b: &ReplicaRow| -> (yes: bool)
        ensures
            yes == of_one_replica()(a@, b@),
        { is_same_replica(&a.record, &b.record) };
    let equal = |a: &ReplicaRow, b: &ReplicaRow| -> (yes: bool)
        ensures
            yes == (a@ == b@),
        {
            equal_replicas(&a.record, &b.record) && same_date(&a.date, &b.date) && a.pruned
                == b.pruned
        };
    let copy = |a: &ReplicaRow| -> (row: ReplicaRow)
        ensures
            row@ == a@,
        { a.copy() };
    row_changes(
        &before.replicas,
        &after.replicas,
        one_key,
        equal,
        copy,
        Ghost(of_one_replica()),
    )
}

} // verus!
