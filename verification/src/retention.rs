//! What the retention of a target leaves there.
use crate::database::{
    beyond, cut_texts, kinds_at, kinds_of, lemma_filter_keyed, newest_replica_first,
    oldest_replica_first, present, present_kind, prune_rows, pruned_row, read_replica, replicas_of,
    same_replica, Tables, TrackedReplica,
};
use crate::order::{
    arranged, arranged_texts, distinct, lemma_arranged_contains, lemma_arranged_items,
    lemma_distinct, lemma_wanted,
};
use crate::sending::leaving;
use crate::structs::Replica;
use crate::text::{cut, lemma_cut, text_before};
use vstd::prelude::*;

verus! {

/// The rows after the first `n` of these replicas were marked as pruned.
pub open spec fn marked(rows: Seq<TrackedReplica>, list: Seq<Replica>, n: nat) -> Seq<
    TrackedReplica,
>
    decreases n,
{
    if n == 0 || n > list.len() {
        rows
    } else {
        marked(rows, list, (n - 1) as nat).map_values(
            |row: TrackedReplica| pruned_row(row, list[n - 1]),
        )
    }
}

/// Whether a replica is one of the first `n` in a list.
pub open spec fn is_among(replica: Replica, list: Seq<Replica>, n: nat) -> bool {
    exists|j: int| 0 <= j < n && same_replica(replica, #[trigger] list[j])
}

proof fn lemma_marked(rows: Seq<TrackedReplica>, list: Seq<Replica>, n: nat)
    requires
        n <= list.len(),
    ensures
        marked(rows, list, n).len() == rows.len(),
        forall|i: int|
            0 <= i < rows.len() ==> #[trigger] marked(rows, list, n)[i] == if is_among(
                rows[i].record,
                list,
                n,
            ) {
                TrackedReplica { pruned: true, ..rows[i] }
            } else {
                rows[i]
            },
    decreases n,
{
    if n > 0 {
        let m = (n - 1) as nat;
        let before = marked(rows, list, m);
        lemma_marked(rows, list, m);
        assert forall|i: int| 0 <= i < rows.len() implies #[trigger] marked(rows, list, n)[i]
            == if is_among(rows[i].record, list, n) {
            TrackedReplica { pruned: true, ..rows[i] }
        } else {
            rows[i]
        } by {
            assert(marked(rows, list, n)[i] == pruned_row(before[i], list[n - 1]));
            assert(before[i].record == rows[i].record);
            if same_replica(rows[i].record, list[n - 1]) {
                assert(is_among(rows[i].record, list, n));
            } else if is_among(rows[i].record, list, n) {
                let j = choose|j: int|
                    0 <= j < n && same_replica(rows[i].record, #[trigger] list[j]);
                assert(0 <= j < m && same_replica(rows[i].record, list[j]));
            } else if is_among(rows[i].record, list, m) {
                let j = choose|j: int|
                    0 <= j < m && same_replica(rows[i].record, #[trigger] list[j]);
                assert(0 <= j < n && same_replica(rows[i].record, list[j]));
            }
        }
    }
}

/// What leaves a target is read from the rows that are beyond what is kept of one of the kinds.
pub proof fn lemma_leaving_is_pruned(
    tables: Tables,
    target: Seq<char>,
    prefix: Seq<char>,
    machine: Seq<char>,
    keep: nat,
    kinds: Seq<Seq<char>>,
    n: nat,
    j: int,
) -> (found: (int, TrackedReplica))
    requires
        n <= kinds.len(),
        0 <= j < leaving(tables, target, prefix, machine, keep, kinds, n).len(),
    ensures
        0 <= found.0 < n,
        prune_rows(tables, target, prefix, kinds[found.0], machine, keep).contains(found.1),
        leaving(tables, target, prefix, machine, keep, kinds, n)[j] == read_replica(
            found.1.record,
        ),
    decreases n,
{
    let m = (n - 1) as nat;
    let before = leaving(tables, target, prefix, machine, keep, kinds, m);
    if j < before.len() {
        lemma_leaving_is_pruned(tables, target, prefix, machine, keep, kinds, m, j)
    } else {
        let rows = prune_rows(tables, target, prefix, kinds[m as int], machine, keep);
        let sorted = arranged(rows, oldest_replica_first());
        lemma_arranged_contains(rows, oldest_replica_first());
        let row = sorted[j - before.len()];
        assert(sorted.contains(row));
        (m as int, row)
    }
}

/// Whatever is beyond what is kept of one of the kinds leaves the target.
pub proof fn lemma_pruned_is_leaving(
    tables: Tables,
    target: Seq<char>,
    prefix: Seq<char>,
    machine: Seq<char>,
    keep: nat,
    kinds: Seq<Seq<char>>,
    n: nat,
    m: int,
    row: TrackedReplica,
) -> (j: int)
    requires
        0 <= m < n <= kinds.len(),
        prune_rows(tables, target, prefix, kinds[m], machine, keep).contains(row),
    ensures
        0 <= j < leaving(tables, target, prefix, machine, keep, kinds, n).len(),
        leaving(tables, target, prefix, machine, keep, kinds, n)[j] == read_replica(row.record),
    decreases n,
{
    let before = leaving(tables, target, prefix, machine, keep, kinds, (n - 1) as nat);
    if m < n - 1 {
        lemma_pruned_is_leaving(
            tables,
            target,
            prefix,
            machine,
            keep,
            kinds,
            (n - 1) as nat,
            m,
            row,
        )
    } else {
        let rows = prune_rows(tables, target, prefix, kinds[m], machine, keep);
        let sorted = arranged(rows, oldest_replica_first());
        lemma_arranged_contains(rows, oldest_replica_first());
        assert(sorted.contains(row));
        let k = choose|k: int| 0 <= k < sorted.len() && sorted[k] == row;
        assert(replicas_of(sorted)[k] == read_replica(row.record));
        before.len() + k
    }
}

/// Whether the replicas of a prefix and machine at a target are read as they are stored, as far as
/// the retention goes by it.
pub open spec fn read_whole(
    tables: Tables,
    target: Seq<char>,
    prefix: Seq<char>,
    machine: Seq<char>,
) -> bool {
    forall|i: int|
        0 <= i < tables.replicas.len() && present(target, prefix, machine)(
            #[trigger] tables.replicas[i],
        ) ==> {
            let record = tables.replicas[i].record;
            &&& !record.name.contains('\0')
            &&& !record.snap_id.contains('\0')
            &&& !record.target.contains('\0')
            &&& !record.kind.contains('\0')
        }
}

/// A replica at a target has its kind among those of the target.
pub proof fn lemma_kind_is_known(
    tables: Tables,
    target: Seq<char>,
    prefix: Seq<char>,
    machine: Seq<char>,
    row: TrackedReplica,
) -> (m: int)
    requires
        tables.replicas.contains(row),
        present(target, prefix, machine)(row),
    ensures
        0 <= m < kinds_at(tables, target, prefix, machine).len(),
        kinds_at(tables, target, prefix, machine)[m] == cut(row.record.kind),
{
    let wants = present(target, prefix, machine);
    let rows = tables.replicas.filter(wants);
    let kinds = kinds_of(rows);
    let goes = |a: Seq<char>, b: Seq<char>| text_before(a, b);
    let sorted = arranged_texts(distinct(kinds));
    lemma_wanted(tables.replicas, wants);
    assert(rows.contains(row));
    let k = choose|k: int| 0 <= k < rows.len() && rows[k] == row;
    assert(kinds[k] == row.record.kind);
    lemma_distinct(kinds);
    lemma_arranged_contains(distinct(kinds), goes);
    assert(distinct(kinds).contains(row.record.kind));
    assert(sorted.contains(row.record.kind));
    let m = choose|m: int| 0 <= m < sorted.len() && sorted[m] == row.record.kind;
    assert(cut_texts(sorted)[m] == cut(row.record.kind));
    m
}

proof fn lemma_no_duplicates(rows: Seq<TrackedReplica>, wants: spec_fn(TrackedReplica) -> bool)
    requires
        forall|i: int, j: int|
            0 <= i < j < rows.len() ==> !same_replica(
                (#[trigger] rows[i]).record,
                (#[trigger] rows[j]).record,
            ),
    ensures
        rows.filter(wants).no_duplicates(),
        arranged(rows.filter(wants), newest_replica_first()).no_duplicates(),
{
    let same = |a: TrackedReplica, b: TrackedReplica| same_replica(a.record, b.record);
    let kept = rows.filter(wants);
    lemma_filter_keyed(rows, wants, same);
    assert forall|i: int, j: int|
        0 <= i < kept.len() && 0 <= j < kept.len() && i != j implies kept[i] != kept[j] by {
        if i < j {
            assert(!same(kept[i], kept[j]));
        } else {
            assert(!same(kept[j], kept[i]));
        }
    }
    let sorted = arranged(kept, newest_replica_first());
    lemma_arranged_items(kept, newest_replica_first());
    kept.lemma_multiset_has_no_duplicates();
    assert(sorted.to_multiset() == kept.to_multiset());
    sorted.lemma_multiset_has_no_duplicates_conv();
}

/// Of the rows of a kind, those that are left after the retention are those that it keeps.
proof fn lemma_left_of_kind(
    before: Tables,
    after: Tables,
    target: Seq<char>,
    prefix: Seq<char>,
    kind: Seq<char>,
    machine: Seq<char>,
    keep: nat,
    row: TrackedReplica,
)
    requires
        before.keyed(),
        read_whole(before, target, prefix, machine),
        ({
            let kinds = kinds_at(before, target, prefix, machine);
            let list = leaving(before, target, prefix, machine, keep, kinds, kinds.len());
            after.replicas == marked(before.replicas, list, list.len())
        }),
    ensures
        after.replicas.filter(present_kind(target, prefix, kind, machine)).contains(row) <==> {
            &&& before.replicas.filter(present_kind(target, prefix, kind, machine)).contains(row)
            &&& !prune_rows(before, target, prefix, kind, machine, keep).contains(row)
        },
{
    let kinds = kinds_at(before, target, prefix, machine);
    let list = leaving(before, target, prefix, machine, keep, kinds, kinds.len());
    let wants = present_kind(target, prefix, kind, machine);
    let gone = prune_rows(before, target, prefix, kind, machine, keep);
    lemma_marked(before.replicas, list, list.len());
    lemma_wanted(before.replicas, wants);
    lemma_wanted(after.replicas, wants);
    if after.replicas.filter(wants).contains(row) {
        let i = choose|i: int| 0 <= i < after.replicas.len() && after.replicas[i] == row;
        assert(wants(row) && !row.pruned);
        assert(!is_among(before.replicas[i].record, list, list.len()));
        assert(before.replicas[i] == row);
        assert(before.replicas.contains(row));
        if gone.contains(row) {
            lemma_cut(row.record.kind);
            lemma_cut(row.record.name);
            lemma_cut(row.record.snap_id);
            lemma_cut(row.record.target);
            assert(present(target, prefix, machine)(before.replicas[i]));
            let m = lemma_kind_is_known(before, target, prefix, machine, row);
            let j = lemma_pruned_is_leaving(
                before,
                target,
                prefix,
                machine,
                keep,
                kinds,
                kinds.len(),
                m,
                row,
            );
            assert(same_replica(before.replicas[i].record, list[j]));
        }
    }
    if before.replicas.filter(wants).contains(row) && !gone.contains(row) {
        let i = choose|i: int| 0 <= i < before.replicas.len() && before.replicas[i] == row;
        assert(wants(row));
        if is_among(row.record, list, list.len()) {
            let j = choose|j: int| 0 <= j < list.len() && same_replica(row.record, #[trigger] list[j]);
            let (m, other) = lemma_leaving_is_pruned(
                before,
                target,
                prefix,
                machine,
                keep,
                kinds,
                kinds.len(),
                j,
            );
            let there = present_kind(target, prefix, kinds[m], machine);
            lemma_pruned_are_present(before, target, prefix, kinds[m], machine, keep, other);
            let k = choose|k: int| 0 <= k < before.replicas.len() && before.replicas[k] == other;
            assert(present(target, prefix, machine)(before.replicas[k]));
            lemma_cut(other.record.name);
            lemma_cut(other.record.snap_id);
            lemma_cut(other.record.target);
            assert(same_replica(row.record, other.record));
            if i < k {
                assert(!same_replica(before.replicas[i].record, before.replicas[k].record));
            } else if k < i {
                assert(!same_replica(before.replicas[k].record, before.replicas[i].record));
            }
            assert(there(other));
            assert(kinds[m] == kind);
        }
        assert(after.replicas[i] == row);
        assert(after.replicas.contains(row));
    }
}

proof fn lemma_pruned_are_present(
    tables: Tables,
    target: Seq<char>,
    prefix: Seq<char>,
    kind: Seq<char>,
    machine: Seq<char>,
    keep: nat,
    row: TrackedReplica,
)
    requires
        prune_rows(tables, target, prefix, kind, machine, keep).contains(row),
    ensures
        tables.replicas.contains(row),
        present_kind(target, prefix, kind, machine)(row),
{
    let wants = present_kind(target, prefix, kind, machine);
    let rows = tables.replicas.filter(wants);
    let all = arranged(rows, newest_replica_first());
    let gone = prune_rows(tables, target, prefix, kind, machine, keep);
    lemma_wanted(tables.replicas, wants);
    lemma_arranged_contains(rows, newest_replica_first());
    let k = choose|k: int| 0 <= k < gone.len() && gone[k] == row;
    assert(gone[k] == all[keep + k]);
    assert(all.contains(row));
    assert(rows.contains(row));
}

/// Once everything that leaves a target is marked as pruned, what is present there of each kind
/// are the newest `keep` replicas of it, and nothing leaves any more. Replicas with a NUL character
/// in their name, id, target or kind are left out: they are read only up to it, and their rows are
/// not found by what was read.
pub proof fn lemma_retention_keeps_exactly_the_newest(
    before: Tables,
    after: Tables,
    target: Seq<char>,
    prefix: Seq<char>,
    machine: Seq<char>,
    keep: nat,
    kind: Seq<char>,
)
    requires
        before.keyed(),
        read_whole(before, target, prefix, machine),
        ({
            let kinds = kinds_at(before, target, prefix, machine);
            let list = leaving(before, target, prefix, machine, keep, kinds, kinds.len());
            after.replicas == marked(before.replicas, list, list.len())
        }),
    ensures
        ({
            let wants = present_kind(target, prefix, kind, machine);
            let all = arranged(before.replicas.filter(wants), newest_replica_first());
            &&& forall|row: TrackedReplica| #[trigger]
                after.replicas.filter(wants).contains(row) <==> exists|i: int|
                    0 <= i < keep && i < all.len() && #[trigger] all[i] == row
            &&& prune_rows(after, target, prefix, kind, machine, keep).len() == 0
        }),
{
    let wants = present_kind(target, prefix, kind, machine);
    let rows = before.replicas.filter(wants);
    let all = arranged(rows, newest_replica_first());
    let gone = prune_rows(before, target, prefix, kind, machine, keep);
    let left = after.replicas.filter(wants);
    let kept = if keep < all.len() {
        all.take(keep as int)
    } else {
        all
    };
    lemma_no_duplicates(before.replicas, wants);
    lemma_arranged_contains(rows, newest_replica_first());
    assert forall|x: TrackedReplica| #[trigger] left.contains(x) <==> kept.contains(x) by {
        lemma_left_of_kind(before, after, target, prefix, kind, machine, keep, x);
        assert(all.contains(x) <==> rows.contains(x));
        if left.contains(x) {
            let k = choose|k: int| 0 <= k < all.len() && all[k] == x;
            if keep <= k {
                assert(gone[k - keep] == x);
            }
            assert(kept[k] == x);
        }
        if kept.contains(x) {
            let k = choose|k: int| 0 <= k < kept.len() && kept[k] == x;
            assert(all[k] == x);
            assert(all.contains(x));
            if gone.contains(x) {
                let j = choose|j: int| 0 <= j < gone.len() && gone[j] == x;
                assert(all[keep + j] == x);
            }
        }
    }
    assert forall|row: TrackedReplica| #[trigger] left.contains(row) <==> exists|i: int|
        0 <= i < keep && i < all.len() && #[trigger] all[i] == row by {
        assert(left.contains(row) <==> kept.contains(row));
        if left.contains(row) {
            let k = choose|k: int| 0 <= k < kept.len() && kept[k] == row;
            assert(all[k] == row);
        }
        if exists|i: int| 0 <= i < keep && i < all.len() && #[trigger] all[i] == row {
            let i = choose|i: int| 0 <= i < keep && i < all.len() && #[trigger] all[i] == row;
            assert(kept[i] == row);
        }
    }
    lemma_still_keyed(before, after, target, prefix, machine, keep);
    lemma_no_duplicates(after.replicas, wants);
    lemma_arranged_items(left, newest_replica_first());
    vstd::seq_lib::seq_to_set_is_finite(kept);
    left.unique_seq_to_set();
    kept.lemma_cardinality_of_set();
    assert(left.to_set().subset_of(kept.to_set())) by {
        assert forall|x: TrackedReplica| left.to_set().contains(x) implies kept.to_set().contains(
            x,
        ) by {
            assert(left.contains(x));
            assert(kept.contains(x));
        }
    }
    vstd::set_lib::lemma_len_subset(left.to_set(), kept.to_set());
}

proof fn lemma_still_keyed(
    before: Tables,
    after: Tables,
    target: Seq<char>,
    prefix: Seq<char>,
    machine: Seq<char>,
    keep: nat,
)
    requires
        before.keyed(),
        ({
            let kinds = kinds_at(before, target, prefix, machine);
            let list = leaving(before, target, prefix, machine, keep, kinds, kinds.len());
            after.replicas == marked(before.replicas, list, list.len())
        }),
    ensures
        forall|i: int, j: int|
            0 <= i < j < after.replicas.len() ==> !same_replica(
                (#[trigger] after.replicas[i]).record,
                (#[trigger] after.replicas[j]).record,
            ),
{
    let kinds = kinds_at(before, target, prefix, machine);
    let list = leaving(before, target, prefix, machine, keep, kinds, kinds.len());
    lemma_marked(before.replicas, list, list.len());
    assert forall|i: int, j: int| 0 <= i < j < after.replicas.len() implies !same_replica(
        (#[trigger] after.replicas[i]).record,
        (#[trigger] after.replicas[j]).record,
    ) by {
        assert(!same_replica(before.replicas[i].record, before.replicas[j].record));
    }
}

/// Once everything that leaves a target is marked as pruned, nothing leaves it any more.
pub proof fn lemma_retention_leaves_nothing_to_prune(
    before: Tables,
    after: Tables,
    target: Seq<char>,
    prefix: Seq<char>,
    machine: Seq<char>,
    keep: nat,
    kinds: Seq<Seq<char>>,
    n: nat,
)
    requires
        n <= kinds.len(),
        before.keyed(),
        read_whole(before, target, prefix, machine),
        ({
            let kinds = kinds_at(before, target, prefix, machine);
            let list = leaving(before, target, prefix, machine, keep, kinds, kinds.len());
            after.replicas == marked(before.replicas, list, list.len())
        }),
    ensures
        leaving(after, target, prefix, machine, keep, kinds, n).len() == 0,
    decreases n,
{
    if n > 0 {
        let m = (n - 1) as nat;
        lemma_retention_leaves_nothing_to_prune(
            before,
            after,
            target,
            prefix,
            machine,
            keep,
            kinds,
            m,
        );
        let rows = prune_rows(after, target, prefix, kinds[m as int], machine, keep);
        lemma_retention_keeps_exactly_the_newest(
            before,
            after,
            target,
            prefix,
            machine,
            keep,
            kinds[m as int],
        );
        lemma_arranged_items(rows, oldest_replica_first());
    }
}

} // verus!
