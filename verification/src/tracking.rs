//! What holds of the tables, whatever is recorded, selected and removed.
use crate::database::{
    called, cleaned, cleanup_rows, date_before, found, is_older, is_older_replica, is_quoted,
    migrated, names_of, new_replica_row, new_row, newest_first, newest_replica_first, oldest_first,
    oldest_replica_first, parents, parents_at, pending, present_kind, prune_rows, pruned_row,
    read_replica, read_snapshot, replicas_of, same_replica, same_snapshot, sendable, sent_names, sent_to, snapshots_of,
    stored_snapshots_of, unquoted, without_replica, without_snapshot, Stamp, Tables, TrackedReplica,
    TrackedSnapshot,
};
use crate::order::{
    arranged, lemma_arranged_contains, lemma_arranged_in_order, lemma_arranged_items,
    lemma_distinct, lemma_wanted, ranks,
};
use crate::sending::unsent;
use crate::structs::{Replica, Snapshot};
use crate::text::{cut, lemma_text_order_total, lemma_text_order_transitive, text_before};
use vstd::prelude::*;

verus! {

/// Of three dates the order of the first and the last passes through the one between.
proof fn lemma_date_order(a: Option<Seq<char>>, b: Option<Seq<char>>, c: Option<Seq<char>>)
    ensures
        !(date_before(a, b) && date_before(b, a)),
        !date_before(a, a),
        a == b || date_before(a, b) || date_before(b, a),
        date_before(a, b) && date_before(b, c) ==> date_before(a, c),
{
    if let Some(a) = a {
        lemma_text_order_total(a, a);
    }
    if let (Some(a), Some(b)) = (a, b) {
        lemma_text_order_total(a, b);
        if let Some(c) = c {
            if text_before(a, b) && text_before(b, c) {
                lemma_text_order_transitive(a, b, c);
            }
        }
    }
}

/// Of three names the order of the first and the last passes through the one between.
pub proof fn lemma_name_order(a: Seq<char>, b: Seq<char>, c: Seq<char>)
    ensures
        !(text_before(a, b) && text_before(b, a)),
        !text_before(a, a),
        a == b || text_before(a, b) || text_before(b, a),
        text_before(a, b) && text_before(b, c) ==> text_before(a, c),
{
    lemma_text_order_total(a, b);
    lemma_text_order_total(a, a);
    if text_before(a, b) && text_before(b, c) {
        lemma_text_order_transitive(a, b, c);
    }
}

proof fn lemma_older(a: TrackedSnapshot, b: TrackedSnapshot, c: TrackedSnapshot)
    ensures
        is_older(a, b) ==> !is_older(b, a),
        is_older(a, c) ==> is_older(a, b) || is_older(b, c),
{
    lemma_date_order(a.date, b.date, c.date);
    lemma_date_order(b.date, a.date, c.date);
    lemma_date_order(b.date, c.date, a.date);
    lemma_date_order(c.date, b.date, a.date);
    lemma_date_order(a.date, c.date, b.date);
    lemma_name_order(a.record.name, b.record.name, c.record.name);
    lemma_name_order(b.record.name, a.record.name, c.record.name);
    lemma_name_order(b.record.name, c.record.name, a.record.name);
    lemma_name_order(c.record.name, b.record.name, a.record.name);
    lemma_name_order(a.record.name, c.record.name, b.record.name);
}

proof fn lemma_older_replica(a: TrackedReplica, b: TrackedReplica, c: TrackedReplica)
    ensures
        is_older_replica(a, b) ==> !is_older_replica(b, a),
        is_older_replica(a, c) ==> is_older_replica(a, b) || is_older_replica(b, c),
{
    let (x, y, z) = (a.record.snapshot_date, b.record.snapshot_date, c.record.snapshot_date);
    lemma_name_order(x, y, z);
    lemma_name_order(y, x, z);
    lemma_name_order(y, z, x);
    lemma_name_order(z, y, x);
    lemma_name_order(x, z, y);
    lemma_name_order(a.record.name, b.record.name, c.record.name);
    lemma_name_order(b.record.name, a.record.name, c.record.name);
    lemma_name_order(b.record.name, c.record.name, a.record.name);
    lemma_name_order(c.record.name, b.record.name, a.record.name);
    lemma_name_order(a.record.name, c.record.name, b.record.name);
}

/// The orders by age rank the rows.
pub proof fn lemma_ages_rank()
    ensures
        ranks(newest_first()),
        ranks(oldest_first()),
        ranks(newest_replica_first()),
        ranks(oldest_replica_first()),
{
    assert forall|a: TrackedSnapshot, b: TrackedSnapshot| #[trigger]
        newest_first()(a, b) implies !newest_first()(b, a) by {
        lemma_older(b, a, a);
    }
    assert forall|a: TrackedSnapshot, b: TrackedSnapshot, c: TrackedSnapshot|
        #![trigger newest_first()(a, b), newest_first()(b, c)]
        newest_first()(a, c) implies newest_first()(a, b) || newest_first()(b, c) by {
        lemma_older(c, b, a);
    }
    assert forall|a: TrackedSnapshot, b: TrackedSnapshot| #[trigger]
        oldest_first()(a, b) implies !oldest_first()(b, a) by {
        lemma_older(a, b, b);
    }
    assert forall|a: TrackedSnapshot, b: TrackedSnapshot, c: TrackedSnapshot|
        #![trigger oldest_first()(a, b), oldest_first()(b, c)]
        oldest_first()(a, c) implies oldest_first()(a, b) || oldest_first()(b, c) by {
        lemma_older(a, b, c);
    }
    assert forall|a: TrackedReplica, b: TrackedReplica| #[trigger]
        newest_replica_first()(a, b) implies !newest_replica_first()(b, a) by {
        lemma_older_replica(b, a, a);
    }
    assert forall|a: TrackedReplica, b: TrackedReplica, c: TrackedReplica|
        #![trigger newest_replica_first()(a, b), newest_replica_first()(b, c)]
        newest_replica_first()(a, c) implies newest_replica_first()(a, b) || newest_replica_first()(
        b,
        c,
    ) by {
        lemma_older_replica(c, b, a);
    }
    assert forall|a: TrackedReplica, b: TrackedReplica| #[trigger]
        oldest_replica_first()(a, b) implies !oldest_replica_first()(b, a) by {
        lemma_older_replica(a, b, b);
    }
    assert forall|a: TrackedReplica, b: TrackedReplica, c: TrackedReplica|
        #![trigger oldest_replica_first()(a, b), oldest_replica_first()(b, c)]
        oldest_replica_first()(a, c) implies oldest_replica_first()(a, b) || oldest_replica_first()(
        b,
        c,
    ) by {
        lemma_older_replica(a, b, c);
    }
}

/// Listing the snapshots shows each tracked one once, and none before a newer one.
pub proof fn lemma_listing(tables: Tables)
    ensures
        arranged(tables.snapshots, newest_first()).to_multiset() == tables.snapshots.to_multiset(),
        forall|i: int, j: int|
            #![trigger arranged(tables.snapshots, newest_first())[i], arranged(tables.snapshots, newest_first())[j]]
            0 <= i < j < tables.snapshots.len() ==> !is_older(
                arranged(tables.snapshots, newest_first())[i],
                arranged(tables.snapshots, newest_first())[j],
            ),
{
    let all = arranged(tables.snapshots, newest_first());
    lemma_ages_rank();
    lemma_arranged_items(tables.snapshots, newest_first());
    lemma_arranged_in_order(tables.snapshots, newest_first());
    assert forall|i: int, j: int|
        #![trigger all[i], all[j]]
        0 <= i < j < tables.snapshots.len() implies !is_older(all[i], all[j]) by {
        assert(!newest_first()(all[j], all[i]));
    }
}

/// A snapshot that was recorded is found by its name and by its id.
pub proof fn lemma_recorded_is_found(
    before: Tables,
    after: Tables,
    snapshot: Snapshot,
    stamp: Stamp,
)
    requires
        after.snapshots == before.snapshots.push(new_row(snapshot, stamp)),
    ensures
        found(after, snapshot.name).contains(read_snapshot(new_row(snapshot, stamp).record)),
        found(after, snapshot.snap_id).contains(read_snapshot(new_row(snapshot, stamp).record)),
{
    let row = new_row(snapshot, stamp);
    assert(after.snapshots[before.snapshots.len() as int] == row);
    lemma_found(after, snapshot.name, row);
    lemma_found(after, snapshot.snap_id, row);
}

proof fn lemma_found(tables: Tables, id_or_name: Seq<char>, row: TrackedSnapshot)
    requires
        tables.snapshots.contains(row),
        called(id_or_name)(row),
    ensures
        found(tables, id_or_name).contains(read_snapshot(row.record)),
{
    let wanted = tables.snapshots.filter(called(id_or_name));
    let sorted = arranged(wanted, newest_first());
    lemma_wanted(tables.snapshots, called(id_or_name));
    lemma_arranged_contains(wanted, newest_first());
    assert(wanted.contains(row));
    assert(sorted.contains(row));
    let k = choose|k: int| 0 <= k < sorted.len() && sorted[k] == row;
    assert(snapshots_of(sorted)[k] == read_snapshot(row.record));
}

/// Deleting a snapshot that was just recorded leaves the table as it was.
pub proof fn lemma_delete_undoes_insert(before: Tables, snapshot: Snapshot, stamp: Stamp)
    requires
        !before.tracks(snapshot),
    ensures
        before.snapshots.push(new_row(snapshot, stamp)).filter(without_snapshot(snapshot))
            == before.snapshots,
{
    let row = new_row(snapshot, stamp);
    let wants = without_snapshot(snapshot);
    let all = before.snapshots.push(row);
    reveal(Seq::filter);
    assert(all.drop_last() =~= before.snapshots);
    assert(!wants(row));
    assert forall|i: int| 0 <= i < before.snapshots.len() implies wants(
        #[trigger] before.snapshots[i],
    ) by {}
    lemma_all_wanted(before.snapshots, wants);
}

proof fn lemma_all_wanted<V>(s: Seq<V>, wants: spec_fn(V) -> bool)
    requires
        forall|i: int| 0 <= i < s.len() ==> wants(#[trigger] s[i]),
    ensures
        s.filter(wants) == s,
    decreases s.len(),
{
    reveal(Seq::filter);
    if s.len() > 0 {
        lemma_all_wanted(s.drop_last(), wants);
        assert(s.drop_last().push(s.last()) =~= s);
        assert(wants(s[s.len() - 1]));
    } else {
        assert(s.filter(wants) =~= s);
    }
}

/// A deleted snapshot is tracked no more, and all others still are.
pub proof fn lemma_deleted_is_gone(before: Tables, after: Tables, snapshot: Snapshot)
    requires
        after.snapshots == before.snapshots.filter(without_snapshot(snapshot)),
    ensures
        !after.tracks(snapshot),
        forall|row: TrackedSnapshot| #[trigger]
            before.snapshots.contains(row) && !same_snapshot(row.record, snapshot)
                ==> after.snapshots.contains(row),
{
    lemma_wanted(before.snapshots, without_snapshot(snapshot));
    assert forall|i: int| 0 <= i < after.snapshots.len() implies !same_snapshot(
        (#[trigger] after.snapshots[i]).record,
        snapshot,
    ) by {
        assert(after.snapshots.contains(after.snapshots[i]));
        assert(without_snapshot(snapshot)(after.snapshots[i]));
    }
    assert forall|row: TrackedSnapshot| #[trigger]
        before.snapshots.contains(row) && !same_snapshot(
            row.record,
            snapshot,
        ) implies after.snapshots.contains(row) by {
        assert(without_snapshot(snapshot)(row));
    }
}

/// A cleanup keeps the newest `keep` snapshots that it looks at: no candidate is newer than one
/// that is kept, as many as should be are kept, and every candidate is a tracked snapshot of the
/// prefix, kind, mode and machine that was asked for.
pub proof fn lemma_cleanup_keeps_the_newest(
    tables: Tables,
    prefix: Seq<char>,
    kind: Seq<char>,
    read_write: bool,
    machine: Seq<char>,
    keep: nat,
)
    ensures
        ({
            let wants = cleaned(prefix, kind, read_write, machine);
            let all = arranged(tables.snapshots.filter(wants), newest_first());
            let gone = cleanup_rows(tables, prefix, kind, read_write, machine, keep);
            &&& all.to_multiset() == tables.snapshots.filter(wants).to_multiset()
            &&& gone.len() == if keep < all.len() {
                all.len() - keep
            } else {
                0
            }
            &&& forall|i: int, j: int|
                #![trigger all[i], gone[j]]
                0 <= i < keep && i < all.len() && 0 <= j < gone.len() ==> !is_older(
                    all[i],
                    gone[j],
                )
            &&& forall|j: int|
                0 <= j < gone.len() ==> tables.snapshots.contains(#[trigger] gone[j]) && wants(
                    gone[j],
                )
        }),
{
    let wants = cleaned(prefix, kind, read_write, machine);
    let looked_at = tables.snapshots.filter(wants);
    let all = arranged(looked_at, newest_first());
    let gone = cleanup_rows(tables, prefix, kind, read_write, machine, keep);
    lemma_ages_rank();
    lemma_arranged_items(looked_at, newest_first());
    lemma_arranged_in_order(looked_at, newest_first());
    lemma_arranged_contains(looked_at, newest_first());
    lemma_wanted(tables.snapshots, wants);
    assert forall|i: int, j: int|
        #![trigger all[i], gone[j]]
        0 <= i < keep && i < all.len() && 0 <= j < gone.len() implies !is_older(
        all[i],
        gone[j],
    ) by {
        assert(gone[j] == all[keep + j]);
        assert(!newest_first()(all[keep + j], all[i]));
    }
    assert forall|j: int| 0 <= j < gone.len() implies tables.snapshots.contains(
        #[trigger] gone[j],
    ) && wants(gone[j]) by {
        assert(gone[j] == all[keep + j]);
        assert(all.contains(all[keep + j]));
        assert(looked_at.contains(all[keep + j]));
    }
}

/// Snapshots that a cleanup does not look at have no say in what it removes: those of another
/// machine, mode or kind never push others out of what is kept.
pub proof fn lemma_cleanup_ignores_others(
    tables: Tables,
    more: Tables,
    other: TrackedSnapshot,
    prefix: Seq<char>,
    kind: Seq<char>,
    read_write: bool,
    machine: Seq<char>,
    keep: nat,
)
    requires
        more.snapshots == tables.snapshots.push(other),
        !cleaned(prefix, kind, read_write, machine)(other),
    ensures
        cleanup_rows(more, prefix, kind, read_write, machine, keep) == cleanup_rows(
            tables,
            prefix,
            kind,
            read_write,
            machine,
            keep,
        ),
{
    reveal(Seq::filter);
    assert(more.snapshots.drop_last() =~= tables.snapshots);
}

/// The snapshots to send are tracked read-only ones of the prefix and machine, none behind a
/// newer one, and all of them.
pub proof fn lemma_pending(tables: Tables, prefix: Seq<char>, machine: Seq<char>)
    ensures
        ({
            let rows = arranged(tables.snapshots.filter(sendable(prefix, machine)), oldest_first());
            &&& pending(tables, prefix, machine) == stored_snapshots_of(rows)
            &&& forall|row: TrackedSnapshot| #[trigger]
                rows.contains(row) <==> tables.snapshots.contains(row) && sendable(prefix, machine)(
                    row,
                )
            &&& forall|i: int, j: int|
                #![trigger rows[i], rows[j]]
                0 <= i < j < rows.len() ==> !is_older(rows[j], rows[i])
        }),
{
    let wanted = tables.snapshots.filter(sendable(prefix, machine));
    let rows = arranged(wanted, oldest_first());
    lemma_ages_rank();
    lemma_wanted(tables.snapshots, sendable(prefix, machine));
    lemma_arranged_contains(wanted, oldest_first());
    lemma_arranged_in_order(wanted, oldest_first());
    assert forall|i: int, j: int|
        #![trigger rows[i], rows[j]]
        0 <= i < j < rows.len() implies !is_older(rows[j], rows[i]) by {
        assert(!oldest_first()(rows[j], rows[i]));
    }
}

/// Every row of the target counts for the names that were sent there.
pub proof fn lemma_sent_names(tables: Tables, target: Seq<char>, name: Seq<char>)
    ensures
        sent_names(tables, target).contains(name) <==> exists|i: int|
            0 <= i < tables.replicas.len() && (#[trigger] tables.replicas[i]).record.target
                == target && cut(tables.replicas[i].record.name) == name,
{
    let rows = tables.replicas.filter(sent_to(target));
    let names = names_of(rows);
    lemma_wanted(tables.replicas, sent_to(target));
    lemma_distinct(names);
    if names.contains(name) {
        let k = choose|k: int| 0 <= k < names.len() && names[k] == name;
        assert(rows.contains(rows[k]));
        let i = choose|i: int| 0 <= i < tables.replicas.len() && tables.replicas[i] == rows[k];
        assert(sent_to(target)(tables.replicas[i]));
        assert(cut(tables.replicas[i].record.name) == name);
    }
    if exists|i: int|
        0 <= i < tables.replicas.len() && (#[trigger] tables.replicas[i]).record.target == target
            && cut(tables.replicas[i].record.name) == name {
        let i = choose|i: int|
            0 <= i < tables.replicas.len() && (#[trigger] tables.replicas[i]).record.target
                == target && cut(tables.replicas[i].record.name) == name;
        assert(tables.replicas.contains(tables.replicas[i]));
        assert(sent_to(target)(tables.replicas[i]));
        assert(rows.contains(tables.replicas[i]));
        let k = choose|k: int| 0 <= k < rows.len() && rows[k] == tables.replicas[i];
        assert(names[k] == name);
    }
}

/// What is still to be sent to a target are the pending snapshots that were never sent there, in
/// their order. A snapshot with a replica recorded for the target is not among them, not even when
/// the replica was pruned.
pub proof fn lemma_nothing_is_sent_twice(
    tables: Tables,
    target: Seq<char>,
    prefix: Seq<char>,
    machine: Seq<char>,
    i: int,
    snapshot: Snapshot,
)
    requires
        0 <= i < tables.replicas.len(),
        tables.replicas[i].record.target == target,
    ensures
        pending(tables, prefix, machine).filter(unsent(sent_names(tables, target))).contains(
            snapshot,
        ) ==> snapshot.name != cut(tables.replicas[i].record.name),
{
    let list = pending(tables, prefix, machine);
    lemma_wanted(list, unsent(sent_names(tables, target)));
    lemma_sent_names(tables, target, snapshot.name);
    if list.filter(unsent(sent_names(tables, target))).contains(snapshot) {
        assert(unsent(sent_names(tables, target))(snapshot));
    }
}

/// A replica that was recorded counts as sent to its target, and the next incremental send of
/// its source subvolume can start from it.
pub proof fn lemma_recorded_replica_is_sent(
    before: Tables,
    after: Tables,
    replica: Replica,
    stamp: Stamp,
)
    requires
        after.replicas == before.replicas.filter(without_replica(replica)).push(
            new_replica_row(replica, stamp),
        ),
    ensures
        sent_names(after, replica.target).contains(cut(replica.name)),
        parents_at(after, replica.target, replica.source, replica.machine).contains(
            read_replica(new_replica_row(replica, stamp).record),
        ),
{
    let row = new_replica_row(replica, stamp);
    assert(after.replicas[after.replicas.len() - 1] == row);
    lemma_sent_names(after, replica.target, cut(replica.name));
    let wants = parents(replica.target, replica.source, replica.machine);
    let wanted = after.replicas.filter(wants);
    let sorted = arranged(wanted, newest_replica_first());
    lemma_wanted(after.replicas, wants);
    lemma_arranged_contains(wanted, newest_replica_first());
    assert(after.replicas.contains(row));
    assert(wants(row));
    assert(wanted.contains(row));
    assert(sorted.contains(row));
    let k = choose|k: int| 0 <= k < sorted.len() && sorted[k] == row;
    assert(replicas_of(sorted)[k] == read_replica(row.record));
}

/// A pruned replica still counts as sent to its target, so its snapshot is not sent there again.
pub proof fn lemma_pruned_replica_stays_sent(
    before: Tables,
    after: Tables,
    replica: Replica,
    target: Seq<char>,
)
    requires
        after.replicas == before.replicas.map_values(
            |row: TrackedReplica| pruned_row(row, replica),
        ),
    ensures
        sent_names(after, target) == sent_names(before, target),
{
    lemma_filter_of_pruned(before.replicas, after.replicas, replica, target);
}

/// No incremental send starts from a pruned replica: its row is not among those that the parents
/// are read from.
pub proof fn lemma_pruned_replica_is_no_parent(
    before: Tables,
    after: Tables,
    replica: Replica,
    target: Seq<char>,
    source: Seq<char>,
    machine: Seq<char>,
)
    requires
        after.replicas == before.replicas.map_values(
            |row: TrackedReplica| pruned_row(row, replica),
        ),
    ensures
        ({
            let rows = arranged(
                after.replicas.filter(parents(target, source, machine)),
                newest_replica_first(),
            );
            &&& parents_at(after, target, source, machine) == replicas_of(rows)
            &&& forall|i: int|
                0 <= i < rows.len() ==> !same_replica((#[trigger] rows[i]).record, replica)
        }),
{
    let wants = parents(target, source, machine);
    let wanted = after.replicas.filter(wants);
    let rows = arranged(wanted, newest_replica_first());
    lemma_wanted(after.replicas, wants);
    lemma_arranged_contains(wanted, newest_replica_first());
    assert forall|k: int| 0 <= k < rows.len() implies !same_replica(
        (#[trigger] rows[k]).record,
        replica,
    ) by {
        assert(rows.contains(rows[k]));
        assert(wanted.contains(rows[k]));
        let i = choose|i: int| 0 <= i < after.replicas.len() && after.replicas[i] == rows[k];
        assert(after.replicas[i] == pruned_row(before.replicas[i], replica));
        assert(wants(rows[k]));
    }
}

proof fn lemma_filter_of_pruned(
    before: Seq<TrackedReplica>,
    after: Seq<TrackedReplica>,
    replica: Replica,
    target: Seq<char>,
)
    requires
        after == before.map_values(|row: TrackedReplica| pruned_row(row, replica)),
    ensures
        names_of(after.filter(sent_to(target))) == names_of(before.filter(sent_to(target))),
    decreases before.len(),
{
    reveal(Seq::filter);
    let wants = sent_to(target);
    if before.len() > 0 {
        assert(after.drop_last() =~= before.drop_last().map_values(
            |row: TrackedReplica| pruned_row(row, replica),
        ));
        lemma_filter_of_pruned(before.drop_last(), after.drop_last(), replica, target);
        assert(after.last() == pruned_row(before.last(), replica));
        assert(wants(after.last()) == wants(before.last()));
        let front = before.drop_last().filter(wants);
        let shown = after.drop_last().filter(wants);
        if wants(before.last()) {
            assert(names_of(front.push(before.last())) =~= names_of(front).push(
                cut(before.last().record.name),
            ));
            assert(names_of(shown.push(after.last())) =~= names_of(shown).push(
                cut(after.last().record.name),
            ));
        }
    } else {
        assert(after.filter(wants) =~= before.filter(wants));
    }
}

/// A forgotten replica does not count as sent any more, so its snapshot is sent again. Snapshots
/// that share the name as it is read but not the id of the forgotten one are left out: theirs are
/// other replicas, and they still count.
pub proof fn lemma_forgotten_replica_is_pending(before: Tables, after: Tables, replica: Replica)
    requires
        after.replicas == before.replicas.filter(without_replica(replica)),
        forall|i: int|
            0 <= i < before.replicas.len() && cut((#[trigger] before.replicas[i]).record.name)
                == cut(replica.name) && before.replicas[i].record.target == replica.target
                ==> same_replica(before.replicas[i].record, replica),
    ensures
        !sent_names(after, replica.target).contains(cut(replica.name)),
{
    lemma_sent_names(after, replica.target, cut(replica.name));
    lemma_wanted(before.replicas, without_replica(replica));
    assert forall|i: int| 0 <= i < after.replicas.len() implies !((
    #[trigger] after.replicas[i]).record.target == replica.target && cut(
        after.replicas[i].record.name,
    ) == cut(replica.name)) by {
        assert(after.replicas.contains(after.replicas[i]));
        assert(without_replica(replica)(after.replicas[i]));
        let k = choose|k: int|
            0 <= k < before.replicas.len() && before.replicas[k] == after.replicas[i];
        assert(before.replicas[k].record == after.replicas[i].record);
    }
}

/// The remote retention keeps the newest `keep` replicas of a kind: no replica that goes is newer
/// than one that stays, and as many as should stay do. With `keep` at least one, the newest
/// replica, from which the next incremental send starts, stays.
pub proof fn lemma_prune_keeps_the_newest(
    tables: Tables,
    target: Seq<char>,
    prefix: Seq<char>,
    kind: Seq<char>,
    machine: Seq<char>,
    keep: nat,
)
    ensures
        ({
            let wants = present_kind(target, prefix, kind, machine);
            let all = arranged(tables.replicas.filter(wants), newest_replica_first());
            let gone = prune_rows(tables, target, prefix, kind, machine, keep);
            &&& all.to_multiset() == tables.replicas.filter(wants).to_multiset()
            &&& gone.len() == if keep < all.len() {
                all.len() - keep
            } else {
                0
            }
            &&& forall|i: int, j: int|
                #![trigger all[i], gone[j]]
                0 <= i < keep && i < all.len() && 0 <= j < gone.len() ==> !is_older_replica(
                    all[i],
                    gone[j],
                )
            &&& forall|j: int|
                0 <= j < gone.len() ==> tables.replicas.contains(#[trigger] gone[j]) && wants(
                    gone[j],
                )
        }),
{
    let wants = present_kind(target, prefix, kind, machine);
    let looked_at = tables.replicas.filter(wants);
    let all = arranged(looked_at, newest_replica_first());
    let gone = prune_rows(tables, target, prefix, kind, machine, keep);
    lemma_ages_rank();
    lemma_arranged_items(looked_at, newest_replica_first());
    lemma_arranged_in_order(looked_at, newest_replica_first());
    lemma_arranged_contains(looked_at, newest_replica_first());
    lemma_wanted(tables.replicas, wants);
    assert forall|i: int, j: int|
        #![trigger all[i], gone[j]]
        0 <= i < keep && i < all.len() && 0 <= j < gone.len() implies !is_older_replica(
        all[i],
        gone[j],
    ) by {
        assert(gone[j] == all[keep + j]);
        assert(!newest_replica_first()(all[keep + j], all[i]));
    }
    assert forall|j: int| 0 <= j < gone.len() implies tables.replicas.contains(
        #[trigger] gone[j],
    ) && wants(gone[j]) by {
        assert(gone[j] == all[keep + j]);
        assert(all.contains(all[keep + j]));
        assert(looked_at.contains(all[keep + j]));
    }
}

/// Migrating a row twice is migrating it once, unless the machine name was quoted twice.
pub proof fn lemma_migration_idempotent(row: TrackedSnapshot)
    requires
        !is_quoted(cut(unquoted(row.record.machine))),
    ensures
        migrated(migrated(row)) == migrated(row),
{
}

} // verus!
