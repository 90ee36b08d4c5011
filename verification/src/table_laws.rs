//! What the tables hold and which rows an operation takes, said column by column.
use crate::database::{
    beyond, called, cleaned, cleanup_rows, found, is_older, is_older_replica, kinds_at, kinds_of,
    listed, listed_first, migrated, mode_text, names_of, new_replica_row, new_row, newest_first,
    newest_replica_first, oldest_first, oldest_replica_first, parents, parents_at, pending, present,
    present_kind, prune_rows, pruned_row, read_replica, read_snapshot, refused_for_replicas,
    refused_for_snapshots, replicas_of, same_replica, same_snapshot, sendable, sent_names, sent_to,
    snapshots_of, still_there, stored_snapshot, stored_snapshots_of, without_replica,
    without_snapshot, Stamp, Tables, TrackedReplica, TrackedSnapshot,
};
use crate::order::{
    arranged, arranged_texts, distinct, lemma_arranged_contains, lemma_arranged_in_order,
    lemma_arranged_items, lemma_distinct, lemma_placed_at, lemma_text_order_ranks, lemma_wanted,
    ranks, views,
};
use crate::pattern::has_prefix;
use crate::retention::lemma_kind_is_known;
use crate::sending::leaving;
use crate::structs::{Replica, ReplicaRecord, Snapshot, SnapshotRecord};
use crate::text::{cut, lemma_cut, lemma_text_order_total, slices, text_before, texts};
use crate::text_laws::{
    lemma_order_is_by_the_first_difference, lemma_read_up_to_nul, smaller_at,
};
use crate::tracking::{
    lemma_ages_rank, lemma_cleanup_keeps_the_newest, lemma_name_order, lemma_prune_keeps_the_newest,
    lemma_sent_names,
};
use vstd::prelude::*;
use vstd::utf8::encode_utf8;

verus! {

/// Whether a text is smaller than another one: where they first differ it has the smaller
/// character, or ends.
pub open spec fn is_smaller(a: Seq<char>, b: Seq<char>) -> bool {
    exists|k: int| smaller_at(a, b, k)
}

/// Dates are ordered as texts, from their first character on, and a missing date is older than any
/// other. Rows with one date are ordered by their names.
pub proof fn lemma_age(a: TrackedSnapshot, b: TrackedSnapshot)
    ensures
        a.date matches Some(x) ==> b.date matches Some(y) ==> x != y ==> (is_older(a, b)
            <==> is_smaller(x, y)),
        a.date is None && b.date is Some ==> is_older(a, b),
        b.date is None && a.date is Some ==> !is_older(a, b),
        a.date == b.date ==> (is_older(a, b) <==> is_smaller(a.record.name, b.record.name)),
{
    if let (Some(x), Some(y)) = (a.date, b.date) {
        lemma_order_is_by_the_first_difference(x, y);
        lemma_text_order_total(x, y);
    }
    lemma_order_is_by_the_first_difference(a.record.name, b.record.name);
}

/// The year that a date starts with.
pub open spec fn year(date: Seq<char>) -> int {
    (date[0] as int - '0' as int) * 1000 + (date[1] as int - '0' as int) * 100 + (date[2] as int
        - '0' as int) * 10 + (date[3] as int - '0' as int)
}

/// Whether a date starts with four digits.
pub open spec fn has_year(date: Seq<char>) -> bool {
    date.len() >= 4 && forall|i: int| 0 <= i < 4 ==> '0' <= #[trigger] date[i] && date[i] <= '9'
}

/// Of two snapshots of different years the one of the smaller year is older, whatever the rest of
/// their dates is.
pub proof fn lemma_years(a: TrackedSnapshot, b: TrackedSnapshot, x: Seq<char>, y: Seq<char>)
    requires
        a.date == Some(x),
        b.date == Some(y),
        has_year(x),
        has_year(y),
        year(x) < year(y),
    ensures
        is_older(a, b),
        !is_older(b, a),
{
    assert('0' <= x[0] <= '9' && '0' <= x[1] <= '9' && '0' <= x[2] <= '9' && '0' <= x[3] <= '9');
    assert('0' <= y[0] <= '9' && '0' <= y[1] <= '9' && '0' <= y[2] <= '9' && '0' <= y[3] <= '9');
    let k: int = if x[0] != y[0] {
        0
    } else if x[1] != y[1] {
        1
    } else if x[2] != y[2] {
        2
    } else {
        3
    };
    assert(smaller_at(x, y, k));
    lemma_age(a, b);
    lemma_age(b, a);
    lemma_order_is_by_the_first_difference(x, y);
    lemma_order_is_by_the_first_difference(y, x);
    lemma_text_order_total(x, y);
}

/// Replicas are ordered by the dates of their snapshots, as texts, and then by their names.
pub proof fn lemma_age_of_replicas(a: TrackedReplica, b: TrackedReplica)
    ensures
        a.record.snapshot_date != b.record.snapshot_date ==> (is_older_replica(a, b) <==> is_smaller(
            a.record.snapshot_date,
            b.record.snapshot_date,
        )),
        a.record.snapshot_date == b.record.snapshot_date ==> (is_older_replica(a, b)
            <==> is_smaller(a.record.name, b.record.name)),
{
    lemma_order_is_by_the_first_difference(a.record.snapshot_date, b.record.snapshot_date);
    lemma_order_is_by_the_first_difference(a.record.name, b.record.name);
    lemma_text_order_total(a.record.snapshot_date, b.record.snapshot_date);
}

/// The orders of the queries are by age: newest or oldest first, and replicas in a listing by
/// target where their snapshot is the same.
pub proof fn lemma_query_orders(
    a: TrackedSnapshot,
    b: TrackedSnapshot,
    x: TrackedReplica,
    y: TrackedReplica,
)
    ensures
        newest_first()(a, b) <==> is_older(b, a),
        oldest_first()(a, b) <==> is_older(a, b),
        newest_replica_first()(x, y) <==> is_older_replica(y, x),
        oldest_replica_first()(x, y) <==> is_older_replica(x, y),
        is_older_replica(y, x) ==> listed_first()(x, y),
        is_older_replica(x, y) ==> !listed_first()(x, y),
        !is_older_replica(x, y) && !is_older_replica(y, x) ==> (listed_first()(x, y) <==> is_smaller(
            x.record.target,
            y.record.target,
        )),
{
    lemma_order_is_by_the_first_difference(x.record.target, y.record.target);
    lemma_age_of_replicas(x, y);
    lemma_age_of_replicas(y, x);
    lemma_order_is_by_the_first_difference(x.record.snapshot_date, y.record.snapshot_date);
    lemma_order_is_by_the_first_difference(y.record.snapshot_date, x.record.snapshot_date);
    lemma_text_order_total(x.record.snapshot_date, y.record.snapshot_date);
    lemma_order_is_by_the_first_difference(x.record.name, y.record.name);
    lemma_order_is_by_the_first_difference(y.record.name, x.record.name);
    lemma_text_order_total(x.record.name, y.record.name);
}

/// The key of a snapshot is its name and its id, and that of a replica these two and its target.
pub proof fn lemma_keys(a: Snapshot, b: Snapshot, x: Replica, y: Replica)
    ensures
        same_snapshot(a, b) <==> a.name == b.name && a.snap_id == b.snap_id,
        same_replica(x, y) <==> x.name == y.name && x.snap_id == y.snap_id && x.target == y.target,
{
}

/// The mode is written as whether the snapshot is read-write.
pub proof fn lemma_modes()
    ensures
        mode_text(true) == seq!['t', 'r', 'u', 'e'],
        mode_text(false) == seq!['f', 'a', 'l', 's', 'e'],
{
    reveal_strlit("true");
    reveal_strlit("false");
    assert("true"@ =~= seq!['t', 'r', 'u', 'e']);
    assert("false"@ =~= seq!['f', 'a', 'l', 's', 'e']);
}

/// A cleanup looks at the rows of its prefix, kind, mode and machine; those to be sent are the
/// read-only ones of the prefix and machine; and a snapshot is found by its name or its id.
pub proof fn lemma_selected_snapshots(
    row: TrackedSnapshot,
    prefix: Seq<char>,
    kind: Seq<char>,
    read_write: bool,
    machine: Seq<char>,
    id_or_name: Seq<char>,
)
    ensures
        cleaned(prefix, kind, read_write, machine)(row) <==> {
            &&& has_prefix(row.record.name, prefix)
            &&& row.record.kind == kind
            &&& row.record.ro_rw == if read_write {
                "true"@
            } else {
                "false"@
            }
            &&& row.record.machine == machine
        },
        sendable(prefix, machine)(row) <==> {
            &&& has_prefix(row.record.name, prefix)
            &&& row.record.ro_rw == "false"@
            &&& row.record.machine == machine
        },
        called(id_or_name)(row) <==> row.record.name == id_or_name || row.record.snap_id
            == id_or_name,
{
}

/// A replica is a parent for a send of its source subvolume and machine to its target, one of its
/// kind at its target, and listed, as long as it was not pruned. It counts as sent there even
/// then.
pub proof fn lemma_selected_replicas(
    row: TrackedReplica,
    target: Seq<char>,
    prefix: Seq<char>,
    kind: Seq<char>,
    source: Seq<char>,
    machine: Seq<char>,
)
    ensures
        parents(target, source, machine)(row) <==> row.record.target == target && row.record.source
            == source && row.record.machine == machine && !row.pruned,
        present(target, prefix, machine)(row) <==> row.record.target == target && has_prefix(
            row.record.name,
            prefix,
        ) && row.record.machine == machine && !row.pruned,
        present_kind(target, prefix, kind, machine)(row) <==> row.record.target == target
            && has_prefix(row.record.name, prefix) && row.record.kind == kind
            && row.record.machine == machine && !row.pruned,
        sent_to(target)(row) <==> row.record.target == target,
        still_there()(row) <==> !row.pruned,
{
}

/// What follows the first items of a list: as many as there are more, in their order.
pub proof fn lemma_beyond<V>(list: Seq<V>, n: nat)
    ensures
        n >= list.len() ==> beyond(list, n).len() == 0,
        n < list.len() ==> beyond(list, n).len() == list.len() - n,
        forall|i: int| 0 <= i < beyond(list, n).len() ==> #[trigger] beyond(list, n)[i] == list[n + i],
{
}

/// An item that is put in order goes behind everything that it does not go before: behind the
/// items that are no different to the order and came earlier.
pub proof fn lemma_later_items_go_behind<V>(s: Seq<V>, x: V, goes: spec_fn(V, V) -> bool)
    ensures
        exists|at: int|
            0 <= at <= arranged(s, goes).len() && #[trigger] arranged(s, goes).insert(at, x)
                == arranged(s.push(x), goes) && (forall|k: int|
                at <= k < arranged(s, goes).len() ==> goes(x, #[trigger] arranged(s, goes)[k])) && (
            at > 0 ==> !goes(x, arranged(s, goes)[at - 1])),
{
    let sorted = arranged(s, goes);
    assert(s.push(x).drop_last() =~= s);
    let at = lemma_placed_at(sorted, x, goes);
    assert(sorted.insert(at, x) == arranged(s.push(x), goes));
}

/// No snapshot that a cleanup keeps is older than one that it deletes, by the texts of their dates,
/// and what it deletes is of the prefix, kind, mode and machine that were asked for.
pub proof fn lemma_cleanup_deletes_the_older(
    tables: Tables,
    prefix: Seq<char>,
    kind: Seq<char>,
    read_write: bool,
    machine: Seq<char>,
    keep: nat,
    kept: TrackedSnapshot,
    gone: TrackedSnapshot,
)
    requires
        tables.snapshots.contains(kept),
        has_prefix(kept.record.name, prefix),
        kept.record.kind == kind,
        kept.record.ro_rw == if read_write {
            "true"@
        } else {
            "false"@
        },
        kept.record.machine == machine,
        !cleanup_rows(tables, prefix, kind, read_write, machine, keep).contains(kept),
        cleanup_rows(tables, prefix, kind, read_write, machine, keep).contains(gone),
    ensures
        tables.snapshots.contains(gone),
        has_prefix(gone.record.name, prefix),
        gone.record.kind == kind,
        gone.record.ro_rw == kept.record.ro_rw,
        gone.record.machine == machine,
        kept.date matches Some(x) ==> gone.date matches Some(y) ==> !is_smaller(x, y),
        kept.date is None ==> gone.date is None,
        kept.date == gone.date ==> !is_smaller(kept.record.name, gone.record.name),
{
    let wants = cleaned(prefix, kind, read_write, machine);
    let rows = tables.snapshots.filter(wants);
    let all = arranged(rows, newest_first());
    let list = cleanup_rows(tables, prefix, kind, read_write, machine, keep);
    lemma_cleanup_keeps_the_newest(tables, prefix, kind, read_write, machine, keep);
    lemma_selected_snapshots(kept, prefix, kind, read_write, machine, prefix);
    lemma_wanted(tables.snapshots, wants);
    lemma_arranged_contains(rows, newest_first());
    lemma_arranged_items(rows, newest_first());
    assert(wants(kept));
    assert(rows.contains(kept));
    assert(all.contains(kept));
    let i = choose|i: int| 0 <= i < all.len() && all[i] == kept;
    let j = choose|j: int| 0 <= j < list.len() && list[j] == gone;
    lemma_beyond(all, keep);
    if i >= keep {
        assert(list[i - keep] == kept);
    }
    assert(!is_older(all[i], list[j]));
    assert(wants(list[j]));
    lemma_selected_snapshots(gone, prefix, kind, read_write, machine, prefix);
    lemma_age(kept, gone);
    if let (Some(x), Some(y)) = (kept.date, gone.date) {
        if x == y {
            lemma_order_is_by_the_first_difference(x, y);
            lemma_text_order_total(x, y);
        }
    }
}

/// Of the snapshots of a prefix, kind, mode and machine as many are kept as asked for, or all if
/// there are no more. They are deleted newest first.
pub proof fn lemma_cleanup_count(
    tables: Tables,
    prefix: Seq<char>,
    kind: Seq<char>,
    read_write: bool,
    machine: Seq<char>,
    keep: nat,
    i: int,
    j: int,
)
    ensures
        ({
            let count = tables.snapshots.filter(
                |row: TrackedSnapshot|
                    {
                        &&& has_prefix(row.record.name, prefix)
                        &&& row.record.kind == kind
                        &&& row.record.ro_rw == if read_write {
                            "true"@
                        } else {
                            "false"@
                        }
                        &&& row.record.machine == machine
                    },
            ).len();
            let list = cleanup_rows(tables, prefix, kind, read_write, machine, keep);
            &&& list.len() == if keep < count {
                count - keep
            } else {
                0
            }
            &&& 0 <= i < j < list.len() ==> !is_older(list[i], list[j])
        }),
{
    let wants = cleaned(prefix, kind, read_write, machine);
    let plain = |row: TrackedSnapshot|
        {
            &&& has_prefix(row.record.name, prefix)
            &&& row.record.kind == kind
            &&& row.record.ro_rw == if read_write {
                "true"@
            } else {
                "false"@
            }
            &&& row.record.machine == machine
        };
    assert(wants =~= plain);
    let rows = tables.snapshots.filter(wants);
    let all = arranged(rows, newest_first());
    let list = cleanup_rows(tables, prefix, kind, read_write, machine, keep);
    lemma_arranged_items(rows, newest_first());
    lemma_ages_rank();
    lemma_arranged_in_order(rows, newest_first());
    lemma_beyond(all, keep);
    if 0 <= i < j < list.len() {
        assert(list[i] == all[keep + i]);
        assert(list[j] == all[keep + j]);
        assert(!newest_first()(all[keep + j], all[keep + i]));
    }
}

/// What is read from a row are its columns, each up to its first NUL character.
pub proof fn lemma_reading(record: Snapshot, replica: Replica)
    ensures
        read_snapshot(record).name == cut(record.name),
        read_snapshot(record).snap_id == cut(record.snap_id),
        read_snapshot(record).kind == cut(record.kind),
        read_snapshot(record).source == cut(record.source),
        read_snapshot(record).destination == cut(record.destination),
        read_snapshot(record).machine == cut(record.machine),
        read_snapshot(record).ro_rw == cut(record.ro_rw),
        read_snapshot(record).date == cut(record.date),
        read_replica(replica).name == cut(replica.name),
        read_replica(replica).snap_id == cut(replica.snap_id),
        read_replica(replica).target == cut(replica.target),
        read_replica(replica).local_path == cut(replica.local_path),
        read_replica(replica).source == cut(replica.source),
        read_replica(replica).kind == cut(replica.kind),
        read_replica(replica).machine == cut(replica.machine),
        read_replica(replica).snapshot_date == cut(replica.snapshot_date),
        replica.parent_name is None ==> read_replica(replica).parent_name is None,
        replica.parent_name matches Some(name) ==> read_replica(replica).parent_name == Some(
            cut(name),
        ),
        read_replica(replica).date == cut(replica.date),
{
}

/// A query gives the rows that it wants, all of them and each as often as it is there.
proof fn lemma_query<V>(
    rows: Seq<V>,
    wants: spec_fn(V) -> bool,
    goes: spec_fn(V, V) -> bool,
)
    ensures
        arranged(rows.filter(wants), goes).to_multiset() == rows.filter(wants).to_multiset(),
        arranged(rows.filter(wants), goes).len() == rows.filter(wants).len(),
        forall|row: V| #[trigger]
            arranged(rows.filter(wants), goes).contains(row) <==> rows.contains(row) && wants(row),
{
    let kept = rows.filter(wants);
    lemma_wanted(rows, wants);
    lemma_arranged_items(kept, goes);
    lemma_arranged_contains(kept, goes);
    assert forall|row: V| #[trigger] arranged(kept, goes).contains(row) <==> rows.contains(row)
        && wants(row) by {
        assert(arranged(kept, goes).contains(row) <==> kept.contains(row));
    }
}

/// What is found for an id or a name are the snapshots that have it as their id or their name, all
/// of them and as they are read, newest first.
pub proof fn lemma_what_is_found(tables: Tables, id_or_name: Seq<char>)
    ensures
        found(tables, id_or_name).len() == tables.snapshots.filter(
            |row: TrackedSnapshot|
                row.record.name == id_or_name || row.record.snap_id == id_or_name,
        ).len(),
        forall|i: int|
            0 <= i < tables.snapshots.len() && ((
            #[trigger] tables.snapshots[i]).record.name == id_or_name
                || tables.snapshots[i].record.snap_id == id_or_name) ==> found(
                tables,
                id_or_name,
            ).contains(read_snapshot(tables.snapshots[i].record)),
{
    let wants = called(id_or_name);
    let plain = |row: TrackedSnapshot|
        row.record.name == id_or_name || row.record.snap_id == id_or_name;
    assert(wants =~= plain);
    let rows = arranged(tables.snapshots.filter(wants), newest_first());
    let list = found(tables, id_or_name);
    lemma_query(tables.snapshots, wants, newest_first());
    assert forall|i: int|
        0 <= i < tables.snapshots.len() && ((#[trigger] tables.snapshots[i]).record.name
            == id_or_name || tables.snapshots[i].record.snap_id
            == id_or_name) implies list.contains(read_snapshot(tables.snapshots[i].record)) by {
        let row = tables.snapshots[i];
        assert(tables.snapshots.contains(row));
        assert(wants(row));
        assert(rows.contains(row));
        let k = choose|k: int| 0 <= k < rows.len() && rows[k] == row;
        assert(list[k] == read_snapshot(row.record));
    }
}

/// Each snapshot that is found for an id or a name has it.
pub proof fn lemma_each_that_is_found(tables: Tables, id_or_name: Seq<char>, k: int)
    requires
        0 <= k < found(tables, id_or_name).len(),
    ensures
        exists|i: int|
            0 <= i < tables.snapshots.len() && read_snapshot(
                (#[trigger] tables.snapshots[i]).record,
            ) == found(tables, id_or_name)[k] && (tables.snapshots[i].record.name == id_or_name
                || tables.snapshots[i].record.snap_id == id_or_name),
{
    let wants = called(id_or_name);
    let rows = arranged(tables.snapshots.filter(wants), newest_first());
    lemma_query(tables.snapshots, wants, newest_first());
    assert(rows.contains(rows[k]));
    assert(wants(rows[k]));
    let i = choose|i: int| 0 <= i < tables.snapshots.len() && tables.snapshots[i] == rows[k];
    assert(read_snapshot(tables.snapshots[i].record) == found(tables, id_or_name)[k]);
}

/// Of two snapshots that are found the one that goes later is not of a newer row.
pub proof fn lemma_found_order(tables: Tables, id_or_name: Seq<char>, i: int, j: int) -> (pair: (
    TrackedSnapshot,
    TrackedSnapshot,
))
    requires
        0 <= i < j < found(tables, id_or_name).len(),
    ensures
        tables.snapshots.contains(pair.0),
        tables.snapshots.contains(pair.1),
        found(tables, id_or_name)[i] == read_snapshot(pair.0.record),
        found(tables, id_or_name)[j] == read_snapshot(pair.1.record),
        !is_older(pair.0, pair.1),
{
    let wants = called(id_or_name);
    let rows = arranged(tables.snapshots.filter(wants), newest_first());
    lemma_query(tables.snapshots, wants, newest_first());
    lemma_ages_rank();
    lemma_arranged_in_order(tables.snapshots.filter(wants), newest_first());
    assert(rows.contains(rows[i]) && rows.contains(rows[j]));
    assert(!newest_first()(rows[j], rows[i]));
    (rows[i], rows[j])
}

/// What is to be sent are the read-only snapshots of the prefix and machine, all of them and as
/// they are read but for the date, which is the stored one, oldest first.
pub proof fn lemma_what_is_pending(tables: Tables, prefix: Seq<char>, machine: Seq<char>, k: int)
    requires
        0 <= k < pending(tables, prefix, machine).len(),
    ensures
        pending(tables, prefix, machine).len() == tables.snapshots.filter(
            |row: TrackedSnapshot|
                has_prefix(row.record.name, prefix) && row.record.machine == machine
                    && row.record.ro_rw == "false"@,
        ).len(),
        exists|i: int|
            0 <= i < tables.snapshots.len() && {
                let row = #[trigger] tables.snapshots[i];
                &&& has_prefix(row.record.name, prefix)
                &&& row.record.machine == machine
                &&& row.record.ro_rw == "false"@
                &&& pending(tables, prefix, machine)[k] == (Snapshot {
                    date: match row.date {
                        Some(date) => cut(date),
                        None => Seq::empty(),
                    },
                    ..read_snapshot(row.record)
                })
            },
{
    reveal_strlit("");
    assert(""@ =~= Seq::<char>::empty());
    let wants = sendable(prefix, machine);
    let plain = |row: TrackedSnapshot|
        has_prefix(row.record.name, prefix) && row.record.machine == machine && row.record.ro_rw
            == "false"@;
    assert(wants =~= plain);
    let rows = arranged(tables.snapshots.filter(wants), oldest_first());
    lemma_query(tables.snapshots, wants, oldest_first());
    assert(rows.contains(rows[k]));
    assert(wants(rows[k]));
    let i = choose|i: int| 0 <= i < tables.snapshots.len() && tables.snapshots[i] == rows[k];
    assert(pending(tables, prefix, machine)[k] == stored_snapshot(rows[k]));
}

/// Of two snapshots to be sent the one that goes later is not of an older row.
pub proof fn lemma_pending_order(
    tables: Tables,
    prefix: Seq<char>,
    machine: Seq<char>,
    i: int,
    j: int,
) -> (pair: (TrackedSnapshot, TrackedSnapshot))
    requires
        0 <= i < j < pending(tables, prefix, machine).len(),
    ensures
        tables.snapshots.contains(pair.0),
        tables.snapshots.contains(pair.1),
        pending(tables, prefix, machine)[i] == stored_snapshot(pair.0),
        pending(tables, prefix, machine)[j] == stored_snapshot(pair.1),
        !is_older(pair.1, pair.0),
{
    let wants = sendable(prefix, machine);
    let rows = arranged(tables.snapshots.filter(wants), oldest_first());
    lemma_query(tables.snapshots, wants, oldest_first());
    lemma_ages_rank();
    lemma_arranged_in_order(tables.snapshots.filter(wants), oldest_first());
    assert(rows.contains(rows[i]) && rows.contains(rows[j]));
    assert(!oldest_first()(rows[j], rows[i]));
    (rows[i], rows[j])
}

/// The parents of a send are the replicas of its source subvolume and machine at its target that
/// were not pruned, all of them and as they are read, and none behind one of an older snapshot.
pub proof fn lemma_what_parents_there_are(
    tables: Tables,
    target: Seq<char>,
    source: Seq<char>,
    machine: Seq<char>,
)
    ensures
        ({
            let list = parents_at(tables, target, source, machine);
            let rows = arranged(
                tables.replicas.filter(
                    |row: TrackedReplica|
                        row.record.target == target && row.record.source == source
                            && row.record.machine == machine && !row.pruned,
                ),
                newest_replica_first(),
            );
            &&& list.len() == rows.len()
            &&& forall|i: int|
                0 <= i < list.len() ==> #[trigger] list[i] == read_replica(rows[i].record)
            &&& forall|i: int, j: int|
                #![trigger rows[i], rows[j]]
                0 <= i < j < rows.len() ==> !is_older_replica(rows[i], rows[j])
            &&& forall|row: TrackedReplica| #[trigger]
                rows.contains(row) <==> tables.replicas.contains(row) && row.record.target == target
                    && row.record.source == source && row.record.machine == machine && !row.pruned
        }),
{
    let wants = parents(target, source, machine);
    let plain = |row: TrackedReplica|
        row.record.target == target && row.record.source == source && row.record.machine == machine
            && !row.pruned;
    assert(wants =~= plain);
    let rows = arranged(tables.replicas.filter(wants), newest_replica_first());
    lemma_query(tables.replicas, wants, newest_replica_first());
    lemma_ages_rank();
    lemma_arranged_in_order(tables.replicas.filter(wants), newest_replica_first());
    assert forall|i: int, j: int|
        #![trigger rows[i], rows[j]]
        0 <= i < j < rows.len() implies !is_older_replica(rows[i], rows[j]) by {
        assert(!newest_replica_first()(rows[j], rows[i]));
    }
    assert forall|row: TrackedReplica| #[trigger] rows.contains(row) <==> tables.replicas.contains(
        row,
    ) && row.record.target == target && row.record.source == source && row.record.machine == machine
        && !row.pruned by {
        assert(rows.contains(row) <==> tables.replicas.contains(row) && wants(row));
    }
}

/// What is listed of the replicas are those that were not pruned, all of them and as they are read.
pub proof fn lemma_what_is_listed(tables: Tables)
    ensures
        ({
            let rows = arranged(
                tables.replicas.filter(|row: TrackedReplica| !row.pruned),
                listed_first(),
            );
            &&& listed(tables).len() == rows.len()
            &&& forall|i: int|
                0 <= i < rows.len() ==> #[trigger] listed(tables)[i] == read_replica(
                    rows[i].record,
                )
            &&& forall|row: TrackedReplica| #[trigger]
                rows.contains(row) <==> tables.replicas.contains(row) && !row.pruned
        }),
{
    let wants = still_there();
    let plain = |row: TrackedReplica| !row.pruned;
    assert(wants =~= plain);
    let rows = arranged(tables.replicas.filter(wants), listed_first());
    lemma_query(tables.replicas, wants, listed_first());
    assert forall|row: TrackedReplica| #[trigger] rows.contains(row) <==> tables.replicas.contains(
        row,
    ) && !row.pruned by {
        assert(rows.contains(row) <==> tables.replicas.contains(row) && wants(row));
    }
}

/// A name counts as sent to a target if and only if a row says so, pruned or not. Each is given
/// once.
pub proof fn lemma_what_was_sent(tables: Tables, target: Seq<char>, name: Seq<char>)
    ensures
        sent_names(tables, target).no_duplicates(),
        sent_names(tables, target).contains(name) <==> exists|i: int|
            0 <= i < tables.replicas.len() && (#[trigger] tables.replicas[i]).record.target
                == target && cut(tables.replicas[i].record.name) == name,
{
    lemma_distinct(names_of(tables.replicas.filter(sent_to(target))));
    lemma_sent_names(tables, target, name);
}

/// A kind is at a target if and only if a replica of it, of the prefix and machine, is there and
/// was not pruned.
pub proof fn lemma_what_kinds_there_are(
    tables: Tables,
    target: Seq<char>,
    prefix: Seq<char>,
    machine: Seq<char>,
    kind: Seq<char>,
)
    ensures
        kinds_at(tables, target, prefix, machine).contains(kind) <==> exists|i: int|
            0 <= i < tables.replicas.len() && (#[trigger] tables.replicas[i]).record.target
                == target && has_prefix(tables.replicas[i].record.name, prefix)
                && tables.replicas[i].record.machine == machine && !tables.replicas[i].pruned
                && cut(tables.replicas[i].record.kind) == kind,
{
    let wants = present(target, prefix, machine);
    let rows = tables.replicas.filter(wants);
    let kinds = kinds_of(rows);
    let sorted = arranged_texts(distinct(kinds));
    let all = kinds_at(tables, target, prefix, machine);
    let goes = |a: Seq<char>, b: Seq<char>| text_before(a, b);
    lemma_wanted(tables.replicas, wants);
    lemma_distinct(kinds);
    lemma_arranged_contains(distinct(kinds), goes);
    if all.contains(kind) {
        let k = choose|k: int| 0 <= k < all.len() && all[k] == kind;
        assert(all[k] == cut(sorted[k]));
        assert(sorted.contains(sorted[k]));
        assert(distinct(kinds).contains(sorted[k]));
        assert(kinds.contains(sorted[k]));
        let m = choose|m: int| 0 <= m < kinds.len() && kinds[m] == sorted[k];
        assert(rows.contains(rows[m]));
        assert(wants(rows[m]));
        let i = choose|i: int| 0 <= i < tables.replicas.len() && tables.replicas[i] == rows[m];
        assert(cut(tables.replicas[i].record.kind) == kind);
    }
    if exists|i: int|
        0 <= i < tables.replicas.len() && (#[trigger] tables.replicas[i]).record.target == target
            && has_prefix(tables.replicas[i].record.name, prefix)
            && tables.replicas[i].record.machine == machine && !tables.replicas[i].pruned && cut(
            tables.replicas[i].record.kind,
        ) == kind {
        let i = choose|i: int|
            0 <= i < tables.replicas.len() && (#[trigger] tables.replicas[i]).record.target
                == target && has_prefix(tables.replicas[i].record.name, prefix)
                && tables.replicas[i].record.machine == machine && !tables.replicas[i].pruned
                && cut(tables.replicas[i].record.kind) == kind;
        let row = tables.replicas[i];
        assert(tables.replicas.contains(row));
        assert(wants(row));
        let m = lemma_kind_is_known(tables, target, prefix, machine, row);
        assert(all[m] == kind);
    }
}

/// No replica that the retention keeps is of an older snapshot than one that it deletes, and what
/// it deletes is present and of the target, prefix, kind and machine that were asked for.
pub proof fn lemma_retention_deletes_the_older(
    tables: Tables,
    target: Seq<char>,
    prefix: Seq<char>,
    kind: Seq<char>,
    machine: Seq<char>,
    keep: nat,
    kept: TrackedReplica,
    gone: TrackedReplica,
)
    requires
        tables.replicas.contains(kept),
        kept.record.target == target,
        has_prefix(kept.record.name, prefix),
        kept.record.kind == kind,
        kept.record.machine == machine,
        !kept.pruned,
        !prune_rows(tables, target, prefix, kind, machine, keep).contains(kept),
        prune_rows(tables, target, prefix, kind, machine, keep).contains(gone),
    ensures
        tables.replicas.contains(gone),
        gone.record.target == target,
        has_prefix(gone.record.name, prefix),
        gone.record.kind == kind,
        gone.record.machine == machine,
        !gone.pruned,
        !is_smaller(kept.record.snapshot_date, gone.record.snapshot_date),
        kept.record.snapshot_date == gone.record.snapshot_date ==> !is_smaller(
            kept.record.name,
            gone.record.name,
        ),
{
    let wants = present_kind(target, prefix, kind, machine);
    let rows = tables.replicas.filter(wants);
    let all = arranged(rows, newest_replica_first());
    let list = prune_rows(tables, target, prefix, kind, machine, keep);
    lemma_prune_keeps_the_newest(tables, target, prefix, kind, machine, keep);
    lemma_selected_replicas(kept, target, prefix, kind, prefix, machine);
    lemma_query(tables.replicas, wants, newest_replica_first());
    assert(wants(kept));
    assert(all.contains(kept));
    let i = choose|i: int| 0 <= i < all.len() && all[i] == kept;
    let j = choose|j: int| 0 <= j < list.len() && list[j] == gone;
    lemma_beyond(all, keep);
    if i >= keep {
        assert(list[i - keep] == kept);
    }
    assert(!is_older_replica(all[i], list[j]));
    assert(wants(list[j]));
    lemma_selected_replicas(gone, target, prefix, kind, prefix, machine);
    lemma_age_of_replicas(kept, gone);
    let (x, y) = (kept.record.snapshot_date, gone.record.snapshot_date);
    if x == y {
        lemma_order_is_by_the_first_difference(x, y);
        lemma_text_order_total(x, y);
    }
}

/// Of the replicas of a kind that are present as many are kept as asked for, or all if there are no
/// more.
pub proof fn lemma_retention_count(
    tables: Tables,
    target: Seq<char>,
    prefix: Seq<char>,
    kind: Seq<char>,
    machine: Seq<char>,
    keep: nat,
)
    ensures
        ({
            let count = tables.replicas.filter(
                |row: TrackedReplica|
                    row.record.target == target && has_prefix(row.record.name, prefix)
                        && row.record.kind == kind && row.record.machine == machine && !row.pruned,
            ).len();
            prune_rows(tables, target, prefix, kind, machine, keep).len() == if keep < count {
                count - keep
            } else {
                0
            }
        }),
{
    let wants = present_kind(target, prefix, kind, machine);
    let plain = |row: TrackedReplica|
        row.record.target == target && has_prefix(row.record.name, prefix) && row.record.kind
            == kind && row.record.machine == machine && !row.pruned;
    assert(wants =~= plain);
    lemma_query(tables.replicas, wants, newest_replica_first());
    lemma_beyond(arranged(tables.replicas.filter(wants), newest_replica_first()), keep);
}

/// A recorded snapshot or replica gets a row with what it is, and with the moment as its date: in
/// UTC as it is stored, in local time as it is shown. The replica counts as present.
pub proof fn lemma_new_rows(snapshot: Snapshot, replica: Replica, stamp: Stamp)
    ensures
        new_row(snapshot, stamp).date == Some(stamp.utc@),
        new_row(snapshot, stamp).record.date == stamp.local@,
        new_row(snapshot, stamp).record == (Snapshot {
            name: snapshot.name,
            snap_id: snapshot.snap_id,
            kind: snapshot.kind,
            source: snapshot.source,
            destination: snapshot.destination,
            machine: snapshot.machine,
            ro_rw: snapshot.ro_rw,
            date: stamp.local@,
        }),
        new_replica_row(replica, stamp).date == Some(stamp.utc@),
        !new_replica_row(replica, stamp).pruned,
        new_replica_row(replica, stamp).record == (Replica {
            name: replica.name,
            snap_id: replica.snap_id,
            target: replica.target,
            local_path: replica.local_path,
            source: replica.source,
            kind: replica.kind,
            machine: replica.machine,
            snapshot_date: replica.snapshot_date,
            parent_name: replica.parent_name,
            date: stamp.local@,
        }),
{
}

/// Marking a replica marks the row with its name, id and target, and changes nothing else of it and
/// no other row. Deleting a snapshot or forgetting a replica leaves out the row with its key alone.
pub proof fn lemma_changed_rows(
    row: TrackedReplica,
    replica: Replica,
    other: TrackedSnapshot,
    snapshot: Snapshot,
)
    ensures
        pruned_row(row, replica).record == row.record,
        pruned_row(row, replica).date == row.date,
        pruned_row(row, replica).pruned <==> row.pruned || (row.record.name == replica.name
            && row.record.snap_id == replica.snap_id && row.record.target == replica.target),
        without_replica(replica)(row) <==> !(row.record.name == replica.name && row.record.snap_id
            == replica.snap_id && row.record.target == replica.target),
        without_snapshot(snapshot)(other) <==> !(other.record.name == snapshot.name
            && other.record.snap_id == snapshot.snap_id),
{
}

/// A machine name in double quotes loses them, and any other one stays; nothing else of the row
/// changes. Names with NUL characters are left out here.
pub proof fn lemma_migration(row: TrackedSnapshot, name: Seq<char>)
    requires
        !row.record.machine.contains('\0'),
    ensures
        row.record.machine == seq!['"'] + name + seq!['"'] ==> migrated(row).record.machine == name,
        !(row.record.machine.len() >= 2 && row.record.machine[0] == '"'
            && row.record.machine.last() == '"') ==> migrated(row) == row,
        migrated(row).date == row.date,
        migrated(row).record == (Snapshot {
            machine: migrated(row).record.machine,
            ..row.record
        }),
{
    let machine = row.record.machine;
    lemma_cut(machine);
    if machine == seq!['"'] + name + seq!['"'] {
        assert(machine.subrange(1, machine.len() - 1) =~= name);
    }
}

/// The records of rows are read one by one and in their order.
pub proof fn lemma_read_rows(rows: Seq<TrackedSnapshot>, replicas: Seq<TrackedReplica>)
    ensures
        snapshots_of(rows).len() == rows.len(),
        forall|i: int|
            0 <= i < rows.len() ==> #[trigger] snapshots_of(rows)[i] == read_snapshot(
                rows[i].record,
            ),
        stored_snapshots_of(rows).len() == rows.len(),
        forall|i: int|
            0 <= i < rows.len() ==> #[trigger] stored_snapshots_of(rows)[i] == stored_snapshot(
                rows[i],
            ),
        replicas_of(replicas).len() == replicas.len(),
        forall|i: int|
            0 <= i < replicas.len() ==> #[trigger] replicas_of(replicas)[i] == read_replica(
                replicas[i].record,
            ),
{
}

/// A prefix of more than 49,999 bytes is refused as soon as there is a row to match it with: any
/// snapshot, or any replica at the target.
pub proof fn lemma_refused_prefixes(tables: Tables, target: Seq<char>, prefix: Seq<char>)
    ensures
        refused_for_snapshots(tables, prefix) <==> tables.snapshots.len() > 0 && encode_utf8(
            prefix.push('%'),
        ).len() > 50000,
        refused_for_replicas(tables, target, prefix) <==> (exists|i: int|
            0 <= i < tables.replicas.len() && (#[trigger] tables.replicas[i]).record.target
                == target) && encode_utf8(prefix.push('%')).len() > 50000,
{
    let wants = sent_to(target);
    let rows = tables.replicas.filter(wants);
    lemma_wanted(tables.replicas, wants);
    if rows.len() > 0 {
        assert(rows.contains(rows[0]));
        assert(wants(rows[0]));
        let i = choose|i: int| 0 <= i < tables.replicas.len() && tables.replicas[i] == rows[0];
        assert(tables.replicas[i].record.target == target);
    }
    if exists|i: int|
        0 <= i < tables.replicas.len() && (#[trigger] tables.replicas[i]).record.target == target {
        let i = choose|i: int|
            0 <= i < tables.replicas.len() && (#[trigger] tables.replicas[i]).record.target
                == target;
        assert(wants(tables.replicas[i]));
        assert(tables.replicas.contains(tables.replicas[i]));
        assert(rows.contains(tables.replicas[i]));
    }
}

/// What a target loses of several kinds is what it loses of each, one kind after the other, and of
/// one kind no replica goes behind one of a newer snapshot.
pub proof fn lemma_order_of_leaving(
    tables: Tables,
    target: Seq<char>,
    prefix: Seq<char>,
    machine: Seq<char>,
    keep: nat,
    kinds: Seq<Seq<char>>,
    kind: Seq<char>,
)
    ensures
        leaving(tables, target, prefix, machine, keep, Seq::empty(), 0).len() == 0,
        leaving(tables, target, prefix, machine, keep, kinds.push(kind), kinds.len() + 1)
            == leaving(tables, target, prefix, machine, keep, kinds, kinds.len()) + leaving(
            tables,
            target,
            prefix,
            machine,
            keep,
            seq![kind],
            1,
        ),
        ({
            let rows = arranged(
                prune_rows(tables, target, prefix, kind, machine, keep),
                oldest_replica_first(),
            );
            let list = leaving(tables, target, prefix, machine, keep, seq![kind], 1);
            &&& list.len() == rows.len()
            &&& rows.len() == prune_rows(tables, target, prefix, kind, machine, keep).len()
            &&& forall|i: int|
                0 <= i < list.len() ==> #[trigger] list[i] == read_replica(rows[i].record)
            &&& forall|i: int, j: int|
                #![trigger rows[i], rows[j]]
                0 <= i < j < rows.len() ==> !is_older_replica(rows[j], rows[i])
        }),
{
    let gone = prune_rows(tables, target, prefix, kind, machine, keep);
    let rows = arranged(gone, oldest_replica_first());
    lemma_leaving_front(tables, target, prefix, machine, keep, kinds, kind, kinds.len());
    reveal_with_fuel(leaving, 2);
    assert(kinds.push(kind)[kinds.len() as int] == kind);
    assert(seq![kind][0] == kind);
    let list = leaving(tables, target, prefix, machine, keep, seq![kind], 1);
    assert(list =~= replicas_of(rows));
    lemma_ages_rank();
    lemma_arranged_items(gone, oldest_replica_first());
    lemma_arranged_in_order(gone, oldest_replica_first());
    assert forall|i: int, j: int|
        #![trigger rows[i], rows[j]]
        0 <= i < j < rows.len() implies !is_older_replica(rows[j], rows[i]) by {
        assert(!oldest_replica_first()(rows[j], rows[i]));
    }
}

proof fn lemma_leaving_front(
    tables: Tables,
    target: Seq<char>,
    prefix: Seq<char>,
    machine: Seq<char>,
    keep: nat,
    kinds: Seq<Seq<char>>,
    kind: Seq<char>,
    n: nat,
)
    requires
        n <= kinds.len(),
    ensures
        leaving(tables, target, prefix, machine, keep, kinds.push(kind), n) == leaving(
            tables,
            target,
            prefix,
            machine,
            keep,
            kinds,
            n,
        ),
    decreases n,
{
    if n > 0 {
        lemma_leaving_front(
            tables,
            target,
            prefix,
            machine,
            keep,
            kinds,
            kind,
            (n - 1) as nat,
        );
        assert(kinds.push(kind)[n - 1] == kinds[n - 1]);
    }
}

/// The tables have a snapshot if and only if a row has its name and its id, and they are keyed if
/// and only if no two rows have the same.
pub proof fn lemma_tracked(tables: Tables, snapshot: Snapshot)
    ensures
        tables.tracks(snapshot) <==> exists|i: int|
            0 <= i < tables.snapshots.len() && (#[trigger] tables.snapshots[i]).record.name
                == snapshot.name && tables.snapshots[i].record.snap_id == snapshot.snap_id,
        tables.keyed() <==> {
            &&& forall|i: int, j: int|
                0 <= i < j < tables.snapshots.len() ==> (#[trigger] tables.snapshots[i]).record.name
                    != (#[trigger] tables.snapshots[j]).record.name
                    || tables.snapshots[i].record.snap_id != tables.snapshots[j].record.snap_id
            &&& forall|i: int, j: int|
                0 <= i < j < tables.replicas.len() ==> (#[trigger] tables.replicas[i]).record.name
                    != (#[trigger] tables.replicas[j]).record.name
                    || tables.replicas[i].record.snap_id != tables.replicas[j].record.snap_id
                    || tables.replicas[i].record.target != tables.replicas[j].record.target
        },
{
    if tables.tracks(snapshot) {
        let i = choose|i: int|
            0 <= i < tables.snapshots.len() && same_snapshot(
                (#[trigger] tables.snapshots[i]).record,
                snapshot,
            );
        assert(tables.snapshots[i].record.name == snapshot.name);
    }
    if exists|i: int|
        0 <= i < tables.snapshots.len() && (#[trigger] tables.snapshots[i]).record.name
            == snapshot.name && tables.snapshots[i].record.snap_id == snapshot.snap_id {
        let i = choose|i: int|
            0 <= i < tables.snapshots.len() && (#[trigger] tables.snapshots[i]).record.name
                == snapshot.name && tables.snapshots[i].record.snap_id == snapshot.snap_id;
        assert(same_snapshot(tables.snapshots[i].record, snapshot));
    }
    if tables.keyed() {
        assert forall|i: int, j: int| 0 <= i < j < tables.snapshots.len() implies (
        #[trigger] tables.snapshots[i]).record.name != (#[trigger] tables.snapshots[j]).record.name
            || tables.snapshots[i].record.snap_id != tables.snapshots[j].record.snap_id by {
            assert(!same_snapshot(tables.snapshots[i].record, tables.snapshots[j].record));
        }
        assert forall|i: int, j: int| 0 <= i < j < tables.replicas.len() implies (
        #[trigger] tables.replicas[i]).record.name != (#[trigger] tables.replicas[j]).record.name
            || tables.replicas[i].record.snap_id != tables.replicas[j].record.snap_id
            || tables.replicas[i].record.target != tables.replicas[j].record.target by {
            assert(!same_replica(tables.replicas[i].record, tables.replicas[j].record));
        }
    }
}

proof fn lemma_listing_ranks()
    ensures
        ranks(listed_first()),
{
    let goes = listed_first();
    assert forall|a: TrackedReplica, b: TrackedReplica| #[trigger] goes(a, b) implies !goes(
        b,
        a,
    ) by {
        lemma_name_order(a.record.snapshot_date, b.record.snapshot_date, a.record.snapshot_date);
        lemma_name_order(a.record.name, b.record.name, a.record.name);
        lemma_name_order(a.record.target, b.record.target, a.record.target);
        lemma_name_order(b.record.snapshot_date, a.record.snapshot_date, b.record.snapshot_date);
        lemma_name_order(b.record.name, a.record.name, b.record.name);
        lemma_name_order(b.record.target, a.record.target, b.record.target);
    }
    assert forall|a: TrackedReplica, b: TrackedReplica, c: TrackedReplica|
        #![trigger goes(a, b), goes(b, c)]
        goes(a, c) implies goes(a, b) || goes(b, c) by {
        let (x, y, z) = (a.record, b.record, c.record);
        lemma_name_order(x.snapshot_date, y.snapshot_date, z.snapshot_date);
        lemma_name_order(z.snapshot_date, y.snapshot_date, x.snapshot_date);
        lemma_name_order(y.snapshot_date, z.snapshot_date, x.snapshot_date);
        lemma_name_order(z.snapshot_date, x.snapshot_date, y.snapshot_date);
        lemma_name_order(x.name, y.name, z.name);
        lemma_name_order(z.name, y.name, x.name);
        lemma_name_order(y.name, z.name, x.name);
        lemma_name_order(z.name, x.name, y.name);
        lemma_name_order(x.target, y.target, z.target);
        lemma_name_order(z.target, y.target, x.target);
        lemma_name_order(y.target, z.target, x.target);
        lemma_name_order(z.target, x.target, y.target);
    }
}

/// Listed replicas go from the newest snapshot to the oldest one, and those of one snapshot go by
/// their targets.
pub proof fn lemma_order_of_listing(tables: Tables, i: int, j: int) -> (pair: (
    TrackedReplica,
    TrackedReplica,
))
    requires
        0 <= i < j < listed(tables).len(),
    ensures
        tables.replicas.contains(pair.0),
        tables.replicas.contains(pair.1),
        listed(tables)[i] == read_replica(pair.0.record),
        listed(tables)[j] == read_replica(pair.1.record),
        !is_older_replica(pair.0, pair.1),
        pair.0.record.snapshot_date == pair.1.record.snapshot_date && pair.0.record.name
            == pair.1.record.name ==> !is_smaller(pair.1.record.target, pair.0.record.target),
{
    let rows = arranged(tables.replicas.filter(still_there()), listed_first());
    lemma_query(tables.replicas, still_there(), listed_first());
    lemma_listing_ranks();
    lemma_arranged_in_order(tables.replicas.filter(still_there()), listed_first());
    let (a, b) = (rows[i], rows[j]);
    assert(rows.contains(a) && rows.contains(b));
    assert(!listed_first()(rows[j], rows[i]));
    lemma_order_is_by_the_first_difference(b.record.target, a.record.target);
    (a, b)
}

/// The kinds at a target are each given once and in the order of their texts. Kinds with NUL
/// characters are left out here.
pub proof fn lemma_order_of_kinds(
    tables: Tables,
    target: Seq<char>,
    prefix: Seq<char>,
    machine: Seq<char>,
    i: int,
    j: int,
)
    requires
        0 <= i < j < kinds_at(tables, target, prefix, machine).len(),
        forall|k: int|
            0 <= k < tables.replicas.len() ==> !(#[trigger] tables.replicas[k]).record.kind.contains(
                '\0',
            ),
    ensures
        is_smaller(
            kinds_at(tables, target, prefix, machine)[i],
            kinds_at(tables, target, prefix, machine)[j],
        ),
{
    let wants = present(target, prefix, machine);
    let rows = tables.replicas.filter(wants);
    let kinds = kinds_of(rows);
    let list = distinct(kinds);
    let sorted = arranged_texts(list);
    let goes = |a: Seq<char>, b: Seq<char>| text_before(a, b);
    lemma_wanted(tables.replicas, wants);
    lemma_distinct(kinds);
    lemma_arranged_contains(list, goes);
    lemma_arranged_items(list, goes);
    lemma_text_order_ranks();
    lemma_arranged_in_order(list, goes);
    list.lemma_multiset_has_no_duplicates();
    sorted.lemma_multiset_has_no_duplicates_conv();
    assert forall|k: int| 0 <= k < sorted.len() implies cut(#[trigger] sorted[k]) == sorted[k] by {
        assert(sorted.contains(sorted[k]));
        assert(kinds.contains(sorted[k]));
        let m = choose|m: int| 0 <= m < kinds.len() && kinds[m] == sorted[k];
        assert(rows.contains(rows[m]));
        let n = choose|n: int| 0 <= n < tables.replicas.len() && tables.replicas[n] == rows[m];
        assert(!tables.replicas[n].record.kind.contains('\0'));
        lemma_cut(sorted[k]);
    }
    assert(!goes(sorted[j], sorted[i]));
    lemma_text_order_total(sorted[i], sorted[j]);
    lemma_order_is_by_the_first_difference(sorted[i], sorted[j]);
}

/// Records are read field by field.
pub proof fn lemma_records(record: SnapshotRecord, replica: ReplicaRecord)
    ensures
        record@.name == record.name@,
        record@.snap_id == record.snap_id@,
        record@.kind == record.kind@,
        record@.source == record.source@,
        record@.destination == record.destination@,
        record@.machine == record.machine@,
        record@.ro_rw == record.ro_rw@,
        record@.date == record.date@,
        replica@.name == replica.name@,
        replica@.snap_id == replica.snap_id@,
        replica@.target == replica.target@,
        replica@.local_path == replica.local_path@,
        replica@.source == replica.source@,
        replica@.kind == replica.kind@,
        replica@.machine == replica.machine@,
        replica@.snapshot_date == replica.snapshot_date@,
        replica.parent_name matches Some(name) ==> replica@.parent_name == Some(name@),
        replica.parent_name is None ==> replica@.parent_name is None,
        replica@.date == replica.date@,
{
}

/// A list is viewed item by item.
pub proof fn lemma_lists<T: View>(list: Seq<T>, strings: Seq<String>, slices_of: Seq<&str>)
    ensures
        views(list).len() == list.len(),
        forall|i: int| 0 <= i < list.len() ==> #[trigger] views(list)[i] == list[i]@,
        texts(strings).len() == strings.len(),
        forall|i: int| 0 <= i < strings.len() ==> #[trigger] texts(strings)[i] == strings[i]@,
        slices(slices_of).len() == slices_of.len(),
        forall|i: int| 0 <= i < slices_of.len() ==> #[trigger] slices(slices_of)[i] == slices_of[i]@,
{
}

/// What stands behind a NUL character of a machine name makes no difference to whether it loses its
/// quotes.
pub proof fn lemma_migration_up_to_nul(row: TrackedSnapshot, start: Seq<char>, rest: Seq<char>)
    requires
        !start.contains('\0'),
        row.record.machine == start.push('\0') + rest,
    ensures
        start.len() >= 2 && start[0] == '"' && start.last() == '"' ==> migrated(row).record.machine
            == start.subrange(1, start.len() - 1),
        !(start.len() >= 2 && start[0] == '"' && start.last() == '"') ==> migrated(row) == row,
{
    lemma_read_up_to_nul(start, rest);
}

} // verus!
