//! What a run does, from the options to the commands, said for every input.
use crate::args::{Args, ReplicateConfig};
use crate::controller::{
    deletion, is_filtered, record_for, replica_cells, snapshot_cells, snapshot_name, CreateStep,
    Deletion, NotDeleted,
};
use crate::deleting::{Clearing, DeleteStep};
use crate::excludes::md5_hex;
use crate::operations::{
    deletable, delete_command, restore_refusal, snapshot_command, RestoreRefused,
};
use crate::option_laws::lemma_last_names;
use crate::order::{
    distinct, lemma_arranged_contains, lemma_arranged_in_order, lemma_arranged_items,
    lemma_distinct, lemma_text_order_ranks,
};
use crate::paths::file_name;
use crate::replication::Identity;
use crate::restoring::{
    expected_uuid, recorded_targets, restore_outline, restore_place, restore_staging, section_for,
    targets_of, way_of, RestoreWay, ReturnFault, ReturnSeen, ReturnStep, Way,
};
use crate::run::{every_operation, Operation};
use crate::structs::{subvolume_in, Replica, Snapshot};
use crate::text::{joined, occurs_at, text_before};
use crate::text_laws::{lemma_stripping, slashes};
use crate::utils::only;
use vstd::prelude::*;

verus! {

/// One operation if it is asked for.
pub open spec fn if_asked(asked: bool, operation: Operation) -> Seq<Operation> {
    if asked {
        seq![operation]
    } else {
        Seq::empty()
    }
}

/// A run takes a snapshot, deletes, cleans, restores, sends and lists, in this order, and each of
/// these if and only if it was asked for.
pub proof fn lemma_order_of_operations(args: Args)
    ensures
        every_operation().filter(|operation: Operation| args.asks_for(operation)) == if_asked(
            args.create_snapshot,
            Operation::Create,
        ) + if_asked(args.delete_snapshot, Operation::Delete) + if_asked(
            args.clean_snapshots,
            Operation::Clean,
        ) + if_asked(args.restore_snapshot, Operation::Restore) + if_asked(
            args.send_snapshots,
            Operation::Send,
        ) + if_asked(args.list_snapshots, Operation::List),
{
    let wants = |operation: Operation| args.asks_for(operation);
    reveal(Seq::filter);
    reveal_with_fuel(Seq::filter, 7);
    let all = every_operation();
    assert(all.drop_last() =~= all.take(5));
    assert(all.take(5).drop_last() =~= all.take(4));
    assert(all.take(4).drop_last() =~= all.take(3));
    assert(all.take(3).drop_last() =~= all.take(2));
    assert(all.take(2).drop_last() =~= all.take(1));
    assert(all.take(1).drop_last() =~= all.take(0));
    assert(all.filter(wants) =~= if_asked(args.create_snapshot, Operation::Create) + if_asked(
        args.delete_snapshot,
        Operation::Delete,
    ) + if_asked(args.clean_snapshots, Operation::Clean) + if_asked(
        args.restore_snapshot,
        Operation::Restore,
    ) + if_asked(args.send_snapshots, Operation::Send) + if_asked(
        args.list_snapshots,
        Operation::List,
    ));
}

/// The name of a snapshot is its prefix, a dash and the moment. So snapshots of different moments
/// have different names.
pub proof fn lemma_snapshot_names(prefix: Seq<char>, stamp: Seq<char>, other: Seq<char>)
    ensures
        snapshot_name(prefix, stamp) == prefix.push('-') + stamp,
        snapshot_name(prefix, stamp) == snapshot_name(prefix, other) ==> stamp == other,
{
    reveal_strlit("-");
    assert(snapshot_name(prefix, stamp) =~= prefix.push('-') + stamp);
    assert(snapshot_name(prefix, other) =~= prefix.push('-') + other);
    let n = (prefix.len() + 1) as int;
    assert((prefix.push('-') + stamp).skip(n) =~= stamp);
    assert((prefix.push('-') + other).skip(n) =~= other);
}

/// The record of a new snapshot holds what was asked for: its directories, kind and machine, the
/// name and its digest as the id, and whether it can be written to.
pub proof fn lemma_new_records(args: Args, name: Seq<char>)
    ensures
        record_for(args, name).name == name,
        record_for(args, name).snap_id == md5_hex(name),
        record_for(args, name).kind == args.snapshot_kind@,
        record_for(args, name).source == args.source_dir@,
        record_for(args, name).destination == args.dest_dir@,
        record_for(args, name).machine == args.machine@,
        record_for(args, name).ro_rw == if args.read_write {
            "true"@
        } else {
            "false"@
        },
        record_for(args, name).date.len() == 0,
{
    reveal_strlit("");
}

/// Taking a snapshot goes this way: it is taken and then recorded, and if it can't be recorded it
/// is deleted again. A dry run says what would be done and does nothing else. Whatever the end, it
/// stays.
pub proof fn lemma_taking(first: bool, second: bool)
    ensures
        CreateStep::first(false) == CreateStep::Take,
        CreateStep::first(false).after(false).after(first) == CreateStep::NotTaken,
        CreateStep::first(false).after(true) == CreateStep::Record,
        CreateStep::first(false).after(true).after(true).after(first) == CreateStep::Created,
        CreateStep::first(false).after(true).after(false) == CreateStep::Undo,
        CreateStep::first(false).after(true).after(false).after(true).after(first)
            == CreateStep::NotRecorded,
        CreateStep::first(false).after(true).after(false).after(false).after(first)
            == CreateStep::LeftBehind,
        CreateStep::first(true) == CreateStep::Describe,
        CreateStep::first(true).after(first).after(second) == CreateStep::Described,
{
}

/// A snapshot is deleted from the disk if it is there. If it is not, its row goes alone if it was
/// created on this machine and its directory is there, and otherwise it stays: because of the
/// machine if that is another one. A dry run only says what would be deleted.
pub proof fn lemma_ways_to_delete(
    snapshot: Snapshot,
    path: Seq<char>,
    machine: Seq<char>,
    dry_run: bool,
    on_disk: bool,
    has_directory: bool,
)
    ensures
        ({
            let way = deletion(snapshot, path, machine, dry_run, on_disk, has_directory);
            let from_root = path.len() > 0 && path[0] == '/';
            &&& way == Ok::<Deletion, NotDeleted>(Deletion::Describe) <==> dry_run
            &&& way == Ok::<Deletion, NotDeleted>(Deletion::FromDisk) <==> !dry_run && on_disk
            &&& way == Ok::<Deletion, NotDeleted>(Deletion::RowOnly) <==> !dry_run && !on_disk
                && snapshot.machine == machine && has_directory && from_root
            &&& way == Err::<Deletion, NotDeleted>(NotDeleted::OtherMachine) <==> !dry_run
                && !on_disk && snapshot.machine != machine
            &&& way == Err::<Deletion, NotDeleted>(NotDeleted::NoDirectory) <==> !dry_run
                && !on_disk && snapshot.machine == machine && !(has_directory && from_root)
        }),
{
}

/// Deleting a snapshot goes this way: its subvolume, if that is on the disk, then its filtered
/// copies, whether or not that works, and then its row. A subvolume that can't be deleted keeps its
/// row. Whatever the end, it stays.
pub proof fn lemma_deleting(copies: bool, later: bool)
    ensures
        DeleteStep::first(Deletion::FromDisk) == DeleteStep::Remove,
        DeleteStep::Remove.after(false).after(later) == DeleteStep::NotRemoved,
        DeleteStep::Remove.after(true) == DeleteStep::first(Deletion::RowOnly),
        DeleteStep::first(Deletion::RowOnly) == DeleteStep::RemoveCopies,
        DeleteStep::RemoveCopies.after(copies) == DeleteStep::Forget,
        DeleteStep::Forget.after(true).after(later) == DeleteStep::Deleted,
        DeleteStep::Forget.after(false).after(later) == DeleteStep::NotForgotten,
        DeleteStep::first(Deletion::Describe) == DeleteStep::Describe,
        DeleteStep::Describe.after(copies).after(later) == DeleteStep::Described,
{
}

/// A cleanup tries one snapshot after the other, each once, and counts those that could not be
/// deleted. A failure does not stop it, and behind the last one nothing changes any more.
pub proof fn lemma_clearing(clearing: Clearing, deleted: bool)
    requires
        clearing.sound(),
    ensures
        Clearing::started(clearing.count).tried == 0,
        Clearing::started(clearing.count).count == clearing.count,
        Clearing::started(clearing.count).failures == 0,
        clearing.after(deleted).count == clearing.count,
        clearing.tried < clearing.count ==> clearing.after(deleted).tried == clearing.tried + 1,
        clearing.tried < clearing.count && deleted ==> clearing.after(deleted).failures
            == clearing.failures,
        clearing.tried < clearing.count && !deleted ==> clearing.after(deleted).failures
            == clearing.failures + 1,
        clearing.tried == clearing.count ==> clearing.after(deleted) == clearing,
        clearing.after(deleted).sound(),
{
}

/// The cells of a listed snapshot are its columns from the name to the date.
pub proof fn lemma_listed_snapshots(snapshot: Snapshot)
    ensures
        snapshot_cells(snapshot).len() == 8,
        snapshot_cells(snapshot)[0] == snapshot.name,
        snapshot_cells(snapshot)[1] == snapshot.snap_id,
        snapshot_cells(snapshot)[2] == snapshot.kind,
        snapshot_cells(snapshot)[3] == snapshot.source,
        snapshot_cells(snapshot)[4] == snapshot.destination,
        snapshot_cells(snapshot)[5] == snapshot.machine,
        snapshot_cells(snapshot)[6] == snapshot.ro_rw,
        snapshot_cells(snapshot)[7] == snapshot.date,
{
}

/// The cells of a listed replica are its name, target, kind and machine, the replica that it was
/// sent from or a dash, whether it was sent from a filtered copy, and its date. It was if and only
/// if its path runs through the directory of those copies.
pub proof fn lemma_listed_replicas(replica: Replica)
    ensures
        replica_cells(replica).len() == 7,
        replica_cells(replica)[0] == replica.name,
        replica_cells(replica)[1] == replica.target,
        replica_cells(replica)[2] == replica.kind,
        replica_cells(replica)[3] == replica.machine,
        replica.parent_name matches Some(name) ==> replica_cells(replica)[4] == name,
        replica.parent_name is None ==> replica_cells(replica)[4] == "-"@,
        replica_cells(replica)[5] == if is_filtered(replica) {
            "yes"@
        } else {
            "-"@
        },
        replica_cells(replica)[6] == replica.date,
        is_filtered(replica) <==> exists|before: Seq<char>, behind: Seq<char>|
            replica.local_path == #[trigger] (before + "/.staging/"@ + behind),
{
    let path = replica.local_path;
    let part = "/.staging/"@;
    reveal_strlit("/.staging/");
    if is_filtered(replica) {
        let i = choose|i: int| occurs_at(part, path, i);
        let before = path.take(i);
        let behind = path.skip(i + part.len());
        assert(path =~= before + part + behind);
    }
    if exists|before: Seq<char>, behind: Seq<char>| path == #[trigger] (before + part + behind) {
        let (before, behind) = choose|before: Seq<char>, behind: Seq<char>|
            path == #[trigger] (before + part + behind);
        let i = before.len() as int;
        assert(path.subrange(i, i + part.len()) =~= part);
        assert(occurs_at(part, path, i));
    }
}

/// Nothing is deleted but what is named in a directory from the root on: a name in the root
/// directory or behind the slash of such a path is, whatever slashes are behind it, and a path from
/// elsewhere, the root directory and whatever ends with two dots is not.
pub proof fn lemma_what_can_be_deleted(dir: Seq<char>, name: Seq<char>, k: nat)
    requires
        dir.len() > 0,
        name.len() > 0,
        !name.contains('/'),
        name != seq!['.'],
        name != seq!['.', '.'],
    ensures
        deletable(seq!['/'] + name),
        dir[0] == '/' ==> deletable(dir.push('/') + name),
        dir[0] == '/' ==> (deletable(dir.push('/')) <==> deletable(dir)),
        dir[0] != '/' ==> !deletable(dir),
        !deletable(Seq::empty()),
        !deletable(slashes(k)),
        !deletable(dir.push('/') + seq!['.', '.']),
{
    lemma_last_names(dir, name);
    assert((seq!['/'] + name)[1] == name[0]);
    assert(name.contains(name[0]));
    assert((dir.push('/') + name)[dir.len() + 1 as int] == name[0]);
    if k > 0 {
        assert(only(slashes(k), '/'));
    }
    if deletable(dir) {
        let i = choose|i: int| 0 <= i < dir.len() && dir[i] != '/';
        assert(dir.push('/')[i] != '/');
    }
    if deletable(dir.push('/')) {
        let i = choose|i: int| 0 <= i < dir.push('/').len() && dir.push('/')[i] != '/';
        assert(dir[i] != '/');
    }
}

/// A snapshot is in its directory: behind that and one slash, however many slashes the directory is
/// stored with. Without a directory its name is all there is.
pub proof fn lemma_where_snapshots_are(dir: Seq<char>, k: nat, name: Seq<char>)
    requires
        dir.len() > 0 ==> dir.last() != '/',
    ensures
        dir.len() > 0 ==> subvolume_in(dir + slashes(k), name) == dir.push('/') + name,
        k > 0 ==> subvolume_in(slashes(k), name) == seq!['/'] + name,
        subvolume_in(Seq::empty(), name) == name,
{
    reveal_strlit("/");
    assert("/"@ =~= seq!['/']);
    lemma_stripping(dir, k);
    lemma_stripping(Seq::empty(), k);
    lemma_stripping(Seq::empty(), 0);
    assert(Seq::<char>::empty() + slashes(k) =~= slashes(k));
    assert(Seq::<char>::empty() + slashes(0) =~= Seq::<char>::empty());
    assert(dir + "/"@ =~= dir.push('/'));
    if dir.len() > 0 && dir == "/"@ {
        assert(dir.last() == '/');
    }
}

/// The commands name the directories without the slashes at their ends. A read-only snapshot is
/// asked for with one more word.
pub proof fn lemma_commands(source: Seq<char>, k: nat, target: Seq<char>, n: nat)
    requires
        source.len() > 0 && source.last() != '/',
        target.len() > 0 && target.last() != '/',
    ensures
        snapshot_command(source + slashes(k), target + slashes(n), true) == seq![
            "subvolume"@,
            "snapshot"@,
            "-r"@,
            source,
            target,
        ],
        snapshot_command(source + slashes(k), target + slashes(n), false) == seq![
            "subvolume"@,
            "snapshot"@,
            source,
            target,
        ],
        delete_command(target + slashes(n)) == seq!["subvolume"@, "delete"@, target],
{
    lemma_stripping(source, k);
    lemma_stripping(target, n);
}

/// A snapshot is restored to the place that was given, and to where it was taken from if none was,
/// without the slashes at the end.
pub proof fn lemma_where_snapshots_are_restored(
    source: Seq<char>,
    k: nat,
    given: Seq<char>,
    n: nat,
)
    requires
        source.len() > 0 ==> source.last() != '/',
        given.len() > 0,
        given.last() != '/',
    ensures
        restore_place(source + slashes(k), given + slashes(n)) == given,
        source.len() > 0 ==> restore_place(source + slashes(k), Seq::empty()) == source,
        k > 0 ==> restore_place(slashes(k), Seq::empty()) == seq!['/'],
{
    lemma_stripping(source, k);
    lemma_stripping(given, n);
    lemma_stripping(Seq::empty(), k);
    assert(Seq::<char>::empty() + slashes(k) =~= slashes(k));
}

/// Nothing is restored over the running system, over something that is there, or from nothing, and
/// these are told apart in this order. Anything else is restored, as a snapshot that can be written
/// to.
pub proof fn lemma_what_is_not_restored(
    place: Seq<char>,
    k: nat,
    target_exists: bool,
    snapshot_exists: bool,
)
    requires
        place.len() > 0 ==> place.last() != '/',
    ensures
        k > 0 ==> restore_refusal(slashes(k), target_exists, snapshot_exists) == Some(
            RestoreRefused::RootInPlace,
        ),
        place.len() > 0 ==> restore_refusal(place + slashes(k), true, snapshot_exists) == Some(
            RestoreRefused::TargetExists,
        ),
        place.len() > 0 ==> restore_refusal(place + slashes(k), false, false) == Some(
            RestoreRefused::SnapshotMissing,
        ),
        place.len() > 0 ==> restore_refusal(place + slashes(k), false, true) is None,
{
    reveal_strlit("/");
    assert("/"@ =~= seq!['/']);
    lemma_stripping(place, k);
    lemma_stripping(Seq::empty(), k);
    assert(Seq::<char>::empty() + slashes(k) =~= slashes(k));
    if place.len() > 0 && place == "/"@ {
        assert(place.last() == '/');
    }
}

/// A snapshot comes from a replica if that was asked for, dry run or not. Without that a dry run
/// says what would be done.
pub proof fn lemma_ways_to_restore(dry_run: bool)
    ensures
        way_of(true, dry_run) == RestoreWay::FromReplica,
        way_of(false, true) == RestoreWay::Describe,
        way_of(false, false) == RestoreWay::Here,
{
}

/// A dry run of restoring shows the command, and whether something is in its way.
pub proof fn lemma_restoring_outlined(snapshot: Seq<char>, k: nat, place: Seq<char>, n: nat)
    requires
        snapshot.len() > 0 && snapshot.last() != '/',
        place.len() > 0 && place.last() != '/',
    ensures
        ({
            let from = snapshot + slashes(k);
            let to = place + slashes(n);
            let command = "[dry-run] would run: btrfs subvolume snapshot "@ + snapshot.push(' ')
                + place;
            &&& restore_outline(from, to, false) == seq![command]
            &&& restore_outline(from, to, true).len() == 2
            &&& restore_outline(from, to, true)[0] == command
            &&& restore_outline(from, to, true)[1] == "[dry-run] note: "@ + to
                + " already exists, the restore will fail until it is moved out of the way"@
        }),
{
    lemma_commands(snapshot, k, place, n);
    let words = seq!["subvolume"@, "snapshot"@, snapshot, place];
    reveal_strlit(" ");
    reveal_strlit("subvolume");
    reveal_strlit("snapshot");
    reveal_strlit("[dry-run] would run: btrfs ");
    reveal_strlit("[dry-run] would run: btrfs subvolume snapshot ");
    reveal_with_fuel(joined, 5);
    assert(words.drop_last() =~= seq!["subvolume"@, "snapshot"@, snapshot]);
    assert(words.drop_last().drop_last() =~= seq!["subvolume"@, "snapshot"@]);
    assert(words.drop_last().drop_last().drop_last() =~= seq!["subvolume"@]);
    let line = joined(words, " "@);
    assert(line =~= "subvolume"@ + " "@ + "snapshot"@ + " "@ + snapshot + " "@ + place);
    assert("[dry-run] would run: btrfs "@ + line
        =~= "[dry-run] would run: btrfs subvolume snapshot "@ + snapshot.push(' ') + place);
}

/// What is received goes into one directory beside the snapshots.
pub proof fn lemma_where_replicas_are_received(dir: Seq<char>, k: nat)
    requires
        dir.len() > 0 && dir.last() != '/',
    ensures
        restore_staging(dir + slashes(k)) == dir + "/.restore"@,
{
    lemma_stripping(dir, k);
}

proof fn lemma_targets_of(replicas: Seq<Replica>, snap_id: Seq<char>, n: nat, target: Seq<char>)
    requires
        n <= replicas.len(),
    ensures
        targets_of(replicas, snap_id, n).contains(target) <==> exists|i: int|
            0 <= i < n && (#[trigger] replicas[i]).snap_id == snap_id && replicas[i].target
                == target,
    decreases n,
{
    if n > 0 {
        let m = (n - 1) as nat;
        lemma_targets_of(replicas, snap_id, m, target);
        let front = targets_of(replicas, snap_id, m);
        let last = replicas[n - 1];
        if last.snap_id == snap_id {
            let all = front.push(last.target);
            if all.contains(target) {
                let k = choose|k: int| 0 <= k < all.len() && all[k] == target;
                if k < front.len() {
                    assert(front[k] == target);
                } else {
                    assert(replicas[n - 1].target == target);
                }
            }
            if front.contains(target) {
                let k = choose|k: int| 0 <= k < front.len() && front[k] == target;
                assert(all[k] == target);
            }
            assert(all[front.len() as int] == last.target);
        }
    }
}

/// The targets that hold a snapshot are those of the replicas with its id: each once, and in the
/// order of their texts.
pub proof fn lemma_targets_that_hold_a_snapshot(
    replicas: Seq<Replica>,
    snap_id: Seq<char>,
    target: Seq<char>,
)
    ensures
        recorded_targets(replicas, snap_id).contains(target) <==> exists|i: int|
            0 <= i < replicas.len() && (#[trigger] replicas[i]).snap_id == snap_id
                && replicas[i].target == target,
        forall|i: int, j: int|
            #![trigger recorded_targets(replicas, snap_id)[i], recorded_targets(replicas, snap_id)[j]]
            0 <= i < j < recorded_targets(replicas, snap_id).len() ==> text_before(
                recorded_targets(replicas, snap_id)[i],
                recorded_targets(replicas, snap_id)[j],
            ),
{
    let all = targets_of(replicas, snap_id, replicas.len());
    let list = distinct(all);
    let sorted = recorded_targets(replicas, snap_id);
    let goes = |a: Seq<char>, b: Seq<char>| text_before(a, b);
    lemma_targets_of(replicas, snap_id, replicas.len(), target);
    lemma_distinct(all);
    lemma_arranged_contains(list, goes);
    lemma_arranged_items(list, goes);
    lemma_text_order_ranks();
    lemma_arranged_in_order(list, goes);
    assert(sorted.contains(target) == list.contains(target));
    assert forall|i: int, j: int|
        #![trigger sorted[i], sorted[j]]
        0 <= i < j < sorted.len() implies text_before(sorted[i], sorted[j]) by {
        assert(!goes(sorted[j], sorted[i]));
        crate::text::lemma_text_order_total(sorted[i], sorted[j]);
        broadcast use vstd::seq_lib::group_to_multiset_ensures;

        list.lemma_multiset_has_no_duplicates();
        sorted.lemma_multiset_has_no_duplicates_conv();
    }
}

/// The section for a target is the first one with it, if there is one.
pub proof fn lemma_section_for_a_target(configs: Seq<ReplicateConfig>, target: Seq<char>, i: int)
    requires
        0 <= i <= configs.len(),
    ensures
        match section_for(configs, target, i) {
            Some(k) => {
                &&& i <= k < configs.len()
                &&& configs[k].target@ == target
                &&& forall|j: int| i <= j < k ==> (#[trigger] configs[j]).target@ != target
            },
            None => forall|j: int|
                i <= j < configs.len() ==> (#[trigger] configs[j]).target@ != target,
        },
    decreases configs.len() - i,
{
    if i < configs.len() && configs[i].target@ != target {
        lemma_section_for_a_target(configs, target, i + 1);
    }
}

/// A replica that was received itself is known by the UUID that it was received from, and any other
/// one by its own.
pub proof fn lemma_expected_uuids(replica: Identity)
    ensures
        replica.received_uuid matches Some(uuid) ==> expected_uuid(replica) == uuid,
        replica.received_uuid is None ==> expected_uuid(replica) == replica.uuid,
{
}

/// What arrived is verified if and only if both its identity and that of the replica were read and
/// it was received from what that is known by.
pub proof fn lemma_verified_returns(way: Way)
    ensures
        way.replica is None || way.received is None ==> !way.verified(),
        way.replica matches Some(replica) ==> way.received matches Some(received) ==> (
        way.verified() <==> received.received_uuid == Some(
            match replica.received_uuid {
                Some(uuid) => uuid,
                None => replica.uuid,
            },
        )),
        Way::started(way.dry_run).replica is None,
        Way::started(way.dry_run).received is None,
        Way::started(way.dry_run).dry_run == way.dry_run,
{
}

/// Bringing a snapshot back goes this way: it must not be here, nothing may be at its place, its
/// target has to be clear and hold it, what an interrupted run left is deleted first, and only if
/// what arrived comes from the replica that was seen, or from what that came from, it is restored.
/// What arrived is deleted in the end.
pub proof fn lemma_the_way_back(replica: Identity, received: Identity)
    ensures
        ({
            let a = Way::started(false);
            let b = a.after(ReturnSeen::Missing);
            let c = b.after(ReturnSeen::Missing);
            let d = c.after(ReturnSeen::Done);
            let e = d.after(ReturnSeen::There);
            let f = e.after(ReturnSeen::Shown(replica));
            let g = f.after(ReturnSeen::Missing);
            let h = g.after(ReturnSeen::Done);
            let i = h.after(ReturnSeen::Done);
            let j = i.after(ReturnSeen::Shown(received));
            let fits = received.received_uuid == Some(
                match replica.received_uuid {
                    Some(uuid) => uuid,
                    None => replica.uuid,
                },
            );
            &&& a.step == ReturnStep::LookHere
            &&& b.step == ReturnStep::LookAtPlace
            &&& c.step == ReturnStep::Resolve
            &&& d.step == ReturnStep::LookThere
            &&& e.step == ReturnStep::InspectReplica
            &&& f.step == ReturnStep::LookForLeftover
            &&& f.after(ReturnSeen::There).step == ReturnStep::RemoveLeftover
            &&& f.after(ReturnSeen::There).after(ReturnSeen::Done) == g
            &&& g.step == ReturnStep::MakeDirectory
            &&& h.step == ReturnStep::Receive
            &&& i.step == ReturnStep::InspectReceived
            &&& j.step == if fits {
                ReturnStep::Restore
            } else {
                ReturnStep::Discard(ReturnFault::Mismatch)
            }
            &&& fits ==> {
                let k = j.after(ReturnSeen::Done);
                &&& k.step == ReturnStep::Drop
                &&& k.after(ReturnSeen::Done).step == ReturnStep::Restored
                &&& k.after(ReturnSeen::Failed).step == ReturnStep::RestoredWithRest
                &&& j.after(ReturnSeen::Failed).step == ReturnStep::Discard(ReturnFault::Stopped)
            }
        }),
{
}

/// What stops bringing a snapshot back on its way: it is here already, its place is taken, or the
/// target does not hold it, and anything that can't be done. Before something arrived that is the
/// end, and from then on what arrived is deleted before.
pub proof fn lemma_what_stops_on_the_way_back(replica: Identity, received: Identity)
    ensures
        ({
            let a = Way::started(false);
            let b = a.after(ReturnSeen::Missing);
            let c = b.after(ReturnSeen::Missing);
            let d = c.after(ReturnSeen::Done);
            let e = d.after(ReturnSeen::There);
            let f = e.after(ReturnSeen::Shown(replica));
            let g = f.after(ReturnSeen::Missing);
            let h = g.after(ReturnSeen::Done);
            let i = h.after(ReturnSeen::Done);
            let stopped = ReturnStep::Failed(ReturnFault::Stopped);
            let discard = ReturnStep::Discard(ReturnFault::Stopped);
            &&& a.after(ReturnSeen::There).step == ReturnStep::Failed(ReturnFault::AlreadyHere)
            &&& b.after(ReturnSeen::There).step == ReturnStep::Failed(ReturnFault::PlaceTaken)
            &&& d.after(ReturnSeen::Missing).step == ReturnStep::Failed(ReturnFault::NoReplica)
            &&& a.after(ReturnSeen::Failed).step == stopped
            &&& b.after(ReturnSeen::Failed).step == stopped
            &&& c.after(ReturnSeen::Failed).step == stopped
            &&& d.after(ReturnSeen::Failed).step == stopped
            &&& e.after(ReturnSeen::Failed).step == stopped
            &&& f.after(ReturnSeen::Failed).step == stopped
            &&& f.after(ReturnSeen::There).after(ReturnSeen::Failed).step == stopped
            &&& g.after(ReturnSeen::Failed).step == stopped
            &&& h.after(ReturnSeen::Failed).step == discard
            &&& i.after(ReturnSeen::Failed).step == discard
        }),
{
}

/// Whatever becomes of deleting what arrived after a failure, the failure is what is reported. An
/// end stays, and a dry run ends with saying what would be done.
pub proof fn lemma_ends_of_the_way_back(way: Way, fault: ReturnFault, event: ReturnSeen)
    ensures
        way.step == ReturnStep::Discard(fault) ==> way.after(event).step == ReturnStep::Failed(
            fault,
        ),
        way.step == ReturnStep::Failed(fault) ==> way.after(event) == way,
        way.step is Restored ==> way.after(event) == way,
        way.step is RestoredWithRest ==> way.after(event) == way,
        way.step is Described ==> way.after(event) == way,
        way.after(event).dry_run == way.dry_run,
        ({
            let start = Way::started(true).after(ReturnSeen::Missing).after(ReturnSeen::Missing);
            &&& start.after(ReturnSeen::Done).step == ReturnStep::Describe
            &&& start.after(ReturnSeen::Done).after(event).step == ReturnStep::Described
            &&& start.after(ReturnSeen::Failed).step == ReturnStep::Failed(ReturnFault::Stopped)
        }),
        Way::started(true).after(ReturnSeen::There).step == ReturnStep::Failed(
            ReturnFault::AlreadyHere,
        ),
        Way::started(true).after(ReturnSeen::Missing).after(ReturnSeen::There).step
            == ReturnStep::Failed(ReturnFault::PlaceTaken),
{
}

/// An answer to another question than the one that was asked changes nothing on the way back. What
/// the replica is stays known once it is read, and so does what arrived.
pub proof fn lemma_other_answers_on_the_way_back(way: Way, event: ReturnSeen)
    ensures
        !(way.step is InspectReplica) ==> way.after(event).replica == way.replica,
        !(way.step is InspectReceived) ==> way.after(event).received == way.received,
        way.step is InspectReplica ==> (event matches ReturnSeen::Shown(info) ==> way.after(
            event,
        ).replica == Some(info)),
        way.step is InspectReceived ==> (event matches ReturnSeen::Shown(info) ==> way.after(
            event,
        ).received == Some(info)),
        !(event is Failed) ==> {
            &&& (way.step is LookHere || way.step is LookAtPlace || way.step is LookThere
                || way.step is LookForLeftover) && !(event is There) && !(event is Missing)
                ==> way.after(event) == way
            &&& (way.step is Resolve || way.step is RemoveLeftover || way.step is MakeDirectory
                || way.step is Receive || way.step is Restore) && !(event is Done) ==> way.after(
                event,
            ) == way
            &&& (way.step is InspectReplica || way.step is InspectReceived) && !(event is Shown)
                ==> way.after(event) == way
        },
{
}

} // verus!
