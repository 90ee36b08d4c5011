//! What is said of everything that goes wrong or would be done.
use crate::args::{args_error_text, Args, ArgsError, ReplicateConfig};
use crate::controller::{
    cleaning_headline, not_deleted_text, nothing_to_clean, selection, Deletion, NotDeleted,
};
use crate::deleting::{notice, report};
use crate::delivery::{fault_text, Course, Fault};
use crate::excludes::ExcludeError;
use crate::operations::target_exists_text;
use crate::replication::{
    replication_error_text, target_error_text, Identity, ReplicationError, TargetError,
};
use crate::restoring::{return_fault_text, ReturnFault, Way};
use crate::structs::{subvolume_in, Snapshot};
use crate::text::{joined, numeral};
use crate::transfer::{pipe_fault_text, PipeFault};
use crate::utils::{dir_error_text, DirError, HostnameUnreadable, WorkingDir};
use vstd::prelude::*;

verus! {

/// What is said of a directory that can't be found names the reason, and of one that is not valid
/// Unicode its path, below the current directory if that is why.
pub proof fn lemma_directory_messages(dir: Seq<char>, reason: String, base: String)
    ensures
        dir_error_text(DirError::CurrentDirUnreadable, dir, WorkingDir::Unreadable(reason))
            == "failed to get the current working directory: "@ + reason@,
        dir_error_text(DirError::NotUnicode, dir, WorkingDir::Known(base)) == "the path "@ + dir
            + " is not valid UTF-8"@,
        dir.len() > 0 && dir[0] != '/' && base@.len() > 0 && base@.last() != '/' ==> dir_error_text(
            DirError::NotUnicode,
            dir,
            WorkingDir::NotUnicode(base),
        ) == "the path "@ + (base@.push('/') + dir) + " is not valid UTF-8"@,
{
    reveal_strlit("failed to get the current working directory");
    reveal_strlit("failed to get the current working directory: ");
    reveal_strlit(": ");
    assert("failed to get the current working directory"@ + ": "@
        =~= "failed to get the current working directory: "@);
    crate::option_laws::lemma_paths_below(base@, dir);
}

/// What is said of refused options: of a directory what is said of it, of the hostname why it can't
/// be read, of a section what is wrong with it.
pub proof fn lemma_option_messages(
    args: Args,
    cwd: WorkingDir,
    lost: DirError,
    hostname: HostnameUnreadable,
    i: usize,
    section: ReplicationError,
)
    ensures
        args_error_text(ArgsError::Source(lost), args, cwd) == dir_error_text(
            lost,
            args.source_dir@,
            cwd,
        ),
        args_error_text(ArgsError::Destination(lost), args, cwd) == dir_error_text(
            lost,
            args.dest_dir@,
            cwd,
        ),
        args_error_text(ArgsError::Hostname(hostname), args, cwd) == "failed to get the hostname: "@
            + hostname.reason@,
        args_error_text(ArgsError::Prefix, args, cwd)
            == "the snapshot prefix must not be empty or contain '/'"@,
        args_error_text(ArgsError::DatabaseFile, args, cwd)
            == "the database file path (-d/--dfile) must not be empty"@,
        args_error_text(ArgsError::Replicate(i, section), args, cwd) == replication_error_text(
            section,
            args.replicate@[i as int],
        ),
{
}

/// What is said of a refused section names its target or the entry that is refused.
pub proof fn lemma_section_messages(config: ReplicateConfig, error: TargetError, i: usize)
    ensures
        replication_error_text(ReplicationError::Target(error), config) == target_error_text(
            error,
            config.target@,
        ),
        replication_error_text(ReplicationError::KeepZero, config)
            == "replicate.keep must be at least 1 for "@ + config.target@
            + " (the newest replica is the parent of the next incremental send)"@,
        i < config.exclude@.len() ==> {
            let entry = config.exclude@[i as int]@;
            &&& replication_error_text(
                ReplicationError::Exclude(ExcludeError::Escaping(i)),
                config,
            ) == "exclude '"@ + entry
                + "' must be a relative path inside the snapshot, without '..'"@
            &&& replication_error_text(ReplicationError::Exclude(ExcludeError::Empty(i)), config)
                == "exclude entries must be paths inside the snapshot, got '"@ + entry + "'"@
        },
        target_error_text(TargetError::SshWithoutPath, config.target@) == "the ssh target '"@
            + config.target@ + "' must include a path: ssh://[user@]host[:port]/path"@,
        target_error_text(TargetError::InvalidPort, config.target@)
            == "invalid port in the ssh target '"@ + config.target@ + "'"@,
        target_error_text(TargetError::InvalidSsh, config.target@) == "invalid ssh target '"@
            + config.target@ + "': expected ssh://[user@]host[:port]/path"@,
        target_error_text(TargetError::RootDirectory, config.target@)
            == "the replication target can't be the root directory"@,
        target_error_text(TargetError::Unsupported, config.target@)
            == "unsupported replication target '"@ + config.target@
            + "': use an absolute path or ssh://[user@]host[:port]/path"@,
{
}

/// What is said of a cleanup counts what is deleted and what is kept, and names what was selected.
pub proof fn lemma_cleanup_messages(args: Args, count: nat)
    ensures
        ({
            let selected = (if args.read_write {
                "rw"@
            } else {
                "ro"@
            }) + " snapshots with prefix '"@ + args.snapshot_prefix@ + "', kind '"@
                + args.snapshot_kind@ + "' and machine '"@ + args.machine@ + "'"@;
            let kept = numeral(args.keep_only as nat);
            &&& selection(args) == selected
            &&& args.dry_run ==> cleaning_headline(args, count) == "Would delete "@ + numeral(count)
                + " snapshot(s), keeping the last "@ + kept + " "@ + selected + ":"@
            &&& !args.dry_run ==> cleaning_headline(args, count) == "Deleting "@ + numeral(count)
                + " snapshot(s), keeping the last "@ + kept + " "@ + selected + ":"@
            &&& nothing_to_clean(args) == "Nothing to clean: there are no more than "@ + kept + " "@
                + selected + "."@
        }),
{
    reveal_strlit("Would delete");
    reveal_strlit("Would delete ");
    reveal_strlit("Deleting");
    reveal_strlit("Deleting ");
    reveal_strlit(" ");
    assert("Would delete"@ + " "@ =~= "Would delete "@);
    assert("Deleting"@ + " "@ =~= "Deleting "@);
}

/// What is said of a snapshot that is deleted or is not: its name, its id and where it should be,
/// and why it stays.
pub proof fn lemma_deletion_messages(snapshot: Snapshot, path: Seq<char>, machine: Seq<char>)
    ensures
        ({
            let called = snapshot.name + " ("@ + snapshot.snap_id + ")"@;
            &&& not_deleted_text(NotDeleted::OtherMachine, snapshot, path, machine) == "snapshot "@
                + called + " is not present at "@ + path + ": it was created on machine '"@
                + snapshot.machine + "' and this is '"@ + machine + "'"@
            &&& not_deleted_text(NotDeleted::NoDirectory, snapshot, path, machine) == "snapshot "@
                + called + " is not present at "@ + path + " and its directory "@
                + snapshot.destination
                + " is not available either (is the snapshots subvolume mounted?). Keeping it in the database"@
            &&& notice(Deletion::Describe, snapshot, path) == Some(
                "[dry-run] would delete snapshot "@ + called + " at "@ + path,
            )
            &&& notice(Deletion::FromDisk, snapshot, path) is None
            &&& notice(Deletion::RowOnly, snapshot, path) == Some(
                "Warning: snapshot "@ + called + " no longer exists at "@ + path
                    + ", removing it from the database only."@,
            )
            &&& report(Deletion::Describe, snapshot) is None
            &&& report(Deletion::FromDisk, snapshot) == Some("Snapshot "@ + called + " deleted"@)
            &&& report(Deletion::RowOnly, snapshot) == Some(
                "Snapshot "@ + called + " removed from the database"@,
            )
        }),
{
    reveal_strlit(")");
    reveal_strlit(" is not present at ");
    reveal_strlit(") is not present at ");
    reveal_strlit(" at ");
    reveal_strlit(") at ");
    reveal_strlit(" no longer exists at ");
    reveal_strlit(") no longer exists at ");
    reveal_strlit(" deleted");
    reveal_strlit(") deleted");
    reveal_strlit(" removed from the database");
    reveal_strlit(") removed from the database");
    let called = snapshot.name + " ("@ + snapshot.snap_id + ")"@;
    assert("snapshot "@ + snapshot.name + " ("@ + snapshot.snap_id + ") is not present at "@ + path
        =~= "snapshot "@ + called + " is not present at "@ + path);
    assert("[dry-run] would delete snapshot "@ + snapshot.name + " ("@ + snapshot.snap_id
        + ") at "@ + path =~= "[dry-run] would delete snapshot "@ + called + " at "@ + path);
    assert("Warning: snapshot "@ + snapshot.name + " ("@ + snapshot.snap_id
        + ") no longer exists at "@ + path + ", removing it from the database only."@
        =~= "Warning: snapshot "@ + called + " no longer exists at "@ + path
        + ", removing it from the database only."@);
    assert("Snapshot "@ + snapshot.name + " ("@ + snapshot.snap_id + ") deleted"@ =~= "Snapshot "@
        + called + " deleted"@);
    assert("Snapshot "@ + snapshot.name + " ("@ + snapshot.snap_id
        + ") removed from the database"@ =~= "Snapshot "@ + called
        + " removed from the database"@);
}

/// The UUID that a subvolume was received from, or a dash.
pub open spec fn shown_uuid(info: Identity) -> Seq<char> {
    match info.received_uuid {
        Some(uuid) => uuid,
        None => "-"@,
    }
}

/// What is said when a snapshot is not brought back. Where what arrived is something else, both
/// UUIDs are named.
pub proof fn lemma_return_messages(
    way: Way,
    record: Snapshot,
    target: Seq<char>,
    remote: Seq<char>,
    url: Seq<char>,
    cause: Seq<char>,
    replica: Identity,
    received: Identity,
)
    requires
        way.replica == Some(replica),
        way.received == Some(received),
    ensures
        return_fault_text(way, ReturnFault::AlreadyHere, record, target, remote, url, cause)
            == record.name + " is already on this machine at "@ + subvolume_in(
            record.destination,
            record.name,
        ) + ". Restore it with --restore --id "@ + record.snap_id + " and no --from-replica"@,
        return_fault_text(way, ReturnFault::PlaceTaken, record, target, remote, url, cause)
            == "the restore target "@ + target
            + " already exists. Move it out of the way first (for example: mv "@ + target + " "@
            + target + ".old) or restore somewhere else with --to"@,
        target_exists_text(target) == "the restore target "@ + target
            + " already exists. Move it out of the way first (for example: mv "@ + target + " "@
            + target + ".old) or restore somewhere else with --to"@,
        return_fault_text(way, ReturnFault::NoReplica, record, target, remote, url, cause) == remote
            + " does not exist at "@ + url,
        return_fault_text(way, ReturnFault::Mismatch, record, target, remote, url, cause)
            == "verification of "@ + record.name + " failed: received UUID "@ + shown_uuid(received)
            + " does not match the UUID "@ + (match replica.received_uuid {
            Some(uuid) => uuid,
            None => replica.uuid,
        }) + " of "@ + remote + " at "@ + url,
        return_fault_text(way, ReturnFault::Stopped, record, target, remote, url, cause) == cause,
{
}

/// What is said when a snapshot is not delivered. Where what arrived is something else, both UUIDs
/// are named.
pub proof fn lemma_delivery_messages(
    course: Course,
    url: Seq<char>,
    cause: Seq<char>,
    source: Identity,
    received: Identity,
)
    requires
        course.source == Some(source),
        course.received == Some(received),
    ensures
        fault_text(course, Fault::Stopped, url, cause) == cause,
        fault_text(course, Fault::NotSent, url, cause) == "failed to send "@ + course.name + " to "@
            + url + ": "@ + cause,
        fault_text(course, Fault::NotVerified, url, cause) == "could not verify "@ + course.name
            + " at "@ + url + ": "@ + cause,
        fault_text(course, Fault::Mismatch, url, cause) == "verification of "@ + course.name
            + " at "@ + url + " failed: received UUID "@ + shown_uuid(received)
            + " does not match the source UUID "@ + source.uuid,
{
}

/// What is said when a transfer fails: which of the two processes it was, and why.
pub proof fn lemma_transfer_messages(send: Seq<Seq<char>>, url: Seq<char>, cause: Seq<char>)
    ensures
        pipe_fault_text(PipeFault::SendNotStarted, send, url, cause)
            == "failed to execute 'btrfs send': "@ + cause,
        pipe_fault_text(PipeFault::ReceiveNotStarted, send, url, cause)
            == "failed to start 'btrfs receive' at "@ + url + ": "@ + cause,
        pipe_fault_text(PipeFault::SendNotWaited, send, url, cause)
            == "failed to wait for 'btrfs send': "@ + cause,
        pipe_fault_text(PipeFault::ReceiveNotWaited, send, url, cause)
            == "failed to wait for 'btrfs receive': "@ + cause,
        pipe_fault_text(PipeFault::SendFailed, send, url, cause) == "'btrfs "@ + joined(send, " "@)
            + "' failed with "@ + cause,
        pipe_fault_text(PipeFault::ReceiveFailed, send, url, cause) == "'btrfs receive' at "@ + url
            + " failed with "@ + cause,
        pipe_fault_text(PipeFault::ReadFailed, send, url, cause)
            == "failed to read from 'btrfs send': "@ + cause,
        pipe_fault_text(PipeFault::WriteFailed, send, url, cause)
            == "failed to write to 'btrfs receive': "@ + cause,
{
}

} // verus!
