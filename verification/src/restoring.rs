//! Restoring snapshots: from the disk, or from one of their replicas.
//!
//! A [`Return`] brings a snapshot back from a replica. It decides what happens next; whoever runs
//! it does what its step says, here and at the target, and reports what came of it.
use crate::args::{Args, ReplicateConfig};
use crate::controller::{find_one, is_filtered, NotOne};
use crate::database::{found, list_replicas, listed, Database};
use crate::delivery::identity;
use crate::operations::{
    snapshot_args, snapshot_command, target_exists_message, target_exists_text,
};
use crate::order::{add_distinct, arrange_texts, arranged_texts, distinct, views};
use crate::replication::{
    place_of, replication_fault, Identity, Place, Replication, ReplicationError, SubvolumeInfo,
    TargetError,
};
use crate::structs::{subvolume_in, Replica, ReplicaRecord, Snapshot, SnapshotRecord};
use crate::text::{contains_text, copy_strings, join, joined, same_text, texts};
use crate::utils::{strip_trailing_slash, stripped};
use vstd::prelude::*;

verus! {

/// Where a snapshot is restored to: the directory it was taken from, or another one.
pub open spec fn restore_place(source: Seq<char>, dest_dir: Seq<char>) -> Seq<char> {
    if dest_dir.len() == 0 {
        stripped(source)
    } else {
        stripped(dest_dir)
    }
}

/// Where a snapshot is restored to: the directory it was taken from, or another one.
pub fn restore_target(record: &SnapshotRecord, dest_dir: &str) -> (target: String)
    ensures
        target@ == restore_place(record@.source, dest_dir@),
{
    if dest_dir.is_empty() {
        strip_trailing_slash(record.source.as_str()).to_owned()
    } else {
        strip_trailing_slash(dest_dir).to_owned()
    }
}

/// How a snapshot is restored.
#[derive(Debug, Clone, Copy, PartialEq, Eq, Structural)]
pub enum RestoreWay {
    /// It is brought back from one of its replicas.
    FromReplica,
    /// It is only said what would be done with the one on the disk.
    Describe,
    /// It is taken from the disk.
    Here,
}

/// How a snapshot is restored. What a dry run does with a replica is decided on the way.
pub open spec fn way_of(from_replica: bool, dry_run: bool) -> RestoreWay {
    if from_replica {
        RestoreWay::FromReplica
    } else if dry_run {
        RestoreWay::Describe
    } else {
        RestoreWay::Here
    }
}

/// How a snapshot is restored. What a dry run does with a replica is decided on the way.
pub fn restore_way(from_replica: bool, dry_run: bool) -> (way: RestoreWay)
    ensures
        way == way_of(from_replica, dry_run),
{
    if from_replica {
        RestoreWay::FromReplica
    } else if dry_run {
        RestoreWay::Describe
    } else {
        RestoreWay::Here
    }
}

/// What is restored.
#[derive(Debug, Clone, PartialEq, Eq)]
pub struct Restoring {
    /// The snapshot.
    pub record: SnapshotRecord,
    /// Where it is on the disk.
    pub snapshot: String,
    /// Where it is restored to.
    pub target: String,
    /// How it is restored.
    pub way: RestoreWay,
}

/// What is restored for `--restore`: the one snapshot with the given id or name, to its original
/// source directory or to `--to`.
pub fn manage_restoring(args: &Args, database: &Database) -> (restoring: Result<Restoring, NotOne>)
    ensures
        ({
            let all = found(database@, args.snapshot_id@);
            match restoring {
                Ok(restoring) => {
                    &&& all.len() == 1
                    &&& restoring.record@ == all[0]
                    &&& restoring.snapshot@ == subvolume_in(all[0].destination, all[0].name)
                    &&& restoring.target@ == restore_place(all[0].source, args.dest_dir@)
                    &&& restoring.way == way_of(args.from_replica is Some, args.dry_run)
                },
                Err(NotOne::Unknown) => all.len() == 0,
                Err(NotOne::Ambiguous(n)) => n == all.len() && n > 1,
            }
        }),
{
    let record: SnapshotRecord = match find_one(database, args.snapshot_id.as_str()) {
        Ok(record) => record,
        Err(error) => {
            return Err(error);
        },
    };
    let snapshot: String = record.path();
    let target: String = restore_target(&record, args.dest_dir.as_str());
    let way: RestoreWay = restore_way(args.from_replica.is_some(), args.dry_run);
    Ok(Restoring { record, snapshot, target, way })
}

/// What is said of a restore from the disk that is not carried out.
pub open spec fn restore_outline(
    snapshot: Seq<char>,
    target: Seq<char>,
    target_exists: bool,
) -> Seq<Seq<char>> {
    let command = "[dry-run] would run: btrfs "@ + joined(
        snapshot_command(snapshot, target, false),
        " "@,
    );
    if target_exists {
        seq![
            command,
            "[dry-run] note: "@ + target
                + " already exists, the restore will fail until it is moved out of the way"@,
        ]
    } else {
        seq![command]
    }
}

/// What is said of a restore from the disk that is not carried out. That something is at the
/// target is worth a note, and no error.
pub fn describe_restore(snapshot: &str, target: &str, target_exists: bool) -> (lines: Vec<String>)
    ensures
        texts(lines@) == restore_outline(snapshot@, target@, target_exists),
{
    let args: Vec<String> = snapshot_args(snapshot, target, false);
    let list: String = join(args.as_slice(), " ");
    let mut lines: Vec<String> = Vec::new();
    lines.push("[dry-run] would run: btrfs ".to_owned().concat(list.as_str()));
    if target_exists {
        lines.push(
            "[dry-run] note: ".to_owned().concat(target).concat(
                " already exists, the restore will fail until it is moved out of the way",
            ),
        );
    }
    assert(texts(lines@) =~= restore_outline(snapshot@, target@, target_exists));
    lines
}

/// The directory that replicas are received into before they are restored.
pub open spec fn restore_staging(destination: Seq<char>) -> Seq<char> {
    stripped(destination) + "/.restore"@
}

/// The directory that replicas are received into before they are restored.
pub fn restore_dir(destination: &str) -> (dir: String)
    ensures
        dir@ == restore_staging(destination@),
{
    strip_trailing_slash(destination).to_owned().concat("/.restore")
}

/// Where a snapshot is received before it is restored.
pub fn received_path(record: &SnapshotRecord) -> (path: String)
    ensures
        path@ == restore_staging(record@.destination) + "/"@ + record@.name,
{
    restore_dir(record.destination.as_str()).concat("/").concat(record.name.as_str())
}

/// The targets of the first `n` of these replicas that are of the snapshot with this id.
pub open spec fn targets_of(replicas: Seq<Replica>, snap_id: Seq<char>, n: nat) -> Seq<Seq<char>>
    decreases n,
{
    if n == 0 || n > replicas.len() {
        Seq::empty()
    } else if replicas[n - 1].snap_id == snap_id {
        targets_of(replicas, snap_id, (n - 1) as nat).push(replicas[n - 1].target)
    } else {
        targets_of(replicas, snap_id, (n - 1) as nat)
    }
}

/// The targets that hold a replica of the snapshot with this id, each once and in order.
pub open spec fn recorded_targets(replicas: Seq<Replica>, snap_id: Seq<char>) -> Seq<Seq<char>> {
    arranged_texts(distinct(targets_of(replicas, snap_id, replicas.len())))
}

/// Why it is not clear which replica is meant.
#[derive(Debug, Clone, PartialEq, Eq)]
pub enum TargetUnclear {
    /// No replica is recorded.
    Unrecorded,
    /// These targets hold one.
    Several(Vec<String>),
}

impl TargetUnclear {
    /// What to say where it is not clear which replica is meant.
    pub fn message(&self, name: &str) -> (message: String)
        ensures
            message@ == match *self {
                TargetUnclear::Unrecorded => "no replica of "@ + name@
                    + " is recorded. Give the target with --from-replica <TARGET>"@,
                TargetUnclear::Several(targets) => name@
                    + " is replicated to several targets, pick one with --from-replica <TARGET>: "@
                    + joined(texts(targets@), ", "@),
            },
    {
        match self {
            TargetUnclear::Unrecorded => "no replica of ".to_owned().concat(name).concat(
                " is recorded. Give the target with --from-replica <TARGET>",
            ),
            TargetUnclear::Several(targets) => {
                let list: String = join(targets.as_slice(), ", ");
                name.to_owned().concat(
                    " is replicated to several targets, pick one with --from-replica <TARGET>: ",
                ).concat(list.as_str())
            },
        }
    }
}

/// Target holding the replica of `record`, from the database. The whole point of `--from-replica`
/// without a value: the replicas are already recorded, so the target does not have to be typed
/// again.
pub fn recorded_target(database: &Database, record: &SnapshotRecord) -> (target: Result<
    String,
    TargetUnclear,
>)
    ensures
        ({
            let all = recorded_targets(listed(database@), record@.snap_id);
            match target {
                Ok(target) => all.len() == 1 && target@ == all[0],
                Err(TargetUnclear::Unrecorded) => all.len() == 0,
                Err(TargetUnclear::Several(targets)) => all.len() > 1 && texts(targets@) == all,
            }
        }),
{
    let replicas: Vec<ReplicaRecord> = list_replicas(database);
    let ghost shown = views(replicas@);
    let mut targets: Vec<String> = Vec::new();
    let mut i: usize = 0;
    proof {
        assert(shown.len() == replicas@.len());
        assert(texts(targets@) =~= distinct(targets_of(shown, record@.snap_id, 0)));
    }
    while i < replicas.len()
        invariant
            i <= replicas@.len(),
            shown == views(replicas@),
            texts(targets@) == distinct(targets_of(shown, record@.snap_id, i as nat)),
        decreases replicas@.len() - i,
    {
        let ghost before = targets_of(shown, record@.snap_id, i as nat);
        assert(shown[i as int] == replicas@[i as int]@);
        if same_text(replicas[i].snap_id.as_str(), record.snap_id.as_str()) {
            add_distinct(&mut targets, replicas[i].target.clone());
            proof {
                let after = targets_of(shown, record@.snap_id, (i + 1) as nat);
                assert(after.drop_last() =~= before);
                assert(after.last() == shown[i as int].target);
            }
        }
        i += 1;
    }
    let mut targets: Vec<String> = arrange_texts(targets);
    let ghost all = texts(targets@);
    let n: usize = targets.len();
    assert(all.len() == n);
    if n == 0 {
        Err(TargetUnclear::Unrecorded)
    } else if n == 1 {
        assert(all[0] == targets@[0]@);
        Ok(targets.remove(0))
    } else {
        Err(TargetUnclear::Several(targets))
    }
}

/// The target to bring a snapshot back from: the one given with `--from-replica`, or with no
/// value there the recorded one.
pub fn restore_source(database: &Database, record: &SnapshotRecord, source: &str) -> (target:
    Result<String, TargetUnclear>)
    ensures
        ({
            let all = recorded_targets(listed(database@), record@.snap_id);
            match target {
                Ok(target) => if source@.len() > 0 {
                    target@ == source@
                } else {
                    all.len() == 1 && target@ == all[0]
                },
                Err(TargetUnclear::Unrecorded) => source@.len() == 0 && all.len() == 0,
                Err(TargetUnclear::Several(targets)) => source@.len() == 0 && all.len() > 1
                    && texts(targets@) == all,
            }
        }),
{
    if source.is_empty() {
        recorded_target(database, record)
    } else {
        Ok(source.to_owned())
    }
}

/// The first section for a target, from position `i` on.
pub open spec fn section_for(configs: Seq<ReplicateConfig>, target: Seq<char>, i: int) -> Option<
    int,
>
    decreases configs.len() - i,
{
    if i < 0 || i >= configs.len() {
        None
    } else if configs[i].target@ == target {
        Some(i)
    } else {
        section_for(configs, target, i + 1)
    }
}

/// Whether a replication is the one that a section describes.
pub open spec fn is_built_from(replication: Replication, config: ReplicateConfig) -> bool {
    &&& replication_fault(config) is None
    &&& replication.url@ == config.target@
    &&& place_of(config.target@) == Ok::<Place, TargetError>(replication.target@)
    &&& replication.keep == config.keep
    &&& texts(replication.ssh_options@) == texts(config.ssh_options@)
    &&& texts(replication.exclude@) == crate::excludes::normal_excludes(texts(config.exclude@))
}

/// Whether two sections say the same.
pub open spec fn same_section(a: ReplicateConfig, b: ReplicateConfig) -> bool {
    &&& a.target@ == b.target@
    &&& a.keep == b.keep
    &&& texts(a.ssh_options@) == texts(b.ssh_options@)
    &&& texts(a.exclude@) == texts(b.exclude@)
}

/// The section for a `--from-replica` target: the matching `[[replicate]]` section, so a restore
/// needs no extra configuration, or one that only names the target.
pub fn external_section(args: &Args, source: &str) -> (config: ReplicateConfig)
    ensures
        match section_for(args.replicate@, source@, 0) {
            Some(i) => same_section(config, args.replicate@[i]),
            None => {
                &&& config.target@ == source@
                &&& config.keep is None
                &&& config.ssh_options@.len() == 0
                &&& config.exclude@.len() == 0
            },
        },
{
    let mut i: usize = 0;
    while i < args.replicate.len()
        invariant
            i <= args.replicate@.len(),
            section_for(args.replicate@, source@, i as int) == section_for(
                args.replicate@,
                source@,
                0,
            ),
        decreases args.replicate@.len() - i,
    {
        let config: &ReplicateConfig = &args.replicate[i];
        if same_text(config.target.as_str(), source) {
            return ReplicateConfig {
                target: config.target.clone(),
                keep: config.keep,
                ssh_options: copy_strings(config.ssh_options.as_slice()),
                exclude: copy_strings(config.exclude.as_slice()),
            };
        }
        i += 1;
    }
    ReplicateConfig {
        target: source.to_owned(),
        keep: None,
        ssh_options: Vec::new(),
        exclude: Vec::new(),
    }
}

/// Replication for a `--from-replica` target: reuses the `ssh_options` of the matching
/// `[[replicate]]` section so a restore needs no extra configuration.
pub fn external_replication(args: &Args, source: &str) -> (built: Result<
    Replication,
    ReplicationError,
>)
    ensures
        match section_for(args.replicate@, source@, 0) {
            Some(i) => match built {
                Ok(replication) => is_built_from(replication, args.replicate@[i]),
                Err(error) => replication_fault(args.replicate@[i]) == Some(error),
            },
            None => match built {
                Ok(replication) => {
                    &&& replication.url@ == source@
                    &&& place_of(source@) == Ok::<Place, TargetError>(replication.target@)
                    &&& replication.keep is None
                    &&& replication.ssh_options@.len() == 0
                    &&& replication.exclude@.len() == 0
                },
                Err(error) => place_of(source@) is Err && error == ReplicationError::Target(
                    place_of(source@)->Err_0,
                ),
            },
        },
{
    let config: ReplicateConfig = external_section(args, source);
    let built: Result<Replication, ReplicationError> = Replication::from_config(&config);
    proof {
        if section_for(args.replicate@, source@, 0) is None {
            assert(texts(config.exclude@) =~= Seq::empty());
            assert(texts(config.ssh_options@) =~= Seq::empty());
            if built is Ok {
                let replication = built->Ok_0;
                assert(texts(replication.ssh_options@).len() == replication.ssh_options@.len());
                assert(texts(replication.exclude@).len() == replication.exclude@.len());
            }
        }
    }
    built
}

/// Whether the replica of `name` at `target` was sent from a filtered copy.
pub fn was_filtered(database: &Database, name: &str, target: &str) -> (filtered: bool)
    ensures
        filtered == exists|i: int|
            0 <= i < listed(database@).len() && (#[trigger] listed(database@)[i]).name == name@
                && listed(database@)[i].target == target@ && is_filtered(listed(database@)[i]),
{
    let replicas: Vec<ReplicaRecord> = list_replicas(database);
    let ghost shown = views(replicas@);
    let mut i: usize = 0;
    assert(shown.len() == replicas@.len());
    while i < replicas.len()
        invariant
            i <= replicas@.len(),
            shown == views(replicas@),
            shown == listed(database@),
            forall|k: int|
                0 <= k < i ==> !((#[trigger] shown[k]).name == name@ && shown[k].target == target@
                    && is_filtered(shown[k])),
        decreases replicas@.len() - i,
    {
        let replica: &ReplicaRecord = &replicas[i];
        assert(shown[i as int] == replica@);
        if same_text(replica.name.as_str(), name) && same_text(replica.target.as_str(), target)
            && contains_text(replica.local_path.as_str(), "/.staging/") {
            return true;
        }
        i += 1;
    }
    false
}

/// What bringing a snapshot back does now.
#[derive(Debug, Clone, Copy, PartialEq, Eq, Structural)]
pub enum ReturnStep {
    /// Looks for the snapshot here.
    LookHere,
    /// Looks at the place that it is restored to.
    LookAtPlace,
    /// Finds out which target the replica is at.
    Resolve,
    /// Says what would be done.
    Describe,
    /// Looks for the replica at the target.
    LookThere,
    /// Reads the identity of the replica.
    InspectReplica,
    /// Looks for a copy that an interrupted run left behind: it would make the receive fail.
    LookForLeftover,
    /// Deletes the copy that was left behind.
    RemoveLeftover,
    /// Creates the directory that the replica is received into.
    MakeDirectory,
    /// Receives the replica.
    Receive,
    /// Reads the identity of what arrived.
    InspectReceived,
    /// Restores the snapshot from what arrived.
    Restore,
    /// Deletes what arrived: the restored copy shares its extents and keeps the data.
    Drop,
    /// Deletes what arrived, after a failure.
    Discard(ReturnFault),
    /// Nothing: the snapshot is restored.
    Restored,
    /// Nothing: the snapshot is restored, and what arrived is left behind.
    RestoredWithRest,
    /// Nothing: it is said what would be done.
    Described,
    /// Nothing: the snapshot is not restored.
    Failed(ReturnFault),
}

/// Why a snapshot is not brought back.
#[derive(Debug, Clone, Copy, PartialEq, Eq, Structural)]
pub enum ReturnFault {
    /// It is here already.
    AlreadyHere,
    /// There is something at the place that it is restored to.
    PlaceTaken,
    /// There is no replica at the target.
    NoReplica,
    /// What arrived is not what was asked for.
    Mismatch,
    /// Something on the way could not be done.
    Stopped,
}

/// What came of a step.
#[derive(Debug, Clone, PartialEq, Eq)]
pub enum ReturnEvent {
    /// It was done.
    Done,
    /// It could not be done.
    Failed,
    /// What was looked for is there.
    There,
    /// What was looked for is not there.
    Missing,
    /// The identity that was read.
    Shown(SubvolumeInfo),
}

/// What came of a step, as text.
pub enum ReturnSeen {
    Done,
    Failed,
    There,
    Missing,
    Shown(Identity),
}

impl View for ReturnEvent {
    type V = ReturnSeen;

    open spec fn view(&self) -> ReturnSeen {
        match self {
            ReturnEvent::Done => ReturnSeen::Done,
            ReturnEvent::Failed => ReturnSeen::Failed,
            ReturnEvent::There => ReturnSeen::There,
            ReturnEvent::Missing => ReturnSeen::Missing,
            ReturnEvent::Shown(info) => ReturnSeen::Shown(info@),
        }
    }
}

/// Bringing a snapshot back from one of its replicas.
#[derive(Debug, Clone, PartialEq, Eq)]
pub struct Return {
    pub step: ReturnStep,
    /// Whether it is only said what would be done.
    pub dry_run: bool,
    /// The identity of the replica, once it is known.
    pub replica: Option<SubvolumeInfo>,
    /// The identity of what arrived, once it is known.
    pub received: Option<SubvolumeInfo>,
}

/// Bringing a snapshot back from one of its replicas, as text.
#[verifier::ext_equal]
pub struct Way {
    pub step: ReturnStep,
    pub dry_run: bool,
    pub replica: Option<Identity>,
    pub received: Option<Identity>,
}

impl View for Return {
    type V = Way;

    open spec fn view(&self) -> Way {
        Way {
            step: self.step,
            dry_run: self.dry_run,
            replica: identity(self.replica),
            received: identity(self.received),
        }
    }
}

/// The identity that has to come out on the other side when a replica is sent back. A replica is
/// itself a received subvolume, and `btrfs send` propagates the identity it was received under,
/// not the replica's own. Only a replica created at the target by other means carries its own.
pub open spec fn expected_uuid(replica: Identity) -> Seq<char> {
    match replica.received_uuid {
        Some(uuid) => uuid,
        None => replica.uuid,
    }
}

impl Way {
    /// Whether what arrived is what was asked for.
    pub open spec fn verified(self) -> bool {
        match (self.replica, self.received) {
            (Some(replica), Some(received)) => received.received_uuid == Some(
                expected_uuid(replica),
            ),
            (_, _) => false,
        }
    }

    /// The way at another step.
    pub open spec fn at(self, step: ReturnStep) -> Way {
        Way { step, ..self }
    }

    /// The way that has not started.
    pub open spec fn started(dry_run: bool) -> Way {
        Way { step: ReturnStep::LookHere, dry_run, replica: None, received: None }
    }

    /// The way after what came of its step. What can't come of a step changes nothing.
    pub open spec fn after(self, event: ReturnSeen) -> Way {
        match (self.step, event) {
            (ReturnStep::LookHere, ReturnSeen::There) => self.at(
                ReturnStep::Failed(ReturnFault::AlreadyHere),
            ),
            (ReturnStep::LookHere, ReturnSeen::Missing) => self.at(ReturnStep::LookAtPlace),
            (ReturnStep::LookAtPlace, ReturnSeen::There) => self.at(
                ReturnStep::Failed(ReturnFault::PlaceTaken),
            ),
            (ReturnStep::LookAtPlace, ReturnSeen::Missing) => self.at(ReturnStep::Resolve),
            (ReturnStep::Resolve, ReturnSeen::Done) => self.at(
                if self.dry_run {
                    ReturnStep::Describe
                } else {
                    ReturnStep::LookThere
                },
            ),
            (ReturnStep::Describe, _) => self.at(ReturnStep::Described),
            (ReturnStep::LookThere, ReturnSeen::There) => self.at(ReturnStep::InspectReplica),
            (ReturnStep::LookThere, ReturnSeen::Missing) => self.at(
                ReturnStep::Failed(ReturnFault::NoReplica),
            ),
            (ReturnStep::InspectReplica, ReturnSeen::Shown(info)) => Way {
                replica: Some(info),
                ..self.at(ReturnStep::LookForLeftover)
            },
            (ReturnStep::LookForLeftover, ReturnSeen::There) => self.at(ReturnStep::RemoveLeftover),
            (ReturnStep::LookForLeftover, ReturnSeen::Missing) => self.at(
                ReturnStep::MakeDirectory,
            ),
            (ReturnStep::RemoveLeftover, ReturnSeen::Done) => self.at(ReturnStep::MakeDirectory),
            (ReturnStep::MakeDirectory, ReturnSeen::Done) => self.at(ReturnStep::Receive),
            (ReturnStep::Receive, ReturnSeen::Done) => self.at(ReturnStep::InspectReceived),
            (ReturnStep::Receive, ReturnSeen::Failed) => self.at(
                ReturnStep::Discard(ReturnFault::Stopped),
            ),
            (ReturnStep::InspectReceived, ReturnSeen::Shown(info)) => {
                let seen = Way { received: Some(info), ..self };
                if seen.verified() {
                    seen.at(ReturnStep::Restore)
                } else {
                    seen.at(ReturnStep::Discard(ReturnFault::Mismatch))
                }
            },
            (ReturnStep::InspectReceived, ReturnSeen::Failed) => self.at(
                ReturnStep::Discard(ReturnFault::Stopped),
            ),
            (ReturnStep::Restore, ReturnSeen::Done) => self.at(ReturnStep::Drop),
            (ReturnStep::Restore, ReturnSeen::Failed) => self.at(
                ReturnStep::Discard(ReturnFault::Stopped),
            ),
            (ReturnStep::Drop, ReturnSeen::Failed) => self.at(ReturnStep::RestoredWithRest),
            (ReturnStep::Drop, _) => self.at(ReturnStep::Restored),
            (ReturnStep::Discard(fault), _) => self.at(ReturnStep::Failed(fault)),
            (ReturnStep::Restored, _) => self,
            (ReturnStep::RestoredWithRest, _) => self,
            (ReturnStep::Described, _) => self,
            (ReturnStep::Failed(_), _) => self,
            (_, ReturnSeen::Failed) => self.at(ReturnStep::Failed(ReturnFault::Stopped)),
            (_, _) => self,
        }
    }

    /// What holds at every step: a snapshot is restored only from what was verified, and a dry
    /// run goes no further than saying what would be done.
    pub open spec fn sound(self) -> bool {
        match self.step {
            ReturnStep::LookHere => true,
            ReturnStep::LookAtPlace => true,
            ReturnStep::Resolve => true,
            ReturnStep::Describe => self.dry_run,
            ReturnStep::Described => self.dry_run,
            ReturnStep::Restore => !self.dry_run && self.verified(),
            ReturnStep::Drop => !self.dry_run && self.verified(),
            ReturnStep::Restored => !self.dry_run && self.verified(),
            ReturnStep::RestoredWithRest => !self.dry_run && self.verified(),
            ReturnStep::Failed(_) => true,
            _ => !self.dry_run,
        }
    }
}

impl Return {
    /// The way that has not started.
    pub fn start(dry_run: bool) -> (way: Return)
        ensures
            way@ == Way::started(dry_run),
            way@.sound(),
    {
        Return { step: ReturnStep::LookHere, dry_run, replica: None, received: None }
    }

    /// The identity that has to come out on the other side.
    pub fn expected(&self) -> (uuid: Option<&str>)
        ensures
            match (uuid, self@.replica) {
                (Some(uuid), Some(replica)) => uuid@ == expected_uuid(replica),
                (None, None) => true,
                (_, _) => false,
            },
    {
        match &self.replica {
            Some(replica) => match &replica.received_uuid {
                Some(uuid) => Some(uuid.as_str()),
                None => Some(replica.uuid.as_str()),
            },
            None => None,
        }
    }

    fn is_verified(&self) -> (verified: bool)
        ensures
            verified == self@.verified(),
    {
        match (self.expected(), &self.received) {
            (Some(uuid), Some(received)) => match &received.received_uuid {
                Some(found) => same_text(found.as_str(), uuid),
                None => false,
            },
            (_, _) => false,
        }
    }

    /// Takes in what came of the step.
    pub fn next(&mut self, event: ReturnEvent)
        requires
            old(self)@.sound(),
        ensures
            final(self)@ == old(self)@.after(event@),
            final(self)@.sound(),
    {
        let ghost before = self@;
        let ghost seen = event@;
        match (self.step, event) {
            (ReturnStep::LookHere, ReturnEvent::There) => {
                self.step = ReturnStep::Failed(ReturnFault::AlreadyHere);
            },
            (ReturnStep::LookHere, ReturnEvent::Missing) => {
                self.step = ReturnStep::LookAtPlace;
            },
            (ReturnStep::LookAtPlace, ReturnEvent::There) => {
                self.step = ReturnStep::Failed(ReturnFault::PlaceTaken);
            },
            (ReturnStep::LookAtPlace, ReturnEvent::Missing) => {
                self.step = ReturnStep::Resolve;
            },
            (ReturnStep::Resolve, ReturnEvent::Done) => {
                self.step = if self.dry_run {
                    ReturnStep::Describe
                } else {
                    ReturnStep::LookThere
                };
            },
            (ReturnStep::Describe, _) => {
                self.step = ReturnStep::Described;
            },
            (ReturnStep::LookThere, ReturnEvent::There) => {
                self.step = ReturnStep::InspectReplica;
            },
            (ReturnStep::LookThere, ReturnEvent::Missing) => {
                self.step = ReturnStep::Failed(ReturnFault::NoReplica);
            },
            (ReturnStep::InspectReplica, ReturnEvent::Shown(info)) => {
                self.replica = Some(info);
                self.step = ReturnStep::LookForLeftover;
            },
            (ReturnStep::LookForLeftover, ReturnEvent::There) => {
                self.step = ReturnStep::RemoveLeftover;
            },
            (ReturnStep::LookForLeftover, ReturnEvent::Missing) => {
                self.step = ReturnStep::MakeDirectory;
            },
            (ReturnStep::RemoveLeftover, ReturnEvent::Done) => {
                self.step = ReturnStep::MakeDirectory;
            },
            (ReturnStep::MakeDirectory, ReturnEvent::Done) => {
                self.step = ReturnStep::Receive;
            },
            (ReturnStep::Receive, ReturnEvent::Done) => {
                self.step = ReturnStep::InspectReceived;
            },
            (ReturnStep::Receive, ReturnEvent::Failed) => {
                self.step = ReturnStep::Discard(ReturnFault::Stopped);
            },
            (ReturnStep::InspectReceived, ReturnEvent::Shown(info)) => {
                self.received = Some(info);
                self.step = if self.is_verified() {
                    ReturnStep::Restore
                } else {
                    ReturnStep::Discard(ReturnFault::Mismatch)
                };
            },
            (ReturnStep::InspectReceived, ReturnEvent::Failed) => {
                self.step = ReturnStep::Discard(ReturnFault::Stopped);
            },
            (ReturnStep::Restore, ReturnEvent::Done) => {
                self.step = ReturnStep::Drop;
            },
            (ReturnStep::Restore, ReturnEvent::Failed) => {
                self.step = ReturnStep::Discard(ReturnFault::Stopped);
            },
            (ReturnStep::Drop, ReturnEvent::Failed) => {
                self.step = ReturnStep::RestoredWithRest;
            },
            (ReturnStep::Drop, _) => {
                self.step = ReturnStep::Restored;
            },
            (ReturnStep::Discard(fault), _) => {
                self.step = ReturnStep::Failed(fault);
            },
            (ReturnStep::Restored, _) => {},
            (ReturnStep::RestoredWithRest, _) => {},
            (ReturnStep::Described, _) => {},
            (ReturnStep::Failed(_), _) => {},
            (_, ReturnEvent::Failed) => {
                self.step = ReturnStep::Failed(ReturnFault::Stopped);
            },
            (_, _) => {},
        }
        assert(self@ =~= before.after(seen));
    }

    /// What to say of a snapshot that is not brought back: `target` is where it would be restored
    /// to, `remote` the path of its replica, `url` the target that the replica is at, and `cause`
    /// what went wrong with the last step that could not be done.
    pub fn message(
        &self,
        fault: ReturnFault,
        record: &SnapshotRecord,
        target: &str,
        remote: &str,
        url: &str,
        cause: &str,
    ) -> (message: String)
        ensures
            message@ == return_fault_text(
                self@,
                fault,
                record@,
                target@,
                remote@,
                url@,
                cause@,
            ),
    {
        match fault {
            ReturnFault::AlreadyHere => {
                let local: String = record.path();
                record.name.clone().concat(" is already on this machine at ").concat(
                    local.as_str(),
                ).concat(". Restore it with --restore --id ").concat(
                    record.snap_id.as_str(),
                ).concat(" and no --from-replica")
            },
            ReturnFault::PlaceTaken => target_exists_message(target),
            ReturnFault::NoReplica => remote.to_owned().concat(" does not exist at ").concat(url),
            ReturnFault::Mismatch => {
                let received: &str = match &self.received {
                    Some(info) => match &info.received_uuid {
                        Some(uuid) => uuid.as_str(),
                        None => "-",
                    },
                    None => "-",
                };
                let expected: &str = match self.expected() {
                    Some(uuid) => uuid,
                    None => "-",
                };
                "verification of ".to_owned().concat(record.name.as_str()).concat(
                    " failed: received UUID ",
                ).concat(received).concat(" does not match the UUID ").concat(expected).concat(
                    " of ",
                ).concat(remote).concat(" at ").concat(url)
            },
            ReturnFault::Stopped => cause.to_owned(),
        }
    }
}

/// What to say of a snapshot that is not brought back.
pub open spec fn return_fault_text(
    way: Way,
    fault: ReturnFault,
    record: Snapshot,
    target: Seq<char>,
    remote: Seq<char>,
    url: Seq<char>,
    cause: Seq<char>,
) -> Seq<char> {
    match fault {
        ReturnFault::AlreadyHere => record.name + " is already on this machine at "@ + subvolume_in(
            record.destination,
            record.name,
        ) + ". Restore it with --restore --id "@ + record.snap_id + " and no --from-replica"@,
        ReturnFault::PlaceTaken => target_exists_text(target),
        ReturnFault::NoReplica => remote + " does not exist at "@ + url,
        ReturnFault::Mismatch => "verification of "@ + record.name + " failed: received UUID "@ + (
        match way.received {
            Some(info) => match info.received_uuid {
                Some(uuid) => uuid,
                None => "-"@,
            },
            None => "-"@,
        }) + " does not match the UUID "@ + (match way.replica {
            Some(replica) => expected_uuid(replica),
            None => "-"@,
        }) + " of "@ + remote + " at "@ + url,
        ReturnFault::Stopped => cause,
    }
}

/// The way after everything that came of its steps, one event after the other.
pub open spec fn returned(way: Way, events: Seq<ReturnSeen>) -> Way
    decreases events.len(),
{
    if events.len() == 0 {
        way
    } else {
        returned(way, events.drop_last()).after(events.last())
    }
}

/// Whatever happens on the way, a snapshot is restored from a replica only when what arrived has
/// the identity that the replica was asked for, and a dry run never restores.
pub proof fn lemma_restored_only_when_verified(dry_run: bool, events: Seq<ReturnSeen>)
    ensures
        returned(Way::started(dry_run), events).sound(),
        returned(Way::started(dry_run), events).dry_run == dry_run,
        returned(Way::started(dry_run), events).step is Restore ==> returned(
            Way::started(dry_run),
            events,
        ).verified() && !dry_run,
        returned(Way::started(dry_run), events).step is Restored ==> returned(
            Way::started(dry_run),
            events,
        ).verified() && !dry_run,
    decreases events.len(),
{
    if events.len() > 0 {
        lemma_restored_only_when_verified(dry_run, events.drop_last());
    }
}

/// What arrived is never left behind by a failure: from the receive on, every failure is reported
/// only after what arrived was deleted or its deletion was tried.
pub proof fn lemma_failed_returns_are_discarded(way: Way, event: ReturnSeen)
    requires
        way.step is Receive || way.step is InspectReceived || way.step is Restore,
    ensures
        !(way.after(event).step is Failed),
        event is Failed ==> way.after(event).step is Discard,
{
}

} // verus!
