//! What the operations do: taking, deleting, cleaning, restoring and listing snapshots.
use crate::args::Args;
use crate::database::{
    cleanup_candidates, cleanup_rows, find_snapshots, found, mode, mode_text,
    refused_for_snapshots, snapshots_of, Database, QueryError,
};
use crate::excludes::{md5_hex, text_id};
use crate::order::views;
use crate::paths::{is_absolute, starts_at_root};
pub use crate::restoring::manage_restoring;
use crate::structs::{Replica, ReplicaRecord, Snapshot, SnapshotRecord};
use crate::text::{contains_text, decimal, is_digit, numeral, occurs_in, same_text, texts};
use vstd::prelude::*;

verus! {

/// The number that two digits of a text stand for.
pub open spec fn two_digits(s: Seq<char>, at: int) -> int {
    (s[at] as int - '0' as int) * 10 + (s[at + 1] as int - '0' as int)
}

/// Whether a text is a moment as it stands in the name of a snapshot: the year, which has four
/// digits in our time and may have a sign in others, and then month, day, hour, minute, second
/// and microsecond.
pub open spec fn is_stamp(s: Seq<char>) -> bool {
    let n = s.len() - 22;
    &&& n >= 4
    &&& 1 <= two_digits(s, n + 1) <= 12
    &&& 1 <= two_digits(s, n + 4) <= 31
    &&& 0 <= two_digits(s, n + 7) <= 23
    &&& 0 <= two_digits(s, n + 10) <= 59
    &&& 0 <= two_digits(s, n + 13) <= 60
    &&& forall|i: int|
        0 <= i < n ==> is_digit(#[trigger] s[i]) || (i == 0 && (s[i] == '+' || s[i] == '-'))
    &&& forall|i: int|
        n <= i < s.len() ==> if i == n || i == n + 3 || i == n + 6 || i == n + 9 || i == n + 12
            || i == n + 15 {
            #[trigger] s[i] == '-'
        } else {
            is_digit(s[i])
        }
}

/// The moment that it is now, in UTC.
///
/// Not proved here: the conversion of a `SystemTime` into a `chrono::DateTime<Utc>`, formatted
/// with `%Y-%m-%d-%H-%M-%S-%6f`, gives the year with at least four digits, with a sign in front of
/// years outside of 0 to 9999, then month, day, hour, minute and second with two digits each,
/// within the bounds of a calendar and a clock with leap seconds, and the microsecond with six,
/// all after dashes. Which moment it is depends on the clock, and is
/// left unsaid. The conversion takes moments before 1970 too; only a clock that is more than a
/// quarter of a million years off would make it panic.
#[verifier::external_body]
fn now() -> (stamp: String)
    ensures
        is_stamp(stamp@),
{
    let moment = chrono::DateTime::<chrono::Utc>::from(std::time::SystemTime::now());
    moment.format("%Y-%m-%d-%H-%M-%S-%6f").to_string()
}

/// The name of the snapshot of this prefix that is taken at this moment.
pub open spec fn snapshot_name(prefix: Seq<char>, stamp: Seq<char>) -> Seq<char> {
    prefix + "-"@ + stamp
}

/// The name of the snapshot of this prefix that is taken at this moment.
pub fn name_at(prefix: &str, stamp: &str) -> (name: String)
    ensures
        name@ == snapshot_name(prefix@, stamp@),
{
    prefix.to_owned().concat("-").concat(stamp)
}

/// Name for a new snapshot: `<prefix>-<UTC timestamp with microseconds>`. What it is at a given
/// moment is what [`name_at`] says.
#[must_use]
pub fn new_snapshot_name(prefix: &str) -> (name: String)
    ensures
        exists|stamp: Seq<char>|
            is_stamp(stamp) && name@ == #[trigger] snapshot_name(prefix@, stamp),
{
    let stamp: String = now();
    let name: String = name_at(prefix, stamp.as_str());
    assert(is_stamp(stamp@) && name@ == snapshot_name(prefix@, stamp@));
    name
}

/// The name of a snapshot is a single name in its directory if its prefix has no slash.
pub proof fn lemma_names_have_no_slash(prefix: Seq<char>, stamp: Seq<char>)
    requires
        !prefix.contains('/'),
        is_stamp(stamp),
    ensures
        !snapshot_name(prefix, stamp).contains('/'),
{
    reveal_strlit("-");
    let name = snapshot_name(prefix, stamp);
    if name.contains('/') {
        let k = choose|k: int| 0 <= k < name.len() && name[k] == '/';
        let n = prefix.len();
        if k < n {
            assert(prefix[k] == '/');
        } else if k > n {
            assert(stamp[k - n - 1] == '/');
            assert(!is_digit('/'));
        } else {
            assert(name[k] == "-"@[0]);
        }
    }
}

/// The record of a snapshot with this name that the options ask for.
pub open spec fn record_for(args: Args, name: Seq<char>) -> Snapshot {
    Snapshot {
        name,
        snap_id: md5_hex(name),
        kind: args.snapshot_kind@,
        source: args.source_dir@,
        destination: args.dest_dir@,
        machine: args.machine@,
        ro_rw: mode_text(args.read_write),
        date: ""@,
    }
}

/// The record of a new snapshot that the options ask for. The date is filled in when it is
/// recorded.
pub fn new_record(args: &Args, name: &str) -> (record: SnapshotRecord)
    ensures
        record@ == record_for(*args, name@),
{
    SnapshotRecord {
        name: name.to_owned(),
        snap_id: text_id(name),
        kind: args.snapshot_kind.clone(),
        source: args.source_dir.clone(),
        destination: args.dest_dir.clone(),
        machine: args.machine.clone(),
        ro_rw: mode(args.read_write).to_owned(),
        date: "".to_owned(),
    }
}

/// What taking a snapshot does now.
#[derive(Debug, Clone, Copy, PartialEq, Eq, Structural)]
pub enum CreateStep {
    /// Says what would be done.
    Describe,
    /// Takes the snapshot.
    Take,
    /// Records it.
    Record,
    /// Deletes it again: it could not be recorded.
    Undo,
    /// Nothing: it is said what would be done.
    Described,
    /// Nothing: the snapshot is taken and recorded.
    Created,
    /// Nothing: there is no snapshot.
    NotTaken,
    /// Nothing: the snapshot could not be recorded and is deleted again.
    NotRecorded,
    /// Nothing: the snapshot could not be recorded and is left on the disk.
    LeftBehind,
}

impl CreateStep {
    /// The first step.
    pub open spec fn first(dry_run: bool) -> CreateStep {
        if dry_run {
            CreateStep::Describe
        } else {
            CreateStep::Take
        }
    }

    /// The step after this one, which was done or could not be.
    pub open spec fn after(self, done: bool) -> CreateStep {
        match (self, done) {
            (CreateStep::Describe, _) => CreateStep::Described,
            (CreateStep::Take, true) => CreateStep::Record,
            (CreateStep::Take, false) => CreateStep::NotTaken,
            (CreateStep::Record, true) => CreateStep::Created,
            (CreateStep::Record, false) => CreateStep::Undo,
            (CreateStep::Undo, true) => CreateStep::NotRecorded,
            (CreateStep::Undo, false) => CreateStep::LeftBehind,
            (_, _) => self,
        }
    }

    /// The first step.
    pub fn start(dry_run: bool) -> (step: CreateStep)
        ensures
            step == CreateStep::first(dry_run),
    {
        if dry_run {
            CreateStep::Describe
        } else {
            CreateStep::Take
        }
    }

    /// The step after this one, which was done or could not be.
    pub fn next(self, done: bool) -> (step: CreateStep)
        ensures
            step == self.after(done),
    {
        match (self, done) {
            (CreateStep::Describe, _) => CreateStep::Described,
            (CreateStep::Take, true) => CreateStep::Record,
            (CreateStep::Take, false) => CreateStep::NotTaken,
            (CreateStep::Record, true) => CreateStep::Created,
            (CreateStep::Record, false) => CreateStep::Undo,
            (CreateStep::Undo, true) => CreateStep::NotRecorded,
            (CreateStep::Undo, false) => CreateStep::LeftBehind,
            (_, _) => self,
        }
    }
}

/// A snapshot that is taken and can't be recorded is deleted again, so that the database and the
/// disk don't drift apart: it is left behind only if the deletion fails too. A dry run takes
/// nothing.
pub proof fn lemma_unrecorded_snapshots_are_undone(recorded: bool, undone: bool)
    ensures
        CreateStep::first(false).after(true).after(recorded).after(undone) == if recorded {
            CreateStep::Created
        } else if undone {
            CreateStep::NotRecorded
        } else {
            CreateStep::LeftBehind
        },
        CreateStep::first(true).after(recorded) == CreateStep::Described,
{
}

/// Why an id or name does not say which snapshot is meant.
#[derive(Debug, Clone, Copy, PartialEq, Eq, Structural)]
pub enum NotOne {
    /// No snapshot has it.
    Unknown,
    /// This many snapshots have it.
    Ambiguous(usize),
}

impl NotOne {
    /// What to say of an id or name that does not say which snapshot is meant.
    pub fn message(&self, id_or_name: &str) -> (message: String)
        ensures
            message@ == match *self {
                NotOne::Unknown => "no snapshot found with id or name '"@ + id_or_name@
                    + "'. Use --list to see the tracked snapshots"@,
                NotOne::Ambiguous(n) => "'"@ + id_or_name@ + "' matches "@ + numeral(n as nat)
                    + " snapshots, use the snapshot id instead of the name"@,
            },
    {
        match *self {
            NotOne::Unknown => "no snapshot found with id or name '".to_owned().concat(
                id_or_name,
            ).concat("'. Use --list to see the tracked snapshots"),
            NotOne::Ambiguous(n) => {
                let count: String = decimal(n as u64);
                "'".to_owned().concat(id_or_name).concat("' matches ").concat(
                    count.as_str(),
                ).concat(" snapshots, use the snapshot id instead of the name")
            },
        }
    }
}

/// The snapshot with this id or name.
pub fn find_one(database: &Database, id_or_name: &str) -> (one: Result<SnapshotRecord, NotOne>)
    ensures
        ({
            let all = found(database@, id_or_name@);
            match one {
                Ok(record) => all.len() == 1 && record@ == all[0],
                Err(NotOne::Unknown) => all.len() == 0,
                Err(NotOne::Ambiguous(n)) => n == all.len() && n > 1,
            }
        }),
{
    let mut list: Vec<SnapshotRecord> = find_snapshots(database, id_or_name);
    let ghost all = views(list@);
    let n: usize = list.len();
    assert(all.len() == n);
    if n == 0 {
        Err(NotOne::Unknown)
    } else if n == 1 {
        assert(all[0] == list@[0]@);
        Ok(list.remove(0))
    } else {
        Err(NotOne::Ambiguous(n))
    }
}

/// How a snapshot is deleted.
#[derive(Debug, Clone, Copy, PartialEq, Eq, Structural)]
pub enum Deletion {
    /// It is only said what would be deleted.
    Describe,
    /// The subvolume is deleted, and then its row.
    FromDisk,
    /// The subvolume is gone from this machine already: only its row is removed.
    RowOnly,
}

/// Why a snapshot is not deleted.
#[derive(Debug, Clone, Copy, PartialEq, Eq, Structural)]
pub enum NotDeleted {
    /// It is not here, and it was created on another machine.
    OtherMachine,
    /// It is not here, and neither is its directory: most likely the subvolume that it is in is
    /// not mounted. Forgetting the row would lose track of a snapshot that still exists.
    NoDirectory,
}

/// How a snapshot is deleted on this machine.
pub open spec fn deletion(
    snapshot: Snapshot,
    path: Seq<char>,
    machine: Seq<char>,
    dry_run: bool,
    on_disk: bool,
    has_directory: bool,
) -> Result<Deletion, NotDeleted> {
    if dry_run {
        Ok(Deletion::Describe)
    } else if on_disk {
        Ok(Deletion::FromDisk)
    } else if snapshot.machine != machine {
        Err(NotDeleted::OtherMachine)
    } else if !is_absolute(path) || !has_directory {
        Err(NotDeleted::NoDirectory)
    } else {
        Ok(Deletion::RowOnly)
    }
}

/// How a snapshot is deleted on this machine. `on_disk` says whether something is at its path,
/// and `has_directory` whether its destination is a directory.
///
/// If the subvolume is already gone from this machine (but its directory is there) only the row
/// is removed; if it belongs to another machine or the whole snapshots directory is missing
/// nothing is touched.
pub fn delete_record(
    record: &SnapshotRecord,
    machine: &str,
    dry_run: bool,
    on_disk: bool,
    has_directory: bool,
) -> (way: Result<Deletion, NotDeleted>)
    ensures
        way == deletion(
            record@,
            crate::structs::subvolume_in(record@.destination, record@.name),
            machine@,
            dry_run,
            on_disk,
            has_directory,
        ),
{
    let path: String = record.path();
    if dry_run {
        Ok(Deletion::Describe)
    } else if on_disk {
        Ok(Deletion::FromDisk)
    } else if !same_text(record.machine.as_str(), machine) {
        Err(NotDeleted::OtherMachine)
    } else if !starts_at_root(path.as_str()) || !has_directory {
        Err(NotDeleted::NoDirectory)
    } else {
        Ok(Deletion::RowOnly)
    }
}

/// A row is removed without its subvolume only if the subvolume is known to be gone: the snapshot
/// was created on this machine, and the directory that it should be in is there.
pub proof fn lemma_rows_are_kept_while_unsure(
    snapshot: Snapshot,
    path: Seq<char>,
    machine: Seq<char>,
    dry_run: bool,
    on_disk: bool,
    has_directory: bool,
)
    ensures
        deletion(snapshot, path, machine, dry_run, on_disk, has_directory) == Ok::<
            Deletion,
            NotDeleted,
        >(Deletion::RowOnly) <==> !dry_run && !on_disk && snapshot.machine == machine
            && is_absolute(path) && has_directory,
{
}

impl NotDeleted {
    /// What to say of a snapshot that is not deleted.
    pub fn message(&self, record: &SnapshotRecord, machine: &str) -> (message: String)
        ensures
            message@ == not_deleted_text(
                *self,
                record@,
                crate::structs::subvolume_in(record@.destination, record@.name),
                machine@,
            ),
    {
        let path: String = record.path();
        let start: String = "snapshot ".to_owned().concat(record.name.as_str()).concat(" (").concat(
            record.snap_id.as_str(),
        ).concat(") is not present at ").concat(path.as_str());
        match *self {
            NotDeleted::OtherMachine => start.concat(": it was created on machine '").concat(
                record.machine.as_str(),
            ).concat("' and this is '").concat(machine).concat("'"),
            NotDeleted::NoDirectory => start.concat(" and its directory ").concat(
                record.destination.as_str(),
            ).concat(
                " is not available either (is the snapshots subvolume mounted?). Keeping it in the database",
            ),
        }
    }
}

/// What to say of a snapshot that is not deleted.
pub open spec fn not_deleted_text(
    reason: NotDeleted,
    snapshot: Snapshot,
    path: Seq<char>,
    machine: Seq<char>,
) -> Seq<char> {
    let start = "snapshot "@ + snapshot.name + " ("@ + snapshot.snap_id + ") is not present at "@
        + path;
    match reason {
        NotDeleted::OtherMachine => start + ": it was created on machine '"@ + snapshot.machine
            + "' and this is '"@ + machine + "'"@,
        NotDeleted::NoDirectory => start + " and its directory "@ + snapshot.destination
            + " is not available either (is the snapshots subvolume mounted?). Keeping it in the database"@,
    }
}

/// What a cleanup does.
#[derive(Debug, Clone, PartialEq, Eq)]
pub enum Cleaning {
    /// There is nothing to delete: what is said of it.
    Nothing(String),
    /// These snapshots would be deleted, after this headline.
    Describe(String, Vec<SnapshotRecord>),
    /// These snapshots are deleted, after this headline.
    Delete(String, Vec<SnapshotRecord>),
}

/// What is cleaned, in words.
pub open spec fn selection(args: Args) -> Seq<char> {
    (if args.read_write {
        "rw"@
    } else {
        "ro"@
    }) + " snapshots with prefix '"@ + args.snapshot_prefix@ + "', kind '"@ + args.snapshot_kind@
        + "' and machine '"@ + args.machine@ + "'"@
}

/// What is said before the snapshots that are deleted, or would be.
pub open spec fn cleaning_headline(args: Args, count: nat) -> Seq<char> {
    (if args.dry_run {
        "Would delete"@
    } else {
        "Deleting"@
    }) + " "@ + numeral(count) + " snapshot(s), keeping the last "@ + numeral(
        args.keep_only as nat,
    ) + " "@ + selection(args) + ":"@
}

/// What is said when there is nothing to delete.
pub open spec fn nothing_to_clean(args: Args) -> Seq<char> {
    "Nothing to clean: there are no more than "@ + numeral(args.keep_only as nat) + " "@
        + selection(args) + "."@
}

fn describe_selection(args: &Args) -> (text: String)
    ensures
        text@ == selection(*args),
{
    let mode: &str = if args.read_write {
        "rw"
    } else {
        "ro"
    };
    mode.to_owned().concat(" snapshots with prefix '").concat(
        args.snapshot_prefix.as_str(),
    ).concat("', kind '").concat(args.snapshot_kind.as_str()).concat("' and machine '").concat(
        args.machine.as_str(),
    ).concat("'")
}

/// The snapshots that a cleanup deletes: those beyond the last `--keep` ones matching the prefix,
/// kind, ro/rw mode and machine. With `--dry-run` they are only shown.
pub fn keep_only_x(args: &Args, database: &Database) -> (cleaning: Result<Cleaning, QueryError>)
    ensures
        ({
            let gone = snapshots_of(
                cleanup_rows(
                    database@,
                    args.snapshot_prefix@,
                    args.snapshot_kind@,
                    args.read_write,
                    args.machine@,
                    args.keep_only as nat,
                ),
            );
            match cleaning {
                Err(QueryError::KeepTooLarge) => args.keep_only > i64::MAX,
                Err(QueryError::PatternTooLong) => args.keep_only <= i64::MAX
                    && refused_for_snapshots(database@, args.snapshot_prefix@),
                Ok(cleaning) => args.keep_only <= i64::MAX && !refused_for_snapshots(
                    database@,
                    args.snapshot_prefix@,
                ) && match cleaning {
                    Cleaning::Nothing(text) => gone.len() == 0 && text@ == nothing_to_clean(*args),
                    Cleaning::Describe(text, list) => {
                        &&& gone.len() > 0 && args.dry_run
                        &&& views(list@) == gone
                        &&& text@ == cleaning_headline(*args, gone.len())
                    },
                    Cleaning::Delete(text, list) => {
                        &&& gone.len() > 0 && !args.dry_run
                        &&& views(list@) == gone
                        &&& text@ == cleaning_headline(*args, gone.len())
                    },
                },
            }
        }),
{
    let list: Vec<SnapshotRecord> = match cleanup_candidates(
        database,
        args.snapshot_prefix.as_str(),
        args.snapshot_kind.as_str(),
        args.read_write,
        args.machine.as_str(),
        args.keep_only,
    ) {
        Ok(list) => list,
        Err(error) => {
            return Err(error);
        },
    };
    let ghost gone = views(list@);
    let count: usize = list.len();
    assert(gone.len() == count);
    let selected: String = describe_selection(args);
    let kept: String = decimal(args.keep_only as u64);
    if count == 0 {
        return Ok(
            Cleaning::Nothing(
                "Nothing to clean: there are no more than ".to_owned().concat(
                    kept.as_str(),
                ).concat(" ").concat(selected.as_str()).concat("."),
            ),
        );
    }
    let counted: String = decimal(count as u64);
    let verb: &str = if args.dry_run {
        "Would delete"
    } else {
        "Deleting"
    };
    let headline: String = verb.to_owned().concat(" ").concat(counted.as_str()).concat(
        " snapshot(s), keeping the last ",
    ).concat(kept.as_str()).concat(" ").concat(selected.as_str()).concat(":");
    if args.dry_run {
        Ok(Cleaning::Describe(headline, list))
    } else {
        Ok(Cleaning::Delete(headline, list))
    }
}

/// The cells of tables, as text.
pub open spec fn cells(rows: Seq<Vec<String>>) -> Seq<Seq<Seq<char>>> {
    rows.map_values(|row: Vec<String>| texts(row@))
}

/// The cells of the row of a snapshot in a listing.
pub open spec fn snapshot_cells(snapshot: Snapshot) -> Seq<Seq<char>> {
    seq![
        snapshot.name,
        snapshot.snap_id,
        snapshot.kind,
        snapshot.source,
        snapshot.destination,
        snapshot.machine,
        snapshot.ro_rw,
        snapshot.date,
    ]
}

/// The names of the columns of a listing of snapshots.
pub fn snapshot_columns() -> (columns: Vec<String>)
    ensures
        texts(columns@) == seq![
            "NAME"@,
            "ID"@,
            "KIND"@,
            "SOURCE DIR"@,
            "DESTINATION DIR"@,
            "MACHINE"@,
            "RW"@,
            "DATE"@,
        ],
{
    let columns: Vec<String> = vec![
        "NAME".to_owned(),
        "ID".to_owned(),
        "KIND".to_owned(),
        "SOURCE DIR".to_owned(),
        "DESTINATION DIR".to_owned(),
        "MACHINE".to_owned(),
        "RW".to_owned(),
        "DATE".to_owned(),
    ];
    assert(texts(columns@) =~= seq![
        "NAME"@,
        "ID"@,
        "KIND"@,
        "SOURCE DIR"@,
        "DESTINATION DIR"@,
        "MACHINE"@,
        "RW"@,
        "DATE"@,
    ]);
    columns
}

/// The rows of a listing of snapshots.
pub fn snapshot_table(records: &[SnapshotRecord]) -> (rows: Vec<Vec<String>>)
    ensures
        cells(rows@) == views(records@).map_values(|s: Snapshot| snapshot_cells(s)),
{
    let mut rows: Vec<Vec<String>> = Vec::new();
    let mut i: usize = 0;
    while i < records.len()
        invariant
            i <= records@.len(),
            rows@.len() == i,
            forall|k: int|
                0 <= k < i ==> texts((#[trigger] rows@[k])@) == snapshot_cells(records@[k]@),
        decreases records@.len() - i,
    {
        let record: &SnapshotRecord = &records[i];
        let row: Vec<String> = vec![
            record.name.clone(),
            record.snap_id.clone(),
            record.kind.clone(),
            record.source.clone(),
            record.destination.clone(),
            record.machine.clone(),
            record.ro_rw.clone(),
            record.date.clone(),
        ];
        assert(texts(row@) =~= snapshot_cells(record@));
        rows.push(row);
        i += 1;
    }
    assert(cells(rows@) =~= views(records@).map_values(|s: Snapshot| snapshot_cells(s)));
    rows
}

/// Whether a replica was sent from a filtered copy.
pub open spec fn is_filtered(replica: Replica) -> bool {
    occurs_in("/.staging/"@, replica.local_path)
}

/// The cells of the row of a replica in a listing.
pub open spec fn replica_cells(replica: Replica) -> Seq<Seq<char>> {
    seq![
        replica.name,
        replica.target,
        replica.kind,
        replica.machine,
        match replica.parent_name {
            Some(name) => name,
            None => "-"@,
        },
        if is_filtered(replica) {
            "yes"@
        } else {
            "-"@
        },
        replica.date,
    ]
}

/// The names of the columns of a listing of replicas.
pub fn replica_columns() -> (columns: Vec<String>)
    ensures
        texts(columns@) == seq![
            "NAME"@,
            "TARGET"@,
            "KIND"@,
            "MACHINE"@,
            "PARENT"@,
            "FILTERED"@,
            "REPLICATED"@,
        ],
{
    let columns: Vec<String> = vec![
        "NAME".to_owned(),
        "TARGET".to_owned(),
        "KIND".to_owned(),
        "MACHINE".to_owned(),
        "PARENT".to_owned(),
        "FILTERED".to_owned(),
        "REPLICATED".to_owned(),
    ];
    assert(texts(columns@) =~= seq![
        "NAME"@,
        "TARGET"@,
        "KIND"@,
        "MACHINE"@,
        "PARENT"@,
        "FILTERED"@,
        "REPLICATED"@,
    ]);
    columns
}

/// The rows of a listing of replicas.
pub fn replica_table(replicas: &[ReplicaRecord]) -> (rows: Vec<Vec<String>>)
    ensures
        cells(rows@) == views(replicas@).map_values(|r: Replica| replica_cells(r)),
{
    let mut rows: Vec<Vec<String>> = Vec::new();
    let mut i: usize = 0;
    while i < replicas.len()
        invariant
            i <= replicas@.len(),
            rows@.len() == i,
            forall|k: int|
                0 <= k < i ==> texts((#[trigger] rows@[k])@) == replica_cells(replicas@[k]@),
        decreases replicas@.len() - i,
    {
        let replica: &ReplicaRecord = &replicas[i];
        let parent: String = match &replica.parent_name {
            Some(name) => name.clone(),
            None => "-".to_owned(),
        };
        let filtered: &str = if contains_text(replica.local_path.as_str(), "/.staging/") {
            "yes"
        } else {
            "-"
        };
        let row: Vec<String> = vec![
            replica.name.clone(),
            replica.target.clone(),
            replica.kind.clone(),
            replica.machine.clone(),
            parent,
            filtered.to_owned(),
            replica.date.clone(),
        ];
        assert(texts(row@) =~= replica_cells(replica@));
        rows.push(row);
        i += 1;
    }
    assert(cells(rows@) =~= views(replicas@).map_values(|r: Replica| replica_cells(r)));
    rows
}

} // verus!
