//! The two tables that the tool keeps: the snapshots it took, and the replicas it sent.
//!
//! A [`Database`] holds the rows of both as they are stored. The functions here say which rows an
//! operation adds, changes, removes or selects, and in which order.
use crate::order::{
    add_distinct, arrange, arrange_texts, arranged, arranged_texts, distinct, keep, views,
};
use crate::pattern::{has_prefix, is_prefix_too_long, is_selected, prefix_pattern, too_long};
pub use crate::run::open;
use crate::structs::{Replica, ReplicaRecord, Snapshot, SnapshotRecord};
use crate::text::{cut, goes_before, same_text, text_before, text_option, texts, until_nul};
use vstd::prelude::*;

verus! {

/// A row of the `snapshots` table.
#[derive(Debug, Clone, PartialEq, Eq)]
pub struct SnapshotRow {
    /// The columns, with the date in local time, or empty where there is none.
    pub record: SnapshotRecord,
    /// The date as it is stored, in UTC.
    pub date: Option<String>,
}

/// A row of the `snapshots` table, as text.
#[verifier::ext_equal]
pub struct TrackedSnapshot {
    pub record: Snapshot,
    pub date: Option<Seq<char>>,
}

impl View for SnapshotRow {
    type V = TrackedSnapshot;

    open spec fn view(&self) -> TrackedSnapshot {
        TrackedSnapshot { record: self.record@, date: text_option(self.date) }
    }
}

/// A row of the `replicas` table.
#[derive(Debug, Clone, PartialEq, Eq)]
pub struct ReplicaRow {
    /// The columns, with the date in local time, or empty where there is none.
    pub record: ReplicaRecord,
    /// The date as it is stored, in UTC.
    pub date: Option<String>,
    /// Whether the remote retention deleted the replica at its target.
    pub pruned: bool,
}

/// A row of the `replicas` table, as text.
#[verifier::ext_equal]
pub struct TrackedReplica {
    pub record: Replica,
    pub date: Option<Seq<char>>,
    pub pruned: bool,
}

impl View for ReplicaRow {
    type V = TrackedReplica;

    open spec fn view(&self) -> TrackedReplica {
        TrackedReplica {
            record: self.record@,
            date: text_option(self.date),
            pruned: self.pruned,
        }
    }
}

/// A moment, as the database writes it down.
#[derive(Debug, Clone, PartialEq, Eq)]
pub struct Stamp {
    /// In UTC, which is what is stored.
    pub utc: String,
    /// In local time, which is what is shown.
    pub local: String,
}

/// What is tracked.
#[derive(Debug, Clone, PartialEq, Eq)]
pub struct Database {
    pub snapshots: Vec<SnapshotRow>,
    pub replicas: Vec<ReplicaRow>,
}

/// What is tracked, as text.
#[verifier::ext_equal]
pub struct Tables {
    pub snapshots: Seq<TrackedSnapshot>,
    pub replicas: Seq<TrackedReplica>,
}

impl View for Database {
    type V = Tables;

    open spec fn view(&self) -> Tables {
        Tables { snapshots: views(self.snapshots@), replicas: views(self.replicas@) }
    }
}

/// Whether two snapshots are the same one: they have one name and one id.
pub open spec fn same_snapshot(a: Snapshot, b: Snapshot) -> bool {
    a.name == b.name && a.snap_id == b.snap_id
}

/// Whether two replicas are the same one: they are of one snapshot, at one target.
pub open spec fn same_replica(a: Replica, b: Replica) -> bool {
    a.name == b.name && a.snap_id == b.snap_id && a.target == b.target
}

impl Tables {
    /// Whether each snapshot and each replica has one row.
    pub open spec fn keyed(self) -> bool {
        &&& forall|i: int, j: int|
            0 <= i < j < self.snapshots.len() ==> !same_snapshot(
                (#[trigger] self.snapshots[i]).record,
                (#[trigger] self.snapshots[j]).record,
            )
        &&& forall|i: int, j: int|
            0 <= i < j < self.replicas.len() ==> !same_replica(
                (#[trigger] self.replicas[i]).record,
                (#[trigger] self.replicas[j]).record,
            )
    }

    /// Whether a snapshot has a row.
    pub open spec fn tracks(self, snapshot: Snapshot) -> bool {
        exists|i: int|
            0 <= i < self.snapshots.len() && same_snapshot(
                (#[trigger] self.snapshots[i]).record,
                snapshot,
            )
    }
}

impl Default for Database {
    /// A database that tracks nothing.
    fn default() -> (database: Database)
        ensures
            database@.snapshots == Seq::<TrackedSnapshot>::empty(),
            database@.replicas == Seq::<TrackedReplica>::empty(),
            database@.keyed(),
    {
        let database: Database = Database { snapshots: Vec::new(), replicas: Vec::new() };
        assert(database@.snapshots =~= Seq::<TrackedSnapshot>::empty());
        assert(database@.replicas =~= Seq::<TrackedReplica>::empty());
        database
    }
}

pub(crate) fn is_same_snapshot(a: &SnapshotRecord, b: &SnapshotRecord) -> (same: bool)
    ensures
        same == same_snapshot(a@, b@),
{
    same_text(a.name.as_str(), b.name.as_str()) && same_text(a.snap_id.as_str(), b.snap_id.as_str())
}

pub(crate) fn is_same_replica(a: &ReplicaRecord, b: &ReplicaRecord) -> (same: bool)
    ensures
        same == same_replica(a@, b@),
{
    same_text(a.name.as_str(), b.name.as_str()) && same_text(a.snap_id.as_str(), b.snap_id.as_str())
        && same_text(a.target.as_str(), b.target.as_str())
}

impl SnapshotRow {
    /// A copy of the row.
    pub fn copy(&self) -> (row: SnapshotRow)
        ensures
            row@ == self@,
    {
        let date: Option<String> = match &self.date {
            Some(date) => Some(date.clone()),
            None => None,
        };
        SnapshotRow { record: self.record.copy(), date }
    }
}

impl ReplicaRow {
    /// A copy of the row.
    pub fn copy(&self) -> (row: ReplicaRow)
        ensures
            row@ == self@,
    {
        let date: Option<String> = match &self.date {
            Some(date) => Some(date.clone()),
            None => None,
        };
        ReplicaRow { record: self.record.copy(), date, pruned: self.pruned }
    }
}

fn copy_snapshots(rows: &Vec<SnapshotRow>) -> (list: Vec<SnapshotRow>)
    ensures
        views(list@) == views(rows@),
{
    let mut list: Vec<SnapshotRow> = Vec::new();
    let mut i: usize = 0;
    while i < rows.len()
        invariant
            i <= rows@.len(),
            list@.len() == i,
            forall|k: int| 0 <= k < i ==> #[trigger] list@[k]@ == rows@[k]@,
        decreases rows@.len() - i,
    {
        list.push(rows[i].copy());
        i += 1;
    }
    assert(views(list@) =~= views(rows@));
    list
}

fn copy_replicas(rows: &Vec<ReplicaRow>) -> (list: Vec<ReplicaRow>)
    ensures
        views(list@) == views(rows@),
{
    let mut list: Vec<ReplicaRow> = Vec::new();
    let mut i: usize = 0;
    while i < rows.len()
        invariant
            i <= rows@.len(),
            list@.len() == i,
            forall|k: int| 0 <= k < i ==> #[trigger] list@[k]@ == rows@[k]@,
        decreases rows@.len() - i,
    {
        list.push(rows[i].copy());
        i += 1;
    }
    assert(views(list@) =~= views(rows@));
    list
}

/// A snapshot as it is read from its row: each column up to its first NUL character.
pub open spec fn read_snapshot(record: Snapshot) -> Snapshot {
    Snapshot {
        name: cut(record.name),
        snap_id: cut(record.snap_id),
        kind: cut(record.kind),
        source: cut(record.source),
        destination: cut(record.destination),
        machine: cut(record.machine),
        ro_rw: cut(record.ro_rw),
        date: cut(record.date),
    }
}

/// A replica as it is read from its row: each column up to its first NUL character.
pub open spec fn read_replica(record: Replica) -> Replica {
    Replica {
        name: cut(record.name),
        snap_id: cut(record.snap_id),
        target: cut(record.target),
        local_path: cut(record.local_path),
        source: cut(record.source),
        kind: cut(record.kind),
        machine: cut(record.machine),
        snapshot_date: cut(record.snapshot_date),
        parent_name: match record.parent_name {
            Some(name) => Some(cut(name)),
            None => None,
        },
        date: cut(record.date),
    }
}

fn read_record(record: &SnapshotRecord) -> (read: SnapshotRecord)
    ensures
        read@ == read_snapshot(record@),
{
    SnapshotRecord {
        name: until_nul(record.name.as_str()),
        snap_id: until_nul(record.snap_id.as_str()),
        kind: until_nul(record.kind.as_str()),
        source: until_nul(record.source.as_str()),
        destination: until_nul(record.destination.as_str()),
        machine: until_nul(record.machine.as_str()),
        ro_rw: until_nul(record.ro_rw.as_str()),
        date: until_nul(record.date.as_str()),
    }
}

fn read_replica_record(record: &ReplicaRecord) -> (read: ReplicaRecord)
    ensures
        read@ == read_replica(record@),
{
    let parent_name: Option<String> = match &record.parent_name {
        Some(name) => Some(until_nul(name.as_str())),
        None => None,
    };
    ReplicaRecord {
        name: until_nul(record.name.as_str()),
        snap_id: until_nul(record.snap_id.as_str()),
        target: until_nul(record.target.as_str()),
        local_path: until_nul(record.local_path.as_str()),
        source: until_nul(record.source.as_str()),
        kind: until_nul(record.kind.as_str()),
        machine: until_nul(record.machine.as_str()),
        snapshot_date: until_nul(record.snapshot_date.as_str()),
        parent_name,
        date: until_nul(record.date.as_str()),
    }
}

/// The records that are read from a list of rows of the `snapshots` table.
pub open spec fn snapshots_of(rows: Seq<TrackedSnapshot>) -> Seq<Snapshot> {
    rows.map_values(|row: TrackedSnapshot| read_snapshot(row.record))
}

/// The records that are read from a list of rows of the `snapshots` table, with the date as it is
/// stored.
pub open spec fn stored_snapshots_of(rows: Seq<TrackedSnapshot>) -> Seq<Snapshot> {
    rows.map_values(|row: TrackedSnapshot| stored_snapshot(row))
}

/// The record that is read from a row of the `snapshots` table, with the date as it is stored.
pub open spec fn stored_snapshot(row: TrackedSnapshot) -> Snapshot {
    Snapshot {
        date: match row.date {
            Some(date) => cut(date),
            None => ""@,
        },
        ..read_snapshot(row.record)
    }
}

/// The records that are read from a list of rows of the `replicas` table.
pub open spec fn replicas_of(rows: Seq<TrackedReplica>) -> Seq<Replica> {
    rows.map_values(|row: TrackedReplica| read_replica(row.record))
}

fn snapshot_records(rows: &Vec<SnapshotRow>) -> (list: Vec<SnapshotRecord>)
    ensures
        views(list@) == snapshots_of(views(rows@)),
{
    let mut list: Vec<SnapshotRecord> = Vec::new();
    let mut i: usize = 0;
    while i < rows.len()
        invariant
            i <= rows@.len(),
            list@.len() == i,
            forall|k: int| 0 <= k < i ==> #[trigger] list@[k]@ == read_snapshot(rows@[k]@.record),
        decreases rows@.len() - i,
    {
        list.push(read_record(&rows[i].record));
        i += 1;
    }
    assert(views(list@) =~= snapshots_of(views(rows@)));
    list
}

fn stored_records(rows: &Vec<SnapshotRow>) -> (list: Vec<SnapshotRecord>)
    ensures
        views(list@) == stored_snapshots_of(views(rows@)),
{
    let mut list: Vec<SnapshotRecord> = Vec::new();
    let mut i: usize = 0;
    while i < rows.len()
        invariant
            i <= rows@.len(),
            list@.len() == i,
            forall|k: int| 0 <= k < i ==> #[trigger] list@[k]@ == stored_snapshot(rows@[k]@),
        decreases rows@.len() - i,
    {
        let mut record: SnapshotRecord = read_record(&rows[i].record);
        record.date = match &rows[i].date {
            Some(date) => until_nul(date.as_str()),
            None => "".to_owned(),
        };
        list.push(record);
        i += 1;
    }
    assert(views(list@) =~= stored_snapshots_of(views(rows@)));
    list
}

fn replica_records(rows: &Vec<ReplicaRow>) -> (list: Vec<ReplicaRecord>)
    ensures
        views(list@) == replicas_of(views(rows@)),
{
    let mut list: Vec<ReplicaRecord> = Vec::new();
    let mut i: usize = 0;
    while i < rows.len()
        invariant
            i <= rows@.len(),
            list@.len() == i,
            forall|k: int| 0 <= k < i ==> #[trigger] list@[k]@ == read_replica(rows@[k]@.record),
        decreases rows@.len() - i,
    {
        list.push(read_replica_record(&rows[i].record));
        i += 1;
    }
    assert(views(list@) =~= replicas_of(views(rows@)));
    list
}

/// Whether a machine name is in double quotes.
pub open spec fn is_quoted(machine: Seq<char>) -> bool {
    machine.len() >= 2 && machine[0] == '"' && machine.last() == '"'
}

/// A machine name without the double quotes around it. What counts is what stands before the first
/// NUL character.
pub open spec fn unquoted(machine: Seq<char>) -> Seq<char> {
    if is_quoted(cut(machine)) {
        cut(machine).subrange(1, cut(machine).len() - 1)
    } else {
        machine
    }
}

/// A row whose machine name has lost its quotes.
pub open spec fn migrated(row: TrackedSnapshot) -> TrackedSnapshot {
    TrackedSnapshot {
        record: Snapshot { machine: unquoted(row.record.machine), ..row.record },
        ..row
    }
}

fn unquote(machine: &str) -> (name: String)
    ensures
        name@ == unquoted(machine@),
{
    let shown: String = until_nul(machine);
    let n: usize = shown.as_str().unicode_len();
    if n >= 2 && shown.as_str().get_char(0) == '"' && shown.as_str().get_char(n - 1) == '"' {
        shown.as_str().substring_char(1, n - 1).to_owned()
    } else {
        machine.to_owned()
    }
}

/// Apply the data migrations.
///
/// Old databases hold `machine` values with the quotes of the configuration file around them
/// (`"host"` instead of `host`). Strip them so machine filtering works.
pub fn setup_initial_database(database: &mut Database)
    ensures
        final(database)@.snapshots == old(database)@.snapshots.map_values(
            |row: TrackedSnapshot| migrated(row),
        ),
        final(database)@.replicas == old(database)@.replicas,
        old(database)@.keyed() ==> final(database)@.keyed(),
{
    let ghost before = database@.snapshots;
    let mut rows: Vec<SnapshotRow> = Vec::new();
    let mut i: usize = 0;
    while i < database.snapshots.len()
        invariant
            i <= database.snapshots@.len(),
            before == views(database.snapshots@),
            rows@.len() == i,
            forall|k: int| 0 <= k < i ==> #[trigger] rows@[k]@ == migrated(before[k]),
            *database == *old(database),
        decreases database.snapshots@.len() - i,
    {
        let mut row: SnapshotRow = database.snapshots[i].copy();
        row.record.machine = unquote(row.record.machine.as_str());
        proof {
            assert(before[i as int] == database.snapshots@[i as int]@);
            assert(row@ =~= migrated(before[i as int]));
        }
        rows.push(row);
        i += 1;
    }
    database.snapshots = rows;
    let ghost after = database@.snapshots;
    proof {
        assert(after =~= before.map_values(|row: TrackedSnapshot| migrated(row)));
        assert forall|i: int, j: int|
            0 <= i < j < after.len() && old(database)@.keyed() implies !same_snapshot(
            (#[trigger] after[i]).record,
            (#[trigger] after[j]).record,
        ) by {
            assert(!same_snapshot(before[i].record, before[j].record));
        }
    }
}

/// The snapshot has a row already.
#[derive(Debug, Clone, Copy, PartialEq, Eq, Structural)]
pub struct AlreadyTracked;

/// The row that a snapshot gets when it is recorded.
pub open spec fn new_row(snapshot: Snapshot, stamp: Stamp) -> TrackedSnapshot {
    TrackedSnapshot {
        record: Snapshot { date: stamp.local@, ..snapshot },
        date: Some(stamp.utc@),
    }
}

/// Record a new snapshot, with the moment at which that happens as its date.
pub fn insert_snapshot(database: &mut Database, record: &SnapshotRecord, stamp: &Stamp) -> (done:
    Result<(), AlreadyTracked>)
    ensures
        done is Err <==> old(database)@.tracks(record@),
        done is Err ==> final(database)@ == old(database)@,
        done is Ok ==> final(database)@.snapshots == old(database)@.snapshots.push(
            new_row(record@, *stamp),
        ),
        final(database)@.replicas == old(database)@.replicas,
        old(database)@.keyed() ==> final(database)@.keyed(),
{
    let ghost before = database@.snapshots;
    let mut i: usize = 0;
    while i < database.snapshots.len()
        invariant
            i <= database.snapshots@.len(),
            before == views(database.snapshots@),
            forall|k: int| 0 <= k < i ==> !same_snapshot((#[trigger] before[k]).record, record@),
            *database == *old(database),
        decreases database.snapshots@.len() - i,
    {
        if is_same_snapshot(&database.snapshots[i].record, record) {
            assert(same_snapshot(before[i as int].record, record@));
            return Err(AlreadyTracked);
        }
        assert(before[i as int] == database.snapshots@[i as int]@);
        i += 1;
    }
    let mut recorded: SnapshotRecord = record.copy();
    recorded.date = stamp.local.clone();
    let row: SnapshotRow = SnapshotRow { record: recorded, date: Some(stamp.utc.clone()) };
    let ghost shown = row@;
    database.snapshots.push(row);
    proof {
        assert(shown =~= new_row(record@, *stamp));
        assert(database@.snapshots =~= before.push(shown));
        assert(old(database)@.snapshots == before);
    }
    Ok(())
}

/// The rows of all snapshots but this one.
pub open spec fn without_snapshot(snapshot: Snapshot) -> spec_fn(TrackedSnapshot) -> bool {
    |row: TrackedSnapshot| !same_snapshot(row.record, snapshot)
}

/// The rows of all replicas but this one.
pub open spec fn without_replica(replica: Replica) -> spec_fn(TrackedReplica) -> bool {
    |row: TrackedReplica| !same_replica(row.record, replica)
}

/// What is left of rows with distinct keys has distinct keys.
pub proof fn lemma_filter_keyed<V>(rows: Seq<V>, wants: spec_fn(V) -> bool, same: spec_fn(V, V) -> bool)
    requires
        forall|i: int, j: int|
            0 <= i < j < rows.len() ==> !same(#[trigger] rows[i], #[trigger] rows[j]),
    ensures
        forall|i: int, j: int|
            0 <= i < j < rows.filter(wants).len() ==> !same(
                #[trigger] rows.filter(wants)[i],
                #[trigger] rows.filter(wants)[j],
            ),
    decreases rows.len(),
{
    reveal(Seq::filter);
    if rows.len() > 0 {
        let front = rows.drop_last();
        let kept = front.filter(wants);
        lemma_filter_keyed(front, wants, same);
        crate::order::lemma_wanted(front, wants);
        let all = rows.filter(wants);
        assert forall|i: int, j: int| 0 <= i < j < all.len() implies !same(
            #[trigger] all[i],
            #[trigger] all[j],
        ) by {
            assert(all[i] == kept[i]);
            if j < kept.len() {
                assert(all[j] == kept[j]);
            } else {
                assert(kept.contains(kept[i]));
                let k = choose|k: int| 0 <= k < front.len() && front[k] == kept[i];
                assert(rows[k] == kept[i]);
                assert(all[j] == rows[rows.len() - 1]);
            }
        }
    }
}

/// Remove a snapshot row.
pub fn delete_snapshot(database: &mut Database, record: &SnapshotRecord)
    ensures
        final(database)@.snapshots == old(database)@.snapshots.filter(without_snapshot(record@)),
        final(database)@.replicas == old(database)@.replicas,
        old(database)@.keyed() ==> final(database)@.keyed(),
{
    let ghost before = database@.snapshots;
    let rows: Vec<SnapshotRow> = copy_snapshots(&database.snapshots);
    let wanted = |row: &SnapshotRow| -> (yes: bool)
        ensures
            yes == without_snapshot(record@)(row@),
        { !is_same_snapshot(&row.record, record) };
    database.snapshots = keep(rows, wanted, Ghost(without_snapshot(record@)));
    proof {
        if old(database)@.keyed() {
            lemma_filter_keyed(
                before,
                without_snapshot(record@),
                |a: TrackedSnapshot, b: TrackedSnapshot| same_snapshot(a.record, b.record),
            );
        }
    }
}

/// Whether a date goes before another one. A missing date goes before all others.
pub open spec fn date_before(a: Option<Seq<char>>, b: Option<Seq<char>>) -> bool {
    match (a, b) {
        (_, None) => false,
        (None, Some(_)) => true,
        (Some(a), Some(b)) => text_before(a, b),
    }
}

fn is_date_before(a: &Option<String>, b: &Option<String>) -> (yes: bool)
    ensures
        yes == date_before(text_option(*a), text_option(*b)),
{
    match (a, b) {
        (_, None) => false,
        (None, Some(_)) => true,
        (Some(a), Some(b)) => goes_before(a.as_str(), b.as_str()),
    }
}

/// Whether a snapshot is older than another one, by date and then by name.
pub open spec fn is_older(a: TrackedSnapshot, b: TrackedSnapshot) -> bool {
    date_before(a.date, b.date) || (a.date == b.date && text_before(a.record.name, b.record.name))
}

/// Older snapshots go first.
pub open spec fn oldest_first() -> spec_fn(TrackedSnapshot, TrackedSnapshot) -> bool {
    |a: TrackedSnapshot, b: TrackedSnapshot| is_older(a, b)
}

/// Newer snapshots go first.
pub open spec fn newest_first() -> spec_fn(TrackedSnapshot, TrackedSnapshot) -> bool {
    |a: TrackedSnapshot, b: TrackedSnapshot| is_older(b, a)
}

fn older(a: &SnapshotRow, b: &SnapshotRow) -> (yes: bool)
    ensures
        yes == is_older(a@, b@),
{
    if is_date_before(&a.date, &b.date) {
        return true;
    }
    let same: bool = match (&a.date, &b.date) {
        (Some(x), Some(y)) => same_text(x.as_str(), y.as_str()),
        (None, None) => true,
        (_, _) => false,
    };
    same && goes_before(a.record.name.as_str(), b.record.name.as_str())
}

fn arrange_newest_first(rows: Vec<SnapshotRow>) -> (list: Vec<SnapshotRow>)
    ensures
        views(list@) == arranged(views(rows@), newest_first()),
{
    let first = |a: &SnapshotRow, b: &SnapshotRow| -> (yes: bool)
        ensures
            yes == newest_first()(a@, b@),
        { older(b, a) };
    arrange(rows, first, Ghost(newest_first()))
}

fn arrange_oldest_first(rows: Vec<SnapshotRow>) -> (list: Vec<SnapshotRow>)
    ensures
        views(list@) == arranged(views(rows@), oldest_first()),
{
    let first = |a: &SnapshotRow, b: &SnapshotRow| -> (yes: bool)
        ensures
            yes == oldest_first()(a@, b@),
        { older(a, b) };
    arrange(rows, first, Ghost(oldest_first()))
}

/// The rows of the snapshots with this name or id.
pub open spec fn called(id_or_name: Seq<char>) -> spec_fn(TrackedSnapshot) -> bool {
    |row: TrackedSnapshot| row.record.name == id_or_name || row.record.snap_id == id_or_name
}

/// The snapshots with this name or id, newest first.
pub open spec fn found(tables: Tables, id_or_name: Seq<char>) -> Seq<Snapshot> {
    snapshots_of(arranged(tables.snapshots.filter(called(id_or_name)), newest_first()))
}

/// Snapshots whose name or id is `id_or_name`.
pub fn find_snapshots(database: &Database, id_or_name: &str) -> (list: Vec<SnapshotRecord>)
    ensures
        views(list@) == found(database@, id_or_name@),
{
    let rows: Vec<SnapshotRow> = copy_snapshots(&database.snapshots);
    let wanted = |row: &SnapshotRow| -> (yes: bool)
        ensures
            yes == called(id_or_name@)(row@),
        {
            same_text(row.record.name.as_str(), id_or_name) || same_text(
                row.record.snap_id.as_str(),
                id_or_name,
            )
        };
    let rows: Vec<SnapshotRow> = keep(rows, wanted, Ghost(called(id_or_name@)));
    snapshot_records(&arrange_newest_first(rows))
}

/// Every tracked snapshot, newest first.
pub fn list_all(database: &Database) -> (list: Vec<SnapshotRecord>)
    ensures
        views(list@) == snapshots_of(arranged(database@.snapshots, newest_first())),
{
    let rows: Vec<SnapshotRow> = copy_snapshots(&database.snapshots);
    snapshot_records(&arrange_newest_first(rows))
}

/// How the mode of a snapshot is written down: whether it is read-write.
pub open spec fn mode_text(read_write: bool) -> Seq<char> {
    if read_write {
        "true"@
    } else {
        "false"@
    }
}

/// How the mode of a snapshot is written down: whether it is read-write.
pub fn mode(read_write: bool) -> (text: &'static str)
    ensures
        text@ == mode_text(read_write),
{
    if read_write {
        "true"
    } else {
        "false"
    }
}

/// The rows that a cleanup looks at: those of this prefix, kind, mode and machine.
pub open spec fn cleaned(
    prefix: Seq<char>,
    kind: Seq<char>,
    read_write: bool,
    machine: Seq<char>,
) -> spec_fn(TrackedSnapshot) -> bool {
    |row: TrackedSnapshot|
        {
            &&& has_prefix(row.record.name, prefix)
            &&& row.record.kind == kind
            &&& row.record.ro_rw == mode_text(read_write)
            &&& row.record.machine == machine
        }
}

/// What follows the first `n` items.
pub open spec fn beyond<V>(list: Seq<V>, n: nat) -> Seq<V> {
    if n < list.len() {
        list.skip(n as int)
    } else {
        Seq::empty()
    }
}

/// Why rows can't be selected.
#[derive(Debug, Clone, Copy, PartialEq, Eq, Structural)]
pub enum QueryError {
    /// More should be kept than the database can count.
    KeepTooLarge,
    /// The prefix gives a pattern that is too long to be matched with a name.
    PatternTooLong,
}

impl QueryError {
    /// What to say of rows that can't be selected, where `option` is what says how many to keep.
    pub fn message(&self, option: &str) -> (message: String)
        ensures
            message@ == match *self {
                QueryError::KeepTooLarge => option@
                    + " is too large: out of range integral type conversion attempted"@,
                QueryError::PatternTooLong => "LIKE or GLOB pattern too complex (code 1)"@,
            },
    {
        match self {
            QueryError::KeepTooLarge => option.to_owned().concat(
                " is too large: out of range integral type conversion attempted",
            ),
            QueryError::PatternTooLong => "LIKE or GLOB pattern too complex (code 1)".to_owned(),
        }
    }
}

/// Whether the snapshots of a prefix can't be selected: the pattern is refused as soon as there is
/// a row to match it with.
pub open spec fn refused_for_snapshots(tables: Tables, prefix: Seq<char>) -> bool {
    too_long(prefix_pattern(prefix)) && tables.snapshots.len() > 0
}

/// Whether the replicas of a prefix at a target can't be selected: the pattern is refused as soon
/// as there is a row of that target to match it with.
pub open spec fn refused_for_replicas(
    tables: Tables,
    target: Seq<char>,
    prefix: Seq<char>,
) -> bool {
    too_long(prefix_pattern(prefix)) && tables.replicas.filter(sent_to(target)).len() > 0
}

fn is_refused_for_snapshots(database: &Database, prefix: &str) -> (yes: bool)
    ensures
        yes == refused_for_snapshots(database@, prefix@),
{
    assert(database@.snapshots.len() == database.snapshots@.len());
    database.snapshots.len() > 0 && is_prefix_too_long(prefix)
}

fn is_refused_for_replicas(database: &Database, target: &str, prefix: &str) -> (yes: bool)
    ensures
        yes == refused_for_replicas(database@, target@, prefix@),
{
    let rows: Vec<ReplicaRow> = rows_sent_to(database, target);
    assert(views(rows@).len() == rows@.len());
    rows.len() > 0 && is_prefix_too_long(prefix)
}

fn rows_sent_to(database: &Database, target: &str) -> (rows: Vec<ReplicaRow>)
    ensures
        views(rows@) == database@.replicas.filter(sent_to(target@)),
{
    let rows: Vec<ReplicaRow> = copy_replicas(&database.replicas);
    let wanted = |row: &ReplicaRow| -> (yes: bool)
        ensures
            yes == sent_to(target@)(row@),
        { same_text(row.record.target.as_str(), target) };
    keep(rows, wanted, Ghost(sent_to(target@)))
}

/// The rows that a cleanup removes: everything beyond the newest `keep` of those it looks at.
pub open spec fn cleanup_rows(
    tables: Tables,
    prefix: Seq<char>,
    kind: Seq<char>,
    read_write: bool,
    machine: Seq<char>,
    keep: nat,
) -> Seq<TrackedSnapshot> {
    beyond(
        arranged(
            tables.snapshots.filter(cleaned(prefix, kind, read_write, machine)),
            newest_first(),
        ),
        keep,
    )
}

/// Snapshots that `--clean` would delete: everything beyond the `keep` newest ones among the
/// snapshots whose name starts with `prefix` (a `LIKE 'prefix%'` match, on purpose) and that
/// match `kind`, the ro/rw mode and `machine`.
pub fn cleanup_candidates(
    database: &Database,
    prefix: &str,
    kind: &str,
    read_write: bool,
    machine: &str,
    keep_newest: usize,
) -> (list: Result<Vec<SnapshotRecord>, QueryError>)
    ensures
        match list {
            Ok(list) => keep_newest <= i64::MAX && !refused_for_snapshots(database@, prefix@)
                && views(list@) == snapshots_of(
                cleanup_rows(
                    database@,
                    prefix@,
                    kind@,
                    read_write,
                    machine@,
                    keep_newest as nat,
                ),
            ),
            Err(QueryError::KeepTooLarge) => keep_newest > i64::MAX,
            Err(QueryError::PatternTooLong) => keep_newest <= i64::MAX && refused_for_snapshots(
                database@,
                prefix@,
            ),
        },
{
    if keep_newest as u64 > 0x7fff_ffff_ffff_ffff {
        return Err(QueryError::KeepTooLarge);
    }
    if is_refused_for_snapshots(database, prefix) {
        return Err(QueryError::PatternTooLong);
    }
    let rows: Vec<SnapshotRow> = copy_snapshots(&database.snapshots);
    let wanted = |row: &SnapshotRow| -> (yes: bool)
        ensures
            yes == cleaned(prefix@, kind@, read_write, machine@)(row@),
        {
            is_selected(row.record.name.as_str(), prefix) && same_text(
                row.record.kind.as_str(),
                kind,
            ) && same_text(row.record.ro_rw.as_str(), mode(read_write)) && same_text(
                row.record.machine.as_str(),
                machine,
            )
        };
    let rows: Vec<SnapshotRow> = keep(
        rows,
        wanted,
        Ghost(cleaned(prefix@, kind@, read_write, machine@)),
    );
    let rows: Vec<SnapshotRow> = rows_beyond(arrange_newest_first(rows), keep_newest);
    Ok(snapshot_records(&rows))
}

fn rows_beyond<T: View>(rows: Vec<T>, n: usize) -> (list: Vec<T>)
    ensures
        views(list@) == beyond(views(rows@), n as nat),
{
    let ghost all = views(rows@);
    let mut rest: Vec<T> = rows;
    let mut left: usize = n;
    proof {
        assert(all.skip(0) =~= all);
    }
    while left > 0 && rest.len() > 0
        invariant
            left <= n,
            n - left <= all.len(),
            views(rest@) == all.skip(n - left),
        decreases left,
    {
        let ghost before = views(rest@);
        assert(before.len() == rest@.len());
        rest.remove(0);
        assert(views(rest@) =~= before.skip(1));
        assert(before.skip(1) =~= all.skip(n - left + 1));
        left -= 1;
    }
    proof {
        assert(views(rest@).len() == rest@.len());
        assert(views(rest@) =~= beyond(all, n as nat));
    }
    rest
}

/// The rows of the snapshots that can be sent: read-only ones of this prefix and machine.
pub open spec fn sendable(prefix: Seq<char>, machine: Seq<char>) -> spec_fn(
    TrackedSnapshot,
) -> bool {
    |row: TrackedSnapshot|
        {
            &&& has_prefix(row.record.name, prefix)
            &&& row.record.machine == machine
            &&& row.record.ro_rw == mode_text(false)
        }
}

/// The snapshots that can be sent, oldest first, with the date as it is stored.
pub open spec fn pending(tables: Tables, prefix: Seq<char>, machine: Seq<char>) -> Seq<Snapshot> {
    stored_snapshots_of(arranged(tables.snapshots.filter(sendable(prefix, machine)), oldest_first()))
}

/// Read-only snapshots of this prefix (`LIKE 'prefix%'`) and machine, oldest first, with the
/// raw UTC date so it can be copied into the replicas table.
pub fn pending_replication(database: &Database, prefix: &str, machine: &str) -> (list: Result<
    Vec<SnapshotRecord>,
    QueryError,
>)
    ensures
        match list {
            Ok(list) => !refused_for_snapshots(database@, prefix@) && views(list@) == pending(
                database@,
                prefix@,
                machine@,
            ),
            Err(error) => error == QueryError::PatternTooLong && refused_for_snapshots(
                database@,
                prefix@,
            ),
        },
{
    if is_refused_for_snapshots(database, prefix) {
        return Err(QueryError::PatternTooLong);
    }
    let rows: Vec<SnapshotRow> = copy_snapshots(&database.snapshots);
    let wanted = |row: &SnapshotRow| -> (yes: bool)
        ensures
            yes == sendable(prefix@, machine@)(row@),
        {
            is_selected(row.record.name.as_str(), prefix) && same_text(
                row.record.machine.as_str(),
                machine,
            ) && same_text(row.record.ro_rw.as_str(), mode(false))
        };
    let rows: Vec<SnapshotRow> = keep(rows, wanted, Ghost(sendable(prefix@, machine@)));
    Ok(stored_records(&arrange_oldest_first(rows)))
}

/// The row that a replica gets when it is recorded.
pub open spec fn new_replica_row(replica: Replica, stamp: Stamp) -> TrackedReplica {
    TrackedReplica {
        record: Replica { date: stamp.local@, ..replica },
        date: Some(stamp.utc@),
        pruned: false,
    }
}

/// Record a verified replica, with the moment at which that happens as its date. It replaces an
/// earlier record of the same replica.
pub fn insert_replica(database: &mut Database, replica: &ReplicaRecord, stamp: &Stamp)
    ensures
        final(database)@.replicas == old(database)@.replicas.filter(
            without_replica(replica@),
        ).push(new_replica_row(replica@, *stamp)),
        final(database)@.snapshots == old(database)@.snapshots,
        old(database)@.keyed() ==> final(database)@.keyed(),
{
    delete_replica(database, replica);
    let ghost before = database@.replicas;
    let mut record: ReplicaRecord = replica.copy();
    record.date = stamp.local.clone();
    let row: ReplicaRow = ReplicaRow { record, date: Some(stamp.utc.clone()), pruned: false };
    let ghost shown = row@;
    database.replicas.push(row);
    proof {
        assert(shown =~= new_replica_row(replica@, *stamp));
        assert(database@.replicas =~= before.push(shown));
        crate::order::lemma_wanted(old(database)@.replicas, without_replica(replica@));
        assert forall|i: int| 0 <= i < before.len() implies !same_replica(
            (#[trigger] before[i]).record,
            replica@,
        ) by {
            assert(before.contains(before[i]));
            assert(without_replica(replica@)(before[i]));
        }
    }
}

/// The row of a replica that was pruned. Other rows stay.
pub open spec fn pruned_row(row: TrackedReplica, replica: Replica) -> TrackedReplica {
    if same_replica(row.record, replica) {
        TrackedReplica { pruned: true, ..row }
    } else {
        row
    }
}

/// Mark a replica as deleted from the target by the remote retention. The row stays so the
/// snapshot is not sent again; it only stops being a parent candidate.
pub fn mark_replica_pruned(database: &mut Database, replica: &ReplicaRecord)
    ensures
        final(database)@.replicas == old(database)@.replicas.map_values(
            |row: TrackedReplica| pruned_row(row, replica@),
        ),
        final(database)@.snapshots == old(database)@.snapshots,
        old(database)@.keyed() ==> final(database)@.keyed(),
{
    let ghost before = database@.replicas;
    let mut rows: Vec<ReplicaRow> = Vec::new();
    let mut i: usize = 0;
    while i < database.replicas.len()
        invariant
            i <= database.replicas@.len(),
            before == views(database.replicas@),
            rows@.len() == i,
            forall|k: int| 0 <= k < i ==> #[trigger] rows@[k]@ == pruned_row(before[k], replica@),
            *database == *old(database),
        decreases database.replicas@.len() - i,
    {
        let mut row: ReplicaRow = database.replicas[i].copy();
        assert(before[i as int] == database.replicas@[i as int]@);
        if is_same_replica(&row.record, replica) {
            row.pruned = true;
        }
        assert(row@ =~= pruned_row(before[i as int], replica@));
        rows.push(row);
        i += 1;
    }
    database.replicas = rows;
    let ghost after = database@.replicas;
    proof {
        assert(after =~= before.map_values(|row: TrackedReplica| pruned_row(row, replica@)));
        assert forall|i: int, j: int|
            0 <= i < j < after.len() && old(database)@.keyed() implies !same_replica(
            (#[trigger] after[i]).record,
            (#[trigger] after[j]).record,
        ) by {
            assert(!same_replica(before[i].record, before[j].record));
        }
    }
}

/// Forget a replica completely, so the snapshot becomes pending again.
pub fn delete_replica(database: &mut Database, replica: &ReplicaRecord)
    ensures
        final(database)@.replicas == old(database)@.replicas.filter(without_replica(replica@)),
        final(database)@.snapshots == old(database)@.snapshots,
        old(database)@.keyed() ==> final(database)@.keyed(),
{
    let ghost before = database@.replicas;
    let rows: Vec<ReplicaRow> = copy_replicas(&database.replicas);
    let wanted = |row: &ReplicaRow| -> (yes: bool)
        ensures
            yes == without_replica(replica@)(row@),
        { !is_same_replica(&row.record, replica) };
    database.replicas = keep(rows, wanted, Ghost(without_replica(replica@)));
    proof {
        if old(database)@.keyed() {
            lemma_filter_keyed(
                before,
                without_replica(replica@),
                |a: TrackedReplica, b: TrackedReplica| same_replica(a.record, b.record),
            );
        }
    }
}

/// The rows of the replicas that were sent to a target.
pub open spec fn sent_to(target: Seq<char>) -> spec_fn(TrackedReplica) -> bool {
    |row: TrackedReplica| row.record.target == target
}

/// The names of the replicas that are read from a list of rows.
pub open spec fn names_of(rows: Seq<TrackedReplica>) -> Seq<Seq<char>> {
    rows.map_values(|row: TrackedReplica| cut(row.record.name))
}

/// The names of the snapshots that were sent to a target, each once.
pub open spec fn sent_names(tables: Tables, target: Seq<char>) -> Seq<Seq<char>> {
    distinct(names_of(tables.replicas.filter(sent_to(target))))
}

/// Names of the snapshots already replicated to `target`, each once, including the replicas that
/// the remote retention deleted since (they must not be sent again).
pub fn replicated_names(database: &Database, target: &str) -> (names: Vec<String>)
    ensures
        texts(names@) == sent_names(database@, target@),
{
    let rows: Vec<ReplicaRow> = rows_sent_to(database, target);
    let ghost all = names_of(views(rows@));
    let mut names: Vec<String> = Vec::new();
    let mut i: usize = 0;
    proof {
        assert(texts(names@) =~= distinct(all.take(0)));
    }
    while i < rows.len()
        invariant
            i <= rows@.len(),
            all == names_of(views(rows@)),
            texts(names@) == distinct(all.take(i as int)),
        decreases rows@.len() - i,
    {
        proof {
            assert(all.take(i + 1).drop_last() =~= all.take(i as int));
            assert(all.take(i + 1).last() == cut(rows@[i as int]@.record.name));
        }
        add_distinct(&mut names, until_nul(rows[i].record.name.as_str()));
        i += 1;
    }
    assert(all.take(all.len() as int) =~= all);
    names
}

/// Whether the snapshot of a replica is older than that of another one, by date and then by name.
pub open spec fn is_older_replica(a: TrackedReplica, b: TrackedReplica) -> bool {
    text_before(a.record.snapshot_date, b.record.snapshot_date) || (a.record.snapshot_date
        == b.record.snapshot_date && text_before(a.record.name, b.record.name))
}

/// Replicas of older snapshots go first.
pub open spec fn oldest_replica_first() -> spec_fn(TrackedReplica, TrackedReplica) -> bool {
    |a: TrackedReplica, b: TrackedReplica| is_older_replica(a, b)
}

/// Replicas of newer snapshots go first.
pub open spec fn newest_replica_first() -> spec_fn(TrackedReplica, TrackedReplica) -> bool {
    |a: TrackedReplica, b: TrackedReplica| is_older_replica(b, a)
}

/// Replicas of newer snapshots go first, and those of one snapshot by their targets.
pub open spec fn listed_first() -> spec_fn(TrackedReplica, TrackedReplica) -> bool {
    |a: TrackedReplica, b: TrackedReplica|
        is_older_replica(b, a) || (a.record.snapshot_date == b.record.snapshot_date
            && a.record.name == b.record.name && text_before(a.record.target, b.record.target))
}

fn older_replica(a: &ReplicaRow, b: &ReplicaRow) -> (yes: bool)
    ensures
        yes == is_older_replica(a@, b@),
{
    goes_before(a.record.snapshot_date.as_str(), b.record.snapshot_date.as_str()) || (same_text(
        a.record.snapshot_date.as_str(),
        b.record.snapshot_date.as_str(),
    ) && goes_before(a.record.name.as_str(), b.record.name.as_str()))
}

fn arrange_newest_replica_first(rows: Vec<ReplicaRow>) -> (list: Vec<ReplicaRow>)
    ensures
        views(list@) == arranged(views(rows@), newest_replica_first()),
{
    let first = |a: &ReplicaRow, b: &ReplicaRow| -> (yes: bool)
        ensures
            yes == newest_replica_first()(a@, b@),
        { older_replica(b, a) };
    arrange(rows, first, Ghost(newest_replica_first()))
}

fn arrange_oldest_replica_first(rows: Vec<ReplicaRow>) -> (list: Vec<ReplicaRow>)
    ensures
        views(list@) == arranged(views(rows@), oldest_replica_first()),
{
    let first = |a: &ReplicaRow, b: &ReplicaRow| -> (yes: bool)
        ensures
            yes == oldest_replica_first()(a@, b@),
        { older_replica(a, b) };
    arrange(rows, first, Ghost(oldest_replica_first()))
}

fn arrange_listed(rows: Vec<ReplicaRow>) -> (list: Vec<ReplicaRow>)
    ensures
        views(list@) == arranged(views(rows@), listed_first()),
{
    let first = |a: &ReplicaRow, b: &ReplicaRow| -> (yes: bool)
        ensures
            yes == listed_first()(a@, b@),
        {
            older_replica(b, a) || (same_text(
                a.record.snapshot_date.as_str(),
                b.record.snapshot_date.as_str(),
            ) && same_text(a.record.name.as_str(), b.record.name.as_str()) && goes_before(
                a.record.target.as_str(),
                b.record.target.as_str(),
            ))
        };
    arrange(rows, first, Ghost(listed_first()))
}

/// The rows of the replicas that are at a target, of this source subvolume and machine.
pub open spec fn parents(target: Seq<char>, source: Seq<char>, machine: Seq<char>) -> spec_fn(
    TrackedReplica,
) -> bool {
    |row: TrackedReplica|
        {
            &&& row.record.target == target
            &&& row.record.source == source
            &&& row.record.machine == machine
            &&& !row.pruned
        }
}

/// The replicas that an incremental send can start from, newest first.
pub open spec fn parents_at(
    tables: Tables,
    target: Seq<char>,
    source: Seq<char>,
    machine: Seq<char>,
) -> Seq<Replica> {
    replicas_of(
        arranged(tables.replicas.filter(parents(target, source, machine)), newest_replica_first()),
    )
}

/// Replicas present at `target` of the same source subvolume and machine, newest snapshot
/// first: the candidates to be the parent of an incremental send.
pub fn parent_candidates(database: &Database, target: &str, source: &str, machine: &str) -> (list:
    Vec<ReplicaRecord>)
    ensures
        views(list@) == parents_at(database@, target@, source@, machine@),
{
    let rows: Vec<ReplicaRow> = copy_replicas(&database.replicas);
    let wanted = |row: &ReplicaRow| -> (yes: bool)
        ensures
            yes == parents(target@, source@, machine@)(row@),
        {
            same_text(row.record.target.as_str(), target) && same_text(
                row.record.source.as_str(),
                source,
            ) && same_text(row.record.machine.as_str(), machine) && !row.pruned
        };
    let rows: Vec<ReplicaRow> = keep(rows, wanted, Ghost(parents(target@, source@, machine@)));
    replica_records(&arrange_newest_replica_first(rows))
}

/// The rows of the replicas that are at a target, of this prefix and machine.
pub open spec fn present(target: Seq<char>, prefix: Seq<char>, machine: Seq<char>) -> spec_fn(
    TrackedReplica,
) -> bool {
    |row: TrackedReplica|
        {
            &&& row.record.target == target
            &&& has_prefix(row.record.name, prefix)
            &&& row.record.machine == machine
            &&& !row.pruned
        }
}

fn is_present(row: &ReplicaRow, target: &str, prefix: &str, machine: &str) -> (yes: bool)
    ensures
        yes == present(target@, prefix@, machine@)(row@),
{
    same_text(row.record.target.as_str(), target) && is_selected(row.record.name.as_str(), prefix)
        && same_text(row.record.machine.as_str(), machine) && !row.pruned
}

/// The kinds of the replicas in a list of rows.
pub open spec fn kinds_of(rows: Seq<TrackedReplica>) -> Seq<Seq<char>> {
    rows.map_values(|row: TrackedReplica| row.record.kind)
}

/// Texts as they are read, each up to its first NUL character.
pub open spec fn cut_texts(list: Seq<Seq<char>>) -> Seq<Seq<char>> {
    list.map_values(|s: Seq<char>| cut(s))
}

fn cut_strings(list: &Vec<String>) -> (read: Vec<String>)
    ensures
        texts(read@) == cut_texts(texts(list@)),
{
    let mut read: Vec<String> = Vec::new();
    let mut i: usize = 0;
    while i < list.len()
        invariant
            i <= list@.len(),
            read@.len() == i,
            forall|k: int| 0 <= k < i ==> #[trigger] read@[k]@ == cut(list@[k]@),
        decreases list@.len() - i,
    {
        read.push(until_nul(list[i].as_str()));
        i += 1;
    }
    assert(texts(read@) =~= cut_texts(texts(list@)));
    read
}

/// The kinds of the replicas at a target, each once and in order.
pub open spec fn kinds_at(
    tables: Tables,
    target: Seq<char>,
    prefix: Seq<char>,
    machine: Seq<char>,
) -> Seq<Seq<char>> {
    cut_texts(
        arranged_texts(distinct(kinds_of(tables.replicas.filter(present(target, prefix, machine))))),
    )
}

/// Kinds of the replicas present at `target` for this prefix and machine.
pub fn replica_kinds(database: &Database, target: &str, prefix: &str, machine: &str) -> (kinds:
    Result<Vec<String>, QueryError>)
    ensures
        match kinds {
            Ok(kinds) => !refused_for_replicas(database@, target@, prefix@) && texts(kinds@)
                == kinds_at(database@, target@, prefix@, machine@),
            Err(error) => error == QueryError::PatternTooLong && refused_for_replicas(
                database@,
                target@,
                prefix@,
            ),
        },
{
    if is_refused_for_replicas(database, target, prefix) {
        return Err(QueryError::PatternTooLong);
    }
    let rows: Vec<ReplicaRow> = copy_replicas(&database.replicas);
    let wanted = |row: &ReplicaRow| -> (yes: bool)
        ensures
            yes == present(target@, prefix@, machine@)(row@),
        { is_present(row, target, prefix, machine) };
    let rows: Vec<ReplicaRow> = keep(rows, wanted, Ghost(present(target@, prefix@, machine@)));
    let ghost all = kinds_of(views(rows@));
    let mut kinds: Vec<String> = Vec::new();
    let mut i: usize = 0;
    proof {
        assert(texts(kinds@) =~= distinct(all.take(0)));
    }
    while i < rows.len()
        invariant
            i <= rows@.len(),
            all == kinds_of(views(rows@)),
            texts(kinds@) == distinct(all.take(i as int)),
        decreases rows@.len() - i,
    {
        proof {
            assert(all.take(i + 1).drop_last() =~= all.take(i as int));
            assert(all.take(i + 1).last() == rows@[i as int]@.record.kind);
        }
        add_distinct(&mut kinds, rows[i].record.kind.clone());
        i += 1;
    }
    assert(all.take(all.len() as int) =~= all);
    Ok(cut_strings(&arrange_texts(kinds)))
}

/// The rows of the replicas that are at a target, of this prefix, kind and machine.
pub open spec fn present_kind(
    target: Seq<char>,
    prefix: Seq<char>,
    kind: Seq<char>,
    machine: Seq<char>,
) -> spec_fn(TrackedReplica) -> bool {
    |row: TrackedReplica| present(target, prefix, machine)(row) && row.record.kind == kind
}

/// The rows of the replicas that the remote retention deletes: everything beyond the newest
/// `keep` of one kind.
pub open spec fn prune_rows(
    tables: Tables,
    target: Seq<char>,
    prefix: Seq<char>,
    kind: Seq<char>,
    machine: Seq<char>,
    keep: nat,
) -> Seq<TrackedReplica> {
    beyond(
        arranged(
            tables.replicas.filter(present_kind(target, prefix, kind, machine)),
            newest_replica_first(),
        ),
        keep,
    )
}

/// Replicas present at `target` beyond the newest `keep_newest` ones of this prefix, kind and
/// machine, oldest first.
pub fn remote_prune_candidates(
    database: &Database,
    target: &str,
    prefix: &str,
    kind: &str,
    machine: &str,
    keep_newest: usize,
) -> (list: Result<Vec<ReplicaRecord>, QueryError>)
    ensures
        match list {
            Ok(list) => keep_newest <= i64::MAX && !refused_for_replicas(
                database@,
                target@,
                prefix@,
            ) && views(list@) == replicas_of(
                arranged(
                    prune_rows(database@, target@, prefix@, kind@, machine@, keep_newest as nat),
                    oldest_replica_first(),
                ),
            ),
            Err(QueryError::KeepTooLarge) => keep_newest > i64::MAX,
            Err(QueryError::PatternTooLong) => keep_newest <= i64::MAX && refused_for_replicas(
                database@,
                target@,
                prefix@,
            ),
        },
{
    if keep_newest as u64 > 0x7fff_ffff_ffff_ffff {
        return Err(QueryError::KeepTooLarge);
    }
    if is_refused_for_replicas(database, target, prefix) {
        return Err(QueryError::PatternTooLong);
    }
    let rows: Vec<ReplicaRow> = copy_replicas(&database.replicas);
    let wanted = |row: &ReplicaRow| -> (yes: bool)
        ensures
            yes == present_kind(target@, prefix@, kind@, machine@)(row@),
        {
            is_present(row, target, prefix, machine) && same_text(row.record.kind.as_str(), kind)
        };
    let rows: Vec<ReplicaRow> = keep(
        rows,
        wanted,
        Ghost(present_kind(target@, prefix@, kind@, machine@)),
    );
    let rows: Vec<ReplicaRow> = rows_beyond(arrange_newest_replica_first(rows), keep_newest);
    Ok(replica_records(&arrange_oldest_replica_first(rows)))
}

/// The rows of the replicas that are at their target.
pub open spec fn still_there() -> spec_fn(TrackedReplica) -> bool {
    |row: TrackedReplica| !row.pruned
}

/// The replicas at their targets, newest first.
pub open spec fn listed(tables: Tables) -> Seq<Replica> {
    replicas_of(arranged(tables.replicas.filter(still_there()), listed_first()))
}

/// Every replica present at its target, newest first.
pub fn list_replicas(database: &Database) -> (list: Vec<ReplicaRecord>)
    ensures
        views(list@) == listed(database@),
{
    let rows: Vec<ReplicaRow> = copy_replicas(&database.replicas);
    let wanted = |row: &ReplicaRow| -> (yes: bool)
        ensures
            yes == still_there()(row@),
        { !row.pruned };
    let rows: Vec<ReplicaRow> = keep(rows, wanted, Ghost(still_there()));
    replica_records(&arrange_listed(rows))
}

} // verus!
