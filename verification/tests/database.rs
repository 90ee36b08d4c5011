use rusnapshot::controller::{
    delete_record, find_one, keep_only_x, name_at, new_record, new_snapshot_name, replica_columns,
    replica_table, snapshot_columns, snapshot_table, Cleaning, CreateStep, Deletion, NotDeleted,
    NotOne,
};
use rusnapshot::args::Args;
use rusnapshot::changes::{replica_changes, snapshot_changes, RowChange};
use rusnapshot::database::{
    cleanup_candidates, delete_replica, delete_snapshot, find_snapshots, insert_replica,
    insert_snapshot, list_all, list_replicas, mark_replica_pruned, parent_candidates,
    pending_replication, remote_prune_candidates, replica_kinds, replicated_names,
    setup_initial_database, Database, QueryError, ReplicaRow, SnapshotRow, Stamp,
};
use rusnapshot::deleting::{deletion_notice, deletion_report, Clearing, DeleteStep};
use rusnapshot::pattern::{is_like, starts_with, PatternTooLong};
use rusnapshot::restoring::{
    describe_restore, manage_restoring, restore_source, restore_way, RestoreWay, TargetUnclear,
};
use rusnapshot::sending::{prune_target, to_send};
use rusnapshot::structs::{ReplicaRecord, SnapshotRecord};
use rusnapshot::text::until_nul;

fn db() -> Database {
    let mut database = Database::default();
    setup_initial_database(&mut database);
    database
}

fn stamp(date: &str) -> Stamp {
    Stamp {
        utc: date.into(),
        local: date.into(),
    }
}

/// Insert a record with an explicit date so ordering is deterministic.
fn insert(database: &mut Database, name: &str, kind: &str, machine: &str, rw: bool, date: &str) {
    let record = SnapshotRecord {
        name: name.into(),
        snap_id: format!("id-{name}"),
        kind: kind.into(),
        source: "/home/".into(),
        destination: "/.snapshots/".into(),
        machine: machine.into(),
        ro_rw: rw.to_string(),
        date: String::new(),
    };
    insert_snapshot(database, &record, &stamp(date)).unwrap();
}

fn names(records: &[SnapshotRecord]) -> Vec<&str> {
    records.iter().map(|r| r.name.as_str()).collect()
}

#[test]
fn setup_is_idempotent() {
    let mut database = db();
    setup_initial_database(&mut database);
    setup_initial_database(&mut database);
    assert!(list_all(&database).is_empty());
}

#[test]
fn insert_find_delete() {
    let mut database = db();
    insert(&mut database, "root-1", "daily", "host", false, "2026-01-01 00:00:00");
    let by_name = find_snapshots(&database, "root-1");
    let by_id = find_snapshots(&database, "id-root-1");
    assert_eq!(by_name, by_id);
    assert_eq!(by_name.len(), 1);
    assert_eq!(by_name[0].machine, "host");
    assert_eq!(by_name[0].ro_rw, "false");
    assert!(!by_name[0].date.is_empty());
    assert!(find_snapshots(&database, "nope").is_empty());

    delete_snapshot(&mut database, &by_name[0]);
    assert!(list_all(&database).is_empty());
}

#[test]
fn values_with_quotes_are_stored_verbatim() {
    let mut database = db();
    let record = SnapshotRecord {
        name: "it's-1".into(),
        snap_id: "id".into(),
        kind: "k\"k".into(),
        source: "/home/it's/".into(),
        destination: "/.snapshots/".into(),
        machine: "o'host".into(),
        ro_rw: "false".into(),
        date: String::new(),
    };
    insert_snapshot(&mut database, &record, &stamp("2026-01-01 00:00:00")).unwrap();
    let found = find_snapshots(&database, "it's-1");
    assert_eq!(found[0].source, "/home/it's/");
    assert_eq!(found[0].machine, "o'host");
    assert_eq!(found[0].kind, "k\"k");
}

#[test]
fn duplicated_snapshot_is_rejected() {
    let mut database = db();
    insert(&mut database, "root-1", "daily", "host", false, "2026-01-01 00:00:00");
    let record = find_snapshots(&database, "root-1").remove(0);
    assert!(insert_snapshot(&mut database, &record, &stamp("2026-01-02 00:00:00")).is_err());
    assert_eq!(list_all(&database).len(), 1);
}

#[test]
fn list_is_newest_first() {
    let mut database = db();
    insert(&mut database, "a", "k", "h", false, "2026-01-01 00:00:00");
    insert(&mut database, "c", "k", "h", false, "2026-01-03 00:00:00");
    insert(&mut database, "b", "k", "h", false, "2026-01-02 00:00:00");
    assert_eq!(names(&list_all(&database)), ["c", "b", "a"]);
}

#[test]
fn rows_without_a_date_are_the_oldest() {
    let mut database = db();
    insert(&mut database, "a", "k", "h", false, "2026-01-01 00:00:00");
    database.snapshots.push(SnapshotRow {
        record: SnapshotRecord {
            name: "z".into(),
            ro_rw: "false".into(),
            machine: "h".into(),
            ..SnapshotRecord::default()
        },
        date: None,
    });
    assert_eq!(names(&list_all(&database)), ["a", "z"]);
    let pending = pending_replication(&database, "", "h").unwrap();
    assert_eq!(names(&pending), ["z", "a"]);
    assert_eq!(pending[0].date, "");
}

#[test]
fn cleanup_keeps_the_newest() {
    let mut database = db();
    for day in 1..=5 {
        insert(
            &mut database,
            &format!("root-{day}"),
            "daily",
            "h",
            false,
            &format!("2026-01-0{day} 00:00:00"),
        );
    }
    let candidates = cleanup_candidates(&database, "root", "daily", false, "h", 3).unwrap();
    assert_eq!(names(&candidates), ["root-2", "root-1"]);
    assert!(cleanup_candidates(&database, "root", "daily", false, "h", 5)
        .unwrap()
        .is_empty());
    let all = cleanup_candidates(&database, "root", "daily", false, "h", 0).unwrap();
    assert_eq!(all.len(), 5);
}

#[test]
fn cleanup_uses_name_as_tiebreaker_for_same_second() {
    let mut database = db();
    insert(
        &mut database,
        "root-2026-01-01-00-00-00-000001",
        "daily",
        "h",
        false,
        "2026-01-01 00:00:00",
    );
    insert(
        &mut database,
        "root-2026-01-01-00-00-00-000002",
        "daily",
        "h",
        false,
        "2026-01-01 00:00:00",
    );
    let candidates = cleanup_candidates(&database, "root", "daily", false, "h", 1).unwrap();
    assert_eq!(names(&candidates), ["root-2026-01-01-00-00-00-000001"]);
}

#[test]
fn cleanup_prefix_is_a_like_pattern() {
    // Intentional behaviour: `home` also matches `home-data-*`.
    let mut database = db();
    insert(&mut database, "home-1", "k", "h", false, "2026-01-01 00:00:00");
    insert(&mut database, "home-data-1", "k", "h", false, "2026-01-02 00:00:00");
    insert(&mut database, "root-1", "k", "h", false, "2026-01-03 00:00:00");
    let candidates = cleanup_candidates(&database, "home", "k", false, "h", 0).unwrap();
    assert_eq!(names(&candidates), ["home-data-1", "home-1"]);
}

#[test]
fn cleanup_filters_by_kind_mode_and_machine() {
    let mut database = db();
    insert(&mut database, "root-1", "daily", "A", false, "2026-01-01 00:00:00");
    insert(&mut database, "root-2", "weekly", "A", false, "2026-01-02 00:00:00");
    insert(&mut database, "root-3", "daily", "A", true, "2026-01-03 00:00:00");
    insert(&mut database, "root-4", "daily", "B", false, "2026-01-04 00:00:00");
    insert(&mut database, "root-5", "daily", "B", false, "2026-01-05 00:00:00");

    let daily_ro_a = cleanup_candidates(&database, "root", "daily", false, "A", 0).unwrap();
    assert_eq!(names(&daily_ro_a), ["root-1"]);
    let daily_rw_a = cleanup_candidates(&database, "root", "daily", true, "A", 0).unwrap();
    assert_eq!(names(&daily_rw_a), ["root-3"]);
    let weekly_a = cleanup_candidates(&database, "root", "weekly", false, "A", 0).unwrap();
    assert_eq!(names(&weekly_a), ["root-2"]);
    // Machine B's newer snapshots must not push machine A's out of its own keep window.
    assert!(cleanup_candidates(&database, "root", "daily", false, "A", 1)
        .unwrap()
        .is_empty());
    let daily_b = cleanup_candidates(&database, "root", "daily", false, "B", 1).unwrap();
    assert_eq!(names(&daily_b), ["root-4"]);
}

#[test]
fn keeping_too_many_is_refused() {
    let database = db();
    assert_eq!(
        cleanup_candidates(&database, "root", "daily", false, "h", usize::MAX),
        Err(QueryError::KeepTooLarge)
    );
    assert_eq!(
        remote_prune_candidates(&database, "/t", "root", "daily", "h", usize::MAX),
        Err(QueryError::KeepTooLarge)
    );
    assert!(
        cleanup_candidates(&database, "root", "daily", false, "h", i64::MAX as usize).is_ok()
    );
    // With nothing at the target the retention is not looked at.
    assert_eq!(prune_target(&database, "/t", "root", "h", usize::MAX), Ok(vec![]));
}

fn replica(name: &str, target: &str, kind: &str, date: &str, parent: Option<&str>) -> ReplicaRecord {
    ReplicaRecord {
        name: name.into(),
        snap_id: format!("id-{name}"),
        target: target.into(),
        local_path: format!("/.snapshots/{name}"),
        source: "/home/".into(),
        kind: kind.into(),
        machine: "h".into(),
        snapshot_date: date.into(),
        parent_name: parent.map(str::to_string),
        date: String::new(),
    }
}

#[test]
fn pending_replication_is_ro_only_and_oldest_first() {
    let mut database = db();
    insert(&mut database, "root-2", "daily", "h", false, "2026-01-02 00:00:00");
    insert(&mut database, "root-1", "daily", "h", false, "2026-01-01 00:00:00");
    insert(&mut database, "root-3", "daily", "h", true, "2026-01-03 00:00:00");
    insert(&mut database, "root-4", "daily", "other", false, "2026-01-04 00:00:00");
    insert(&mut database, "home-1", "daily", "h", false, "2026-01-05 00:00:00");
    let pending = pending_replication(&database, "root", "h").unwrap();
    assert_eq!(names(&pending), ["root-1", "root-2"]);
    // Raw UTC date, not converted to local time.
    assert_eq!(pending[0].date, "2026-01-01 00:00:00");
}

#[test]
fn dates_are_shown_in_local_time_and_sent_in_utc() {
    let mut database = db();
    let record = SnapshotRecord {
        name: "root-1".into(),
        snap_id: "id".into(),
        machine: "h".into(),
        ro_rw: "false".into(),
        ..SnapshotRecord::default()
    };
    let moment = Stamp {
        utc: "2026-01-01 05:00:00".into(),
        local: "2026-01-01 00:00:00".into(),
    };
    insert_snapshot(&mut database, &record, &moment).unwrap();
    assert_eq!(list_all(&database)[0].date, "2026-01-01 00:00:00");
    assert_eq!(
        pending_replication(&database, "root", "h").unwrap()[0].date,
        "2026-01-01 05:00:00"
    );
}

#[test]
fn replica_queries() {
    let mut database = db();
    let nas = "ssh://nas/srv";
    let now = stamp("2026-02-01 00:00:00");
    for r in [
        replica("root-1", nas, "daily", "2026-01-01 00:00:00", None),
        replica("root-2", nas, "daily", "2026-01-02 00:00:00", Some("root-1")),
        replica("root-3", nas, "weekly", "2026-01-03 00:00:00", Some("root-2")),
        replica("root-4", "/mnt/usb", "daily", "2026-01-04 00:00:00", None),
        replica("home-1", nas, "daily", "2026-01-05 00:00:00", None),
    ] {
        insert_replica(&mut database, &r, &now);
    }

    let has = |names: &[String], name: &str| names.iter().any(|n| n == name);
    let names_at_nas = replicated_names(&database, nas);
    assert_eq!(names_at_nas.len(), 4);
    assert!(has(&names_at_nas, "root-3") && !has(&names_at_nas, "root-4"));

    let parents = parent_candidates(&database, nas, "/home/", "h");
    let parent_names: Vec<&str> = parents.iter().map(|r| r.name.as_str()).collect();
    assert_eq!(parent_names, ["home-1", "root-3", "root-2", "root-1"]);
    assert_eq!(parents[1].parent_name.as_deref(), Some("root-2"));
    assert!(parents[3].parent_name.is_none());
    assert!(parent_candidates(&database, nas, "/other/", "h").is_empty());

    assert_eq!(
        replica_kinds(&database, nas, "root", "h").unwrap(),
        ["daily", "weekly"]
    );
    let prune = remote_prune_candidates(&database, nas, "root", "daily", "h", 1).unwrap();
    assert_eq!(prune.len(), 1);
    assert_eq!(prune[0].name, "root-1");
    assert!(remote_prune_candidates(&database, nas, "root", "weekly", "h", 1)
        .unwrap()
        .is_empty());

    // Re-recording an existing replica replaces it instead of failing.
    insert_replica(
        &mut database,
        &replica("root-1", nas, "daily", "2026-01-01 00:00:00", None),
        &now,
    );
    // Pruned replicas stay recorded, so they are not sent again, but stop being parents.
    assert_eq!(list_replicas(&database).len(), 5);
    mark_replica_pruned(&mut database, &prune[0]);
    assert!(has(&replicated_names(&database, nas), "root-1"));
    assert!(parent_candidates(&database, nas, "/home/", "h")
        .iter()
        .all(|r| r.name != "root-1"));
    assert!(remote_prune_candidates(&database, nas, "root", "daily", "h", 1)
        .unwrap()
        .is_empty());
    assert_eq!(list_replicas(&database).len(), 4);
    assert!(!list_replicas(&database)[0].date.is_empty());
    // Forgetting a replica removes it completely, so its snapshot is pending again.
    delete_replica(&mut database, &prune[0]);
    assert!(!has(&replicated_names(&database, nas), "root-1"));
    assert_eq!(list_replicas(&database).len(), 4);
}

#[test]
fn recording_a_pruned_replica_again_brings_it_back() {
    let mut database = db();
    let one = replica("root-1", "/t", "daily", "2026-01-01 00:00:00", None);
    insert_replica(&mut database, &one, &stamp("x"));
    mark_replica_pruned(&mut database, &one);
    assert!(list_replicas(&database).is_empty());
    insert_replica(&mut database, &one, &stamp("y"));
    assert_eq!(list_replicas(&database).len(), 1);
    assert_eq!(list_replicas(&database)[0].date, "y");
    assert_eq!(database.replicas.len(), 1);
}

#[test]
fn replicas_of_one_snapshot_are_listed_by_target() {
    let mut database = db();
    for (name, target, date) in [("a", "/z", "1"), ("a", "/b", "1"), ("b", "/m", "1"), ("c", "/a", "0")] {
        insert_replica(&mut database, &replica(name, target, "k", date, None), &stamp("x"));
    }
    let list: Vec<(String, String)> = list_replicas(&database)
        .into_iter()
        .map(|r| (r.name, r.target))
        .collect();
    let shown: Vec<(&str, &str)> = list.iter().map(|(a, b)| (a.as_str(), b.as_str())).collect();
    assert_eq!(shown, [("b", "/m"), ("a", "/b"), ("a", "/z"), ("c", "/a")]);
}

#[test]
fn a_target_is_pruned_per_kind() {
    let mut database = db();
    for day in 1..=4 {
        insert_replica(
            &mut database,
            &replica(&format!("root-{day}"), "/t", "daily", &format!("2026-01-0{day}"), None),
            &stamp("x"),
        );
    }
    for day in 5..=6 {
        insert_replica(
            &mut database,
            &replica(&format!("root-{day}"), "/t", "weekly", &format!("2026-01-0{day}"), None),
            &stamp("x"),
        );
    }
    let gone = prune_target(&database, "/t", "root", "h", 1).unwrap();
    let gone: Vec<&str> = gone.iter().map(|r| r.name.as_str()).collect();
    assert_eq!(gone, ["root-1", "root-2", "root-3", "root-5"]);
    assert!(prune_target(&database, "/t", "root", "h", 4).unwrap().is_empty());
    assert!(prune_target(&database, "/t", "root", "other", 0).unwrap().is_empty());
}

#[test]
fn what_was_sent_is_not_sent_again() {
    let mut database = db();
    insert(&mut database, "root-1", "daily", "h", false, "1");
    insert(&mut database, "root-2", "daily", "h", false, "2");
    insert(&mut database, "root-3", "daily", "h", false, "3");
    insert_replica(&mut database, &replica("root-2", "/t", "daily", "2", None), &stamp("x"));
    let pending = pending_replication(&database, "root", "h").unwrap();
    let done = replicated_names(&database, "/t");
    assert_eq!(names(&to_send(&pending, &done)), ["root-1", "root-3"]);
    let done = replicated_names(&database, "/other");
    assert_eq!(to_send(&pending, &done).len(), 3);
}

#[test]
fn quoted_machines_are_migrated() {
    let mut database = db();
    insert(&mut database, "root-1", "daily", "\"Oribos\"", false, "2026-01-01 00:00:00");
    insert(&mut database, "root-2", "daily", "Oribos", false, "2026-01-02 00:00:00");
    insert(&mut database, "root-3", "daily", "\"", false, "2026-01-03 00:00:00");
    setup_initial_database(&mut database);
    let machines: Vec<String> = list_all(&database).into_iter().map(|r| r.machine).collect();
    assert_eq!(machines, ["\"", "Oribos", "Oribos"]);
    assert_eq!(
        cleanup_candidates(&database, "root", "daily", false, "Oribos", 0)
            .unwrap()
            .len(),
        2
    );
}

#[test]
fn a_machine_that_was_quoted_twice_is_migrated_twice() {
    let mut database = db();
    insert(&mut database, "a", "k", "\"host\"", false, "1");
    insert(&mut database, "b", "k", "\"\"host\"\"", false, "2");
    let machines = |database: &Database| -> Vec<String> {
        database.snapshots.iter().map(|row| row.record.machine.clone()).collect()
    };
    setup_initial_database(&mut database);
    assert_eq!(machines(&database), ["host", "\"host\""]);
    setup_initial_database(&mut database);
    assert_eq!(machines(&database), ["host", "host"]);
    setup_initial_database(&mut database);
    assert_eq!(machines(&database), ["host", "host"]);
}

#[test]
fn deleting_undoes_recording() {
    let mut database = db();
    insert(&mut database, "a", "k", "h", false, "1");
    insert(&mut database, "b", "k", "h", true, "2");
    let before = database.clone();
    insert(&mut database, "c", "k", "h", false, "3");
    assert_ne!(database, before);
    let record = find_one(&database, "c").unwrap();
    delete_snapshot(&mut database, &record);
    assert_eq!(database, before);
    delete_snapshot(&mut database, &record);
    assert_eq!(database, before, "there is nothing left to delete");
}

#[test]
fn pruning_one_kind_leaves_the_others() {
    let mut database = db();
    for (name, kind, date) in [
        ("root-1", "daily", "1"),
        ("root-2", "weekly", "2"),
        ("root-3", "daily", "3"),
        ("root-4", "weekly", "4"),
    ] {
        insert_replica(&mut database, &replica(name, "/t", kind, date, None), &stamp("x"));
    }
    let weekly = remote_prune_candidates(&database, "/t", "root", "weekly", "h", 1).unwrap();
    mark_replica_pruned(&mut database, &replica("root-1", "/t", "daily", "1", None));
    assert_eq!(
        remote_prune_candidates(&database, "/t", "root", "weekly", "h", 1).unwrap(),
        weekly
    );
    assert_eq!(weekly[0].name, "root-2");
}

#[test]
fn pruned_and_forgotten_replicas() {
    let mut database = db();
    insert(&mut database, "root-1", "daily", "h", false, "1");
    let one = replica("root-1", "/t", "daily", "1", None);
    insert_replica(&mut database, &one, &stamp("x"));
    mark_replica_pruned(&mut database, &one);
    let pending = pending_replication(&database, "root", "h").unwrap();
    assert!(to_send(&pending, &replicated_names(&database, "/t")).is_empty());
    delete_replica(&mut database, &one);
    assert_eq!(
        names(&to_send(&pending, &replicated_names(&database, "/t"))),
        ["root-1"]
    );
}

#[test]
fn patterns() {
    assert!(starts_with("home-data-1", "home").unwrap());
    assert!(!starts_with("root-1", "home").unwrap());
    assert!(starts_with("anything", "").unwrap());
    assert!(starts_with("HOME-1", "home").unwrap(), "ASCII letters match in either case");
    assert!(!starts_with("Ärger", "ärger").unwrap(), "other letters don't");
    assert!(starts_with("homeX1", "home_1").unwrap());
    assert!(!starts_with("home1", "home_1").unwrap());
    assert!(starts_with("a-middle-z-1", "a%z").unwrap());
    assert!(!starts_with("a-middle", "a%z").unwrap());
    assert!(is_like("", "").unwrap());
    assert!(!is_like("", "a").unwrap());
    assert!(is_like("%", "").unwrap());
    assert!(is_like("%b%", "abc").unwrap());
    assert!(!is_like("_", "").unwrap());
    assert!(is_like("a%b%c", "a-b-b-c").unwrap());
}

#[test]
fn snapshot_name_format() {
    let name = new_snapshot_name("root");
    // root-YYYY-MM-DD-HH-MM-SS-ffffff
    assert_eq!(name.len(), "root-2026-01-01-00-00-00-000000".len());
    assert!(name.starts_with("root-"));
    assert!(name[5..].chars().all(|c| c.is_ascii_digit() || c == '-'));
    assert!(!name.contains('/'));
}

#[test]
fn a_new_name_holds_a_moment() {
    let name = new_snapshot_name("root");
    let fields: Vec<u32> = name[5..].split('-').map(|field| field.parse().unwrap()).collect();
    assert_eq!(fields.len(), 7);
    assert!((1..=12).contains(&fields[1]) && (1..=31).contains(&fields[2]));
    assert!(fields[3] <= 23 && fields[4] <= 59 && fields[5] <= 60);
}

#[test]
fn a_new_record_takes_what_was_asked_for() {
    let args = Args {
        snapshot_kind: "daily".into(),
        source_dir: "/home/".into(),
        dest_dir: "/.snapshots/".into(),
        machine: "h".into(),
        read_write: true,
        ..Args::default()
    };
    let name = name_at("root", "2026-01-01-00-00-00-000000");
    assert_eq!(name, "root-2026-01-01-00-00-00-000000");
    let record = new_record(&args, "abc");
    assert_eq!(record.name, "abc");
    assert_eq!(record.snap_id, "900150983cd24fb0d6963f7d28e17f72");
    assert_eq!(record.kind, "daily");
    assert_eq!(record.source, "/home/");
    assert_eq!(record.destination, "/.snapshots/");
    assert_eq!(record.machine, "h");
    assert_eq!(record.ro_rw, "true");
    assert_eq!(record.date, "");
    assert_eq!(new_record(&Args::default(), "abc").ro_rw, "false");
}

#[test]
fn an_unrecorded_snapshot_is_undone() {
    assert_eq!(CreateStep::start(true).next(true), CreateStep::Described);
    let step = CreateStep::start(false);
    assert_eq!(step, CreateStep::Take);
    assert_eq!(step.next(false), CreateStep::NotTaken);
    let step = step.next(true);
    assert_eq!(step, CreateStep::Record);
    assert_eq!(step.next(true), CreateStep::Created);
    let step = step.next(false);
    assert_eq!(step, CreateStep::Undo);
    assert_eq!(step.next(true), CreateStep::NotRecorded);
    assert_eq!(step.next(false), CreateStep::LeftBehind);
    assert_eq!(CreateStep::Created.next(false), CreateStep::Created);
}

#[test]
fn one_snapshot_has_to_be_meant() {
    let mut database = db();
    insert(&mut database, "root-1", "daily", "h", false, "1");
    assert_eq!(find_one(&database, "id-root-1").unwrap().name, "root-1");
    assert_eq!(find_one(&database, "nope"), Err(NotOne::Unknown));
    let twin = SnapshotRecord {
        name: "root-1".into(),
        snap_id: "other".into(),
        ..SnapshotRecord::default()
    };
    insert_snapshot(&mut database, &twin, &stamp("2")).unwrap();
    assert_eq!(find_one(&database, "root-1"), Err(NotOne::Ambiguous(2)));
    assert_eq!(
        NotOne::Unknown.message("nope"),
        "no snapshot found with id or name 'nope'. Use --list to see the tracked snapshots"
    );
    assert_eq!(
        NotOne::Ambiguous(2).message("root-1"),
        "'root-1' matches 2 snapshots, use the snapshot id instead of the name"
    );
}

#[test]
fn rows_are_kept_while_it_is_unsure_what_became_of_the_snapshot() {
    let record = SnapshotRecord {
        name: "root-1".into(),
        snap_id: "id".into(),
        destination: "/.snapshots/".into(),
        machine: "A".into(),
        ..SnapshotRecord::default()
    };
    assert_eq!(delete_record(&record, "A", true, true, true), Ok(Deletion::Describe));
    assert_eq!(delete_record(&record, "B", false, true, true), Ok(Deletion::FromDisk));
    assert_eq!(delete_record(&record, "A", false, false, true), Ok(Deletion::RowOnly));
    assert_eq!(
        delete_record(&record, "B", false, false, true),
        Err(NotDeleted::OtherMachine)
    );
    assert_eq!(
        delete_record(&record, "A", false, false, false),
        Err(NotDeleted::NoDirectory)
    );
    let nowhere = SnapshotRecord {
        destination: String::new(),
        ..record.clone()
    };
    assert_eq!(
        delete_record(&nowhere, "A", false, false, true),
        Err(NotDeleted::NoDirectory)
    );
    assert_eq!(
        NotDeleted::OtherMachine.message(&record, "B"),
        "snapshot root-1 (id) is not present at /.snapshots/root-1: it was created on machine 'A' and this is 'B'"
    );
    assert_eq!(
        NotDeleted::NoDirectory.message(&record, "A"),
        "snapshot root-1 (id) is not present at /.snapshots/root-1 and its directory /.snapshots/ is not available either (is the snapshots subvolume mounted?). Keeping it in the database"
    );
}

#[test]
fn cleaning() {
    let mut database = db();
    for day in 1..=3 {
        insert(&mut database, &format!("root-{day}"), "daily", "h", false, &format!("{day}"));
    }
    let mut args = Args {
        snapshot_prefix: "root".into(),
        snapshot_kind: "daily".into(),
        machine: "h".into(),
        keep_only: 3,
        ..Args::default()
    };
    assert_eq!(
        keep_only_x(&args, &database),
        Ok(Cleaning::Nothing(
            "Nothing to clean: there are no more than 3 ro snapshots with prefix 'root', kind 'daily' and machine 'h'.".into()
        ))
    );
    args.keep_only = 1;
    let Ok(Cleaning::Delete(headline, list)) = keep_only_x(&args, &database) else {
        panic!("nothing is deleted");
    };
    assert_eq!(
        headline,
        "Deleting 2 snapshot(s), keeping the last 1 ro snapshots with prefix 'root', kind 'daily' and machine 'h':"
    );
    assert_eq!(names(&list), ["root-2", "root-1"]);
    args.dry_run = true;
    let Ok(Cleaning::Describe(headline, list)) = keep_only_x(&args, &database) else {
        panic!("nothing is described");
    };
    assert!(headline.starts_with("Would delete 2 snapshot(s)"));
    assert_eq!(list.len(), 2);
    args.read_write = true;
    assert!(matches!(keep_only_x(&args, &database), Ok(Cleaning::Nothing(_))));
    args.keep_only = usize::MAX;
    assert_eq!(keep_only_x(&args, &database), Err(QueryError::KeepTooLarge));
}

fn clear(deleted: &[bool]) -> Clearing {
    let mut clearing = Clearing::start(deleted.len());
    for (i, deleted) in deleted.iter().enumerate() {
        assert_eq!(clearing.current(), Some(i), "every snapshot is tried, in order");
        clearing.next(*deleted);
    }
    assert_eq!(clearing.current(), None);
    clearing
}

#[test]
fn a_cleanup_goes_on_after_a_failure() {
    assert_eq!(clear(&[]).result(), Ok(()));
    assert_eq!(clear(&[true, true]).result(), Ok(()));
    let clearing = clear(&[false, true, false]);
    assert_eq!((clearing.tried, clearing.count, clearing.failures), (3, 3, 2));
    assert_eq!(
        clearing.result(),
        Err("2 of 3 snapshot(s) could not be deleted".into())
    );
    let mut clearing = clear(&[true]);
    clearing.next(false);
    assert_eq!(clearing, clear(&[true]), "there is nothing more to try");
}

#[test]
fn a_cleanup_leaves_nothing_to_clean() {
    let mut database = db();
    for day in 1..=5 {
        insert(&mut database, &format!("root-{day}"), "daily", "h", false, &format!("{day}"));
    }
    insert(&mut database, "root-0", "daily", "other", false, "0");
    insert(&mut database, "root-9", "weekly", "h", false, "9");
    let candidates = |database: &Database| {
        cleanup_candidates(database, "root", "daily", false, "h", 2).unwrap()
    };
    let gone = candidates(&database);
    assert_eq!(names(&gone), ["root-3", "root-2", "root-1"]);
    // One that could not be deleted is still there to clean, and only that one.
    let mut partly = database.clone();
    delete_snapshot(&mut partly, &gone[0]);
    delete_snapshot(&mut partly, &gone[2]);
    assert_eq!(names(&candidates(&partly)), ["root-2"]);
    for record in &gone {
        delete_snapshot(&mut database, record);
    }
    assert!(candidates(&database).is_empty());
    assert_eq!(
        names(&list_all(&database)),
        ["root-9", "root-5", "root-4", "root-0"],
        "all others stay"
    );
}

fn run_deletion(way: Deletion, events: &[bool]) -> DeleteStep {
    events
        .iter()
        .fold(DeleteStep::start(way), |step, done| step.next(*done))
}

#[test]
fn a_row_stays_as_long_as_its_subvolume() {
    assert_eq!(run_deletion(Deletion::Describe, &[]), DeleteStep::Describe);
    assert_eq!(run_deletion(Deletion::Describe, &[true]), DeleteStep::Described);
    assert_eq!(run_deletion(Deletion::FromDisk, &[]), DeleteStep::Remove);
    assert_eq!(run_deletion(Deletion::FromDisk, &[true]), DeleteStep::RemoveCopies);
    for copies in [false, true] {
        assert_eq!(run_deletion(Deletion::FromDisk, &[true, copies]), DeleteStep::Forget);
        assert_eq!(run_deletion(Deletion::FromDisk, &[true, copies, true]), DeleteStep::Deleted);
        assert_eq!(
            run_deletion(Deletion::FromDisk, &[true, copies, false]),
            DeleteStep::NotForgotten
        );
    }
    assert_eq!(run_deletion(Deletion::FromDisk, &[false]), DeleteStep::NotRemoved);
    assert_eq!(
        run_deletion(Deletion::FromDisk, &[false, true, true]),
        DeleteStep::NotRemoved,
        "the row must stay when btrfs fails"
    );
    assert_eq!(run_deletion(Deletion::RowOnly, &[]), DeleteStep::RemoveCopies);
    assert_eq!(run_deletion(Deletion::RowOnly, &[false]), DeleteStep::Forget);
    assert_eq!(run_deletion(Deletion::RowOnly, &[true, true]), DeleteStep::Deleted);
    assert_eq!(run_deletion(Deletion::RowOnly, &[true, false]), DeleteStep::NotForgotten);
}

#[test]
fn patterns_that_are_too_long_are_refused() {
    let longest = "a".repeat(49999);
    let longer = "a".repeat(50000);
    assert_eq!(starts_with("b", &longest), Ok(false));
    assert_eq!(starts_with(&longer, &longest), Ok(true));
    assert_eq!(starts_with("b", &longer), Err(PatternTooLong));
    assert_eq!(is_like(&longer, &longer), Ok(true));
    assert_eq!(is_like(&format!("{longer}%"), "b"), Err(PatternTooLong));
    // Bytes count, not characters.
    assert_eq!(starts_with("b", &"\u{e9}".repeat(25000)), Err(PatternTooLong));

    let refused = Err(QueryError::PatternTooLong);
    let mut database = db();
    assert_eq!(pending_replication(&database, &longer, "h"), Ok(vec![]));
    assert_eq!(cleanup_candidates(&database, &longer, "k", false, "h", 0), Ok(vec![]));
    insert(&mut database, "root-1", "other", "other", true, "1");
    assert_eq!(pending_replication(&database, &longer, "h"), refused);
    assert_eq!(cleanup_candidates(&database, &longer, "k", false, "h", 0), refused);
    assert_eq!(pending_replication(&database, &longest, "h"), Ok(vec![]));
    assert_eq!(
        cleanup_candidates(&database, &longer, "k", false, "h", usize::MAX),
        Err(QueryError::KeepTooLarge)
    );
    let args = Args {
        snapshot_prefix: longer.clone(),
        ..Args::default()
    };
    assert_eq!(keep_only_x(&args, &database), Err(QueryError::PatternTooLong));

    let kinds = |database: &Database, target: &str| replica_kinds(database, target, &longer, "h");
    assert_eq!(kinds(&database, "/t"), Ok(vec![]));
    insert_replica(&mut database, &replica("root-1", "/t", "k", "1", None), &stamp("1"));
    assert_eq!(kinds(&database, "/t"), Err(QueryError::PatternTooLong));
    assert_eq!(kinds(&database, "/elsewhere"), Ok(vec![]));
    let pruned = remote_prune_candidates(&database, "/t", &longer, "k", "h", 1);
    assert_eq!(pruned, Err(QueryError::PatternTooLong));
    let pruned = prune_target(&database, "/t", &longer, "h", usize::MAX);
    assert_eq!(pruned, Err(QueryError::PatternTooLong));
    let pruned = prune_target(&database, "/t", "root", "h", usize::MAX);
    assert_eq!(pruned, Err(QueryError::KeepTooLarge));
    assert_eq!(
        QueryError::PatternTooLong.message("--keep"),
        "LIKE or GLOB pattern too complex (code 1)"
    );
    assert_eq!(
        QueryError::KeepTooLarge.message("--keep"),
        "--keep is too large: out of range integral type conversion attempted"
    );
}

#[test]
fn texts_are_read_and_matched_up_to_a_nul() {
    assert_eq!(until_nul("a\0b"), "a");
    assert_eq!(until_nul("ab"), "ab");
    assert_eq!(is_like("a\0b", "a\0c"), Ok(true));
    assert_eq!(is_like("a%", "\0a"), Ok(false));
    assert_eq!(starts_with("a", "a\0"), Ok(true));
    assert_eq!(starts_with("ab", "a\0"), Ok(false), "the pattern ends before its %");
    assert_eq!(is_like("\u{ffff}", "\u{fffd}"), Ok(true));

    let mut database = db();
    insert(&mut database, "root-1", "k\0x", "h\0x", false, "1");
    insert(&mut database, "root-2", "k", "h", false, "2");
    // What is stored is compared, and what is read is cut.
    let found = cleanup_candidates(&database, "root", "k\0x", false, "h\0x", 0).unwrap();
    assert_eq!(names(&found), ["root-1"]);
    assert_eq!((found[0].kind.as_str(), found[0].machine.as_str()), ("k", "h"));
    let found = cleanup_candidates(&database, "root", "k", false, "h", 0).unwrap();
    assert_eq!(names(&found), ["root-2"]);
    insert(&mut database, "odd\0name", "k", "h", false, "3");
    let found = find_snapshots(&database, "odd\0name");
    assert_eq!(names(&found), ["odd"]);
    assert!(find_snapshots(&database, "odd").is_empty());
    delete_snapshot(&mut database, &found[0]);
    assert_eq!(list_all(&database).len(), 3, "it is not found by what was read");

    insert(&mut database, "quoted", "k", "\"h\"\0x", false, "4");
    setup_initial_database(&mut database);
    assert_eq!(database.snapshots[3].record.machine, "h");
    assert_eq!(database.snapshots[0].record.machine, "h\0x");
}

#[test]
fn what_has_to_be_written() {
    let mut before = db();
    for name in ["a", "b", "c"] {
        insert(&mut before, name, "k", "\"h\"", false, "1");
    }
    insert_replica(&mut before, &replica("a", "/t", "k", "1", None), &stamp("1"));
    insert_replica(&mut before, &replica("b", "/t", "k", "1", None), &stamp("1"));
    assert_eq!(snapshot_changes(&before, &before), []);
    assert_eq!(replica_changes(&before, &before), []);

    let mut after = before.clone();
    delete_snapshot(&mut after, &before.snapshots[1].record);
    assert_eq!(
        snapshot_changes(&before, &after),
        [RowChange::Remove(before.snapshots[1].clone())]
    );
    let mut after = before.clone();
    insert(&mut after, "d", "k", "h", false, "2");
    assert_eq!(
        snapshot_changes(&before, &after),
        [RowChange::Add(after.snapshots[3].clone())]
    );
    let mut after = before.clone();
    setup_initial_database(&mut after);
    assert_eq!(
        snapshot_changes(&before, &after),
        [0, 1, 2].map(|i: usize| RowChange::Replace(after.snapshots[i].clone()))
    );
    assert_eq!(replica_changes(&before, &after), []);

    let mut after = before.clone();
    mark_replica_pruned(&mut after, &before.replicas[1].record);
    assert_eq!(
        replica_changes(&before, &after),
        [RowChange::Replace(ReplicaRow {
            pruned: true,
            ..before.replicas[1].clone()
        })]
    );
    let mut after = before.clone();
    delete_replica(&mut after, &before.replicas[0].record);
    assert_eq!(
        replica_changes(&before, &after),
        [RowChange::Remove(before.replicas[0].clone())]
    );
    let mut after = before.clone();
    insert_replica(&mut after, &replica("a", "/t", "k", "1", Some("p")), &stamp("2"));
    insert_replica(&mut after, &replica("c", "/t", "k", "1", None), &stamp("2"));
    assert_eq!(
        replica_changes(&before, &after),
        [
            RowChange::Replace(after.replicas[1].clone()),
            RowChange::Add(after.replicas[2].clone())
        ]
    );
}

#[test]
fn the_retention_leaves_the_newest() {
    let mut database = db();
    for day in 1..=4 {
        for kind in ["daily", "weekly"] {
            let name = format!("root-{kind}-{day}");
            let sent = replica(&name, "/t", kind, &day.to_string(), None);
            insert_replica(&mut database, &sent, &stamp("1"));
        }
    }
    let leaving = prune_target(&database, "/t", "root", "h", 2).unwrap();
    assert_eq!(
        leaving.iter().map(|r| r.name.as_str()).collect::<Vec<_>>(),
        ["root-daily-1", "root-daily-2", "root-weekly-1", "root-weekly-2"]
    );
    let sent = replicated_names(&database, "/t");
    for replica in &leaving {
        mark_replica_pruned(&mut database, replica);
    }
    assert_eq!(prune_target(&database, "/t", "root", "h", 2), Ok(vec![]));
    assert_eq!(replicated_names(&database, "/t"), sent, "pruned ones still count as sent");
    assert_eq!(
        list_replicas(&database).iter().map(|r| r.name.as_str()).collect::<Vec<_>>(),
        ["root-weekly-4", "root-daily-4", "root-weekly-3", "root-daily-3"]
    );
}

#[test]
fn what_is_said_of_a_deletion() {
    let record = SnapshotRecord {
        name: "root-1".into(),
        snap_id: "id".into(),
        destination: "/.snapshots/".into(),
        ..SnapshotRecord::default()
    };
    assert_eq!(
        deletion_notice(Deletion::Describe, &record).as_deref(),
        Some("[dry-run] would delete snapshot root-1 (id) at /.snapshots/root-1")
    );
    assert_eq!(deletion_notice(Deletion::FromDisk, &record), None);
    assert_eq!(
        deletion_notice(Deletion::RowOnly, &record).as_deref(),
        Some("Warning: snapshot root-1 (id) no longer exists at /.snapshots/root-1, removing it from the database only.")
    );
    assert_eq!(deletion_report(Deletion::Describe, &record), None);
    assert_eq!(
        deletion_report(Deletion::FromDisk, &record).as_deref(),
        Some("Snapshot root-1 (id) deleted")
    );
    assert_eq!(
        deletion_report(Deletion::RowOnly, &record).as_deref(),
        Some("Snapshot root-1 (id) removed from the database")
    );
}

#[test]
fn what_is_restored_and_how() {
    let mut database = db();
    insert(&mut database, "root-1", "daily", "h", false, "1");
    let mut args = Args {
        snapshot_id: "id-root-1".into(),
        ..Args::default()
    };
    let restoring = manage_restoring(&args, &database).unwrap();
    assert_eq!(restoring.record.name, "root-1");
    assert_eq!(restoring.snapshot, "/.snapshots/root-1");
    assert_eq!(restoring.target, "/home");
    assert_eq!(restoring.way, RestoreWay::Here);
    args.dest_dir = "/restored/".into();
    args.dry_run = true;
    let restoring = manage_restoring(&args, &database).unwrap();
    assert_eq!(restoring.target, "/restored");
    assert_eq!(restoring.way, RestoreWay::Describe);
    args.from_replica = Some(String::new());
    assert_eq!(
        manage_restoring(&args, &database).unwrap().way,
        RestoreWay::FromReplica
    );
    args.snapshot_id = "nope".into();
    assert_eq!(manage_restoring(&args, &database), Err(NotOne::Unknown));
    let twin = SnapshotRecord {
        name: "root-1".into(),
        snap_id: "other".into(),
        ..SnapshotRecord::default()
    };
    insert_snapshot(&mut database, &twin, &stamp("2")).unwrap();
    args.snapshot_id = "root-1".into();
    assert_eq!(manage_restoring(&args, &database), Err(NotOne::Ambiguous(2)));

    assert_eq!(restore_way(true, true), RestoreWay::FromReplica);
    assert_eq!(restore_way(true, false), RestoreWay::FromReplica);
    assert_eq!(restore_way(false, true), RestoreWay::Describe);
    assert_eq!(restore_way(false, false), RestoreWay::Here);
}

#[test]
fn a_described_restore_notes_what_is_in_the_way() {
    assert_eq!(
        describe_restore("/.snapshots/root-1", "/home", false),
        ["[dry-run] would run: btrfs subvolume snapshot /.snapshots/root-1 /home"]
    );
    assert_eq!(
        describe_restore("/.snapshots/root-1", "/home", true),
        [
            "[dry-run] would run: btrfs subvolume snapshot /.snapshots/root-1 /home",
            "[dry-run] note: /home already exists, the restore will fail until it is moved out of the way"
        ]
    );
}

#[test]
fn the_target_to_bring_a_snapshot_back_from() {
    let mut database = db();
    insert(&mut database, "root-1", "daily", "h", false, "1");
    let record = find_one(&database, "root-1").unwrap();
    assert_eq!(
        restore_source(&database, &record, ""),
        Err(TargetUnclear::Unrecorded)
    );
    assert_eq!(restore_source(&database, &record, "/mnt"), Ok("/mnt".into()));
    for target in ["/b", "/a"] {
        let replica = ReplicaRecord {
            name: "root-1".into(),
            snap_id: "id-root-1".into(),
            target: target.into(),
            ..ReplicaRecord::default()
        };
        insert_replica(&mut database, &replica, &stamp("2"));
        if target == "/b" {
            assert_eq!(restore_source(&database, &record, ""), Ok("/b".into()));
        }
    }
    assert_eq!(
        restore_source(&database, &record, ""),
        Err(TargetUnclear::Several(vec!["/a".into(), "/b".into()]))
    );
    assert_eq!(restore_source(&database, &record, "/a"), Ok("/a".into()));
}

#[test]
fn listings_show_every_column() {
    let record = SnapshotRecord {
        name: "n".into(),
        snap_id: "i".into(),
        kind: "k".into(),
        source: "s".into(),
        destination: "d".into(),
        machine: "m".into(),
        ro_rw: "false".into(),
        date: "t".into(),
    };
    assert_eq!(
        snapshot_table(&[record]),
        [["n", "i", "k", "s", "d", "m", "false", "t"]]
    );
    assert_eq!(snapshot_columns().len(), 8);
    assert_eq!(snapshot_columns()[3], "SOURCE DIR");

    let mut plain = replica("n", "/t", "k", "d", None);
    plain.date = "when".into();
    let mut filtered = replica("n2", "/t", "k", "d", Some("n"));
    filtered.local_path = "/.snapshots/.staging/0123abcd/n2".into();
    assert_eq!(
        replica_table(&[plain, filtered]),
        [
            ["n", "/t", "k", "h", "-", "-", "when"],
            ["n2", "/t", "k", "h", "n", "yes", ""]
        ]
    );
    assert_eq!(
        replica_columns(),
        ["NAME", "TARGET", "KIND", "MACHINE", "PARENT", "FILTERED", "REPLICATED"]
    );
}
