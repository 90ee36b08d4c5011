use rusnapshot::args::{Args, ArgsError, Config, ReplicateConfig};
use rusnapshot::replication::{ReplicationError, TargetError};
use rusnapshot::run::{open, operations, NoDatabase, Opening, Operation};
use rusnapshot::utils::{DirError, HostnameUnreadable, WorkingDir};

fn cwd() -> WorkingDir {
    WorkingDir::Known("/work".into())
}

fn full() -> Config {
    Config {
        dest_dir: Some("/.snapshots".into()),
        source_dir: Some("/".into()),
        database_file: Some("/.snapshots/rusnapshot.db".into()),
        snapshot_prefix: Some("root".into()),
        snapshot_kind: Some("weekly".into()),
        keep_only: Some(5),
        timeout: Some(2000),
        machine: Some("Oribos".into()),
        replicate: Some(vec![ReplicateConfig {
            target: "ssh://nas/srv/backups".into(),
            keep: Some(7),
            ..ReplicateConfig::default()
        }]),
    }
}

#[test]
fn merge_fills_only_non_explicit_options() {
    let config = full();
    let mut args = Args {
        snapshot_kind: "daily".into(),
        keep_only: 3,
        machine: "cli".into(),
        ..Args::default()
    };
    config.merge_into(&mut args, |id: &str| matches!(id, "snapshot_kind" | "machine"));

    assert_eq!(args.snapshot_kind, "daily");
    assert_eq!(args.machine, "cli");
    assert_eq!(args.keep_only, 5);
    assert_eq!(args.timeout, 2000);
    assert_eq!(args.dest_dir, "/.snapshots");
    assert_eq!(args.source_dir, "/");
    assert_eq!(args.snapshot_prefix, "root");
    assert_eq!(args.database_file, "/.snapshots/rusnapshot.db");
}

#[test]
fn merge_keeps_args_when_file_lacks_the_option() {
    let config = Config {
        snapshot_prefix: Some("home".into()),
        ..Config::default()
    };
    let mut args = Args {
        snapshot_kind: "daily".into(),
        ..Args::default()
    };
    config.merge_into(&mut args, |_: &str| false);
    assert_eq!(args.snapshot_prefix, "home");
    assert_eq!(args.snapshot_kind, "daily");
}

#[test]
fn merge_takes_nothing_when_everything_is_explicit() {
    let mut args = Args {
        dest_dir: "/d".into(),
        keep_only: 9,
        ..Args::default()
    };
    full().merge_into(&mut args, |_: &str| true);
    assert_eq!(args.dest_dir, "/d");
    assert_eq!(args.keep_only, 9);
    assert_eq!(args.machine, "");
    assert!(args.replicate.is_empty());
}

#[test]
fn merge_brings_the_targets_of_the_file() {
    let mut args = Args::default();
    full().merge_into(&mut args, |_: &str| false);
    assert_eq!(args.replicate.len(), 1);
    assert_eq!(args.replicate[0].target, "ssh://nas/srv/backups");
    assert_eq!(args.replicate[0].keep, Some(7));
}

#[test]
fn a_target_replaces_the_configured_ones() {
    let mut args = Args {
        target: Some("/mnt/usb".into()),
        exclude: vec!["cache".into()],
        ..Args::default()
    };
    full().merge_into(&mut args, |_: &str| false);
    args.use_target();
    assert_eq!(args.replicate.len(), 1);
    assert_eq!(args.replicate[0].target, "/mnt/usb");
    assert_eq!(args.replicate[0].keep, None);
    assert!(args.replicate[0].ssh_options.is_empty());
    assert_eq!(args.replicate[0].exclude, ["cache"]);

    let mut args = Args::default();
    full().merge_into(&mut args, |_: &str| false);
    args.use_target();
    assert_eq!(args.replicate[0].target, "ssh://nas/srv/backups", "the file targets stay");
}

#[test]
fn normalize_validates_replication_targets() {
    let mut args = Args {
        snapshot_prefix: "root".into(),
        database_file: "/db".into(),
        machine: "m".into(),
        replicate: vec![ReplicateConfig {
            target: "nas:/srv".into(),
            ..ReplicateConfig::default()
        }],
        ..Args::default()
    };
    assert!(args.normalize(&cwd()).is_err());
    args.replicate[0].target = "ssh://nas/srv".into();
    args.replicate[0].keep = Some(0);
    assert!(args.normalize(&cwd()).is_err());
    args.replicate[0].keep = Some(1);
    args.normalize(&cwd()).unwrap();
}

#[test]
fn normalize_validates_prefix_and_database_file() {
    let mut args = Args {
        snapshot_prefix: String::new(),
        database_file: "/db".into(),
        machine: "m".into(),
        ..Args::default()
    };
    assert!(args.normalize(&cwd()).is_err());
    args.snapshot_prefix = "a/b".into();
    assert!(args.normalize(&cwd()).is_err());
    args.snapshot_prefix = "root".into();
    args.database_file = String::new();
    assert!(args.normalize(&cwd()).is_err());
    args.database_file = "/db".into();
    args.source_dir = "/home".into();
    args.normalize(&cwd()).unwrap();
    assert_eq!(args.source_dir, "/home/");
    assert_eq!(args.dest_dir, "");
}

#[test]
fn normalize_reports_the_first_error() {
    let mut args = Args {
        source_dir: "home".into(),
        dest_dir: "snaps".into(),
        ..Args::default()
    };
    let unreadable = || WorkingDir::Unreadable("gone".into());
    let host = || {
        Err(HostnameUnreadable {
            reason: "nameless".into(),
        })
    };
    assert_eq!(
        args.normalize_with(&unreadable(), host()),
        Err(ArgsError::Source(DirError::CurrentDirUnreadable))
    );
    assert_eq!(args.source_dir, "home");
    args.source_dir = "/home".into();
    assert_eq!(
        args.normalize_with(&WorkingDir::NotUnicode("/w\u{fffd}".into()), host()),
        Err(ArgsError::Destination(DirError::NotUnicode))
    );
    assert_eq!(args.source_dir, "/home/");
    assert_eq!(args.dest_dir, "snaps");
    assert_eq!(
        args.normalize_with(&cwd(), host()),
        Err(ArgsError::Hostname(HostnameUnreadable {
            reason: "nameless".into()
        }))
    );
    assert_eq!(args.dest_dir, "/work/snaps/");
    assert_eq!(
        args.normalize_with(&cwd(), Ok("box".into())),
        Err(ArgsError::Prefix)
    );
    assert_eq!(args.machine, "box");
    args.snapshot_prefix = "p".into();
    assert_eq!(
        args.normalize_with(&cwd(), host()),
        Err(ArgsError::DatabaseFile)
    );
    args.database_file = "/db".into();
    args.replicate = vec![
        ReplicateConfig {
            target: "/mnt".into(),
            ..ReplicateConfig::default()
        },
        ReplicateConfig {
            target: "/".into(),
            ..ReplicateConfig::default()
        },
    ];
    let error = args.normalize_with(&cwd(), host()).unwrap_err();
    assert_eq!(
        error,
        ArgsError::Replicate(1, ReplicationError::Target(TargetError::RootDirectory))
    );
    assert_eq!(
        error.message(&args, &cwd()),
        "the replication target can't be the root directory"
    );
    args.replicate[1].target = "/mnt/two".into();
    assert_eq!(args.normalize_with(&cwd(), host()), Ok(()));
    // A second time changes nothing.
    let before = (args.source_dir.clone(), args.dest_dir.clone(), args.machine.clone());
    assert_eq!(args.normalize_with(&unreadable(), host()), Ok(()));
    assert_eq!(before, (args.source_dir, args.dest_dir, args.machine));
}

#[test]
fn normalize_errors_have_messages() {
    let args = Args {
        source_dir: "src".into(),
        dest_dir: "dst".into(),
        replicate: vec![
            ReplicateConfig {
                target: "/mnt".into(),
                keep: Some(0),
                ..ReplicateConfig::default()
            },
            ReplicateConfig {
                target: "/mnt".into(),
                exclude: vec!["ok".into(), "../x".into()],
                ..ReplicateConfig::default()
            },
        ],
        ..Args::default()
    };
    assert_eq!(
        ArgsError::Source(DirError::CurrentDirUnreadable)
            .message(&args, &WorkingDir::Unreadable("gone".into())),
        "failed to get the current working directory: gone"
    );
    assert_eq!(
        ArgsError::Destination(DirError::NotUnicode)
            .message(&args, &WorkingDir::NotUnicode("/w\u{fffd}".into())),
        "the path /w\u{fffd}/dst is not valid UTF-8"
    );
    let nameless = HostnameUnreadable {
        reason: "nameless".into(),
    };
    assert_eq!(
        ArgsError::Hostname(nameless).message(&args, &cwd()),
        "failed to get the hostname: nameless"
    );
    assert_eq!(
        ArgsError::Prefix.message(&args, &cwd()),
        "the snapshot prefix must not be empty or contain '/'"
    );
    assert_eq!(
        ArgsError::DatabaseFile.message(&args, &cwd()),
        "the database file path (-d/--dfile) must not be empty"
    );
    assert_eq!(
        ArgsError::Replicate(0, ReplicationError::KeepZero).message(&args, &cwd()),
        "replicate.keep must be at least 1 for /mnt (the newest replica is the parent of the next incremental send)"
    );
    let error = rusnapshot::replication::Replication::from_config(&args.replicate[1]).unwrap_err();
    assert_eq!(
        ArgsError::Replicate(1, error).message(&args, &cwd()),
        "exclude '../x' must be a relative path inside the snapshot, without '..'"
    );
}

#[test]
fn the_hostname_fills_a_missing_machine_name() {
    let mut args = Args {
        snapshot_prefix: "root".into(),
        database_file: "/db".into(),
        ..Args::default()
    };
    args.normalize(&cwd()).unwrap();
    assert!(!args.machine.is_empty());
    assert_eq!(args.machine, rusnapshot::utils::machine_name().unwrap());
}

#[test]
fn creation_requires_both_directories() {
    let mut args = Args::default();
    assert!(args.check_creation_requirements().is_err());
    args.source_dir = "/".into();
    assert!(args.check_creation_requirements().is_err());
    args.dest_dir = "/.snapshots/".into();
    args.check_creation_requirements().unwrap();
    let error = Args::default().check_creation_requirements().unwrap_err();
    assert_eq!(
        error.message(),
        "specify both the source (--from) and the destination (--to) directories before taking a snapshot"
    );
}

#[test]
fn unknown_keys_are_named() {
    assert_eq!(
        Config::unknown_keys("snapshot_prefix = \"home\"\nsomething_else = 1\n"),
        Ok(vec!["something_else".to_string()])
    );
    assert_eq!(Config::unknown_keys(""), Ok(vec![]));
    let known = "dest_dir = 1\nsource_dir = 1\nsnapshot_prefix = 1\nsnapshot_kind = 1\n\
                 database_file = 1\nkeep_only = 1\ntimeout = 1\nmachine = 1\n\
                 [[replicate]]\ntarget = 1\n";
    assert_eq!(Config::unknown_keys(known), Ok(vec![]));
    assert!(Config::unknown_keys("this is not toml").is_err());
    assert!(!Config::unknown_keys("this is not toml").unwrap_err().is_empty());

    let keys: Vec<String> = ["b", "machine", "a", "timeout"]
        .iter()
        .map(|k| (*k).to_string())
        .collect();
    assert_eq!(Config::unknown_among(&keys), ["b", "a"]);
    assert!(Config::is_known("replicate"));
    assert!(!Config::is_known("replicates"));
}

#[test]
fn listing_goes_last() {
    let args = Args {
        list_snapshots: true,
        clean_snapshots: true,
        create_snapshot: true,
        delete_snapshot: true,
        restore_snapshot: true,
        send_snapshots: true,
        ..Args::default()
    };
    assert_eq!(
        operations(&args),
        [
            Operation::Create,
            Operation::Delete,
            Operation::Clean,
            Operation::Restore,
            Operation::Send,
            Operation::List
        ]
    );
    let args = Args {
        list_snapshots: true,
        clean_snapshots: true,
        ..Args::default()
    };
    assert_eq!(operations(&args), [Operation::Clean, Operation::List]);
    assert!(operations(&Args::default()).is_empty());
}

#[test]
fn only_taking_a_snapshot_creates_the_database() {
    let mut args = Args::default();
    assert_eq!(open(&args, true), Ok(Opening::File));
    assert_eq!(open(&args, false), Err(NoDatabase));
    assert_eq!(
        NoDatabase.message("/db"),
        "the database file /db does not exist. Create a snapshot first, or point to the right file with -d/--dfile"
    );
    args.create_snapshot = true;
    assert_eq!(open(&args, false), Ok(Opening::NewFile));
    args.dry_run = true;
    assert_eq!(open(&args, false), Ok(Opening::Memory));
    assert_eq!(open(&args, true), Ok(Opening::File));
}
