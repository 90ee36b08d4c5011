use rusnapshot::excludes::Excluded;
use rusnapshot::operations::{
    check_deletable, command_line, create_args, del_snapshot, delete_args, failure_message,
    restore_snapshot, setup_directory_structure, snapshot_args, take_snapshot, NotDeletable, RestoreRefused,
    Setup,
};
use rusnapshot::staging::{
    clear_attributes, copy_args, is_read_only, is_within, locate_exclude, measure_excludes,
    needs_force, outside_message, remove_excludes, seal_args, sealed_args, tree_size, CopyEvent,
    CopyFault, CopyStep, Copying, Located, Removal, Tree, UnlinkStep, Unlinking, FS_APPEND_FL,
    FS_IMMUTABLE_FL,
};
use rusnapshot::structs::SnapshotRecord;
use rusnapshot::utils::{
    is_same_character, normalize_dir, strip_trailing_slash, DirError, WorkingDir,
};

#[test]
fn read_only_flag_goes_before_positionals() {
    assert_eq!(
        snapshot_args("/home/", "/.snapshots/x", true),
        ["subvolume", "snapshot", "-r", "/home", "/.snapshots/x"]
    );
    assert_eq!(
        snapshot_args("/", "/.snapshots/x/", false),
        ["subvolume", "snapshot", "/", "/.snapshots/x"]
    );
}

#[test]
fn other_commands() {
    assert_eq!(
        create_args("/.snapshots/"),
        ["subvolume", "create", "/.snapshots"]
    );
    assert_eq!(
        delete_args("/.snapshots/x"),
        ["subvolume", "delete", "/.snapshots/x"]
    );
    assert_eq!(
        command_line(&create_args("/s")),
        "btrfs subvolume create /s"
    );
}

#[test]
fn deletion_guard() {
    assert!(check_deletable("/").is_err());
    assert!(check_deletable("//").is_err());
    assert!(check_deletable("").is_err());
    assert!(check_deletable("relative/path").is_err());
    assert!(check_deletable("/.snapshots/root-2026-01-01-00-00-00-000000").is_ok());
    assert!(check_deletable("/.snapshots/").is_ok());
}

#[test]
fn what_is_not_deletable_is_not_deleted() {
    assert_eq!(
        del_snapshot("/.snapshots/x/"),
        Ok(delete_args("/.snapshots/x"))
    );
    for bad in ["/", "", "x", "/a/..", "/.", "/./."] {
        assert_eq!(del_snapshot(bad), Err(NotDeletable), "{bad}");
    }
    assert_eq!(
        NotDeletable.message("/"),
        "refusing to delete '/': it doesn't look like a snapshot path"
    );
    assert_eq!(
        failure_message(&delete_args("/s"), "exit status: 1"),
        "'btrfs subvolume delete /s' failed with exit status: 1"
    );
}

#[test]
fn the_snapshots_directory_is_created_once() {
    assert!(matches!(setup_directory_structure("/s/", false, true), Setup::Nothing));
    assert!(matches!(setup_directory_structure("/s/", true, false), Setup::Show(_)));
    let Setup::Run(args) = setup_directory_structure("/s/", false, false) else {
        panic!("nothing is run");
    };
    assert_eq!(args, ["subvolume", "create", "/s"]);
    assert_eq!(
        take_snapshot("/home/", "/s/x", true),
        snapshot_args("/home/", "/s/x", true)
    );
}

#[test]
fn restore_refuses_the_root_directory() {
    let err = restore_snapshot("/nonexistent-snapshot", "/", true, false)
        .unwrap_err()
        .message("/nonexistent-snapshot", "/");
    assert!(err.contains("root subvolume"), "{err}");
    assert!(!err.contains("mv "), "{err}");
}

#[test]
fn restore_refuses_existing_target() {
    let exists = |path: &str| std::path::Path::new(path).exists();
    let restore = |snapshot: &str, target: &str| {
        restore_snapshot(snapshot, target, exists(target), exists(snapshot))
            .unwrap_err()
            .message(snapshot, target)
    };
    let err = restore("/nonexistent-snapshot", "/tmp");
    assert!(err.contains("already exists"), "{err}");
    assert!(err.contains("--to"), "{err}");
    let err = restore("/nonexistent-snapshot", "/nonexistent-target");
    assert!(err.contains("does not exist on disk"), "{err}");
}

#[test]
fn restoring() {
    assert_eq!(
        restore_snapshot("/.snapshots/x", "/home", false, true),
        Ok(snapshot_args("/.snapshots/x", "/home", false))
    );
    assert_eq!(
        restore_snapshot("/s", "//", false, true),
        Err(RestoreRefused::RootInPlace)
    );
    assert_eq!(
        restore_snapshot("/s", "/t", true, true),
        Err(RestoreRefused::TargetExists)
    );
    assert_eq!(
        restore_snapshot("/s", "/t", false, false),
        Err(RestoreRefused::SnapshotMissing)
    );
}

#[test]
fn path_handles_trailing_slash_in_destination() {
    let with = SnapshotRecord {
        name: "root-2026-01-01-00-00-00-000000".into(),
        destination: "/.snapshots/".into(),
        ..SnapshotRecord::default()
    };
    let without = SnapshotRecord {
        destination: "/.snapshots".into(),
        ..with.clone()
    };
    assert_eq!(with.path(), "/.snapshots/root-2026-01-01-00-00-00-000000");
    assert_eq!(
        without.path(),
        "/.snapshots/root-2026-01-01-00-00-00-000000"
    );
}

#[test]
fn path_edge_cases() {
    let root = SnapshotRecord {
        name: "x".into(),
        destination: "/".into(),
        ..SnapshotRecord::default()
    };
    assert_eq!(root.path(), "/x");
    let empty = SnapshotRecord {
        destination: String::new(),
        ..root.clone()
    };
    assert_eq!(empty.path(), "x");
    assert!(check_deletable(&empty.path()).is_err());
}

#[test]
fn same_character() {
    assert!(is_same_character("/", '/'));
    assert!(is_same_character("///", '/'));
    assert!(!is_same_character("", '/'));
    assert!(!is_same_character("/a", '/'));
}

#[test]
fn normalize_absolute_paths() {
    let cwd = WorkingDir::Unreadable("gone".into());
    assert_eq!(normalize_dir("/home", &cwd).unwrap(), "/home/");
    assert_eq!(normalize_dir("/home/", &cwd).unwrap(), "/home/");
    assert_eq!(normalize_dir("/", &cwd).unwrap(), "/");
}

#[test]
fn normalize_relative_paths_against_cwd() {
    let cwd = std::path::Path::new(".").canonicalize().unwrap();
    let known = WorkingDir::Known(cwd.to_str().unwrap().to_string());
    let expected = format!("{}/snaps/", cwd.display());
    assert_eq!(normalize_dir("snaps", &known).unwrap(), expected);
    assert_eq!(normalize_dir("snaps/", &known).unwrap(), expected);
    assert_eq!(
        normalize_dir("snaps", &WorkingDir::Unreadable("gone".into())),
        Err(DirError::CurrentDirUnreadable)
    );
    assert_eq!(
        normalize_dir("snaps", &WorkingDir::NotUnicode("?".into())),
        Err(DirError::NotUnicode)
    );
}

#[test]
fn strip_slash() {
    assert_eq!(strip_trailing_slash("/home/"), "/home");
    assert_eq!(strip_trailing_slash("/home"), "/home");
    assert_eq!(strip_trailing_slash("/"), "/");
    assert_eq!(strip_trailing_slash("///"), "/");
    assert_eq!(strip_trailing_slash(""), "");
}

#[test]
fn what_is_taken_can_be_deleted() {
    for destination in ["/.snapshots/", "/", "/a/b"] {
        let record = SnapshotRecord {
            name: rusnapshot::controller::new_snapshot_name("root"),
            destination: destination.into(),
            ..SnapshotRecord::default()
        };
        let args = del_snapshot(&record.path()).unwrap();
        assert_eq!(args[2], record.path());
    }
}

#[test]
fn stripping_twice_is_stripping_once() {
    for path in ["/home//", "/", "///", "", "a/", "/a/b"] {
        let once = strip_trailing_slash(path);
        assert_eq!(strip_trailing_slash(once), once);
    }
}

#[test]
fn filtered_copies() {
    let run = |events: &[CopyEvent]| {
        let mut copying = Copying::start();
        for event in events {
            copying.next(*event);
        }
        copying
    };
    let removed = Excluded { paths: 1, bytes: 2 };
    let reused = run(&[CopyEvent::Yes, CopyEvent::Yes]);
    assert_eq!((reused.step, reused.excluded), (CopyStep::Ready, None));
    assert_eq!(
        run(&[CopyEvent::Yes, CopyEvent::No]).step,
        CopyStep::RemoveOld,
        "an incomplete copy is rebuilt"
    );
    let taken = [CopyEvent::No, CopyEvent::Done, CopyEvent::Done];
    assert_eq!(run(&taken).step, CopyStep::Filter);
    let mut events = taken.to_vec();
    events.push(CopyEvent::Removed(removed));
    assert_eq!(run(&events).step, CopyStep::Seal);
    events.push(CopyEvent::Done);
    let built = run(&events);
    assert_eq!((built.step, built.excluded), (CopyStep::Ready, Some(removed)));
    *events.last_mut().unwrap() = CopyEvent::Failed;
    assert_eq!(run(&events).step, CopyStep::Discard(CopyFault::NotSealed));
    events.push(CopyEvent::Done);
    assert_eq!(run(&events).step, CopyStep::Failed(CopyFault::NotSealed));
    let mut events = taken.to_vec();
    events.push(CopyEvent::Failed);
    assert_eq!(run(&events).step, CopyStep::Discard(CopyFault::NotFiltered));
    assert_eq!(
        run(&[CopyEvent::No, CopyEvent::Failed]).step,
        CopyStep::Failed(CopyFault::Stopped)
    );

    assert_eq!(copy_args("/s", "/c"), ["subvolume", "snapshot", "/s", "/c"]);
    assert_eq!(seal_args("/c"), ["property", "set", "-ts", "/c", "ro", "true"]);
    assert_eq!(sealed_args("/c"), ["property", "get", "-ts", "/c", "ro"]);
    assert!(is_read_only("ro=true\n"));
    assert!(!is_read_only("ro=false\n"));
}

fn tree() -> Tree {
    Tree::Directory(vec![
        Tree::File(300),
        Tree::Directory(vec![Tree::File(200), Tree::Other]),
        Tree::Directory(vec![]),
    ])
}

#[test]
fn excluded_sizes() {
    assert_eq!(tree_size(&tree()), Some(500));
    assert_eq!(tree_size(&Tree::Other), Some(0));
    assert_eq!(
        tree_size(&Tree::Directory(vec![Tree::File(u64::MAX), Tree::File(1)])),
        None
    );
    let measured = measure_excludes(&[Some(tree()), Some(Tree::File(50)), None]).unwrap();
    assert_eq!((measured.paths, measured.bytes), (2, 550));
    assert_eq!(measure_excludes(&[]), Some(Excluded::default()));
    assert_eq!(
        measure_excludes(&[Some(Tree::File(u64::MAX)), Some(Tree::File(1))]),
        None
    );
    // Removing one entry after the other counts the same.
    let mut removed = Excluded::default();
    for found in [Some(tree()), Some(Tree::File(50)), None] {
        removed = remove_excludes(&removed, &found).unwrap();
    }
    assert_eq!(removed, measured);
}

#[test]
fn excluded_paths_stay_inside_the_snapshot() {
    assert!(is_within(b"/s/root", b"/s/root"));
    assert!(is_within(b"/s/root", b"/s/root/a/b"));
    assert!(is_within(b"/", b"/etc"));
    assert!(is_within(b"/s//root/", b"/s/./root/a"));
    assert!(!is_within(b"/s/root", b"/s/rootless"));
    assert!(!is_within(b"/s/root", b"/s"));
    assert!(!is_within(b"/s/root", b"/live"));
    assert!(!is_within(b"/s", b"s"));
    assert!(is_within(b"/\xff", b"/\xff/x"));
    assert!(is_within(b"/s", b"/s/a/../../live"), "names are not resolved here");
    assert_eq!(
        outside_message("link/sub", "/live"),
        "exclude 'link/sub' resolves outside the snapshot (/live), refusing to touch it"
    );
}

#[test]
fn excluded_paths_are_located_without_following_the_last_name() {
    assert_eq!(
        locate_exclude("/s", "a/link", false, b"", b""),
        Located::Absent
    );
    assert_eq!(
        locate_exclude("/s", "a/link", true, b"/s", b"/s/a"),
        Located::Inside(b"/s/a/link".to_vec())
    );
    assert_eq!(
        locate_exclude("/s/", "dir/link/", true, b"/real/s", b"/real/s/other"),
        Located::Inside(b"/real/s/other/link".to_vec()),
        "symbolic links on the way are resolved"
    );
    assert_eq!(
        locate_exclude("/", "\u{e9}", true, b"/", b"/"),
        Located::Inside("/\u{e9}".as_bytes().to_vec())
    );
    assert_eq!(
        locate_exclude("/s", "a/x", true, b"/s", b"/s/\xff"),
        Located::Inside(b"/s/\xff/x".to_vec())
    );
    assert_eq!(
        locate_exclude("/s", "a/link", true, b"/s", b"/live"),
        Located::Outside
    );
    assert_eq!(
        locate_exclude("/s", "a/..", true, b"/s", b"/s"),
        Located::Nameless
    );
    let Located::Inside(path) = locate_exclude("/s", "a", true, b"/s", b"/s") else {
        panic!("the entry is in the snapshot");
    };
    assert!(is_within(b"/s", &path));
}

#[test]
fn a_second_removal_finds_nothing() {
    let removed = remove_excludes(&Excluded::default(), &None).unwrap();
    assert_eq!(remove_excludes(&removed, &None), Some(Excluded::default()));
    assert_eq!(measure_excludes(&[None, None]), Some(Excluded::default()));
}

#[test]
fn protected_files_are_removed_by_force() {
    assert!(needs_force(Removal::Denied));
    assert!(!needs_force(Removal::Failed));
    assert!(!needs_force(Removal::Removed));

    let mut unlinking = Unlinking::start();
    unlinking.removed(Removal::Removed);
    assert_eq!(unlinking.step, UnlinkStep::Ended(Removal::Removed));
    let mut unlinking = Unlinking::start();
    unlinking.removed(Removal::Denied);
    assert_eq!(unlinking.step, UnlinkStep::ClearEntry);
    unlinking.cleared(false);
    assert_eq!(unlinking.step, UnlinkStep::ClearParent);
    unlinking.cleared(true);
    assert_eq!(unlinking.step, UnlinkStep::RemoveAgain);
    assert!(!unlinking.reports());
    unlinking.removed(Removal::Removed);
    assert!(unlinking.reports());
    assert!(!unlinking.entry_cleared && unlinking.parent_cleared);
    let mut unlinking = Unlinking::start();
    unlinking.removed(Removal::Denied);
    unlinking.cleared(true);
    unlinking.cleared(false);
    unlinking.removed(Removal::Denied);
    assert_eq!(unlinking.step, UnlinkStep::Ended(Removal::Denied));
    assert!(!unlinking.reports());

    assert_eq!(clear_attributes(0), None);
    assert_eq!(clear_attributes(0x8_0000), None);
    assert_eq!(clear_attributes(FS_IMMUTABLE_FL), Some(0));
    assert_eq!(clear_attributes(FS_APPEND_FL | 0x8_0000), Some(0x8_0000));
    assert_eq!(clear_attributes(-1), Some(!0x30));
}
