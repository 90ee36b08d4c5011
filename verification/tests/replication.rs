use rusnapshot::args::{Args, ReplicateConfig};
use rusnapshot::database::{insert_replica, Database, Stamp};
use rusnapshot::delivery::{Delivery, Event, Fault, Step};
use rusnapshot::excludes::{text_id, ExcludeError};
use rusnapshot::replication::{
    describe_excluded, describe_parent, exclude_hash, exists_args, exists_reply, human_size,
    no_reply_message, normalize_excludes, parse_subvolume_show, record, remove_args, shell_quote,
    show_args, staging_path, staging_root, sync_args, Excluded, NoUuid, Replication,
    ReplicationError, SubvolumeInfo, Target, TargetError,
};
use rusnapshot::restoring::{
    external_replication, external_section, received_path, recorded_target, restore_dir,
    restore_target, was_filtered, Return, ReturnEvent, ReturnFault, ReturnStep, TargetUnclear,
};
use rusnapshot::sending::{
    describe_filter, failed_targets_message, no_directory_message, no_target_message,
    nothing_to_send_message, PruneStep, Pruning, Round, RoundEvent, RoundStep, SendStep, Sending,
};
use rusnapshot::structs::{ReplicaRecord, SnapshotRecord};
use rusnapshot::transfer::{receive_args, send_args, Pipe, PipeEvent, PipeFault, PipeStage};

const SHOW: &str = "@.snapshots/root-2026-08-29-06-10-15-049553
\tName: \t\t\troot-2026-08-29-06-10-15-049553
\tUUID: \t\t\t4062b04e-39b6-4d43-99c2-2df9ad015417
\tParent UUID: \t\t2054d50a-7a82-3f41-9dca-25c7b21adc26
\tReceived UUID: \t\t-
\tCreation time: \t\t2026-08-29 01:10:15 -0500
\tFlags: \t\t\treadonly
";

#[test]
fn parse_targets() {
    assert_eq!(
        Target::parse("/mnt/usb/backups/").unwrap(),
        Target::Local {
            path: "/mnt/usb/backups".into()
        }
    );
    assert_eq!(
        Target::parse("ssh://backup@nas:2222/srv/backups/behemoth").unwrap(),
        Target::Ssh {
            user_host: "backup@nas".into(),
            port: Some(2222),
            path: "/srv/backups/behemoth".into()
        }
    );
    assert_eq!(
        Target::parse("ssh://nas/srv/backups").unwrap(),
        Target::Ssh {
            user_host: "nas".into(),
            port: None,
            path: "/srv/backups".into()
        }
    );
    for bad in [
        "",
        "relative/dir",
        "/",
        "ssh://nas",
        "ssh://nas/",
        "ssh:///srv",
        "ssh://nas:abc/srv",
        "ssh://user@/srv",
        "http://nas/srv",
    ] {
        assert!(Target::parse(bad).is_err(), "{bad}");
    }
}

#[test]
fn refused_targets_say_why() {
    for (url, error, message) in [
        (
            "relative/dir",
            TargetError::Unsupported,
            "unsupported replication target 'relative/dir': use an absolute path or ssh://[user@]host[:port]/path",
        ),
        (
            "//",
            TargetError::RootDirectory,
            "the replication target can't be the root directory",
        ),
        (
            "ssh://nas",
            TargetError::SshWithoutPath,
            "the ssh target 'ssh://nas' must include a path: ssh://[user@]host[:port]/path",
        ),
        (
            "ssh://nas:70000/srv",
            TargetError::InvalidPort,
            "invalid port in the ssh target 'ssh://nas:70000/srv'",
        ),
        (
            "ssh://user@/srv",
            TargetError::InvalidSsh,
            "invalid ssh target 'ssh://user@/srv': expected ssh://[user@]host[:port]/path",
        ),
    ] {
        assert_eq!(Target::parse(url), Err(error));
        assert_eq!(error.message(url), message);
    }
    // A bare colon is no port, and a plus sign is fine in front of one.
    assert_eq!(
        Target::parse("ssh://nas:/srv"),
        Ok(Target::Ssh {
            user_host: "nas:".into(),
            port: None,
            path: "/srv".into()
        })
    );
    assert_eq!(
        Target::parse("ssh://nas:+22/srv"),
        Ok(Target::Ssh {
            user_host: "nas".into(),
            port: Some(22),
            path: "/srv".into()
        })
    );
    assert_eq!(Target::parse("/mnt//").unwrap().path(), "/mnt");
}

#[test]
fn from_config_rejects_keep_zero() {
    let config = ReplicateConfig {
        target: "/mnt/usb".into(),
        keep: Some(0),
        ..ReplicateConfig::default()
    };
    assert!(Replication::from_config(&config).is_err());
}

#[test]
fn from_config_reports_what_is_wrong() {
    let mut config = ReplicateConfig {
        target: "x".into(),
        keep: Some(0),
        ssh_options: vec!["-v".into()],
        exclude: vec!["b".into(), "/abs".into()],
    };
    assert_eq!(
        Replication::from_config(&config),
        Err(ReplicationError::Target(TargetError::Unsupported))
    );
    config.target = "ssh://nas/srv/".into();
    assert_eq!(Replication::from_config(&config), Err(ReplicationError::KeepZero));
    config.keep = Some(2);
    assert_eq!(
        Replication::from_config(&config),
        Err(ReplicationError::Exclude(ExcludeError::Escaping(1)))
    );
    config.exclude[1] = "a/".into();
    let built = Replication::from_config(&config).unwrap();
    assert_eq!(built.url, "ssh://nas/srv/");
    assert_eq!(built.target.path(), "/srv");
    assert_eq!(built.keep, Some(2));
    assert_eq!(built.ssh_options, ["-v"]);
    assert_eq!(built.exclude, ["a", "b"]);
}

fn replication(target: &str, ssh_options: &[&str]) -> Replication {
    Replication::from_config(&ReplicateConfig {
        target: target.into(),
        keep: None,
        ssh_options: ssh_options.iter().map(|o| (*o).to_string()).collect(),
        exclude: Vec::new(),
    })
    .unwrap()
}

fn cmd(values: &[&str]) -> Vec<String> {
    values.iter().map(|v| (*v).to_string()).collect()
}

#[test]
fn command_lines() {
    // Local targets: rusnapshot is already root, nothing is added.
    let local = replication("/mnt/usb", &[]);
    assert_eq!(
        local.command_line(&cmd(&["btrfs", "receive", "/mnt/usb"]), true),
        ["btrfs", "receive", "/mnt/usb"]
    );
    assert_eq!(
        local.command_line(&cmd(&["sh", "-c", "test -e /mnt/usb"]), false),
        ["sh", "-c", "test -e /mnt/usb"]
    );

    // Over ssh, root commands go through `sudo -n`, the rest run as the ssh user.
    let ssh = replication("ssh://backup@nas:2222/srv/b", &["-i", "/root/.ssh/k"]);
    assert_eq!(
        ssh.command_line(&cmd(&["btrfs", "receive", "/srv/b"]), true),
        [
            "ssh",
            "-o",
            "BatchMode=yes",
            "-p",
            "2222",
            "-i",
            "/root/.ssh/k",
            "backup@nas",
            "--",
            "sudo -n btrfs receive /srv/b"
        ]
    );
    assert_eq!(
        ssh.command_line(
            &cmd(&["sh", "-c", "test -e /srv/b && echo yes || echo no"]),
            false
        ),
        [
            "ssh",
            "-o",
            "BatchMode=yes",
            "-p",
            "2222",
            "-i",
            "/root/.ssh/k",
            "backup@nas",
            "--",
            "sh -c 'test -e /srv/b && echo yes || echo no'"
        ]
    );
    let ssh = replication("ssh://nas/srv/my backups", &[]);
    assert_eq!(
        ssh.command_line(
            &cmd(&["btrfs", "subvolume", "show", "/srv/my backups/it's"]),
            true
        ),
        [
            "ssh",
            "-o",
            "BatchMode=yes",
            "nas",
            "--",
            "sudo -n btrfs subvolume show '/srv/my backups/it'\\''s'"
        ]
    );
    assert_eq!(ssh.subvolume_path("x"), "/srv/my backups/x");
}

#[test]
fn quoting() {
    assert_eq!(
        shell_quote("/srv/backups/root-2026"),
        "/srv/backups/root-2026"
    );
    assert_eq!(shell_quote("a b"), "'a b'");
    assert_eq!(shell_quote("it's"), "'it'\\''s'");
    assert_eq!(shell_quote(""), "''");
    assert_eq!(shell_quote("$HOME"), "'$HOME'");
}

#[test]
fn asking_the_target_whether_something_is_there() {
    assert_eq!(
        exists_args("/srv/my backups"),
        ["sh", "-c", "test -e '/srv/my backups' && echo yes || echo no"]
    );
    assert_eq!(exists_reply("yes\n"), Some(true));
    assert_eq!(exists_reply(" no "), Some(false));
    assert_eq!(exists_reply(""), None);
    assert_eq!(exists_reply("yes no"), None);
    assert_eq!(
        no_reply_message("/srv", "ssh://nas/srv", " lost\n"),
        "could not check /srv at ssh://nas/srv: lost"
    );
    assert_eq!(show_args("/p"), ["btrfs", "subvolume", "show", "/p"]);
    assert_eq!(sync_args("/p"), ["btrfs", "filesystem", "sync", "/p"]);
    assert_eq!(remove_args("/p"), ["btrfs", "subvolume", "delete", "/p"]);
}

#[test]
fn parse_show_output() {
    let info = parse_subvolume_show(SHOW).unwrap();
    assert_eq!(info.uuid, "4062b04e-39b6-4d43-99c2-2df9ad015417");
    assert_eq!(info.received_uuid, None);

    let received = SHOW.replace(
        "Received UUID: \t\t-",
        "Received UUID: \t\t4062b04e-39b6-4d43-99c2-2df9ad015417",
    );
    let info = parse_subvolume_show(&received).unwrap();
    assert_eq!(
        info.received_uuid.as_deref(),
        Some("4062b04e-39b6-4d43-99c2-2df9ad015417")
    );
    assert!(parse_subvolume_show("garbage").is_err());
}

#[test]
fn the_last_line_of_a_kind_counts() {
    let info = parse_subvolume_show("UUID: a\r\nUUID: b:c\nReceived UUID: x\nReceived UUID:\n").unwrap();
    assert_eq!(info.uuid, "b:c");
    assert_eq!(info.received_uuid, None);
    assert_eq!(parse_subvolume_show("Received UUID: x"), Err(NoUuid));
    assert_eq!(
        NoUuid.message(),
        "could not find the UUID in the output of 'btrfs subvolume show'"
    );
}

#[test]
fn sizes() {
    assert_eq!(human_size(0), "0 B");
    assert_eq!(human_size(1023), "1023 B");
    assert_eq!(human_size(1024), "1.0 KiB");
    assert_eq!(human_size(1_572_864), "1.5 MiB");
    assert_eq!(human_size(3 << 30), "3.0 GiB");
}

#[test]
fn sizes_are_those_of_floating_point() {
    fn plain(bytes: u64) -> String {
        let units = ["B", "KiB", "MiB", "GiB", "TiB"];
        let mut value = bytes as f64;
        let mut unit = 0;
        while value >= 1024.0 && unit < units.len() - 1 {
            value /= 1024.0;
            unit += 1;
        }
        if unit == 0 {
            format!("{bytes} B")
        } else {
            format!("{value:.1} {}", units[unit])
        }
    }
    let mut seed: u64 = 0x9e37_79b9_7f4a_7c15;
    for i in 0..20_000u64 {
        seed = seed.wrapping_mul(6_364_136_223_846_793_005).wrapping_add(1_442_695_040_888_963_407);
        let bytes = seed >> (i % 64);
        assert_eq!(human_size(bytes), plain(bytes), "{bytes}");
    }
    for shift in 0..64 {
        for near in [0u64, 1, 2, 3] {
            let bytes = (1u64 << shift).wrapping_sub(near);
            assert_eq!(human_size(bytes), plain(bytes), "{bytes}");
            let bytes = (1u64 << shift).wrapping_add(near);
            assert_eq!(human_size(bytes), plain(bytes), "{bytes}");
        }
    }
    for tenths in 0..4000u64 {
        let bytes = tenths * 1024 / 20;
        assert_eq!(human_size(bytes), plain(bytes), "{bytes}");
    }
    assert_eq!(human_size(u64::MAX), plain(u64::MAX));
}

fn list(values: &[&str]) -> Vec<String> {
    values.iter().map(|v| (*v).to_string()).collect()
}

#[test]
fn normalize() {
    assert_eq!(
        normalize_excludes(&list(&[
            "./cache/", "b", "cache", "a/b/", " vm ", "a/./b", "x//y"
        ]))
        .unwrap(),
        ["a/b", "b", "cache", "vm", "x/y"]
    );
    for bad in ["", " ", "/abs", "../x", "a/../b", ".", "./"] {
        assert!(normalize_excludes(&list(&[bad])).is_err(), "{bad:?}");
    }
    assert!(normalize_excludes(&[]).unwrap().is_empty());
}

#[test]
fn refused_excludes_say_why() {
    let entries = list(&["ok", "./"]);
    let error = normalize_excludes(&entries).unwrap_err();
    assert_eq!(error, ExcludeError::Empty(1));
    assert_eq!(
        error.message(&entries),
        "exclude entries must be paths inside the snapshot, got './'"
    );
    let entries = list(&["/abs", "./"]);
    let error = normalize_excludes(&entries).unwrap_err();
    assert_eq!(error, ExcludeError::Escaping(0));
    assert_eq!(
        error.message(&entries),
        "exclude '/abs' must be a relative path inside the snapshot, without '..'"
    );
}

#[test]
fn hash_and_staging_path() {
    let a = normalize_excludes(&list(&["cache", "vm"])).unwrap();
    let b = normalize_excludes(&list(&["vm", "cache/"])).unwrap();
    assert_eq!(exclude_hash(&a), exclude_hash(&b));
    assert_eq!(exclude_hash(&a).len(), 8);
    assert_ne!(exclude_hash(&a), exclude_hash(&list(&["cache"])));
    assert_eq!(
        staging_path("/.snapshots/", &a, "root-1"),
        format!("/.snapshots/.staging/{}/root-1", exclude_hash(&a))
    );
}

#[test]
fn normalizing_excludes_twice_changes_nothing() {
    let once = normalize_excludes(&list(&["./b//c/", " a ", "b/./c"])).unwrap();
    assert_eq!(once, ["a", "b/c"]);
    assert_eq!(normalize_excludes(&once).unwrap(), once);
    // Except for white space behind a leading dot, which is trimmed once more.
    let once = normalize_excludes(&list(&["./ x"])).unwrap();
    assert_eq!(once, [" x"]);
    assert_eq!(normalize_excludes(&once).unwrap(), ["x"]);
}

#[test]
fn digests_are_md5() {
    assert_eq!(text_id(""), "d41d8cd98f00b204e9800998ecf8427e");
    assert_eq!(text_id("abc"), "900150983cd24fb0d6963f7d28e17f72");
    assert_eq!(exclude_hash(&[]), "d41d8cd9");
    assert!(exclude_hash(&[])
        .chars()
        .all(|c| c.is_ascii_digit() || ('a'..='f').contains(&c)));
    assert_eq!(
        staging_path("/.snapshots", &[], "root-1"),
        staging_path("/.snapshots/", &[], "root-1")
    );
    assert_eq!(exclude_hash(&list(&["abc"])), "90015098");
    assert_eq!(staging_root("/.snapshots/"), "/.snapshots/.staging");
    assert_eq!(staging_root("/"), "//.staging");
}

#[test]
fn transfers() {
    assert_eq!(send_args("/s/b", None), ["send", "/s/b"]);
    assert_eq!(send_args("/s/b", Some("/s/a")), ["send", "-p", "/s/a", "/s/b"]);
    assert_eq!(receive_args("/mnt"), ["btrfs", "receive", "/mnt"]);

    let mut pipe = Pipe::start(true);
    for event in [
        PipeEvent::Done,
        PipeEvent::Done,
        PipeEvent::Bytes(100),
        PipeEvent::Done,
        PipeEvent::Bytes(50),
        PipeEvent::Done,
        PipeEvent::Bytes(0),
    ] {
        pipe.next(event);
    }
    assert_eq!(pipe.stage, PipeStage::Close);
    assert!(!pipe.is_broken());
    pipe.next(PipeEvent::Done);
    pipe.next(PipeEvent::Ended(true));
    pipe.next(PipeEvent::Ended(true));
    assert_eq!(pipe.stage, PipeStage::Sync);
    pipe.next(PipeEvent::Failed);
    assert_eq!(pipe.stage, PipeStage::Complete);
    assert_eq!(pipe.bytes, 150);
}

#[test]
fn failed_transfers() {
    let run = |events: &[PipeEvent]| {
        let mut pipe = Pipe::start(false);
        for event in events {
            pipe.next(*event);
        }
        pipe.stage
    };
    let end = |read: bool, written: bool, send: bool, receive: bool| {
        let mut events = vec![PipeEvent::Done, PipeEvent::Done];
        if !read {
            events.push(PipeEvent::Failed);
        } else if !written {
            events.push(PipeEvent::Bytes(1));
            events.push(PipeEvent::Failed);
        } else {
            events.push(PipeEvent::Bytes(0));
        }
        events.push(PipeEvent::Done);
        events.push(PipeEvent::Ended(send));
        events.push(PipeEvent::Ended(receive));
        run(&events)
    };
    assert_eq!(end(true, true, true, true), PipeStage::Complete);
    assert_eq!(end(true, true, false, true), PipeStage::Failed(PipeFault::SendFailed));
    assert_eq!(end(true, true, true, false), PipeStage::Failed(PipeFault::ReceiveFailed));
    assert_eq!(end(true, true, false, false), PipeStage::Failed(PipeFault::SendFailed));
    // When the receiving side died the send failure is only a consequence.
    assert_eq!(end(true, false, false, false), PipeStage::Failed(PipeFault::ReceiveFailed));
    assert_eq!(end(true, false, true, true), PipeStage::Failed(PipeFault::WriteFailed));
    assert_eq!(end(false, true, true, true), PipeStage::Failed(PipeFault::ReadFailed));
    assert_eq!(run(&[PipeEvent::Failed]), PipeStage::Failed(PipeFault::SendNotStarted));
    assert_eq!(run(&[PipeEvent::Done, PipeEvent::Failed]), PipeStage::Abandon);
    assert_eq!(
        run(&[PipeEvent::Done, PipeEvent::Failed, PipeEvent::Done]),
        PipeStage::Failed(PipeFault::ReceiveNotStarted)
    );
    let ended = [PipeEvent::Done, PipeEvent::Done, PipeEvent::Bytes(0), PipeEvent::Done];
    let mut events = ended.to_vec();
    events.push(PipeEvent::Failed);
    assert_eq!(run(&events), PipeStage::Failed(PipeFault::SendNotWaited));
    let mut events = ended.to_vec();
    events.push(PipeEvent::Ended(true));
    events.push(PipeEvent::Failed);
    assert_eq!(run(&events), PipeStage::Failed(PipeFault::ReceiveNotWaited));

    let send = send_args("/s", None);
    for (fault, message) in [
        (PipeFault::SendNotStarted, "failed to execute 'btrfs send': c"),
        (PipeFault::ReceiveNotStarted, "failed to start 'btrfs receive' at /u: c"),
        (PipeFault::SendNotWaited, "failed to wait for 'btrfs send': c"),
        (PipeFault::ReceiveNotWaited, "failed to wait for 'btrfs receive': c"),
        (PipeFault::SendFailed, "'btrfs send /s' failed with c"),
        (PipeFault::ReceiveFailed, "'btrfs receive' at /u failed with c"),
        (PipeFault::ReadFailed, "failed to read from 'btrfs send': c"),
        (PipeFault::WriteFailed, "failed to write to 'btrfs receive': c"),
    ] {
        assert_eq!(fault.message(&send, "/u", "c"), message);
    }
}

fn info(uuid: &str, received: Option<&str>) -> SubvolumeInfo {
    SubvolumeInfo {
        uuid: uuid.into(),
        received_uuid: received.map(str::to_string),
    }
}

fn parent(name: &str) -> ReplicaRecord {
    ReplicaRecord {
        name: name.into(),
        ..ReplicaRecord::default()
    }
}

#[test]
fn a_delivery_starts_from_the_newest_usable_replica() {
    let mut delivery = Delivery::start("root-4", false);
    assert_eq!(delivery.step, Step::InspectSource);
    delivery.next(Event::Shown(info("s", None)));
    assert_eq!(delivery.step, Step::LookForReplica);
    delivery.next(Event::Missing);
    assert_eq!(delivery.step, Step::ListParents);
    delivery.next(Event::Parents(vec![
        parent("root-4"),
        parent("root-3"),
        parent("root-2"),
        parent("root-1"),
    ]));
    assert_eq!(delivery.step, Step::LookHere(1), "the snapshot itself is no parent");
    delivery.next(Event::Missing);
    assert_eq!(delivery.step, Step::LookHere(2));
    delivery.next(Event::There);
    delivery.next(Event::Missing);
    assert_eq!(delivery.step, Step::Forget(2));
    delivery.next(Event::Done);
    assert_eq!(delivery.step, Step::LookHere(3));
    delivery.next(Event::There);
    delivery.next(Event::There);
    assert_eq!(delivery.step, Step::Send(Some(3)));
    delivery.next(Event::Done);
    assert_eq!(delivery.step, Step::InspectReceived(Some(3)));
    delivery.next(Event::Shown(info("r", Some("s"))));
    assert_eq!(delivery.step, Step::Record(Some(3)));
    let snapshot = SnapshotRecord {
        name: "root-4".into(),
        date: "d".into(),
        ..SnapshotRecord::default()
    };
    let replica = delivery.replica(&snapshot, "/p", &replication("/mnt", &[]), Some(3));
    assert_eq!(replica.parent_name.as_deref(), Some("root-1"));
    assert_eq!(replica.target, "/mnt");
    assert_eq!(replica.local_path, "/p");
    assert_eq!(replica.snapshot_date, "d");
    assert_eq!(delivery.parent(Some(3)).unwrap().name, "root-1");
    assert!(delivery.parent(None).is_none());
    delivery.next(Event::Done);
    assert_eq!(delivery.step, Step::Recorded);
}

#[test]
fn a_matching_replica_is_adopted_and_another_one_replaced() {
    let at_target = |received: &str| {
        let mut delivery = Delivery::start("root-1", false);
        delivery.next(Event::Shown(info("s", None)));
        delivery.next(Event::There);
        delivery.next(Event::Shown(info("r", Some(received))));
        delivery
    };
    assert_eq!(at_target("s").step, Step::Record(None));
    let mut delivery = at_target("other");
    assert_eq!(delivery.step, Step::RemoveReplica);
    delivery.next(Event::Done);
    delivery.next(Event::Parents(vec![]));
    assert_eq!(delivery.step, Step::Send(None));
}

#[test]
fn what_is_left_of_a_failed_delivery_is_removed() {
    let sending = || {
        let mut delivery = Delivery::start("root-1", true);
        assert_eq!(delivery.step, Step::Filter);
        delivery.next(Event::Filtered(Some(Excluded { paths: 1, bytes: 2 })));
        delivery.next(Event::Shown(info("s", None)));
        delivery.next(Event::Missing);
        delivery.next(Event::Parents(vec![]));
        delivery
    };
    let mut delivery = sending();
    delivery.next(Event::Failed);
    assert_eq!(delivery.step, Step::LookForPartial(Fault::NotSent));
    delivery.next(Event::There);
    assert_eq!(delivery.step, Step::RemovePartial(Fault::NotSent));
    delivery.next(Event::Failed);
    assert_eq!(delivery.step, Step::Failed(Fault::NotSent));
    assert_eq!(
        delivery.message(Fault::NotSent, "/mnt", "broken"),
        "failed to send root-1 to /mnt: broken"
    );
    let mut delivery = sending();
    delivery.next(Event::Done);
    delivery.next(Event::Shown(info("r", None)));
    assert_eq!(delivery.step, Step::LookForPartial(Fault::Mismatch));
    assert_eq!(
        delivery.message(Fault::Mismatch, "/mnt", ""),
        "verification of root-1 at /mnt failed: received UUID - does not match the source UUID s"
    );
    delivery.next(Event::Missing);
    assert_eq!(delivery.step, Step::Failed(Fault::Mismatch));
    let mut delivery = sending();
    delivery.next(Event::Done);
    delivery.next(Event::Failed);
    assert_eq!(delivery.step, Step::Failed(Fault::NotVerified));
    assert_eq!(
        delivery.message(Fault::NotVerified, "/mnt", "gone"),
        "could not verify root-1 at /mnt: gone"
    );
    let mut delivery = Delivery::start("root-1", true);
    delivery.next(Event::Failed);
    assert_eq!(delivery.step, Step::Failed(Fault::Stopped));
    assert_eq!(delivery.message(Fault::Stopped, "/mnt", "why"), "why");
}

#[test]
fn descriptions() {
    assert_eq!(describe_parent(None), "full send");
    assert_eq!(describe_parent(Some(&parent("root-1"))), "incremental from root-1");
    let plain = replication("/mnt", &[]);
    assert_eq!(describe_excluded(&plain, None), "");
    let mut filtered = plain.clone();
    filtered.exclude = list(&["cache", "vm"]);
    assert_eq!(describe_excluded(&filtered, None), ", filtered copy reused");
    let excluded = Excluded { paths: 2, bytes: 2048 };
    assert_eq!(
        describe_excluded(&filtered, Some(excluded)),
        ", excluding 2 path(s), 2.0 KiB"
    );
    assert_eq!(describe_filter(&[], Ok(excluded)), "");
    assert_eq!(
        describe_filter(&filtered.exclude, Ok(excluded)),
        ", excluding 2 path(s), 2.0 KiB: cache, vm"
    );
    assert_eq!(
        describe_filter(&filtered.exclude, Err("no".into())),
        ", excluding cache, vm (could not measure: no)"
    );
    let snapshot = SnapshotRecord {
        name: "n".into(),
        snap_id: "i".into(),
        kind: "k".into(),
        source: "s".into(),
        destination: "d".into(),
        machine: "m".into(),
        ro_rw: "false".into(),
        date: "t".into(),
    };
    assert_eq!(
        record(&snapshot, "/p", &plain, Some("o".into())),
        ReplicaRecord {
            name: "n".into(),
            snap_id: "i".into(),
            target: "/mnt".into(),
            local_path: "/p".into(),
            source: "s".into(),
            kind: "k".into(),
            machine: "m".into(),
            snapshot_date: "t".into(),
            parent_name: Some("o".into()),
            date: String::new(),
        }
    );
}

#[test]
fn rounds() {
    let mut round = Round::start(2, false, true);
    assert_eq!(round.step, RoundStep::LookForDirectory);
    for (event, step) in [
        (RoundEvent::There, RoundStep::Look(0)),
        (RoundEvent::Missing, RoundStep::Look(1)),
        (RoundEvent::There, RoundStep::Deliver(1)),
        (RoundEvent::Done, RoundStep::Prune),
        (RoundEvent::Done, RoundStep::Over),
    ] {
        round.next(event);
        assert_eq!(round.step, step);
    }
    let mut round = Round::start(1, true, false);
    assert_eq!(round.step, RoundStep::Look(0), "a dry run does not contact the target");
    round.next(RoundEvent::There);
    assert_eq!(round.step, RoundStep::Describe(0));
    round.next(RoundEvent::Done);
    assert_eq!(round.step, RoundStep::Over);

    let mut round = Round::start(2, false, true);
    round.next(RoundEvent::Missing);
    assert_eq!(round.step, RoundStep::NoDirectory);
    assert_eq!(
        no_directory_message("/mnt", "/mnt/"),
        "the directory /mnt does not exist at /mnt/ (is the backup disk mounted?)"
    );
    let mut round = Round::start(2, false, true);
    round.next(RoundEvent::There);
    round.next(RoundEvent::There);
    round.next(RoundEvent::Failed);
    assert_eq!(round.step, RoundStep::Stopped);
    round.next(RoundEvent::Done);
    assert_eq!(round.step, RoundStep::Stopped);
}

#[test]
fn a_dot_before_and_a_slash_behind_an_exclude_make_no_difference() {
    for entry in ["cache", "var/lib/vm", "./a//b", "a b"] {
        let plain = normalize_excludes(&list(&[entry])).unwrap();
        for written in [format!("./{entry}"), format!("{entry}/")] {
            assert_eq!(normalize_excludes(&[written]).unwrap(), plain);
        }
    }
}

#[test]
fn a_replica_is_received_next_to_the_snapshots() {
    let record = SnapshotRecord {
        name: "root-1".into(),
        destination: "/.snapshots/".into(),
        ..SnapshotRecord::default()
    };
    assert_eq!(received_path(&record), "/.snapshots/.restore/root-1");
}

#[test]
fn a_round_with_nothing_to_send() {
    let mut round = Round::start(0, true, false);
    assert_eq!(round.step, RoundStep::SayNothing);
    round.next(RoundEvent::Done);
    assert_eq!(round.step, RoundStep::Over);

    let mut round = Round::start(0, false, true);
    assert_eq!(round.step, RoundStep::LookForDirectory);
    round.next(RoundEvent::There);
    assert_eq!(round.step, RoundStep::SayNothing);
    round.next(RoundEvent::Done);
    assert_eq!(round.step, RoundStep::Prune);

    let mut round = Round::start(0, false, true);
    round.next(RoundEvent::Missing);
    assert_eq!(round.step, RoundStep::NoDirectory, "nothing is said of an unmounted disk");
    assert_eq!(
        nothing_to_send_message("/mnt/", 3),
        "Nothing to send to /mnt/: all 3 snapshot(s) are already replicated"
    );
}

#[test]
fn prunings() {
    let mut pruning = Pruning::start(2, false);
    for (event, step) in [
        (RoundEvent::There, PruneStep::Remove(0)),
        (RoundEvent::Done, PruneStep::Mark(0)),
        (RoundEvent::Done, PruneStep::Look(1)),
        (RoundEvent::Missing, PruneStep::Mark(1)),
        (RoundEvent::Done, PruneStep::Over),
    ] {
        pruning.next(event);
        assert_eq!(pruning.step, step);
    }
    assert_eq!(pruning.marked, 2);
    let mut pruning = Pruning::start(1, true);
    assert_eq!(pruning.step, PruneStep::Describe(0));
    pruning.next(RoundEvent::Done);
    assert_eq!((pruning.step, pruning.marked), (PruneStep::Over, 0));
    let mut pruning = Pruning::start(1, false);
    pruning.next(RoundEvent::There);
    pruning.next(RoundEvent::Failed);
    assert_eq!((pruning.step, pruning.marked), (PruneStep::Stopped, 0));
}

#[test]
fn every_target_is_tried() {
    assert_eq!(Sending::start(0).step, SendStep::NoTarget);
    let mut sending = Sending::start(3);
    for (event, step) in [
        (RoundEvent::Done, SendStep::Replicate(0)),
        (RoundEvent::Failed, SendStep::Configure(1)),
        (RoundEvent::Done, SendStep::Replicate(1)),
        (RoundEvent::Done, SendStep::Configure(2)),
        (RoundEvent::Done, SendStep::Replicate(2)),
        (RoundEvent::Failed, SendStep::Failed(2)),
    ] {
        sending.next(event);
        assert_eq!(sending.step, step);
    }
    let mut sending = Sending::start(1);
    sending.next(RoundEvent::Failed);
    assert_eq!(sending.step, SendStep::Refused);
    let mut sending = Sending::start(1);
    sending.next(RoundEvent::Done);
    sending.next(RoundEvent::Done);
    assert_eq!(sending.step, SendStep::Over);
    assert_eq!(
        no_target_message(),
        "no replication target: add a [[replicate]] section to the configuration file or pass --target"
    );
    assert_eq!(failed_targets_message(2), "replication to 2 target(s) failed");
}

#[test]
fn restoring_to_a_place() {
    let record = SnapshotRecord {
        source: "/home/".into(),
        ..SnapshotRecord::default()
    };
    assert_eq!(restore_target(&record, ""), "/home");
    assert_eq!(restore_target(&record, "/elsewhere//"), "/elsewhere");
    assert_eq!(restore_dir("/.snapshots/"), "/.snapshots/.restore");
}

#[test]
fn the_recorded_target_of_a_snapshot() {
    let mut database = Database::default();
    let snapshot = SnapshotRecord {
        name: "root-1".into(),
        snap_id: "id".into(),
        ..SnapshotRecord::default()
    };
    assert_eq!(recorded_target(&database, &snapshot), Err(TargetUnclear::Unrecorded));
    let stamp = Stamp {
        utc: "u".into(),
        local: "l".into(),
    };
    let at = |target: &str, id: &str, path: &str| ReplicaRecord {
        name: "root-1".into(),
        snap_id: id.into(),
        target: target.into(),
        local_path: path.into(),
        ..ReplicaRecord::default()
    };
    insert_replica(&mut database, &at("/z", "id", "/.snapshots/root-1"), &stamp);
    insert_replica(&mut database, &at("/y", "other", "/.snapshots/root-1"), &stamp);
    assert_eq!(recorded_target(&database, &snapshot), Ok("/z".into()));
    insert_replica(&mut database, &at("/a", "id", "/.snapshots/.staging/h/root-1"), &stamp);
    let unclear = recorded_target(&database, &snapshot).unwrap_err();
    assert_eq!(unclear, TargetUnclear::Several(list(&["/a", "/z"])));
    assert_eq!(
        unclear.message("root-1"),
        "root-1 is replicated to several targets, pick one with --from-replica <TARGET>: /a, /z"
    );
    assert_eq!(
        TargetUnclear::Unrecorded.message("root-1"),
        "no replica of root-1 is recorded. Give the target with --from-replica <TARGET>"
    );
    assert!(was_filtered(&database, "root-1", "/a"));
    assert!(!was_filtered(&database, "root-1", "/z"));
    assert!(!was_filtered(&database, "root-2", "/a"));
}

#[test]
fn a_restore_reuses_the_configured_section() {
    let args = Args {
        replicate: vec![
            ReplicateConfig {
                target: "ssh://nas/srv".into(),
                ssh_options: list(&["-i", "key"]),
                ..ReplicateConfig::default()
            },
            ReplicateConfig {
                target: "/mnt".into(),
                keep: Some(0),
                ..ReplicateConfig::default()
            },
        ],
        ..Args::default()
    };
    assert_eq!(
        external_replication(&args, "ssh://nas/srv").unwrap().ssh_options,
        ["-i", "key"]
    );
    assert_eq!(external_replication(&args, "/mnt"), Err(ReplicationError::KeepZero));
    let other = external_replication(&args, "/elsewhere").unwrap();
    assert_eq!(other.url, "/elsewhere");
    assert!(other.ssh_options.is_empty() && other.keep.is_none());
    assert_eq!(external_section(&args, "/mnt"), args.replicate[1]);
    assert_eq!(
        external_section(&args, "x"),
        ReplicateConfig {
            target: "x".into(),
            ..ReplicateConfig::default()
        }
    );
    assert_eq!(
        external_replication(&args, "elsewhere"),
        Err(ReplicationError::Target(TargetError::Unsupported))
    );
}

#[test]
fn a_snapshot_comes_back_from_its_replica() {
    let receiving = |replica: SubvolumeInfo| {
        let mut way = Return::start(false);
        for event in [
            ReturnEvent::Missing,
            ReturnEvent::Missing,
            ReturnEvent::Done,
            ReturnEvent::There,
            ReturnEvent::Shown(replica),
        ] {
            way.next(event);
        }
        assert_eq!(way.step, ReturnStep::LookForLeftover);
        way.next(ReturnEvent::There);
        assert_eq!(way.step, ReturnStep::RemoveLeftover);
        way.next(ReturnEvent::Done);
        assert_eq!(way.step, ReturnStep::MakeDirectory);
        way.next(ReturnEvent::Done);
        assert_eq!(way.step, ReturnStep::Receive);
        way
    };
    // The identity that the replica was received under is the one that comes out.
    let mut way = receiving(info("r", Some("s")));
    assert_eq!(way.expected(), Some("s"));
    way.next(ReturnEvent::Done);
    way.next(ReturnEvent::Shown(info("n", Some("s"))));
    assert_eq!(way.step, ReturnStep::Restore);
    way.next(ReturnEvent::Done);
    assert_eq!(way.step, ReturnStep::Drop);
    let mut rest = way.clone();
    rest.next(ReturnEvent::Failed);
    assert_eq!(rest.step, ReturnStep::RestoredWithRest);
    way.next(ReturnEvent::Done);
    assert_eq!(way.step, ReturnStep::Restored);
    // A replica created by other means carries its own.
    let mut way = receiving(info("r", None));
    assert_eq!(way.expected(), Some("r"));
    way.next(ReturnEvent::Done);
    way.next(ReturnEvent::Shown(info("n", Some("s"))));
    assert_eq!(way.step, ReturnStep::Discard(ReturnFault::Mismatch));
    way.next(ReturnEvent::Failed);
    assert_eq!(way.step, ReturnStep::Failed(ReturnFault::Mismatch));
    let record = SnapshotRecord {
        name: "root-1".into(),
        snap_id: "id".into(),
        destination: "/.snapshots/".into(),
        ..SnapshotRecord::default()
    };
    let say = |fault: ReturnFault| way.message(fault, &record, "/home", "/mnt/root-1", "/mnt", "why");
    assert_eq!(
        say(ReturnFault::Mismatch),
        "verification of root-1 failed: received UUID s does not match the UUID r of /mnt/root-1 at /mnt"
    );
    assert_eq!(
        say(ReturnFault::AlreadyHere),
        "root-1 is already on this machine at /.snapshots/root-1. Restore it with --restore --id id and no --from-replica"
    );
    assert_eq!(
        say(ReturnFault::PlaceTaken),
        "the restore target /home already exists. Move it out of the way first (for example: mv /home /home.old) or restore somewhere else with --to"
    );
    assert_eq!(say(ReturnFault::NoReplica), "/mnt/root-1 does not exist at /mnt");
    assert_eq!(say(ReturnFault::Stopped), "why");
}

#[test]
fn a_snapshot_that_can_not_come_back() {
    let mut way = Return::start(false);
    way.next(ReturnEvent::There);
    assert_eq!(way.step, ReturnStep::Failed(ReturnFault::AlreadyHere));
    let mut way = Return::start(false);
    way.next(ReturnEvent::Missing);
    way.next(ReturnEvent::There);
    assert_eq!(way.step, ReturnStep::Failed(ReturnFault::PlaceTaken));
    let mut way = Return::start(false);
    for event in [
        ReturnEvent::Missing,
        ReturnEvent::Missing,
        ReturnEvent::Done,
        ReturnEvent::Missing,
    ] {
        way.next(event);
    }
    assert_eq!(way.step, ReturnStep::Failed(ReturnFault::NoReplica));
    let mut way = Return::start(true);
    for event in [ReturnEvent::Missing, ReturnEvent::Missing, ReturnEvent::Done] {
        way.next(event);
    }
    assert_eq!(way.step, ReturnStep::Describe);
    way.next(ReturnEvent::Done);
    assert_eq!(way.step, ReturnStep::Described);
    // Every failure from the receive on discards what arrived.
    let mut way = Return::start(false);
    for event in [
        ReturnEvent::Missing,
        ReturnEvent::Missing,
        ReturnEvent::Done,
        ReturnEvent::There,
        ReturnEvent::Shown(info("r", None)),
        ReturnEvent::Missing,
        ReturnEvent::Done,
        ReturnEvent::Failed,
    ] {
        way.next(event);
    }
    assert_eq!(way.step, ReturnStep::Discard(ReturnFault::Stopped));
}
