//! The `btrfs` command lines, and what must hold before one of them is run.
use crate::paths::{ends_with_name, file_name, is_absolute, starts_at_root};
use crate::text::{join, joined, texts};
use crate::utils::{is_same_character, only, strip_trailing_slash, stripped};
use vstd::prelude::*;

verus! {

/// Arguments for `btrfs subvolume create <dest>`.
#[must_use]
pub fn create_args(dest_dir: &str) -> (args: Vec<String>)
    ensures
        texts(args@) == seq!["subvolume"@, "create"@, stripped(dest_dir@)],
{
    let args: Vec<String> = vec![
        "subvolume".to_owned(),
        "create".to_owned(),
        strip_trailing_slash(dest_dir).to_owned(),
    ];
    assert(texts(args@) =~= seq!["subvolume"@, "create"@, stripped(dest_dir@)]);
    args
}

/// The arguments of `btrfs subvolume snapshot`.
pub open spec fn snapshot_command(
    source: Seq<char>,
    target: Seq<char>,
    read_only: bool,
) -> Seq<Seq<char>> {
    if read_only {
        seq!["subvolume"@, "snapshot"@, "-r"@, stripped(source), stripped(target)]
    } else {
        seq!["subvolume"@, "snapshot"@, stripped(source), stripped(target)]
    }
}

/// Arguments for `btrfs subvolume snapshot [-r] <source> <target>`.
///
/// The `-r` flag goes before the positional arguments so the command also works when
/// `POSIXLY_CORRECT` is set (getopt stops at the first non-option in that case).
#[must_use]
pub fn snapshot_args(source: &str, target: &str, read_only: bool) -> (args: Vec<String>)
    ensures
        texts(args@) == snapshot_command(source@, target@, read_only),
{
    let mut args: Vec<String> = vec!["subvolume".to_owned(), "snapshot".to_owned()];
    if read_only {
        args.push("-r".to_owned());
    }
    args.push(strip_trailing_slash(source).to_owned());
    args.push(strip_trailing_slash(target).to_owned());
    assert(texts(args@) =~= snapshot_command(source@, target@, read_only));
    args
}

/// The arguments of `btrfs subvolume delete`.
pub open spec fn delete_command(path: Seq<char>) -> Seq<Seq<char>> {
    seq!["subvolume"@, "delete"@, stripped(path)]
}

/// Arguments for `btrfs subvolume delete <path>`.
#[must_use]
pub fn delete_args(path: &str) -> (args: Vec<String>)
    ensures
        texts(args@) == delete_command(path@),
{
    let args: Vec<String> = vec![
        "subvolume".to_owned(),
        "delete".to_owned(),
        strip_trailing_slash(path).to_owned(),
    ];
    assert(texts(args@) =~= delete_command(path@));
    args
}

/// Human readable form of a `btrfs` invocation, for messages and `--dry-run`.
#[must_use]
pub fn command_line(args: &[String]) -> (line: String)
    ensures
        line@ == "btrfs "@ + joined(texts(args@), " "@),
{
    let rest: String = join(args, " ");
    "btrfs ".to_owned().concat(rest.as_str())
}

/// What to say of a `btrfs` invocation that ended with an error status.
pub fn failure_message(args: &[String], status: &str) -> (message: String)
    ensures
        message@ == "'"@ + ("btrfs "@ + joined(texts(args@), " "@)) + "' failed with "@ + status@,
{
    let line: String = command_line(args);
    "'".to_owned().concat(line.as_str()).concat("' failed with ").concat(status)
}

/// What to do about the directory that the snapshots go to.
#[derive(Debug, Clone, PartialEq, Eq)]
pub enum Setup {
    /// It is there.
    Nothing,
    /// Only show the command that would create it.
    Show(Vec<String>),
    /// Run the command that creates it.
    Run(Vec<String>),
}

/// Create the snapshots directory as a subvolume if it doesn't exist yet.
pub fn setup_directory_structure(dest_dir: &str, dry_run: bool, exists: bool) -> (setup: Setup)
    ensures
        exists ==> setup is Nothing,
        !exists && dry_run ==> (setup matches Setup::Show(args) && texts(args@) == seq![
            "subvolume"@,
            "create"@,
            stripped(dest_dir@),
        ]),
        !exists && !dry_run ==> (setup matches Setup::Run(args) && texts(args@) == seq![
            "subvolume"@,
            "create"@,
            stripped(dest_dir@),
        ]),
{
    if exists {
        return Setup::Nothing;
    }
    let args: Vec<String> = create_args(dest_dir);
    if dry_run {
        Setup::Show(args)
    } else {
        Setup::Run(args)
    }
}

/// What is run to take a snapshot of `source` at `target`: the arguments for `btrfs`.
#[must_use]
pub fn take_snapshot(source: &str, target: &str, read_only: bool) -> (args: Vec<String>)
    ensures
        texts(args@) == snapshot_command(source@, target@, read_only),
{
    snapshot_args(source, target, read_only)
}

/// Whether a path looks like that of a snapshot: absolute, not the root directory, and ending
/// with a name.
pub open spec fn deletable(path: Seq<char>) -> bool {
    path.len() > 0 && !only(path, '/') && is_absolute(path) && file_name(path) is Some
}

/// The path is not one that may be deleted.
#[derive(Debug, Clone, Copy, PartialEq, Eq, Structural)]
pub struct NotDeletable;

impl NotDeletable {
    /// What to say of a path that is not deleted.
    pub fn message(&self, path: &str) -> (message: String)
        ensures
            message@ == "refusing to delete '"@ + path@
                + "': it doesn't look like a snapshot path"@,
    {
        "refusing to delete '".to_owned().concat(path).concat(
            "': it doesn't look like a snapshot path",
        )
    }
}

/// Refuse to delete anything that doesn't look like a snapshot path: the root directory, a
/// relative path or a path without a final component.
pub fn check_deletable(path: &str) -> (checked: Result<(), NotDeletable>)
    ensures
        checked == if deletable(path@) {
            Ok::<(), NotDeletable>(())
        } else {
            Err(NotDeletable)
        },
{
    if path.is_empty() || is_same_character(path, '/') || !starts_at_root(path) || !ends_with_name(
        path,
    ) {
        Err(NotDeletable)
    } else {
        Ok(())
    }
}

/// The arguments of the command that deletes the snapshot subvolume at `path`.
pub fn del_snapshot(path: &str) -> (args: Result<Vec<String>, NotDeletable>)
    ensures
        match args {
            Ok(args) => deletable(path@) && texts(args@) == delete_command(path@),
            Err(_) => !deletable(path@),
        },
{
    match check_deletable(path) {
        Ok(()) => Ok(delete_args(path)),
        Err(refused) => Err(refused),
    }
}

/// Why a snapshot is not restored.
#[derive(Debug, Clone, Copy, PartialEq, Eq, Structural)]
pub enum RestoreRefused {
    /// The target is the root directory.
    RootInPlace,
    /// The target exists.
    TargetExists,
    /// The snapshot does not exist.
    SnapshotMissing,
}

/// What to say when the restore target exists.
pub open spec fn target_exists_text(target: Seq<char>) -> Seq<char> {
    "the restore target "@ + target
        + " already exists. Move it out of the way first (for example: mv "@ + target + " "@
        + target + ".old) or restore somewhere else with --to"@
}

/// What to say when the restore target exists.
pub fn target_exists_message(target: &str) -> (message: String)
    ensures
        message@ == target_exists_text(target@),
{
    "the restore target ".to_owned().concat(target).concat(
        " already exists. Move it out of the way first (for example: mv ",
    ).concat(target).concat(" ").concat(target).concat(
        ".old) or restore somewhere else with --to",
    )
}

impl RestoreRefused {
    /// What to say of a restore that is refused.
    pub fn message(&self, snapshot: &str, target: &str) -> (message: String)
        ensures
            message@ == match *self {
                RestoreRefused::RootInPlace =>
                    "restoring the root subvolume in place is not possible while it is mounted. Boot from another system, or restore somewhere else with --to"@,
                RestoreRefused::TargetExists => target_exists_text(target@),
                RestoreRefused::SnapshotMissing => "the snapshot "@ + snapshot@
                    + " does not exist on disk"@,
            },
    {
        match self {
            RestoreRefused::RootInPlace =>
                "restoring the root subvolume in place is not possible while it is mounted. Boot from another system, or restore somewhere else with --to".to_owned(),
            RestoreRefused::TargetExists => target_exists_message(target),
            RestoreRefused::SnapshotMissing => "the snapshot ".to_owned().concat(snapshot).concat(
                " does not exist on disk",
            ),
        }
    }
}

/// Why a restore is refused, if it is.
pub open spec fn restore_refusal(
    target: Seq<char>,
    target_exists: bool,
    snapshot_exists: bool,
) -> Option<RestoreRefused> {
    if stripped(target) == "/"@ {
        Some(RestoreRefused::RootInPlace)
    } else if target_exists {
        Some(RestoreRefused::TargetExists)
    } else if !snapshot_exists {
        Some(RestoreRefused::SnapshotMissing)
    } else {
        None
    }
}

/// The arguments of the command that restores `snapshot` as a read-write subvolume at `target`,
/// which must not exist.
pub fn restore_snapshot(
    snapshot: &str,
    target: &str,
    target_exists: bool,
    snapshot_exists: bool,
) -> (args: Result<Vec<String>, RestoreRefused>)
    ensures
        match args {
            Ok(args) => restore_refusal(target@, target_exists, snapshot_exists) is None && texts(
                args@,
            ) == snapshot_command(snapshot@, target@, false),
            Err(refused) => restore_refusal(target@, target_exists, snapshot_exists) == Some(
                refused,
            ),
        },
{
    let place: String = strip_trailing_slash(target).to_owned();
    if place == "/".to_owned() {
        return Err(RestoreRefused::RootInPlace);
    }
    if target_exists {
        return Err(RestoreRefused::TargetExists);
    }
    if !snapshot_exists {
        return Err(RestoreRefused::SnapshotMissing);
    }
    Ok(snapshot_args(snapshot, target, false))
}

} // verus!
