//! Options: what can be asked for, where each option comes from, and which ones make sense.
use crate::replication::{
    replication_error_text, replication_fault, Replication, ReplicationError,
};
use crate::text::{chars_of, copy_strings, find_first, same_text, texts};
use crate::paths::is_absolute;
use crate::utils::{
    dir_error_text, lemma_normal_dir_idempotent, machine_name, normal_dir, normalize_dir, DirError, HostnameUnreadable, WorkingDir,
};
use vstd::prelude::*;

verus! {

/// What was asked for, on the command line and in the configuration file.
#[derive(Debug, Default, Clone)]
pub struct Args {
    /// Path to configuration file. Options given on the command line take precedence over it.
    pub config_file: Option<String>,
    /// Directory where snapshots should be saved. When restoring, directory where the snapshot
    /// will be restored (must not exist).
    pub dest_dir: String,
    /// Directory (subvolume) from where snapshots should be created.
    pub source_dir: String,
    /// Snapshot id or name to work with.
    pub snapshot_id: String,
    /// Path to the `SQLite` database file.
    pub database_file: String,
    /// Prefix for the snapshot name.
    pub snapshot_prefix: String,
    /// Used to specify a differentiator between snapshots with the same prefix.
    pub snapshot_kind: String,
    /// Keep only the last X items.
    pub keep_only: usize,
    /// Time in milliseconds until `SQLite` can return a timeout.
    pub timeout: usize,
    /// Create a read-only/ro snapshot.
    pub create_snapshot: bool,
    /// Keep only the last X snapshots of the selected ones.
    pub clean_snapshots: bool,
    /// Delete a snapshot.
    pub delete_snapshot: bool,
    /// Restore a specific snapshot to its original source directory, or to another one.
    pub restore_snapshot: bool,
    /// List the snapshots tracked in the database.
    pub list_snapshots: bool,
    /// Create read-write/rw snapshots, or clean them instead of ro ones.
    pub read_write: bool,
    /// Machine name to be used in the metadata and to select the snapshots to clean.
    pub machine: String,
    /// Replicate the read-only snapshots of this prefix and machine to the replication targets.
    pub send_snapshots: bool,
    /// Replication target, instead of the configuration file ones.
    pub target: Option<String>,
    /// With a target, paths inside the snapshot to leave out of the replicas.
    pub exclude: Vec<String>,
    /// Restore from a replica instead of from the local snapshot. Empty means that the target is
    /// taken from the database.
    pub from_replica: Option<String>,
    /// Show what would be created, deleted, restored or sent without doing it.
    pub dry_run: bool,
    /// Replication targets, from the configuration file or the command line.
    pub replicate: Vec<ReplicateConfig>,
}

/// Options accepted in the TOML configuration file. All of them are optional.
#[derive(Debug, Default, Clone, PartialEq, Eq)]
pub struct Config {
    pub dest_dir: Option<String>,
    pub source_dir: Option<String>,
    pub snapshot_prefix: Option<String>,
    pub snapshot_kind: Option<String>,
    pub database_file: Option<String>,
    pub keep_only: Option<usize>,
    pub timeout: Option<usize>,
    pub machine: Option<String>,
    pub replicate: Option<Vec<ReplicateConfig>>,
}

/// One `[[replicate]]` section: where to send the snapshots with `--send`.
#[derive(Debug, Default, Clone, PartialEq, Eq)]
pub struct ReplicateConfig {
    /// Absolute path or `ssh://[user@]host[:port]/path`.
    pub target: String,
    /// Replicas to keep per kind at the target. Unset means never delete anything there.
    pub keep: Option<usize>,
    /// Extra `ssh` options, for example `["-i", "/root/.ssh/backup_key"]`.
    pub ssh_options: Vec<String>,
    /// Paths inside the snapshot to leave out of the replicas, relative to the snapshot root.
    pub exclude: Vec<String>,
}

/// Why the options are refused.
#[derive(Debug, Clone, PartialEq, Eq)]
pub enum ArgsError {
    /// The source directory can't be made absolute.
    Source(DirError),
    /// The destination directory can't be made absolute.
    Destination(DirError),
    /// No machine name was given and the hostname can't be read.
    Hostname(HostnameUnreadable),
    /// The snapshot prefix is empty or contains a slash.
    Prefix,
    /// The path of the database file is empty.
    DatabaseFile,
    /// The replication section at this position is refused.
    Replicate(usize, ReplicationError),
}

/// The first replication section that is refused, and why.
pub open spec fn replicate_fault(configs: Seq<ReplicateConfig>) -> Option<
    (usize, ReplicationError),
>
    decreases configs.len(),
{
    if configs.len() == 0 {
        None
    } else {
        match replicate_fault(configs.drop_last()) {
            Some(fault) => Some(fault),
            None => match replication_fault(configs.last()) {
                Some(error) => Some(((configs.len() - 1) as usize, error)),
                None => None,
            },
        }
    }
}

/// A directory given as an option: made absolute, unless it was not given.
pub open spec fn absolute_dir(dir: Seq<char>, cwd: WorkingDir) -> Result<Seq<char>, DirError> {
    if dir.len() == 0 {
        Ok(dir)
    } else {
        normal_dir(dir, cwd)
    }
}

/// What a directory given as an option becomes. It stays as it is where it can't be made
/// absolute.
pub open spec fn dir_after(dir: Seq<char>, cwd: WorkingDir) -> Seq<char> {
    match absolute_dir(dir, cwd) {
        Ok(path) => path,
        Err(_) => dir,
    }
}

impl Args {
    /// Why the options are refused, if they are: the first of these in order.
    pub open spec fn fault(
        self,
        cwd: WorkingDir,
        host: Result<String, HostnameUnreadable>,
    ) -> Option<ArgsError> {
        if absolute_dir(self.source_dir@, cwd) is Err {
            Some(ArgsError::Source(absolute_dir(self.source_dir@, cwd)->Err_0))
        } else if absolute_dir(self.dest_dir@, cwd) is Err {
            Some(ArgsError::Destination(absolute_dir(self.dest_dir@, cwd)->Err_0))
        } else if self.machine@.len() == 0 && host is Err {
            Some(ArgsError::Hostname(host->Err_0))
        } else if self.snapshot_prefix@.len() == 0 || self.snapshot_prefix@.contains('/') {
            Some(ArgsError::Prefix)
        } else if self.database_file@.len() == 0 {
            Some(ArgsError::DatabaseFile)
        } else {
            match replicate_fault(self.replicate@) {
                Some((i, error)) => Some(ArgsError::Replicate(i, error)),
                None => None,
            }
        }
    }

    /// Make the source and destination directories absolute with a trailing slash, fill the
    /// machine name from the hostname when empty and validate the snapshot prefix.
    ///
    /// The hostname is only asked for where it is needed. What comes out for each hostname is
    /// what [`Args::normalize_with`] gives.
    pub fn normalize(&mut self, cwd: &WorkingDir) -> (done: Result<(), ArgsError>)
        ensures
            old(self).machine@.len() > 0 ==> forall|host: Result<String, HostnameUnreadable>|
                #[trigger] normalized(*old(self), *final(self), *cwd, host, done),
            exists|host: Result<String, HostnameUnreadable>|
                #[trigger] normalized(*old(self), *final(self), *cwd, host, done),
    {
        let host: Result<String, HostnameUnreadable> = if self.machine.as_str().is_empty() {
            machine_name()
        } else {
            Ok("".to_owned())
        };
        let done: Result<(), ArgsError> = self.normalize_with(cwd, host);
        assert(normalized(*old(self), *self, *cwd, host, done));
        done
    }

    /// Make the source and destination directories absolute with a trailing slash, fill the
    /// machine name from `host` when empty and validate the snapshot prefix.
    pub fn normalize_with(
        &mut self,
        cwd: &WorkingDir,
        host: Result<String, HostnameUnreadable>,
    ) -> (done: Result<(), ArgsError>)
        ensures
            normalized(*old(self), *final(self), *cwd, host, done),
    {
        if !self.source_dir.as_str().is_empty() {
            match normalize_dir(self.source_dir.as_str(), cwd) {
                Ok(path) => {
                    self.source_dir = path;
                },
                Err(error) => {
                    return Err(ArgsError::Source(error));
                },
            }
        }
        if !self.dest_dir.as_str().is_empty() {
            match normalize_dir(self.dest_dir.as_str(), cwd) {
                Ok(path) => {
                    self.dest_dir = path;
                },
                Err(error) => {
                    return Err(ArgsError::Destination(error));
                },
            }
        }
        if self.machine.as_str().is_empty() {
            match host {
                Ok(name) => {
                    self.machine = name;
                },
                Err(error) => {
                    return Err(ArgsError::Hostname(error));
                },
            }
        }
        if self.snapshot_prefix.as_str().is_empty() || has_slash(self.snapshot_prefix.as_str()) {
            return Err(ArgsError::Prefix);
        }
        if self.database_file.as_str().is_empty() {
            return Err(ArgsError::DatabaseFile);
        }
        match check_replicate(&self.replicate) {
            Ok(()) => Ok(()),
            Err((i, error)) => Err(ArgsError::Replicate(i, error)),
        }
    }

    /// Both directories are needed to take a snapshot.
    pub fn check_creation_requirements(&self) -> (checked: Result<(), MissingDirectory>)
        ensures
            checked is Err <==> self.source_dir@.len() == 0 || self.dest_dir@.len() == 0,
    {
        if self.source_dir.as_str().is_empty() || self.dest_dir.as_str().is_empty() {
            Err(MissingDirectory)
        } else {
            Ok(())
        }
    }

    /// A target given on the command line replaces the configured ones.
    pub fn use_target(&mut self)
        ensures
            match old(self).target {
                Some(target) => {
                    &&& final(self).replicate@.len() == 1
                    &&& final(self).replicate@[0].target@ == target@
                    &&& final(self).replicate@[0].keep is None
                    &&& final(self).replicate@[0].ssh_options@.len() == 0
                    &&& texts(final(self).replicate@[0].exclude@) == texts(old(self).exclude@)
                    &&& *final(self) == (Args { replicate: final(self).replicate, ..*old(self) })
                },
                None => *final(self) == *old(self),
            },
    {
        if let Some(target) = &self.target {
            let config: ReplicateConfig = ReplicateConfig {
                target: target.clone(),
                keep: None,
                ssh_options: Vec::new(),
                exclude: copy_strings(self.exclude.as_slice()),
            };
            self.replicate = vec![config];
        }
    }
}

impl ArgsError {
    /// Whether this is what is wrong with the options, as far as its message needs that.
    pub open spec fn is_of(self, args: Args) -> bool {
        self matches ArgsError::Replicate(i, error) ==> i < args.replicate@.len() && error.is_of(
            args.replicate@[i as int],
        )
    }

    /// What to say of options that are refused.
    pub fn message(&self, args: &Args, cwd: &WorkingDir) -> (message: String)
        requires
            self.is_of(*args),
        ensures
            message@ == args_error_text(*self, *args, *cwd),
    {
        match self {
            ArgsError::Source(error) => error.message(args.source_dir.as_str(), cwd),
            ArgsError::Destination(error) => error.message(args.dest_dir.as_str(), cwd),
            ArgsError::Hostname(error) => "failed to get the hostname: ".to_owned().concat(
                error.reason.as_str(),
            ),
            ArgsError::Prefix =>
                "the snapshot prefix must not be empty or contain '/'".to_owned(),
            ArgsError::DatabaseFile =>
                "the database file path (-d/--dfile) must not be empty".to_owned(),
            ArgsError::Replicate(i, error) => error.message(&args.replicate[*i]),
        }
    }
}

/// What to say of options that are refused.
pub open spec fn args_error_text(error: ArgsError, args: Args, cwd: WorkingDir) -> Seq<char> {
    match error {
        ArgsError::Source(error) => dir_error_text(error, args.source_dir@, cwd),
        ArgsError::Destination(error) => dir_error_text(error, args.dest_dir@, cwd),
        ArgsError::Hostname(error) => "failed to get the hostname: "@ + error.reason@,
        ArgsError::Prefix => "the snapshot prefix must not be empty or contain '/'"@,
        ArgsError::DatabaseFile => "the database file path (-d/--dfile) must not be empty"@,
        ArgsError::Replicate(i, error) => replication_error_text(error, args.replicate@[i as int]),
    }
}

/// The message that a refusal asks for can be given.
pub proof fn lemma_refusal_has_a_message(
    args: Args,
    cwd: WorkingDir,
    host: Result<String, HostnameUnreadable>,
)
    requires
        args.replicate@.len() <= usize::MAX,
    ensures
        args.fault(cwd, host) matches Some(error) ==> error.is_of(args),
{
    lemma_fault_section(args.replicate@);
}

/// What is wrong with the sections is wrong with one of them.
proof fn lemma_fault_section(configs: Seq<ReplicateConfig>)
    requires
        configs.len() <= usize::MAX,
    ensures
        replicate_fault(configs) matches Some((i, error)) ==> i < configs.len() && error.is_of(
            configs[i as int],
        ),
    decreases configs.len(),
{
    if configs.len() > 0 {
        lemma_fault_section(configs.drop_last());
    }
}

/// What becomes of the options when they are normalized.
pub open spec fn normalized(
    before: Args,
    after: Args,
    cwd: WorkingDir,
    host: Result<String, HostnameUnreadable>,
    done: Result<(), ArgsError>,
) -> bool {
    let fault = before.fault(cwd, host);
    &&& match done {
        Ok(()) => fault is None,
        Err(error) => fault == Some(error),
    }
    &&& after.source_dir@ == dir_after(before.source_dir@, cwd)
    &&& after.dest_dir@ == if fault matches Some(ArgsError::Source(_)) {
        before.dest_dir@
    } else {
        dir_after(before.dest_dir@, cwd)
    }
    &&& after.machine@ == match (fault, host) {
        (Some(ArgsError::Source(_)), _) => before.machine@,
        (Some(ArgsError::Destination(_)), _) => before.machine@,
        (_, Ok(name)) => if before.machine@.len() == 0 {
            name@
        } else {
            before.machine@
        },
        (_, Err(_)) => before.machine@,
    }
    &&& after == (Args {
        source_dir: after.source_dir,
        dest_dir: after.dest_dir,
        machine: after.machine,
        ..before
    })
}

fn has_slash(text: &str) -> (found: bool)
    ensures
        found == text@.contains('/'),
{
    let v: Vec<char> = chars_of(text);
    proof {
        text@.index_of_first_ensures('/');
    }
    find_first(&v, '/').is_some()
}

fn check_replicate(configs: &Vec<ReplicateConfig>) -> (checked: Result<
    (),
    (usize, ReplicationError),
>)
    ensures
        match checked {
            Ok(()) => replicate_fault(configs@) is None,
            Err(fault) => replicate_fault(configs@) == Some(fault),
        },
{
    let mut i: usize = 0;
    while i < configs.len()
        invariant
            i <= configs@.len(),
            replicate_fault(configs@.take(i as int)) is None,
        decreases configs@.len() - i,
    {
        proof {
            assert(configs@.take(i + 1).drop_last() =~= configs@.take(i as int));
            assert(configs@.take(i + 1).last() == configs@[i as int]);
        }
        match Replication::from_config(&configs[i]) {
            Ok(_) => {},
            Err(error) => {
                proof {
                    lemma_fault_stays(configs@, i + 1);
                }
                return Err((i, error));
            },
        }
        i += 1;
    }
    proof {
        assert(configs@.take(configs@.len() as int) =~= configs@);
    }
    Ok(())
}

/// What is wrong with the first sections is what is wrong with all of them.
proof fn lemma_fault_stays(configs: Seq<ReplicateConfig>, n: int)
    requires
        0 <= n <= configs.len(),
        replicate_fault(configs.take(n)) is Some,
    ensures
        replicate_fault(configs) == replicate_fault(configs.take(n)),
    decreases configs.len() - n,
{
    if n == configs.len() {
        assert(configs.take(n) =~= configs);
    } else {
        assert(configs.take(n + 1).drop_last() =~= configs.take(n));
        lemma_fault_stays(configs, n + 1);
    }
}

/// Normalizing accepted options a second time, from wherever, accepts them again and changes
/// nothing.
pub proof fn lemma_normalize_idempotent(
    first: Args,
    second: Args,
    third: Args,
    cwd: WorkingDir,
    later: WorkingDir,
    host: Result<String, HostnameUnreadable>,
    again: Result<(), ArgsError>,
)
    requires
        cwd matches WorkingDir::Known(base) ==> is_absolute(base@),
        normalized(first, second, cwd, host, Ok(())),
        normalized(second, third, later, host, again),
    ensures
        again is Ok,
        third.source_dir@ == second.source_dir@,
        third.dest_dir@ == second.dest_dir@,
        third.machine@ == second.machine@,
{
    lemma_normal_dir_idempotent(first.source_dir@, cwd, later);
    lemma_normal_dir_idempotent(first.dest_dir@, cwd, later);
    assert(first.fault(cwd, host) is None);
}

/// A snapshot was asked for without both directories.
#[derive(Debug, Clone, Copy, PartialEq, Eq, Structural)]
pub struct MissingDirectory;

impl MissingDirectory {
    /// What to say of it.
    pub fn message(&self) -> (message: String)
        ensures
            message@
                == "specify both the source (--from) and the destination (--to) directories before taking a snapshot"@,
    {
        "specify both the source (--from) and the destination (--to) directories before taking a snapshot".to_owned()
    }
}

/// What the file says about one option, against what is there already: an option that was given
/// explicitly stays, and so does one that the file lacks.
pub open spec fn merged<T, F: Fn(&str) -> bool>(
    value: Option<T>,
    id: &str,
    is_explicit: F,
    before: T,
    after: T,
) -> bool {
    match value {
        Some(value) => {
            ||| is_explicit.ensures((id,), true) && after == before
            ||| is_explicit.ensures((id,), false) && after == value
        },
        None => after == before,
    }
}

fn merge_option<T, F: Fn(&str) -> bool>(
    value: Option<T>,
    id: &str,
    is_explicit: &F,
    option: &mut T,
)
    requires
        is_explicit.requires((id,)),
    ensures
        merged(value, id, *is_explicit, *old(option), *final(option)),
{
    if let Some(value) = value {
        if !is_explicit(id) {
            *option = value;
        }
    }
}

impl Config {
    /// Whether the configuration file may hold an option of this name.
    pub open spec fn knows(key: Seq<char>) -> bool {
        ||| key == "dest_dir"@
        ||| key == "source_dir"@
        ||| key == "snapshot_prefix"@
        ||| key == "snapshot_kind"@
        ||| key == "database_file"@
        ||| key == "keep_only"@
        ||| key == "timeout"@
        ||| key == "machine"@
        ||| key == "replicate"@
    }

    /// Whether the configuration file may hold an option of this name.
    pub fn is_known(key: &str) -> (known: bool)
        ensures
            known == Config::knows(key@),
    {
        same_text(key, "dest_dir") || same_text(key, "source_dir") || same_text(
            key,
            "snapshot_prefix",
        ) || same_text(key, "snapshot_kind") || same_text(key, "database_file") || same_text(
            key,
            "keep_only",
        ) || same_text(key, "timeout") || same_text(key, "machine") || same_text(key, "replicate")
    }

    /// The names among `keys` that are no option, in their order.
    pub fn unknown_among(keys: &[String]) -> (unknown: Vec<String>)
        ensures
            texts(unknown@) == texts(keys@).filter(|key: Seq<char>| !Config::knows(key)),
    {
        let ghost strange = |key: Seq<char>| !Config::knows(key);
        let ghost all = texts(keys@);
        let mut unknown: Vec<String> = Vec::new();
        let mut i: usize = 0;
        proof {
            reveal(Seq::filter);
            assert(all.take(0).filter(strange) =~= Seq::empty());
            assert(texts(unknown@) =~= Seq::empty());
        }
        while i < keys.len()
            invariant
                i <= keys@.len(),
                all == texts(keys@),
                strange == (|key: Seq<char>| !Config::knows(key)),
                texts(unknown@) == all.take(i as int).filter(strange),
            decreases keys@.len() - i,
        {
            let ghost before = texts(unknown@);
            proof {
                reveal(Seq::filter);
                assert(all.take(i + 1).drop_last() =~= all.take(i as int));
                assert(all.take(i + 1).last() == keys@[i as int]@);
            }
            if !Config::is_known(keys[i].as_str()) {
                unknown.push(keys[i].clone());
                assert(texts(unknown@) =~= before.push(keys@[i as int]@));
            }
            i += 1;
        }
        assert(all.take(all.len() as int) =~= all);
        unknown
    }

    /// The names in the configuration file that are no option, or what is wrong with the file.
    /// What they are for given names is what [`Config::unknown_among`] says.
    pub fn unknown_keys(content: &str) -> (unknown: Result<Vec<String>, String>)
        ensures
            match (unknown, toml_keys(content@)) {
                (Ok(unknown), Ok(keys)) => texts(unknown@) == keys.filter(
                    |key: Seq<char>| !Config::knows(key),
                ),
                (Err(message), Err(error)) => message@ == error,
                (_, _) => false,
            },
    {
        match table_keys(content) {
            Ok(keys) => Ok(Config::unknown_among(keys.as_slice())),
            Err(message) => Err(message),
        }
    }

    /// Copy the values present in the file into `args`, except for the options where
    /// `is_explicit(<field name>)` is true (the user already set them on the command line).
    pub fn merge_into<F: Fn(&str) -> bool>(self, args: &mut Args, is_explicit: F)
        requires
            forall|id: &str| is_explicit.requires((id,)),
        ensures
            merged(
                self.dest_dir,
                "dest_dir",
                is_explicit,
                old(args).dest_dir,
                final(args).dest_dir,
            ),
            merged(
                self.source_dir,
                "source_dir",
                is_explicit,
                old(args).source_dir,
                final(args).source_dir,
            ),
            merged(
                self.snapshot_prefix,
                "snapshot_prefix",
                is_explicit,
                old(args).snapshot_prefix,
                final(args).snapshot_prefix,
            ),
            merged(
                self.snapshot_kind,
                "snapshot_kind",
                is_explicit,
                old(args).snapshot_kind,
                final(args).snapshot_kind,
            ),
            merged(
                self.database_file,
                "database_file",
                is_explicit,
                old(args).database_file,
                final(args).database_file,
            ),
            merged(
                self.keep_only,
                "keep_only",
                is_explicit,
                old(args).keep_only,
                final(args).keep_only,
            ),
            merged(self.timeout, "timeout", is_explicit, old(args).timeout, final(args).timeout),
            merged(self.machine, "machine", is_explicit, old(args).machine, final(args).machine),
            merged(
                self.replicate,
                "replicate",
                is_explicit,
                old(args).replicate,
                final(args).replicate,
            ),
            *final(args) == (Args {
                dest_dir: final(args).dest_dir,
                source_dir: final(args).source_dir,
                snapshot_prefix: final(args).snapshot_prefix,
                snapshot_kind: final(args).snapshot_kind,
                database_file: final(args).database_file,
                keep_only: final(args).keep_only,
                timeout: final(args).timeout,
                machine: final(args).machine,
                replicate: final(args).replicate,
                ..*old(args)
            }),
    {
        merge_option(self.dest_dir, "dest_dir", &is_explicit, &mut args.dest_dir);
        merge_option(self.source_dir, "source_dir", &is_explicit, &mut args.source_dir);
        merge_option(self.snapshot_prefix, "snapshot_prefix", &is_explicit, &mut args.snapshot_prefix);
        merge_option(self.snapshot_kind, "snapshot_kind", &is_explicit, &mut args.snapshot_kind);
        merge_option(self.database_file, "database_file", &is_explicit, &mut args.database_file);
        merge_option(self.keep_only, "keep_only", &is_explicit, &mut args.keep_only);
        merge_option(self.timeout, "timeout", &is_explicit, &mut args.timeout);
        merge_option(self.machine, "machine", &is_explicit, &mut args.machine);
        merge_option(self.replicate, "replicate", &is_explicit, &mut args.replicate);
    }
}

/// The names at the top level of a TOML document in the order of the parsed table, or what is
/// wrong with the document.
pub uninterp spec fn toml_keys(content: Seq<char>) -> Result<Seq<Seq<char>>, Seq<char>>;

/// The names at the top level of a TOML document.
///
/// Not proved here: `toml::from_str` reads the document into a `toml::Table`, whose keys come
/// back in the table's order, or its error comes back as the text that it displays. Both depend
/// on the document alone.
#[verifier::external_body]
fn table_keys(content: &str) -> (keys: Result<Vec<String>, String>)
    ensures
        match (keys, toml_keys(content@)) {
            (Ok(keys), Ok(named)) => texts(keys@) == named,
            (Err(message), Err(error)) => message@ == error,
            (_, _) => false,
        },
{
    match toml::from_str::<toml::Table>(content) {
        Ok(table) => Ok(table.keys().cloned().collect()),
        Err(error) => Err(error.to_string()),
    }
}

} // verus!
