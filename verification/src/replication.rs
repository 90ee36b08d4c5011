//! Replication targets: how they are written, and the commands that reach them.
//!
//! A replication target is a directory on a btrfs filesystem, local (an external disk) or on
//! another machine through ssh. Every replica that completed and was verified is recorded in the
//! `replicas` table, which is what makes incremental sends possible: the parent of a send is the
//! newest replica of the same source subvolume that still exists on both sides.
use crate::args::ReplicateConfig;
use crate::excludes::{
    exclude_error_text, exclude_fault, lemma_fault_entry, normal_excludes, ExcludeError,
};
pub use crate::excludes::{exclude_hash, normalize_excludes, staging_path, staging_root, Excluded};
use crate::shell::{
    all_quoted, all_safe, is_plain_command, lemma_shell_reads_back, quoted, shell_words,
};
pub use crate::shell::shell_quote;
pub use crate::sizes::human_size;
use crate::sizes::readable;
pub use crate::staging::{measure_excludes, remove_excludes};
use crate::structs::{Replica, ReplicaRecord, SnapshotRecord};
use crate::text::{
    chars_of, copy_strings, decimal, find_first, find_last, join, joined, lines, lines_of, numeral,
    parse_port, port_number, same_text, slices, text_option, texts, trim, trimmed,
};
use crate::utils::{strip_trailing_slash, stripped};
use vstd::prelude::*;

verus! {

/// Identity of a subvolume as reported by `btrfs subvolume show`.
#[derive(Debug, Clone, PartialEq, Eq)]
pub struct SubvolumeInfo {
    pub uuid: String,
    /// UUID of the subvolume this one was received from, if any.
    pub received_uuid: Option<String>,
}

/// The identity of a subvolume, as text.
#[verifier::ext_equal]
pub struct Identity {
    pub uuid: Seq<char>,
    pub received_uuid: Option<Seq<char>>,
}

impl View for SubvolumeInfo {
    type V = Identity;

    open spec fn view(&self) -> Identity {
        Identity { uuid: self.uuid@, received_uuid: text_option(self.received_uuid) }
    }
}

impl Identity {
    /// Whether this subvolume was received from `source`.
    pub open spec fn comes_from(self, source: Identity) -> bool {
        self.received_uuid == Some(source.uuid)
    }
}

impl SubvolumeInfo {
    /// Whether this subvolume was received from `source`.
    pub fn is_received_from(&self, source: &SubvolumeInfo) -> (yes: bool)
        ensures
            yes == self@.comes_from(source@),
    {
        match &self.received_uuid {
            Some(received) => same_text(received.as_str(), source.uuid.as_str()),
            None => false,
        }
    }
}

/// Where replicas go: a local directory or a directory on another host.
#[derive(Debug, Clone, PartialEq, Eq)]
pub enum Target {
    Local { path: String },
    Ssh { user_host: String, port: Option<u16>, path: String },
}

/// Where replicas go, as text.
pub enum Place {
    Local { path: Seq<char> },
    Ssh { user_host: Seq<char>, port: Option<u16>, path: Seq<char> },
}

impl View for Target {
    type V = Place;

    open spec fn view(&self) -> Place {
        match self {
            Target::Local { path } => Place::Local { path: path@ },
            Target::Ssh { user_host, port, path } => Place::Ssh {
                user_host: user_host@,
                port: *port,
                path: path@,
            },
        }
    }
}

impl Place {
    /// The directory that the replicas are in.
    pub open spec fn dir(self) -> Seq<char> {
        match self {
            Place::Local { path } => path,
            Place::Ssh { path, .. } => path,
        }
    }
}

/// Why a replication target is refused.
#[derive(Debug, Clone, Copy, PartialEq, Eq, Structural)]
pub enum TargetError {
    /// An ssh target without a path.
    SshWithoutPath,
    /// An ssh target with something else than a port number behind the last colon of its host.
    InvalidPort,
    /// An ssh target without a host, or whose path is the root directory.
    InvalidSsh,
    /// The root directory.
    RootDirectory,
    /// Neither an absolute path nor an ssh target.
    Unsupported,
}

/// The host of an ssh target and its port, from what stands before the path.
pub open spec fn host_and_port(host_part: Seq<char>) -> Result<
    (Seq<char>, Option<u16>),
    TargetError,
> {
    match host_part.index_of_last(':') {
        Some(colon) => {
            let port = host_part.skip(colon + 1);
            if port.len() == 0 {
                Ok((host_part, None))
            } else {
                match port_number(port) {
                    Some(number) => Ok((host_part.take(colon), Some(number))),
                    None => Err(TargetError::InvalidPort),
                }
            }
        },
        None => Ok((host_part, None)),
    }
}

/// The ssh target `[user@]host[:port]/path`.
pub open spec fn ssh_place(rest: Seq<char>) -> Result<Place, TargetError> {
    match rest.index_of_first('/') {
        Some(slash) => match host_and_port(rest.take(slash)) {
            Ok((user_host, port)) => {
                let path = stripped(rest.skip(slash));
                if user_host.len() == 0 || user_host.last() == '@' || path == "/"@ {
                    Err(TargetError::InvalidSsh)
                } else {
                    Ok(Place::Ssh { user_host, port, path })
                }
            },
            Err(error) => Err(error),
        },
        None => Err(TargetError::SshWithoutPath),
    }
}

/// The target that is written as `url`.
pub open spec fn place_of(url: Seq<char>) -> Result<Place, TargetError> {
    if "ssh://"@.is_prefix_of(url) {
        ssh_place(url.skip(6))
    } else if url.len() > 0 && url[0] == '/' {
        if stripped(url) == "/"@ {
            Err(TargetError::RootDirectory)
        } else {
            Ok(Place::Local { path: stripped(url) })
        }
    } else {
        Err(TargetError::Unsupported)
    }
}

/// The view of a result that holds a target.
pub open spec fn place_result(result: Result<Target, TargetError>) -> Result<Place, TargetError> {
    match result {
        Ok(target) => Ok(target@),
        Err(error) => Err(error),
    }
}

/// What stands behind `ssh://` in an ssh target.
fn after_scheme(url: &str) -> (rest: Option<&str>)
    ensures
        match rest {
            Some(rest) => "ssh://"@.is_prefix_of(url@) && rest@ == url@.skip(6),
            None => !"ssh://"@.is_prefix_of(url@),
        },
{
    let n: usize = url.unicode_len();
    proof {
        reveal_strlit("ssh://");
    }
    if n < 6 {
        return None;
    }
    let start: &str = url.substring_char(0, 6);
    if same_text(start, "ssh://") {
        proof {
            assert("ssh://"@ =~= url@.subrange(0, 6));
            assert(url@.subrange(6, n as int) =~= url@.skip(6));
        }
        Some(url.substring_char(6, n))
    } else {
        None
    }
}

/// The host and the port of an ssh target.
fn parse_host(host_part: &str) -> (found: Result<(&str, Option<u16>), TargetError>)
    ensures
        match found {
            Ok((user_host, port)) => host_and_port(host_part@) == Ok::<
                (Seq<char>, Option<u16>),
                TargetError,
            >((user_host@, port)),
            Err(error) => host_and_port(host_part@) == Err::<
                (Seq<char>, Option<u16>),
                TargetError,
            >(error),
        },
{
    let v: Vec<char> = chars_of(host_part);
    let n: usize = v.len();
    proof {
        host_part@.index_of_last_ensures(':');
    }
    match find_last(&v, ':') {
        Some(colon) => {
            let port: &str = host_part.substring_char(colon + 1, n);
            assert(port@ =~= host_part@.skip(colon + 1));
            if port.is_empty() {
                return Ok((host_part, None));
            }
            match parse_port(port) {
                Some(number) => {
                    let host: &str = host_part.substring_char(0, colon);
                    assert(host@ =~= host_part@.take(colon as int));
                    Ok((host, Some(number)))
                },
                None => Err(TargetError::InvalidPort),
            }
        },
        None => Ok((host_part, None)),
    }
}

/// An ssh target, from what stands behind its scheme.
fn parse_ssh(rest: &str) -> (target: Result<Target, TargetError>)
    ensures
        place_result(target) == ssh_place(rest@),
{
    let v: Vec<char> = chars_of(rest);
    let n: usize = v.len();
    proof {
        rest@.index_of_first_ensures('/');
    }
    match find_first(&v, '/') {
        Some(slash) => {
            let host_part: &str = rest.substring_char(0, slash);
            let tail: &str = rest.substring_char(slash, n);
            proof {
                assert(host_part@ =~= rest@.take(slash as int));
                assert(tail@ =~= rest@.skip(slash as int));
            }
            match parse_host(host_part) {
                Ok((user_host, port)) => {
                    let path: &str = strip_trailing_slash(tail);
                    let m: usize = user_host.unicode_len();
                    if m == 0 || user_host.get_char(m - 1) == '@' || same_text(path, "/") {
                        Err(TargetError::InvalidSsh)
                    } else {
                        Ok(
                            Target::Ssh {
                                user_host: user_host.to_owned(),
                                port,
                                path: path.to_owned(),
                            },
                        )
                    }
                },
                Err(error) => Err(error),
            }
        },
        None => Err(TargetError::SshWithoutPath),
    }
}

impl Target {
    /// Parse an absolute path or an `ssh://[user@]host[:port]/path` URL.
    pub fn parse(url: &str) -> (target: Result<Target, TargetError>)
        ensures
            place_result(target) == place_of(url@),
    {
        match after_scheme(url) {
            Some(rest) => parse_ssh(rest),
            None => {
                if url.unicode_len() > 0 && url.get_char(0) == '/' {
                    let path: &str = strip_trailing_slash(url);
                    if same_text(path, "/") {
                        Err(TargetError::RootDirectory)
                    } else {
                        Ok(Target::Local { path: path.to_owned() })
                    }
                } else {
                    Err(TargetError::Unsupported)
                }
            },
        }
    }

    /// Directory where the replicas are stored at the target side.
    #[must_use]
    pub fn path(&self) -> (path: &str)
        ensures
            path@ == self@.dir(),
    {
        match self {
            Target::Local { path } => path.as_str(),
            Target::Ssh { path, .. } => path.as_str(),
        }
    }
}

impl TargetError {
    /// What to say of the target `url` that is refused.
    pub fn message(&self, url: &str) -> (message: String)
        ensures
            message@ == target_error_text(*self, url@),
    {
        match self {
            TargetError::SshWithoutPath => "the ssh target '".to_owned().concat(url).concat(
                "' must include a path: ssh://[user@]host[:port]/path",
            ),
            TargetError::InvalidPort => "invalid port in the ssh target '".to_owned().concat(
                url,
            ).concat("'"),
            TargetError::InvalidSsh => "invalid ssh target '".to_owned().concat(url).concat(
                "': expected ssh://[user@]host[:port]/path",
            ),
            TargetError::RootDirectory =>
                "the replication target can't be the root directory".to_owned(),
            TargetError::Unsupported => "unsupported replication target '".to_owned().concat(
                url,
            ).concat("': use an absolute path or ssh://[user@]host[:port]/path"),
        }
    }
}

/// What to say of a target that is refused.
pub open spec fn target_error_text(error: TargetError, url: Seq<char>) -> Seq<char> {
    match error {
        TargetError::SshWithoutPath => "the ssh target '"@ + url
            + "' must include a path: ssh://[user@]host[:port]/path"@,
        TargetError::InvalidPort => "invalid port in the ssh target '"@ + url + "'"@,
        TargetError::InvalidSsh => "invalid ssh target '"@ + url
            + "': expected ssh://[user@]host[:port]/path"@,
        TargetError::RootDirectory => "the replication target can't be the root directory"@,
        TargetError::Unsupported => "unsupported replication target '"@ + url
            + "': use an absolute path or ssh://[user@]host[:port]/path"@,
    }
}

/// A configured replication target.
#[derive(Debug, Clone, PartialEq, Eq)]
pub struct Replication {
    /// The target as written in the configuration; it's the key used in the database.
    pub url: String,
    pub target: Target,
    /// Replicas to keep per kind at the target. `None` never deletes anything there.
    pub keep: Option<usize>,
    /// Extra options for `ssh`, such as `-i /root/.ssh/backup_key`.
    pub ssh_options: Vec<String>,
    /// Paths left out of the replicas, relative to the root of the source subvolume, normalized
    /// and sorted. Empty means the snapshots are sent as they are.
    pub exclude: Vec<String>,
}

/// Result of one send.
#[derive(Debug, Clone, Copy, PartialEq, Eq)]
pub struct Transfer {
    pub bytes: u64,
    /// How long it took, in nanoseconds.
    pub elapsed: u128,
}

/// Why a configured replication is refused.
#[derive(Debug, Clone, Copy, PartialEq, Eq, Structural)]
pub enum ReplicationError {
    /// The target can't be parsed.
    Target(TargetError),
    /// No replica would be kept.
    KeepZero,
    /// The exclude list is not usable.
    Exclude(ExcludeError),
}

/// Why a configured replication is refused, if it is.
pub open spec fn replication_fault(config: ReplicateConfig) -> Option<ReplicationError> {
    match place_of(config.target@) {
        Err(error) => Some(ReplicationError::Target(error)),
        Ok(_) => if config.keep == Some(0usize) {
            Some(ReplicationError::KeepZero)
        } else {
            match exclude_fault(texts(config.exclude@)) {
                Some(error) => Some(ReplicationError::Exclude(error)),
                None => None,
            }
        },
    }
}

impl ReplicationError {
    /// Whether this is what is wrong with a section.
    pub open spec fn is_of(self, config: ReplicateConfig) -> bool {
        replication_fault(config) == Some(self)
    }

    /// What to say of a section that is refused.
    pub fn message(&self, config: &ReplicateConfig) -> (message: String)
        requires
            self.is_of(*config),
        ensures
            message@ == replication_error_text(*self, *config),
    {
        match *self {
            ReplicationError::Target(error) => error.message(config.target.as_str()),
            ReplicationError::KeepZero => "replicate.keep must be at least 1 for ".to_owned().concat(
                config.target.as_str(),
            ).concat(" (the newest replica is the parent of the next incremental send)"),
            ReplicationError::Exclude(error) => {
                let count: usize = config.exclude.len();
                proof {
                    assert(texts(config.exclude@).len() == count);
                    lemma_fault_entry(texts(config.exclude@));
                }
                error.message(config.exclude.as_slice())
            },
        }
    }
}

/// What to say of a section that is refused.
pub open spec fn replication_error_text(
    error: ReplicationError,
    config: ReplicateConfig,
) -> Seq<char> {
    match error {
        ReplicationError::Target(error) => target_error_text(error, config.target@),
        ReplicationError::KeepZero => "replicate.keep must be at least 1 for "@ + config.target@
            + " (the newest replica is the parent of the next incremental send)"@,
        ReplicationError::Exclude(error) => exclude_error_text(error, texts(config.exclude@)),
    }
}

/// The command that `command` becomes when it is run at the target.
pub open spec fn target_command(
    place: Place,
    ssh_options: Seq<Seq<char>>,
    command: Seq<Seq<char>>,
    as_root: bool,
) -> Seq<Seq<char>> {
    match place {
        Place::Local { .. } => command,
        Place::Ssh { user_host, port, .. } => {
            seq!["ssh"@, "-o"@, "BatchMode=yes"@] + (match port {
                Some(port) => seq!["-p"@, numeral(port as nat)],
                None => Seq::<Seq<char>>::empty(),
            }) + ssh_options + seq![user_host, "--"@, remote_command(command, as_root)]
        },
    }
}

/// The words that go before a command that needs root at the other end of an ssh connection.
pub open spec fn sudo(as_root: bool) -> Seq<Seq<char>> {
    if as_root {
        seq!["sudo"@, "-n"@]
    } else {
        Seq::empty()
    }
}

/// A command as it is handed to the shell at the other end of an ssh connection.
pub open spec fn remote_command(command: Seq<Seq<char>>, as_root: bool) -> Seq<char> {
    joined(sudo(as_root) + all_quoted(command), " "@)
}

impl Replication {
    /// Build a replication from its configuration.
    pub fn from_config(config: &ReplicateConfig) -> (built: Result<Replication, ReplicationError>)
        ensures
            match built {
                Ok(replication) => {
                    &&& replication_fault(*config) is None
                    &&& replication.url@ == config.target@
                    &&& place_of(config.target@) == Ok::<Place, TargetError>(replication.target@)
                    &&& replication.keep == config.keep
                    &&& texts(replication.ssh_options@) == texts(config.ssh_options@)
                    &&& texts(replication.exclude@) == normal_excludes(texts(config.exclude@))
                },
                Err(error) => replication_fault(*config) == Some(error),
            },
    {
        let target: Target = match Target::parse(config.target.as_str()) {
            Ok(target) => target,
            Err(error) => {
                return Err(ReplicationError::Target(error));
            },
        };
        if let Some(keep) = config.keep {
            if keep == 0 {
                return Err(ReplicationError::KeepZero);
            }
        }
        match normalize_excludes(config.exclude.as_slice()) {
            Ok(exclude) => Ok(
                Replication {
                    url: config.target.clone(),
                    target,
                    keep: config.keep,
                    ssh_options: copy_strings(config.ssh_options.as_slice()),
                    exclude,
                },
            ),
            Err(error) => Err(ReplicationError::Exclude(error)),
        }
    }

    /// Program and arguments that run `command` at the target side.
    ///
    /// Locally the command runs as is (rusnapshot already runs as root). Over ssh, commands
    /// that need root (`as_root`) are run through `sudo -n`, so the ssh user must be able to
    /// sudo without a password; the rest run as the ssh user.
    #[must_use]
    pub fn command_line(&self, command: &[String], as_root: bool) -> (line: Vec<String>)
        ensures
            texts(line@) == target_command(
                self.target@,
                texts(self.ssh_options@),
                texts(command@),
                as_root,
            ),
    {
        match &self.target {
            Target::Local { .. } => copy_strings(command),
            Target::Ssh { user_host, port, .. } => {
                let mut line: Vec<String> = vec![
                    "ssh".to_owned(),
                    "-o".to_owned(),
                    "BatchMode=yes".to_owned(),
                ];
                let ghost start = seq!["ssh"@, "-o"@, "BatchMode=yes"@];
                assert(texts(line@) =~= start);
                let ghost ports = match port {
                    Some(port) => seq!["-p"@, numeral(*port as nat)],
                    None => Seq::<Seq<char>>::empty(),
                };
                if let Some(port) = port {
                    line.push("-p".to_owned());
                    line.push(decimal(*port as u64));
                }
                assert(texts(line@) =~= start + ports);
                let mut options: Vec<String> = copy_strings(self.ssh_options.as_slice());
                let ghost extra = texts(options@);
                let ghost so_far = line@;
                let ghost added = options@;
                line.append(&mut options);
                proof {
                    assert(line@ =~= so_far + added);
                    assert(texts(line@) =~= start + ports + extra);
                }
                let remote: String = run_remotely(command, as_root);
                line.push(user_host.clone());
                line.push("--".to_owned());
                line.push(remote);
                proof {
                    assert(texts(line@) =~= start + ports + extra + seq![
                        user_host@,
                        "--"@,
                        remote@,
                    ]);
                }
                line
            },
        }
    }

    /// Path of the replica of `name` at the target.
    #[must_use]
    pub fn subvolume_path(&self, name: &str) -> (path: String)
        ensures
            path@ == self.target@.dir() + "/"@ + name@,
    {
        self.target.path().to_owned().concat("/").concat(name)
    }
}

/// A command as it is handed to the shell at the other end of an ssh connection.
fn run_remotely(command: &[String], as_root: bool) -> (remote: String)
    ensures
        remote@ == remote_command(texts(command@), as_root),
{
    let mut words: Vec<String> = Vec::new();
    if as_root {
        words.push("sudo".to_owned());
        words.push("-n".to_owned());
    }
    let ghost start = sudo(as_root);
    let ghost wanted = all_quoted(texts(command@));
    proof {
        assert(texts(words@) =~= start);
        assert(start + wanted.take(0) =~= start);
    }
    let mut i: usize = 0;
    while i < command.len()
        invariant
            i <= command@.len(),
            wanted == all_quoted(texts(command@)),
            texts(words@) == start + wanted.take(i as int),
        decreases command@.len() - i,
    {
        let ghost before = texts(words@);
        let word: String = shell_quote(command[i].as_str());
        let ghost shown = word@;
        words.push(word);
        proof {
            assert(wanted[i as int] == shown);
            assert(texts(words@) =~= before.push(shown));
            assert(before.push(shown) =~= start + wanted.take(i + 1));
        }
        i += 1;
    }
    proof {
        assert(wanted.take(wanted.len() as int) =~= wanted);
    }
    join(words.as_slice(), " ")
}

/// The shell at the other end of an ssh connection reads exactly the words of the command, with
/// `sudo -n` before them if the command needs root, and nothing else.
pub proof fn lemma_remote_command_read_back(command: Seq<Seq<char>>, as_root: bool)
    ensures
        shell_words(remote_command(command, as_root)) == sudo(as_root) + command,
        is_plain_command(remote_command(command, as_root)),
{
    let words = sudo(as_root) + command;
    reveal_strlit("sudo");
    reveal_strlit("-n");
    assert(all_safe("sudo"@));
    assert(all_safe("-n"@));
    assert(all_quoted(words) =~= sudo(as_root) + all_quoted(command));
    lemma_shell_reads_back(words);
}

/// The command that says at the target whether something is at `path`. The exit code of `test -e`
/// alone can't be told apart from a broken ssh, so the answer is printed.
pub open spec fn exists_command(path: Seq<char>) -> Seq<Seq<char>> {
    seq!["sh"@, "-c"@, "test -e "@ + quoted(path) + " && echo yes || echo no"@]
}

/// The command that says at the target whether something is at `path`.
pub fn exists_args(path: &str) -> (args: Vec<String>)
    ensures
        texts(args@) == exists_command(path@),
{
    let place: String = shell_quote(path);
    let script: String = "test -e ".to_owned().concat(place.as_str()).concat(
        " && echo yes || echo no",
    );
    let args: Vec<String> = vec!["sh".to_owned(), "-c".to_owned(), script];
    assert(texts(args@) =~= exists_command(path@));
    args
}

/// Whatever the path, the shell at the target is handed one script, in which the path is the one
/// argument of `test -e`.
pub proof fn lemma_exists_command_read_back(path: Seq<char>)
    ensures
        shell_words(remote_command(exists_command(path), false)) == exists_command(path),
        exists_command(path)[2] == "test -e "@ + quoted(path) + " && echo yes || echo no"@,
        shell_words("test -e "@ + quoted(path)) == seq!["test"@, "-e"@, path],
        is_plain_command("test -e "@ + quoted(path)),
{
    lemma_remote_command_read_back(exists_command(path), false);
    assert(sudo(false) + exists_command(path) =~= exists_command(path));
    reveal_strlit("test -e ");
    reveal_strlit("test");
    reveal_strlit("-e");
    reveal_strlit(" ");
    let words = seq!["test"@, "-e"@, path];
    assert(all_safe("test"@));
    assert(all_safe("-e"@));
    let written = all_quoted(words);
    assert(written =~= seq!["test"@, "-e"@, quoted(path)]);
    assert(written.drop_last() =~= seq!["test"@, "-e"@]);
    assert(written.drop_last().drop_last() =~= seq!["test"@]);
    reveal_with_fuel(joined, 3);
    assert(joined(written, " "@) =~= "test -e "@ + quoted(path));
    lemma_shell_reads_back(words);
}

/// What the target answered, if that can be told: whether something is at the path.
pub fn exists_reply(output: &str) -> (reply: Option<bool>)
    ensures
        reply == if trimmed(output@) == "yes"@ {
            Some(true)
        } else if trimmed(output@) == "no"@ {
            Some(false)
        } else {
            None
        },
{
    proof {
        reveal_strlit("yes");
        reveal_strlit("no");
        assert("yes"@.len() != "no"@.len());
    }
    let answer: &str = trim(output);
    if same_text(answer, "yes") {
        Some(true)
    } else if same_text(answer, "no") {
        Some(false)
    } else {
        None
    }
}

/// What to say of a target that gave no answer.
pub fn no_reply_message(path: &str, url: &str, error: &str) -> (message: String)
    ensures
        message@ == "could not check "@ + path@ + " at "@ + url@ + ": "@ + trimmed(error@),
{
    let reason: &str = trim(error);
    "could not check ".to_owned().concat(path).concat(" at ").concat(url).concat(": ").concat(
        reason,
    )
}

/// The command that shows the subvolume at `path`.
pub fn show_args(path: &str) -> (args: Vec<String>)
    ensures
        texts(args@) == seq!["btrfs"@, "subvolume"@, "show"@, path@],
{
    let args: Vec<String> = vec![
        "btrfs".to_owned(),
        "subvolume".to_owned(),
        "show".to_owned(),
        path.to_owned(),
    ];
    assert(texts(args@) =~= seq!["btrfs"@, "subvolume"@, "show"@, path@]);
    args
}

/// The command that writes the data of the filesystem at `path` to its disk.
pub fn sync_args(path: &str) -> (args: Vec<String>)
    ensures
        texts(args@) == seq!["btrfs"@, "filesystem"@, "sync"@, path@],
{
    let args: Vec<String> = vec![
        "btrfs".to_owned(),
        "filesystem".to_owned(),
        "sync".to_owned(),
        path.to_owned(),
    ];
    assert(texts(args@) =~= seq!["btrfs"@, "filesystem"@, "sync"@, path@]);
    args
}

/// The command that deletes the subvolume at `path`.
pub fn remove_args(path: &str) -> (args: Vec<String>)
    ensures
        texts(args@) == seq!["btrfs"@, "subvolume"@, "delete"@, path@],
{
    let args: Vec<String> = vec![
        "btrfs".to_owned(),
        "subvolume".to_owned(),
        "delete".to_owned(),
        path.to_owned(),
    ];
    assert(texts(args@) =~= seq!["btrfs"@, "subvolume"@, "delete"@, path@]);
    args
}

/// The UUIDs that the lines of `btrfs subvolume show` give: that of the subvolume and that of
/// the one it was received from. Of repeated lines the last counts.
pub open spec fn shown(list: Seq<Seq<char>>) -> (Option<Seq<char>>, Option<Seq<char>>)
    decreases list.len(),
{
    if list.len() == 0 {
        (None, None)
    } else {
        let (uuid, received) = shown(list.drop_last());
        let line = list.last();
        match line.index_of_first(':') {
            Some(colon) => {
                let key = trimmed(line.take(colon));
                let value = trimmed(line.skip(colon + 1));
                if key == "UUID"@ {
                    (Some(value), received)
                } else if key == "Received UUID"@ {
                    (
                        uuid,
                        if value.len() > 0 && value != "-"@ {
                            Some(value)
                        } else {
                            None
                        },
                    )
                } else {
                    (uuid, received)
                }
            },
            None => (uuid, received),
        }
    }
}

/// The output of `btrfs subvolume show` has no `UUID:` line.
#[derive(Debug, Clone, Copy, PartialEq, Eq, Structural)]
pub struct NoUuid;

impl NoUuid {
    /// What to say of it.
    pub fn message(&self) -> (message: String)
        ensures
            message@ == "could not find the UUID in the output of 'btrfs subvolume show'"@,
    {
        "could not find the UUID in the output of 'btrfs subvolume show'".to_owned()
    }
}

/// The key and the value of a line, if it has a colon.
fn key_and_value(line: &str) -> (pair: Option<(&str, &str)>)
    ensures
        match pair {
            Some((key, value)) => {
                &&& line@.index_of_first(':') is Some
                &&& key@ == trimmed(line@.take(line@.index_of_first(':')->0))
                &&& value@ == trimmed(line@.skip(line@.index_of_first(':')->0 + 1))
            },
            None => line@.index_of_first(':') is None,
        },
{
    let v: Vec<char> = chars_of(line);
    let n: usize = v.len();
    proof {
        line@.index_of_first_ensures(':');
    }
    match find_first(&v, ':') {
        Some(colon) => {
            let key: &str = line.substring_char(0, colon);
            let value: &str = line.substring_char(colon + 1, n);
            proof {
                assert(key@ =~= line@.take(colon as int));
                assert(value@ =~= line@.skip(colon + 1));
            }
            Some((trim(key), trim(value)))
        },
        None => None,
    }
}

/// Extract the UUIDs from the output of `btrfs subvolume show`.
pub fn parse_subvolume_show(output: &str) -> (info: Result<SubvolumeInfo, NoUuid>)
    ensures
        match info {
            Ok(info) => shown(lines_of(output@)) == (Some(info@.uuid), info@.received_uuid),
            Err(_) => shown(lines_of(output@)).0 is None,
        },
{
    let list: Vec<&str> = lines(output);
    let ghost all = lines_of(output@);
    let mut uuid: Option<String> = None;
    let mut received_uuid: Option<String> = None;
    let mut i: usize = 0;
    proof {
        assert(all.take(0) =~= Seq::<Seq<char>>::empty());
    }
    while i < list.len()
        invariant
            i <= list@.len(),
            all == lines_of(output@),
            all == slices(list@),
            shown(all.take(i as int)) == (text_option(uuid), text_option(received_uuid)),
        decreases list@.len() - i,
    {
        proof {
            assert(all.take(i + 1).drop_last() =~= all.take(i as int));
            assert(all.take(i + 1).last() == list@[i as int]@);
        }
        if let Some((key, value)) = key_and_value(list[i]) {
            if same_text(key, "UUID") {
                uuid = Some(value.to_owned());
            } else if same_text(key, "Received UUID") {
                received_uuid = if !value.is_empty() && !same_text(value, "-") {
                    Some(value.to_owned())
                } else {
                    None
                };
            }
        }
        i += 1;
    }
    proof {
        assert(all.take(all.len() as int) =~= all);
    }
    match uuid {
        Some(uuid) => Ok(SubvolumeInfo { uuid, received_uuid }),
        None => Err(NoUuid),
    }
}

/// How a snapshot is sent, given the replica that it is sent from.
pub fn describe_parent(parent: Option<&ReplicaRecord>) -> (text: String)
    ensures
        text@ == match parent {
            Some(parent) => "incremental from "@ + parent.name@,
            None => "full send"@,
        },
{
    match parent {
        Some(parent) => "incremental from ".to_owned().concat(parent.name.as_str()),
        None => "full send".to_owned(),
    }
}

/// What is said of the paths left out of what is sent.
pub fn describe_excluded(replication: &Replication, excluded: Option<Excluded>) -> (text: String)
    ensures
        text@ == if replication.exclude@.len() == 0 {
            ""@
        } else {
            match excluded {
                Some(excluded) => ", excluding "@ + numeral(excluded.paths as nat) + " path(s), "@
                    + readable(excluded.bytes as nat),
                None => ", filtered copy reused"@,
            }
        },
{
    if replication.exclude.len() == 0 {
        return "".to_owned();
    }
    match excluded {
        Some(excluded) => {
            let paths: String = decimal(excluded.paths as u64);
            let size: String = human_size(excluded.bytes);
            ", excluding ".to_owned().concat(paths.as_str()).concat(" path(s), ").concat(
                size.as_str(),
            )
        },
        None => ", filtered copy reused".to_owned(),
    }
}

/// The replica of a snapshot that was sent from `path`.
pub fn record(
    snapshot: &SnapshotRecord,
    path: &str,
    replication: &Replication,
    parent_name: Option<String>,
) -> (replica: ReplicaRecord)
    ensures
        replica@ == (Replica {
            name: snapshot@.name,
            snap_id: snapshot@.snap_id,
            target: replication.url@,
            local_path: path@,
            source: snapshot@.source,
            kind: snapshot@.kind,
            machine: snapshot@.machine,
            snapshot_date: snapshot@.date,
            parent_name: text_option(parent_name),
            date: ""@,
        }),
{
    ReplicaRecord {
        name: snapshot.name.clone(),
        snap_id: snapshot.snap_id.clone(),
        target: replication.url.clone(),
        local_path: path.to_owned(),
        source: snapshot.source.clone(),
        kind: snapshot.kind.clone(),
        machine: snapshot.machine.clone(),
        snapshot_date: snapshot.date.clone(),
        parent_name,
        date: "".to_owned(),
    }
}

} // verus!
