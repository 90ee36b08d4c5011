//! How directories and names are written, and what makes options acceptable, said for every way
//! of writing them.
use crate::args::{merged, normalized, replicate_fault, Args, ArgsError, Config, ReplicateConfig};
use crate::excludes::{exclude_fault, normal_excludes};
use crate::paths::{
    below, counts, file_name, is_absolute, leading_part, named_parts, part_of, parts_of, Part,
};
use crate::replication::{
    exists_command, place_of, replication_fault, Place, Replication, ReplicationError, TargetError,
};
use crate::restoring::{is_built_from, same_section};
use crate::shell::quoted;
use crate::text::{split_at_each, texts};
use crate::text_laws::{lemma_joining, lemma_split_gives_back, lemma_splitting};
use crate::utils::{normal_dir, DirError, HostnameUnreadable, WorkingDir};
use vstd::prelude::*;

verus! {

/// A path below a directory follows it behind one slash, and a path from the root directory stands
/// for itself.
pub proof fn lemma_paths_below(base: Seq<char>, tail: Seq<char>)
    ensures
        tail.len() > 0 && tail[0] == '/' ==> below(base, tail) == tail,
        !(tail.len() > 0 && tail[0] == '/') ==> {
            &&& base.len() == 0 ==> below(base, tail) == tail
            &&& base.len() > 0 && base.last() == '/' ==> below(base, tail) == base + tail
            &&& base.len() > 0 && base.last() != '/' ==> below(base, tail) == base.push('/') + tail
        },
{
    reveal_strlit("/");
    if base.len() == 0 {
        assert(base + tail =~= tail);
    }
    assert(base + "/"@ =~= base.push('/'));
}

/// Directories are stored from the root directory on and with a slash at their end: a directory
/// that starts there gets the slash if it has none, and any other one is found below the current
/// directory.
pub proof fn lemma_stored_directories(dir: Seq<char>, base: Seq<char>, cwd: WorkingDir)
    requires
        dir.len() > 0,
        cwd matches WorkingDir::Known(known) ==> known@ == base && base.len() > 0,
    ensures
        dir[0] == '/' && dir.last() == '/' ==> normal_dir(dir, cwd) == Ok::<Seq<char>, DirError>(
            dir,
        ),
        dir[0] == '/' && dir.last() != '/' ==> normal_dir(dir, cwd) == Ok::<Seq<char>, DirError>(
            dir.push('/'),
        ),
        dir[0] != '/' && cwd is Unreadable ==> normal_dir(dir, cwd) == Err::<Seq<char>, DirError>(
            DirError::CurrentDirUnreadable,
        ),
        dir[0] != '/' && cwd is NotUnicode ==> normal_dir(dir, cwd) == Err::<Seq<char>, DirError>(
            DirError::NotUnicode,
        ),
        dir[0] != '/' && cwd is Known ==> {
            let start = if base.last() == '/' {
                base
            } else {
                base.push('/')
            };
            normal_dir(dir, cwd) == Ok::<Seq<char>, DirError>(
                if dir.last() == '/' {
                    start + dir
                } else {
                    (start + dir).push('/')
                },
            )
        },
{
    reveal_strlit("/");
    lemma_paths_below(base, dir);
    assert(dir + "/"@ =~= dir.push('/'));
    let path = below(base, dir);
    assert(path + "/"@ =~= path.push('/'));
}

proof fn lemma_split_behind(a: Seq<char>, b: Seq<char>)
    requires
        !b.contains('/'),
    ensures
        split_at_each(a.push('/') + b, '/') == split_at_each(a, '/').push(b),
{
    let list = split_at_each(a, '/').push(b);
    lemma_splitting(a, '/');
    lemma_joining(split_at_each(a, '/'), seq![b], b, seq!['/']);
    assert(list =~= split_at_each(a, '/') + seq![b]);
    assert(a + seq!['/'] + b =~= a.push('/') + b);
    assert forall|i: int| 0 <= i < list.len() implies !(#[trigger] list[i]).contains('/') by {
        if i < split_at_each(a, '/').len() {
            assert(list[i] == split_at_each(a, '/')[i]);
        }
    }
    lemma_split_gives_back(list, '/');
}

proof fn lemma_leading(a: Seq<char>, b: Seq<char>)
    requires
        !b.contains('/'),
        a.len() > 0,
    ensures
        leading_part(a.push('/') + b) == leading_part(a),
{
    lemma_split_behind(a, b);
    lemma_splitting(a, '/');
    assert((a.push('/') + b)[0] == a[0]);
}

/// The parts of a path and a slash with something behind them are the parts of the path, and what
/// is behind the slash as one more: nothing if that is empty or a single dot, the parent directory
/// if it is two dots, and that name if it is anything else.
pub proof fn lemma_parts_behind(path: Seq<char>, name: Seq<char>)
    requires
        path.len() > 0,
        !name.contains('/'),
    ensures
        parts_of(path.push('/') + name) == if name.len() == 0 || name == seq!['.'] {
            parts_of(path)
        } else if name == seq!['.', '.'] {
            parts_of(path).push(Part::Parent)
        } else {
            parts_of(path).push(Part::Normal(name))
        },
{
    reveal_strlit("");
    reveal_strlit(".");
    reveal_strlit("..");
    assert(""@ =~= Seq::<char>::empty());
    assert("."@ =~= seq!['.']);
    assert(".."@ =~= seq!['.', '.']);
    if name.len() == 0 {
        assert(name =~= ""@);
    }
    lemma_split_behind(path, name);
    lemma_leading(path, name);
    let pieces = split_at_each(path, '/').push(name);
    assert(pieces.drop_last() =~= split_at_each(path, '/'));
    assert(pieces.last() == name);
    assert(parts_of(path.push('/') + name) =~= leading_part(path) + named_parts(pieces));
    assert(leading_part(path) + named_parts(split_at_each(path, '/')).push(part_of(name))
        =~= parts_of(path).push(part_of(name)));
}

/// The parts of what has no slash, and of the root directory.
pub proof fn lemma_single_parts(name: Seq<char>)
    requires
        !name.contains('/'),
    ensures
        parts_of(name) == if name.len() == 0 {
            Seq::<Part>::empty()
        } else if name == seq!['.'] {
            seq![Part::Current]
        } else if name == seq!['.', '.'] {
            seq![Part::Parent]
        } else {
            seq![Part::Normal(name)]
        },
        parts_of(seq!['/'] + name) == if name.len() == 0 || name == seq!['.'] {
            seq![Part::Root]
        } else if name == seq!['.', '.'] {
            seq![Part::Root, Part::Parent]
        } else {
            seq![Part::Root, Part::Normal(name)]
        },
{
    reveal_strlit("");
    reveal_strlit(".");
    reveal_strlit("..");
    assert(""@ =~= Seq::<char>::empty());
    assert("."@ =~= seq!['.']);
    assert(".."@ =~= seq!['.', '.']);
    if name.len() == 0 {
        assert(name =~= ""@);
    }
    lemma_joining(Seq::empty(), Seq::empty(), name, seq!['/']);
    lemma_split_gives_back(seq![name], '/');
    assert(split_at_each(name, '/') == seq![name]);
    if is_absolute(name) {
        assert(name.contains(name[0]));
    }
    reveal_with_fuel(named_parts, 3);
    assert(seq![name].drop_last() =~= Seq::<Seq<char>>::empty());
    assert(named_parts(seq![name]) =~= if counts(name) {
        seq![part_of(name)]
    } else {
        Seq::empty()
    });
    assert(parts_of(name) =~= leading_part(name) + named_parts(seq![name]));
    let none = Seq::<char>::empty();
    lemma_joining(Seq::empty(), Seq::empty(), none, seq!['/']);
    lemma_split_gives_back(seq![none], '/');
    assert(none.push('/') + name =~= seq!['/'] + name);
    lemma_split_behind(none, name);
    let pieces = split_at_each(seq!['/'] + name, '/');
    assert(pieces =~= seq![none, name]);
    assert(pieces.drop_last() =~= seq![none]);
    assert(seq![none].drop_last() =~= Seq::<Seq<char>>::empty());
    assert(!counts(none));
    assert(named_parts(seq![none]) =~= Seq::empty());
    assert(named_parts(pieces) =~= if counts(name) {
        seq![part_of(name)]
    } else {
        Seq::empty()
    });
    assert(parts_of(seq!['/'] + name) =~= seq![Part::Root] + named_parts(pieces));
}

/// A path ends with the name behind its last slash. Slashes and single dots behind it make no
/// difference, and a path that ends with the root directory or two dots ends with no name.
pub proof fn lemma_last_names(path: Seq<char>, name: Seq<char>)
    requires
        !name.contains('/'),
    ensures
        name.len() > 0 && name != seq!['.'] && name != seq!['.', '.'] ==> {
            &&& file_name(name) == Some(name)
            &&& file_name(seq!['/'] + name) == Some(name)
            &&& path.len() > 0 ==> file_name(path.push('/') + name) == Some(name)
        },
        path.len() > 0 ==> file_name(path.push('/')) == file_name(path),
        path.len() > 0 ==> file_name(path.push('/').push('.')) == file_name(path),
        path.len() > 0 ==> file_name(path.push('/') + seq!['.', '.']) is None,
        file_name(Seq::empty()) is None,
        file_name(seq!['/']) is None,
        file_name(seq!['.']) is None,
        file_name(seq!['.', '.']) is None,
{
    let none = Seq::<char>::empty();
    lemma_single_parts(name);
    lemma_single_parts(none);
    lemma_single_parts(seq!['.']);
    lemma_single_parts(seq!['.', '.']);
    assert(seq!['/'] + none =~= seq!['/']);
    if path.len() > 0 {
        lemma_parts_behind(path, name);
        lemma_parts_behind(path, none);
        lemma_parts_behind(path, seq!['.']);
        lemma_parts_behind(path, seq!['.', '.']);
        assert(path.push('/') + none =~= path.push('/'));
        assert(path.push('/') + seq!['.'] =~= path.push('/').push('.'));
    }
}

/// Whether a directory can't be found: it is not one from the root directory on, and the current
/// one is not known.
pub open spec fn is_lost(dir: Seq<char>, cwd: WorkingDir) -> bool {
    dir.len() > 0 && dir[0] != '/' && !(cwd is Known)
}

/// What is wrong with a directory that can't be found.
pub open spec fn loss(cwd: WorkingDir) -> DirError {
    if cwd is Unreadable {
        DirError::CurrentDirUnreadable
    } else {
        DirError::NotUnicode
    }
}

/// Options are refused for the first of these that holds, in this order, and for nothing else: the
/// source directory or the destination can't be found, there is no machine name, the prefix is
/// empty or holds a slash, there is no database file, and a section is refused.
pub proof fn lemma_why_options_are_refused(
    args: Args,
    cwd: WorkingDir,
    host: Result<String, HostnameUnreadable>,
)
    requires
        args.replicate@.len() <= usize::MAX,
    ensures
        ({
            let fault = args.fault(cwd, host);
            let prefix = args.snapshot_prefix@;
            if is_lost(args.source_dir@, cwd) {
                fault == Some(ArgsError::Source(loss(cwd)))
            } else if is_lost(args.dest_dir@, cwd) {
                fault == Some(ArgsError::Destination(loss(cwd)))
            } else if args.machine@.len() == 0 && host is Err {
                fault == Some(ArgsError::Hostname(host->Err_0))
            } else if prefix.len() == 0 || exists|i: int|
                0 <= i < prefix.len() && prefix[i] == '/' {
                fault == Some(ArgsError::Prefix)
            } else if args.database_file@.len() == 0 {
                fault == Some(ArgsError::DatabaseFile)
            } else {
                &&& (forall|i: int|
                    0 <= i < args.replicate@.len() ==> replication_fault(
                        #[trigger] args.replicate@[i],
                    ) is None) ==> fault is None
                &&& forall|i: int|
                    0 <= i < args.replicate@.len() && (forall|j: int|
                        0 <= j < i ==> replication_fault(
                            #[trigger] args.replicate@[j],
                        ) is None) ==> (replication_fault(#[trigger] args.replicate@[i]) matches Some(
                        error,
                    ) ==> fault == Some(ArgsError::Replicate(i as usize, error)))
            }
        }),
{
    let configs = args.replicate@;
    if forall|i: int| 0 <= i < configs.len() ==> replication_fault(#[trigger] configs[i]) is None {
        lemma_no_fault(configs);
    }
    assert forall|i: int|
        0 <= i < configs.len() && (forall|j: int|
            0 <= j < i ==> replication_fault(#[trigger] configs[j]) is None) && replication_fault(
            #[trigger] configs[i],
        ) is Some implies replicate_fault(configs) == Some(
        (i as usize, replication_fault(configs[i])->Some_0),
    ) by {
        lemma_first_fault(configs, i);
    }
    let prefix = args.snapshot_prefix@;
    if exists|i: int| 0 <= i < prefix.len() && prefix[i] == '/' {
        assert(prefix.contains('/'));
    }
}

proof fn lemma_no_fault(configs: Seq<ReplicateConfig>)
    requires
        forall|i: int| 0 <= i < configs.len() ==> replication_fault(#[trigger] configs[i]) is None,
    ensures
        replicate_fault(configs) is None,
    decreases configs.len(),
{
    if configs.len() > 0 {
        let init = configs.drop_last();
        assert forall|i: int| 0 <= i < init.len() implies replication_fault(
            #[trigger] init[i],
        ) is None by {
            assert(init[i] == configs[i]);
        }
        lemma_no_fault(init);
        assert(configs.last() == configs[configs.len() - 1]);
    }
}

proof fn lemma_first_fault(configs: Seq<ReplicateConfig>, i: int)
    requires
        0 <= i < configs.len() <= usize::MAX,
        forall|j: int| 0 <= j < i ==> replication_fault(#[trigger] configs[j]) is None,
        replication_fault(configs[i]) is Some,
    ensures
        replicate_fault(configs) == Some((i as usize, replication_fault(configs[i])->Some_0)),
    decreases configs.len(),
{
    let init = configs.drop_last();
    if i == configs.len() - 1 {
        assert forall|j: int| 0 <= j < init.len() implies replication_fault(
            #[trigger] init[j],
        ) is None by {
            assert(init[j] == configs[j]);
        }
        lemma_no_fault(init);
    } else {
        assert forall|j: int| 0 <= j < i implies replication_fault(#[trigger] init[j]) is None by {
            assert(init[j] == configs[j]);
        }
        lemma_first_fault(init, i);
    }
}

/// A section is refused if its target is, if it would keep no replica, or if its list of excluded
/// paths is refused, in this order and for nothing else.
pub proof fn lemma_why_sections_are_refused(config: ReplicateConfig)
    ensures
        place_of(config.target@) matches Err(error) ==> replication_fault(config) == Some(
            ReplicationError::Target(error),
        ),
        place_of(config.target@) is Ok ==> {
            &&& config.keep == Some(0usize) ==> replication_fault(config) == Some(
                ReplicationError::KeepZero,
            )
            &&& config.keep != Some(0usize) ==> (exclude_fault(texts(config.exclude@)) matches Some(
                error,
            ) ==> replication_fault(config) == Some(ReplicationError::Exclude(error)))
            &&& config.keep != Some(0usize) && exclude_fault(texts(config.exclude@)) is None
                ==> replication_fault(config) is None
        },
{
}

/// Accepted options keep what they say, but for the two directories, which are stored from the root
/// directory on and with a slash at their end, and for a missing machine name, which becomes that
/// of this machine. A directory that was not given stays so.
pub proof fn lemma_accepted_options(
    before: Args,
    after: Args,
    cwd: WorkingDir,
    host: Result<String, HostnameUnreadable>,
)
    requires
        normalized(before, after, cwd, host, Ok(())),
    ensures
        before.source_dir@.len() == 0 ==> after.source_dir@.len() == 0,
        before.source_dir@.len() > 0 ==> normal_dir(before.source_dir@, cwd) == Ok::<
            Seq<char>,
            DirError,
        >(after.source_dir@),
        before.dest_dir@.len() == 0 ==> after.dest_dir@.len() == 0,
        before.dest_dir@.len() > 0 ==> normal_dir(before.dest_dir@, cwd) == Ok::<
            Seq<char>,
            DirError,
        >(after.dest_dir@),
        before.machine@.len() > 0 ==> after.machine@ == before.machine@,
        before.machine@.len() == 0 ==> (host matches Ok(name) && after.machine@ == name@),
        after.config_file == before.config_file,
        after.snapshot_id == before.snapshot_id,
        after.database_file == before.database_file,
        after.snapshot_prefix == before.snapshot_prefix,
        after.snapshot_kind == before.snapshot_kind,
        after.keep_only == before.keep_only,
        after.timeout == before.timeout,
        after.create_snapshot == before.create_snapshot,
        after.clean_snapshots == before.clean_snapshots,
        after.delete_snapshot == before.delete_snapshot,
        after.restore_snapshot == before.restore_snapshot,
        after.list_snapshots == before.list_snapshots,
        after.read_write == before.read_write,
        after.send_snapshots == before.send_snapshots,
        after.target == before.target,
        after.exclude == before.exclude,
        after.from_replica == before.from_replica,
        after.dry_run == before.dry_run,
        after.replicate == before.replicate,
{
}

/// An option that was given explicitly stays, one that was not becomes what the file says, and one
/// that the file does not have stays.
pub proof fn lemma_merged_options<T, F: Fn(&str) -> bool>(
    value: Option<T>,
    id: &str,
    is_explicit: F,
    before: T,
    after: T,
)
    requires
        merged(value, id, is_explicit, before, after),
    ensures
        value is None ==> after == before,
        !is_explicit.ensures((id,), false) ==> after == before,
        !is_explicit.ensures((id,), true) ==> (value matches Some(said) ==> after == said),
{
}

/// The file may hold these nine options and no other.
pub proof fn lemma_known_options(key: Seq<char>)
    ensures
        Config::knows(key) <==> seq![
            "dest_dir"@,
            "source_dir"@,
            "snapshot_prefix"@,
            "snapshot_kind"@,
            "database_file"@,
            "keep_only"@,
            "timeout"@,
            "machine"@,
            "replicate"@,
        ].contains(key),
{
    let all = seq![
        "dest_dir"@,
        "source_dir"@,
        "snapshot_prefix"@,
        "snapshot_kind"@,
        "database_file"@,
        "keep_only"@,
        "timeout"@,
        "machine"@,
        "replicate"@,
    ];
    assert(all[0] == "dest_dir"@ && all[1] == "source_dir"@ && all[2] == "snapshot_prefix"@ && all[3]
        == "snapshot_kind"@ && all[4] == "database_file"@ && all[5] == "keep_only"@ && all[6]
        == "timeout"@ && all[7] == "machine"@ && all[8] == "replicate"@);
    if Config::knows(key) {
        assert(exists|i: int| 0 <= i < all.len() && all[i] == key);
    }
}

/// Refused options were changed up to where they were refused: nothing if it is for the source
/// directory, that one if it is for the destination, both if it is for anything later, and then a
/// missing machine name too, where there is one.
pub proof fn lemma_refused_options(
    before: Args,
    after: Args,
    cwd: WorkingDir,
    host: Result<String, HostnameUnreadable>,
    error: ArgsError,
)
    requires
        normalized(before, after, cwd, host, Err(error)),
    ensures
        before.fault(cwd, host) == Some(error),
        error is Source ==> after.source_dir@ == before.source_dir@ && after.dest_dir@
            == before.dest_dir@ && after.machine@ == before.machine@,
        !(error is Source) && before.source_dir@.len() > 0 ==> normal_dir(before.source_dir@, cwd)
            == Ok::<Seq<char>, DirError>(after.source_dir@),
        error is Destination ==> after.dest_dir@ == before.dest_dir@ && after.machine@
            == before.machine@,
        !(error is Source) && !(error is Destination) && before.dest_dir@.len() > 0 ==> normal_dir(
            before.dest_dir@,
            cwd,
        ) == Ok::<Seq<char>, DirError>(after.dest_dir@),
        error is Hostname ==> after.machine@ == before.machine@,
        error is Prefix || error is DatabaseFile || error is Replicate ==> {
            &&& before.machine@.len() > 0 ==> after.machine@ == before.machine@
            &&& before.machine@.len() == 0 ==> (host matches Ok(name) && after.machine@ == name@)
        },
        before.source_dir@.len() == 0 ==> after.source_dir@.len() == 0,
        before.dest_dir@.len() == 0 ==> after.dest_dir@.len() == 0,
        after == (Args {
            source_dir: after.source_dir,
            dest_dir: after.dest_dir,
            machine: after.machine,
            ..before
        }),
{
}

/// A replication is built from its section: it has its target, both as it is written and as it is
/// read, what it keeps, its options for ssh and its excluded paths.
pub proof fn lemma_built_replications(
    replication: Replication,
    config: ReplicateConfig,
    other: ReplicateConfig,
)
    ensures
        is_built_from(replication, config) ==> {
            &&& replication_fault(config) is None
            &&& replication.url@ == config.target@
            &&& place_of(config.target@) == Ok::<Place, TargetError>(replication.target@)
            &&& replication.keep == config.keep
            &&& replication.ssh_options@.len() == config.ssh_options@.len()
            &&& forall|i: int|
                0 <= i < config.ssh_options@.len() ==> (#[trigger] replication.ssh_options@[i])@
                    == config.ssh_options@[i]@
            &&& texts(replication.exclude@) == normal_excludes(texts(config.exclude@))
        },
        same_section(config, other) ==> {
            &&& config.target@ == other.target@
            &&& config.keep == other.keep
            &&& config.ssh_options@.len() == other.ssh_options@.len()
            &&& forall|i: int|
                0 <= i < config.ssh_options@.len() ==> (#[trigger] config.ssh_options@[i])@
                    == other.ssh_options@[i]@
            &&& config.exclude@.len() == other.exclude@.len()
            &&& forall|i: int|
                0 <= i < config.exclude@.len() ==> (#[trigger] config.exclude@[i])@
                    == other.exclude@[i]@
        },
{
    if is_built_from(replication, config) {
        lemma_same_texts(replication.ssh_options@, config.ssh_options@);
    }
    if same_section(config, other) {
        lemma_same_texts(config.ssh_options@, other.ssh_options@);
        lemma_same_texts(config.exclude@, other.exclude@);
    }
}

/// Lists with the same texts have as many strings, with one text each.
pub proof fn lemma_same_texts(a: Seq<String>, b: Seq<String>)
    requires
        texts(a) == texts(b),
    ensures
        a.len() == b.len(),
        forall|i: int| 0 <= i < a.len() ==> (#[trigger] a[i])@ == b[i]@,
{
    assert(texts(a).len() == a.len());
    assert(texts(b).len() == b.len());
    assert forall|i: int| 0 <= i < a.len() implies (#[trigger] a[i])@ == b[i]@ by {
        assert(texts(a)[i] == a[i]@);
        assert(texts(b)[i] == b[i]@);
    }
}

/// The target is asked whether something is there by one script of the shell.
pub proof fn lemma_question_for_existence(path: Seq<char>)
    ensures
        exists_command(path).len() == 3,
        exists_command(path)[0] == "sh"@,
        exists_command(path)[1] == "-c"@,
        exists_command(path)[2] == "test -e "@ + quoted(path) + " && echo yes || echo no"@,
{
}

/// No directory at all stands for the current one.
pub proof fn lemma_stored_current_directory(base: String)
    requires
        base@.len() > 0,
    ensures
        normal_dir(Seq::empty(), WorkingDir::Known(base)) == Ok::<Seq<char>, DirError>(
            if base@.last() == '/' {
                base@
            } else {
                base@.push('/')
            },
        ),
{
    reveal_strlit("/");
    let none = Seq::<char>::empty();
    lemma_paths_below(base@, none);
    assert(base@ + none =~= base@);
    assert(base@.push('/') + none =~= base@.push('/'));
}

} // verus!
