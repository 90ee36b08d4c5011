//! What replication targets are, how commands reach them, and what is read from their answers.
use crate::replication::{
    host_and_port, place_of, remote_command, shown, sudo, target_command, Identity,
    lemma_remote_command_read_back, Place, TargetError,
};
use crate::shell::{all_quoted, is_plain_command, quoted, shell_words};
use crate::text::{joined, numeral, port_number, trimmed};
use crate::text_laws::{lemma_no_ports, lemma_numeral_shape, lemma_ports, lemma_stripping, slashes, zeros};
use crate::utils::stripped;
use vstd::prelude::*;

verus! {

/// What stands behind the scheme of an ssh target, put together from its parts, is taken apart into
/// them: the host up to the first slash, and the path from there on.
proof fn lemma_ssh_parts(host_part: Seq<char>, path: Seq<char>, k: nat)
    requires
        !host_part.contains('/'),
        path.len() > 0 ==> path[0] == '/' && path.last() != '/',
        path.len() > 0 || k > 0,
    ensures
        place_of("ssh://"@ + host_part + path + slashes(k)) == match host_and_port(host_part) {
            Ok((user_host, port)) => if user_host.len() == 0 || user_host.last() == '@' || path.len()
                == 0 {
                Err::<Place, TargetError>(TargetError::InvalidSsh)
            } else {
                Ok(Place::Ssh { user_host, port, path })
            },
            Err(error) => Err(error),
        },
{
    reveal_strlit("ssh://");
    reveal_strlit("/");
    let tail = path + slashes(k);
    let rest = host_part + tail;
    let url = "ssh://"@ + host_part + path + slashes(k);
    assert(url =~= "ssh://"@ + rest);
    assert("ssh://"@ =~= url.subrange(0, 6));
    assert(url.skip(6) =~= rest);
    rest.index_of_first_ensures('/');
    assert(tail[0] == '/');
    assert(rest[host_part.len() as int] == tail[0]);
    assert(rest.contains('/'));
    let slash = rest.index_of_first('/')->0;
    if slash < host_part.len() {
        assert(host_part[slash] == '/');
        assert(host_part.contains('/'));
    }
    assert(rest.take(slash) =~= host_part);
    assert(rest.skip(slash) =~= tail);
    lemma_stripping(path, k);
    if path.len() > 0 {
        if path == "/"@ {
            assert(path.last() == '/');
        }
    } else {
        assert("/"@ =~= seq!['/']);
    }
}

/// An ssh target without a port is reached as the user at the host that it names, whole, and its
/// directory is the path that follows, without slashes at its end.
pub proof fn lemma_ssh_target(user_host: Seq<char>, path: Seq<char>, k: nat)
    requires
        user_host.len() > 0,
        !user_host.contains(':'),
        !user_host.contains('/'),
        user_host.last() != '@',
        path.len() > 0,
        path[0] == '/',
        path.last() != '/',
    ensures
        place_of("ssh://"@ + user_host + path + slashes(k)) == Ok::<Place, TargetError>(
            Place::Ssh { user_host, port: None, path },
        ),
{
    user_host.index_of_last_ensures(':');
    lemma_ssh_parts(user_host, path, k);
}

/// With a colon and something behind the host the target is the same one at that port, if it is
/// one: what stands behind the last colon is the port, and with nothing there the colon belongs to
/// the host.
pub proof fn lemma_ssh_target_with_port(
    user_host: Seq<char>,
    port: Seq<char>,
    path: Seq<char>,
    k: nat,
)
    requires
        user_host.len() > 0,
        !user_host.contains('/'),
        user_host.last() != '@',
        !port.contains(':'),
        !port.contains('/'),
        path.len() > 0,
        path[0] == '/',
        path.last() != '/',
    ensures
        place_of("ssh://"@ + user_host.push(':') + port + path + slashes(k)) == if port.len() == 0 {
            Ok::<Place, TargetError>(
                Place::Ssh { user_host: user_host.push(':'), port: None, path },
            )
        } else {
            match port_number(port) {
                Some(number) => Ok(Place::Ssh { user_host, port: Some(number), path }),
                None => Err(TargetError::InvalidPort),
            }
        },
{
    let host_part = user_host.push(':') + port;
    lemma_last_colon(user_host, port);
    assert(!host_part.contains('/')) by {
        if host_part.contains('/') {
            let i = choose|i: int| 0 <= i < host_part.len() && host_part[i] == '/';
            if i < user_host.len() {
                assert(user_host[i] == '/');
            } else if i > user_host.len() {
                assert(port[i - user_host.len() - 1] == '/');
            }
        }
    }
    lemma_ssh_parts(host_part, path, k);
    assert("ssh://"@ + host_part + path + slashes(k) =~= "ssh://"@ + user_host.push(':') + port
        + path + slashes(k));
    if port.len() == 0 {
        assert(host_part =~= user_host.push(':'));
    }
}

proof fn lemma_last_colon(user_host: Seq<char>, port: Seq<char>)
    requires
        !port.contains(':'),
    ensures
        ({
            let host_part = user_host.push(':') + port;
            &&& host_part.index_of_last(':') == Some(user_host.len() as int)
            &&& host_part.skip((user_host.len() + 1) as int) == port
            &&& host_part.take(user_host.len() as int) == user_host
        }),
{
    let host_part = user_host.push(':') + port;
    host_part.index_of_last_ensures(':');
    assert(host_part[user_host.len() as int] == ':');
    assert(host_part.contains(':'));
    let colon = host_part.index_of_last(':')->0;
    if colon > user_host.len() {
        assert(port[colon - user_host.len() - 1] == ':');
        assert(port.contains(':'));
    }
    assert(host_part.skip((user_host.len() + 1) as int) =~= port);
    assert(host_part.take(user_host.len() as int) =~= user_host);
}

/// With the numeral of a port behind the host, however many zeros stand before it, the target is
/// the same one at that port. Numbers that are too large for a port are refused.
pub proof fn lemma_ssh_target_at_port(
    user_host: Seq<char>,
    k: nat,
    port: nat,
    path: Seq<char>,
    n: nat,
)
    requires
        user_host.len() > 0,
        !user_host.contains('/'),
        user_host.last() != '@',
        path.len() > 0,
        path[0] == '/',
        path.last() != '/',
    ensures
        place_of("ssh://"@ + user_host.push(':') + (zeros(k) + numeral(port)) + path + slashes(n))
            == if port <= 65535 {
            Ok::<Place, TargetError>(
                Place::Ssh { user_host, port: Some(port as u16), path },
            )
        } else {
            Err(TargetError::InvalidPort)
        },
{
    let digits = zeros(k) + numeral(port);
    lemma_numeral_shape(port);
    lemma_ports(k, port);
    assert forall|i: int| 0 <= i < digits.len() implies '0' <= #[trigger] digits[i] && digits[i]
        <= '9' by {
        if i >= k {
            assert(digits[i] == numeral(port)[i - k]);
        }
    }
    if digits.contains(':') {
        let i = choose|i: int| 0 <= i < digits.len() && digits[i] == ':';
        assert(digits[i] <= '9');
    }
    if digits.contains('/') {
        let i = choose|i: int| 0 <= i < digits.len() && digits[i] == '/';
        assert('0' <= digits[i]);
    }
    lemma_ssh_target_with_port(user_host, digits, path, n);
}

/// Something else than a port number behind the last colon of the host is refused.
pub proof fn lemma_ssh_target_with_bad_port(
    user_host: Seq<char>,
    port: Seq<char>,
    path: Seq<char>,
    n: nat,
    i: int,
)
    requires
        user_host.len() > 0,
        !user_host.contains('/'),
        user_host.last() != '@',
        !port.contains(':'),
        !port.contains('/'),
        0 <= i < port.len(),
        !('0' <= port[i] && port[i] <= '9'),
        i > 0 || port[i] != '+',
        path.len() > 0,
        path[0] == '/',
        path.last() != '/',
    ensures
        place_of("ssh://"@ + user_host.push(':') + port + path + slashes(n)) == Err::<
            Place,
            TargetError,
        >(TargetError::InvalidPort),
{
    lemma_no_ports(port, i);
    lemma_ssh_target_with_port(user_host, port, path, n);
}

/// An ssh target needs a host, a user before an `@` has to be at one, its path has to be more than
/// the root directory, and it has to be there at all.
pub proof fn lemma_ssh_targets_refused(host: Seq<char>, path: Seq<char>, k: nat)
    requires
        !host.contains(':'),
        !host.contains('/'),
        path.len() > 0 ==> path[0] == '/' && path.last() != '/',
        path.len() > 0 || k > 0,
    ensures
        host.len() == 0 || host.last() == '@' || path.len() == 0 ==> place_of(
            "ssh://"@ + host + path + slashes(k),
        ) == Err::<Place, TargetError>(TargetError::InvalidSsh),
        place_of("ssh://"@ + host) == Err::<Place, TargetError>(TargetError::SshWithoutPath),
{
    reveal_strlit("ssh://");
    host.index_of_last_ensures(':');
    host.index_of_first_ensures('/');
    lemma_ssh_parts(host, path, k);
    let url = "ssh://"@ + host;
    assert("ssh://"@ =~= url.subrange(0, 6));
    assert(url.skip(6) =~= host);
}

/// A target that starts with a slash is that directory here, without slashes at its end. The root
/// directory is refused, and so is whatever is neither a path from there nor an ssh target.
pub proof fn lemma_local_targets(path: Seq<char>, k: nat, other: Seq<char>)
    requires
        path.len() > 0 ==> path[0] == '/' && path.last() != '/',
        other.len() > 0 ==> other[0] != '/',
        !"ssh://"@.is_prefix_of(other),
    ensures
        path.len() > 0 ==> place_of(path + slashes(k)) == Ok::<Place, TargetError>(
            Place::Local { path },
        ),
        k > 0 ==> place_of(slashes(k)) == Err::<Place, TargetError>(TargetError::RootDirectory),
        place_of(other) == Err::<Place, TargetError>(TargetError::Unsupported),
{
    reveal_strlit("ssh://");
    reveal_strlit("/");
    lemma_stripping(path, k);
    lemma_stripping(Seq::empty(), k);
    assert("/"@ =~= seq!['/']);
    assert(Seq::<char>::empty() + slashes(k) =~= slashes(k));
    let url = path + slashes(k);
    if path.len() > 0 {
        assert(url[0] == '/');
        if "ssh://"@.is_prefix_of(url) {
            assert(url.subrange(0, 6)[0] == url[0]);
        }
        if path == "/"@ {
            assert(path.last() == '/');
        }
    }
    if k > 0 {
        assert(slashes(k)[0] == '/');
        if "ssh://"@.is_prefix_of(slashes(k)) {
            assert(slashes(k).subrange(0, 6)[0] == slashes(k)[0]);
        }
    }
}

/// Over ssh every configured option stands in the command line, in its order and directly before
/// the host, whether or not there is a port. Before them stand the batch mode, which keeps ssh from
/// asking, and the port if there is one; behind the host stands the command as one word.
pub proof fn lemma_ssh_command(
    user_host: Seq<char>,
    port: Option<u16>,
    path: Seq<char>,
    options: Seq<Seq<char>>,
    command: Seq<Seq<char>>,
    as_root: bool,
)
    ensures
        ({
            let line = target_command(
                Place::Ssh { user_host, port, path },
                options,
                command,
                as_root,
            );
            let at = line.len() - 3 - options.len();
            &&& at == if port is Some {
                5int
            } else {
                3int
            }
            &&& line[0] == "ssh"@ && line[1] == "-o"@ && line[2] == "BatchMode=yes"@
            &&& port matches Some(number) ==> line[3] == "-p"@ && line[4] == numeral(number as nat)
            &&& forall|i: int| 0 <= i < options.len() ==> line[at + i] == #[trigger] options[i]
            &&& line[line.len() - 3] == user_host
            &&& line[line.len() - 2] == "--"@
            &&& is_plain_command(line.last())
            &&& shell_words(line.last()) == if as_root {
                seq!["sudo"@, "-n"@] + command
            } else {
                command
            }
        }),
{
    let line = target_command(Place::Ssh { user_host, port, path }, options, command, as_root);
    lemma_remote_command_read_back(command, as_root);
    assert(line.last() == remote_command(command, as_root));
    if !as_root {
        assert(sudo(false) + command =~= command);
    }
}

/// Here the command is run as it is, whatever the options say.
pub proof fn lemma_local_command(
    path: Seq<char>,
    options: Seq<Seq<char>>,
    command: Seq<Seq<char>>,
    as_root: bool,
)
    ensures
        target_command(Place::Local { path }, options, command, as_root) == command,
{
}

/// The command at the other end is its words one after the other, each as the shell needs it and
/// with one space before the next one. With root it starts with the two words that ask for that.
pub proof fn lemma_remote_words(command: Seq<Seq<char>>, word: Seq<char>, as_root: bool)
    ensures
        remote_command(seq![word], false) == quoted(word),
        remote_command(Seq::empty(), true) == "sudo -n"@,
        command.len() > 0 || as_root ==> remote_command(command.push(word), as_root)
            == remote_command(command, as_root).push(' ') + quoted(word),
{
    reveal_strlit(" ");
    reveal_strlit("sudo");
    reveal_strlit("-n");
    reveal_strlit("sudo -n");
    assert(" "@ =~= seq![' ']);
    let none = Seq::<Seq<char>>::empty();
    assert(sudo(false) + all_quoted(seq![word]) =~= seq![quoted(word)]);
    assert(sudo(true) + all_quoted(none) =~= seq!["sudo"@, "-n"@]);
    let two = seq!["sudo"@, "-n"@];
    assert(two.drop_last() =~= seq!["sudo"@]);
    reveal_with_fuel(joined, 3);
    assert(joined(two, " "@) =~= "sudo -n"@);
    let front = sudo(as_root) + all_quoted(command);
    let all = sudo(as_root) + all_quoted(command.push(word));
    assert(all =~= front.push(quoted(word)));
    assert(all.drop_last() =~= front);
    if command.len() > 0 || as_root {
        assert(all.len() > 1);
        assert(joined(all, " "@) =~= joined(front, " "@) + " "@ + quoted(word));
        assert(joined(front, " "@) + " "@ =~= joined(front, " "@).push(' '));
    }
}

/// What stands before the first colon of a line, without the white space around it.
pub open spec fn key_of(line: Seq<char>) -> Option<Seq<char>> {
    match line.index_of_first(':') {
        Some(colon) => Some(trimmed(line.take(colon))),
        None => None,
    }
}

/// What stands behind the first colon of a line, without the white space around it.
pub open spec fn value_of(line: Seq<char>) -> Seq<char> {
    match line.index_of_first(':') {
        Some(colon) => trimmed(line.skip(colon + 1)),
        None => Seq::empty(),
    }
}

/// Whether no line has a key.
pub open spec fn is_missing(lines: Seq<Seq<char>>, key: Seq<char>) -> bool {
    forall|i: int| 0 <= i < lines.len() ==> key_of(#[trigger] lines[i]) != Some(key)
}

/// A line with another key, or with none, makes no difference to the UUIDs, wherever it stands.
pub proof fn lemma_other_lines_make_no_difference(
    before: Seq<Seq<char>>,
    line: Seq<char>,
    behind: Seq<Seq<char>>,
)
    requires
        key_of(line) != Some("UUID"@),
        key_of(line) != Some("Received UUID"@),
    ensures
        shown(before.push(line) + behind) == shown(before + behind),
    decreases behind.len(),
{
    let all = before.push(line) + behind;
    if behind.len() == 0 {
        assert(all.drop_last() =~= before);
        assert(all.last() == line);
        assert(before + behind =~= before);
    } else {
        let front = behind.drop_last();
        lemma_other_lines_make_no_difference(before, line, front);
        assert(all.drop_last() =~= before.push(line) + front);
        assert((before + behind).drop_last() =~= before + front);
        assert(all.last() == behind.last());
        assert((before + behind).last() == behind.last());
    }
}

/// The UUID is the value of the last line with that key, whatever the other lines are.
pub proof fn lemma_uuid_line(before: Seq<Seq<char>>, line: Seq<char>, behind: Seq<Seq<char>>)
    requires
        key_of(line) == Some("UUID"@),
        is_missing(behind, "UUID"@),
    ensures
        shown(before.push(line) + behind).0 == Some(value_of(line)),
    decreases behind.len(),
{
    reveal_strlit("UUID");
    reveal_strlit("Received UUID");
    assert("UUID"@.len() != "Received UUID"@.len());
    let all = before.push(line) + behind;
    if behind.len() == 0 {
        assert(all.drop_last() =~= before);
        assert(all.last() == line);
    } else {
        let front = behind.drop_last();
        assert forall|i: int| 0 <= i < front.len() implies key_of(#[trigger] front[i]) != Some(
            "UUID"@,
        ) by {
            assert(front[i] == behind[i]);
        }
        lemma_uuid_line(before, line, front);
        assert(all.drop_last() =~= before.push(line) + front);
        assert(all.last() == behind[behind.len() - 1]);
    }
}

/// The UUID that a subvolume was received from is the value of the last line with that key, where
/// an empty value or a dash says that it was not received, whatever the other lines are.
pub proof fn lemma_received_uuid_line(
    before: Seq<Seq<char>>,
    line: Seq<char>,
    behind: Seq<Seq<char>>,
)
    requires
        key_of(line) == Some("Received UUID"@),
        is_missing(behind, "Received UUID"@),
    ensures
        shown(before.push(line) + behind).1 == if value_of(line).len() == 0 || value_of(line)
            == "-"@ {
            None
        } else {
            Some(value_of(line))
        },
    decreases behind.len(),
{
    reveal_strlit("UUID");
    reveal_strlit("Received UUID");
    assert("UUID"@.len() != "Received UUID"@.len());
    let all = before.push(line) + behind;
    if behind.len() == 0 {
        assert(all.drop_last() =~= before);
        assert(all.last() == line);
    } else {
        let front = behind.drop_last();
        assert forall|i: int| 0 <= i < front.len() implies key_of(#[trigger] front[i]) != Some(
            "Received UUID"@,
        ) by {
            assert(front[i] == behind[i]);
        }
        lemma_received_uuid_line(before, line, front);
        assert(all.drop_last() =~= before.push(line) + front);
        assert(all.last() == behind[behind.len() - 1]);
    }
}

/// Without a line for it there is no UUID, and without one for the other the subvolume was not
/// received.
pub proof fn lemma_missing_uuids(lines: Seq<Seq<char>>)
    ensures
        is_missing(lines, "UUID"@) ==> shown(lines).0 is None,
        is_missing(lines, "Received UUID"@) ==> shown(lines).1 is None,
    decreases lines.len(),
{
    if lines.len() > 0 {
        let front = lines.drop_last();
        lemma_missing_uuids(front);
        assert(lines.last() == lines[lines.len() - 1]);
        if is_missing(lines, "UUID"@) {
            assert forall|i: int| 0 <= i < front.len() implies key_of(#[trigger] front[i]) != Some(
                "UUID"@,
            ) by {
                assert(front[i] == lines[i]);
            }
        }
        if is_missing(lines, "Received UUID"@) {
            assert forall|i: int| 0 <= i < front.len() implies key_of(#[trigger] front[i]) != Some(
                "Received UUID"@,
            ) by {
                assert(front[i] == lines[i]);
            }
        }
    }
}

/// A subvolume comes from another one if and only if its received UUID is the UUID of that one. So
/// one that was not received comes from none, and none comes from two with different UUIDs.
pub proof fn lemma_identity(received: Identity, a: Identity, b: Identity)
    ensures
        received.comes_from(a) <==> received.received_uuid == Some(a.uuid),
        received.received_uuid is None ==> !received.comes_from(a),
        received.comes_from(a) && received.comes_from(b) ==> a.uuid == b.uuid,
{
}

} // verus!
