//! What holds of the paths that subvolumes are deleted at.
use crate::controller::{is_stamp, lemma_names_have_no_slash, snapshot_name};
use crate::filters::{is_plain, lemma_split_behind};
use crate::operations::{deletable, delete_command};
use crate::paths::{is_absolute, named_parts, parts_of, Part};
use crate::structs::subvolume_in;
use crate::text::split_at_each;
use crate::utils::{lemma_without_slashes_end, only, stripped, without_slashes};
use vstd::prelude::*;

verus! {

/// A path that loses all its characters with its trailing slashes holds nothing else.
proof fn lemma_all_slashes(path: Seq<char>)
    requires
        path.len() > 0,
        without_slashes(path).len() == 0,
    ensures
        only(path, '/'),
    decreases path.len(),
{
    let front = path.drop_last();
    if front.len() > 0 {
        lemma_all_slashes(front);
        assert forall|i: int| 0 <= i < path.len() implies path[i] == '/' by {
            if i < front.len() {
                assert(front[i] == path[i]);
            }
        }
    }
}

/// Stripping keeps the start of a path.
proof fn lemma_stripped_start(path: Seq<char>)
    ensures
        without_slashes(path).is_prefix_of(path),
    decreases path.len(),
{
    if path.len() > 0 && path.last() == '/' {
        lemma_stripped_start(path.drop_last());
        let s = without_slashes(path.drop_last());
        assert(path.subrange(0, s.len() as int) =~= path.drop_last().subrange(0, s.len() as int));
    } else {
        assert(path.subrange(0, path.len() as int) =~= path);
    }
}

/// Whatever is accepted for deletion, the command never deletes the root directory, a relative
/// path, or nothing in particular.
pub proof fn lemma_root_is_never_deleted(path: Seq<char>)
    requires
        deletable(path),
    ensures
        delete_command(path)[2] == stripped(path),
        stripped(path) != "/"@,
        is_absolute(stripped(path)),
{
    reveal_strlit("/");
    if without_slashes(path).len() == 0 {
        lemma_all_slashes(path);
    }
    lemma_stripped_start(path);
    let s = without_slashes(path);
    assert(path.subrange(0, s.len() as int)[0] == path[0]);
    if s == "/"@ {
        lemma_without_slashes_end(path);
        assert(s.last() == '/');
    }
}

/// What is taken can be deleted: the path of a snapshot with a plain name in an absolute
/// directory is accepted for deletion.
pub proof fn lemma_snapshots_are_deletable(destination: Seq<char>, name: Seq<char>)
    requires
        is_absolute(destination),
        is_plain(name),
    ensures
        deletable(subvolume_in(destination, name)),
{
    reveal_strlit("/");
    reveal_strlit("");
    let path = subvolume_in(destination, name);
    let dir = stripped(destination);
    lemma_stripped_start(destination);
    let s = without_slashes(destination);
    if s.len() > 0 {
        assert(destination.subrange(0, s.len() as int)[0] == destination[0]);
    }
    let before = if dir == "/"@ {
        Seq::<char>::empty()
    } else {
        dir
    };
    assert(path =~= before + "/"@ + name);
    lemma_split_behind(before, name);
    assert(path[0] == '/');
    assert(name.len() > 0) by {
        if name.len() == 0 {
            assert(name =~= ""@);
        }
    }
    assert(path.last() == name.last());
    assert(name.contains(name[name.len() - 1]));
    assert(!only(path, '/'));
    let pieces = split_at_each(path, '/');
    let front = split_at_each(before, '/');
    assert(pieces.drop_last() =~= front);
    assert(pieces.last() == name);
    assert(named_parts(pieces) == named_parts(front).push(Part::Normal(name)));
    assert(parts_of(path).last() == Part::Normal(name));
}

/// A snapshot that was just taken can be deleted again: its name is a plain one, and its
/// destination is absolute once the options are normalized.
pub proof fn lemma_new_snapshots_are_deletable(
    destination: Seq<char>,
    prefix: Seq<char>,
    stamp: Seq<char>,
)
    requires
        is_absolute(destination),
        !prefix.contains('/'),
        is_stamp(stamp),
    ensures
        deletable(subvolume_in(destination, snapshot_name(prefix, stamp))),
{
    reveal_strlit("");
    reveal_strlit(".");
    reveal_strlit("..");
    lemma_names_have_no_slash(prefix, stamp);
    let name = snapshot_name(prefix, stamp);
    assert(name.len() >= 26);
    assert(is_plain(name));
    lemma_snapshots_are_deletable(destination, name);
}

} // verus!
