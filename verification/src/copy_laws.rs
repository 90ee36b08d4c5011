//! How filtered copies are made, measured and kept apart from everything else, step by step and
//! for every tree and path.
use crate::excludes::Excluded;
use crate::staging::{
    amount, entry_in, lemma_same_piece_end, lies_within, names_from, names_in, piece_end, size_of,
    size_of_first, CopyEvent, CopyFault, CopyStep, Copying, Removal, Tree, UnlinkStep, Unlinking,
    FS_APPEND_FL, FS_IMMUTABLE_FL,
};
use vstd::prelude::*;

verus! {

/// A copy is made anew unless a read-only one is there: what is there otherwise is deleted first.
/// It is taken, filtered and made read-only, and only then it is ready.
pub proof fn lemma_making_a_copy(excluded: Excluded, event: CopyEvent)
    ensures
        ({
            let a = Copying::started();
            let b = a.after(CopyEvent::No);
            let c = b.after(CopyEvent::Done);
            let d = c.after(CopyEvent::Done);
            let e = d.after(CopyEvent::Removed(excluded));
            let f = e.after(CopyEvent::Done);
            let old = a.after(CopyEvent::Yes);
            &&& a.step == CopyStep::Look && a.excluded is None
            &&& old.step == CopyStep::CheckSealed
            &&& old.after(CopyEvent::Yes).step == CopyStep::Ready
            &&& old.after(CopyEvent::Yes).excluded is None
            &&& old.after(CopyEvent::No).step == CopyStep::RemoveOld
            &&& old.after(CopyEvent::No).after(CopyEvent::Done) == b
            &&& b.step == CopyStep::MakeDirectory
            &&& c.step == CopyStep::TakeCopy
            &&& d.step == CopyStep::Filter
            &&& e.step == CopyStep::Seal && e.excluded == Some(excluded)
            &&& f.step == CopyStep::Ready && f.excluded == Some(excluded)
            &&& f.after(event) == f
        }),
{
}

/// What stops the making of a copy. One that was taken and could not be finished is deleted again,
/// and what is reported is why, whatever becomes of that.
pub proof fn lemma_what_stops_a_copy(excluded: Excluded, event: CopyEvent)
    ensures
        ({
            let a = Copying::started();
            let b = a.after(CopyEvent::No);
            let c = b.after(CopyEvent::Done);
            let d = c.after(CopyEvent::Done);
            let e = d.after(CopyEvent::Removed(excluded));
            let old = a.after(CopyEvent::Yes);
            let stopped = CopyStep::Failed(CopyFault::Stopped);
            &&& a.after(CopyEvent::Failed).step == stopped
            &&& old.after(CopyEvent::Failed).step == stopped
            &&& old.after(CopyEvent::No).after(CopyEvent::Failed).step == stopped
            &&& b.after(CopyEvent::Failed).step == stopped
            &&& c.after(CopyEvent::Failed).step == stopped
            &&& d.after(CopyEvent::Failed).step == CopyStep::Discard(CopyFault::NotFiltered)
            &&& d.after(CopyEvent::Failed).after(event).step == CopyStep::Failed(
                CopyFault::NotFiltered,
            )
            &&& e.after(CopyEvent::Failed).step == CopyStep::Discard(CopyFault::NotSealed)
            &&& e.after(CopyEvent::Failed).after(event).step == CopyStep::Failed(
                CopyFault::NotSealed,
            )
            &&& a.after(CopyEvent::Failed).after(event) == a.after(CopyEvent::Failed)
        }),
{
}

/// An entry that can't be removed because the system does not permit it is tried once more, without
/// the attributes that protect it and its directory. No other failure leads there.
pub proof fn lemma_forced_removal(entry: bool, parent: bool, removal: Removal, other: Removal)
    ensures
        ({
            let a = Unlinking::started();
            let b = a.after_removal(Removal::Denied);
            let c = b.after_clearing(entry);
            let d = c.after_clearing(parent);
            let e = d.after_removal(removal);
            &&& a.step == UnlinkStep::Remove
            &&& !(removal is Denied) ==> a.after_removal(removal).step == UnlinkStep::Ended(removal)
            &&& b.step == UnlinkStep::ClearEntry
            &&& c.step == UnlinkStep::ClearParent
            &&& d.step == UnlinkStep::RemoveAgain
            &&& e.step == UnlinkStep::Ended(removal)
            &&& e.entry_cleared == entry && e.parent_cleared == parent
            &&& e.after_removal(other) == e && e.after_clearing(entry) == e
        }),
{
}

/// The attributes that protect an entry are the fifth and the sixth bit.
pub proof fn lemma_protecting_attributes()
    ensures
        FS_IMMUTABLE_FL == 16,
        FS_APPEND_FL == 32,
{
}

proof fn lemma_size_of_front(entries: Seq<Tree>, tree: Tree, n: nat)
    requires
        n <= entries.len(),
    ensures
        size_of_first(entries.push(tree), n) == size_of_first(entries, n),
    decreases n,
{
    if n > 0 {
        lemma_size_of_front(entries, tree, (n - 1) as nat);
        assert(entries.push(tree)[n - 1] == entries[n - 1]);
    }
}

/// The size of a file is its own and that of anything else that is no directory is nothing. An
/// entry more makes a directory larger by its size, and an empty one has none.
pub proof fn lemma_sizes_of_trees(
    directory: Vec<Tree>,
    larger: Vec<Tree>,
    tree: Tree,
    size: u64,
)
    requires
        larger@ == directory@.push(tree),
    ensures
        size_of(Tree::File(size)) == size,
        size_of(Tree::Other) == 0,
        directory@.len() == 0 ==> size_of(Tree::Directory(directory)) == 0,
        size_of(Tree::Directory(larger)) == size_of(Tree::Directory(directory)) + size_of(tree),
{
    lemma_size_of_front(directory@, tree, directory@.len());
    assert(larger@[directory@.len() as int] == tree);
}

proof fn lemma_amount_of_front(found: Seq<Option<Tree>>, more: Option<Tree>, n: nat)
    requires
        n <= found.len(),
    ensures
        amount(found.push(more), n) == amount(found, n),
    decreases n,
{
    if n > 0 {
        lemma_amount_of_front(found, more, (n - 1) as nat);
        assert(found.push(more)[n - 1] == found[n - 1]);
    }
}

/// What is excluded is counted path by path: one that is there is one more and larger by its size,
/// and one that is not makes no difference.
pub proof fn lemma_amounts(found: Seq<Option<Tree>>, tree: Tree)
    ensures
        amount(Seq::empty(), 0) == (0nat, 0nat),
        amount(found.push(None), found.len() + 1) == amount(found, found.len()),
        amount(found.push(Some(tree)), found.len() + 1) == (
            (amount(found, found.len()).0 + 1) as nat,
            amount(found, found.len()).1 + size_of(tree),
        ),
{
    lemma_amount_of_front(found, None, found.len());
    lemma_amount_of_front(found, Some(tree), found.len());
    assert(found.push(None)[found.len() as int] == None::<Tree>);
    assert(found.push(Some(tree))[found.len() as int] == Some(tree));
}

proof fn lemma_last_piece(path: Seq<u8>, from: int)
    requires
        0 <= from <= path.len(),
        forall|i: int| from <= i < path.len() ==> path[i] != 47,
    ensures
        piece_end(path, from) == path.len(),
    decreases path.len() - from,
{
    if from < path.len() {
        lemma_last_piece(path, from + 1);
    }
}

/// What a name behind a slash adds to the names of a path.
pub open spec fn added(name: Seq<u8>) -> Seq<Seq<u8>> {
    if name.len() == 0 || name == seq![46u8] {
        Seq::empty()
    } else {
        seq![name]
    }
}

proof fn lemma_names_behind_from(path: Seq<u8>, name: Seq<u8>, from: int)
    requires
        !name.contains(47),
        0 <= from <= path.len(),
    ensures
        names_from(path.push(47) + name, from) == names_from(path, from) + added(name),
    decreases path.len() - from,
{
    let tail = seq![47u8] + name;
    let whole = path.push(47) + name;
    let n = path.len() as int;
    assert(path + tail =~= whole);
    assert forall|i: int| n + 1 <= i < whole.len() implies whole[i] != 47 by {
        assert(whole[i] == name[i - n - 1]);
        assert(name.contains(name[i - n - 1]));
    }
    lemma_last_piece(whole, n + 1);
    assert(whole.subrange(n + 1, whole.len() as int) =~= name);
    assert(names_from(whole, n + 1) =~= added(name)) by {
        if name.len() > 0 {
            let piece = whole.subrange(n + 1, whole.len() as int);
            assert(names_from(whole, n + 1) =~= added(piece));
        }
    }
    if from == n {
        assert(whole[n] == 47);
        assert(piece_end(whole, n) == n);
        assert(names_from(whole, n) =~= names_from(whole, n + 1));
        assert(names_from(path, n) =~= Seq::empty());
        assert(names_from(path, from) + added(name) =~= added(name));
    } else {
        lemma_same_piece_end(path, tail, from);
        let end = piece_end(path, from);
        crate::staging::lemma_piece_end(path, from);
        assert(whole.subrange(from, end) =~= path.subrange(from, end));
        if end < n {
            lemma_names_behind_from(path, name, end + 1);
        } else {
            assert(names_from(whole, end + 1) =~= added(name));
        }
        assert(names_from(whole, from) =~= names_from(path, from) + added(name));
    }
}

/// The names of a path are what stands between its slashes. Behind a path and a slash a name is one
/// more, unless it is empty or a single dot; and what has no slash is a name if it is not empty.
pub proof fn lemma_names_of_paths(path: Seq<u8>, name: Seq<u8>)
    requires
        !name.contains(47),
    ensures
        names_in(path.push(47) + name) == if name.len() == 0 || name == seq![46u8] {
            names_in(path)
        } else {
            names_in(path).push(name)
        },
        names_in(name) == if name.len() == 0 {
            Seq::<Seq<u8>>::empty()
        } else {
            seq![name]
        },
{
    lemma_names_behind_from(path, name, 0);
    assert(names_in(path) + added(name) =~= if name.len() == 0 || name == seq![46u8] {
        names_in(path)
    } else {
        names_in(path).push(name)
    });
    assert forall|i: int| 0 <= i < name.len() implies name[i] != 47 by {
        assert(name.contains(name[i]));
    }
    lemma_last_piece(name, 0);
    assert(name.subrange(0, name.len() as int) =~= name);
    if name.len() > 0 {
        assert(names_in(name) =~= seq![name]);
    }
}

/// A path lies within another one if and only if both start at the root directory or neither does,
/// and the names of the other one come first among its names. So a directory lies within itself,
/// and what is named in a directory lies within all that the directory lies within.
pub proof fn lemma_what_lies_within(root: Seq<u8>, path: Seq<u8>, name: Seq<u8>)
    requires
        path.len() > 0,
        name.len() > 0,
        name != seq![46u8],
        !name.contains(47),
    ensures
        lies_within(root, path) <==> ((root.len() > 0 && root[0] == 47) <==> path[0] == 47)
            && names_in(root).len() <= names_in(path).len() && forall|i: int|
            0 <= i < names_in(root).len() ==> names_in(root)[i] == #[trigger] names_in(path)[i],
        lies_within(path, path),
        lies_within(root, path) ==> lies_within(root, path.push(47) + name),
        !lies_within(path.push(47) + name, path),
{
    lemma_names_of_paths(path, name);
    let a = names_in(root);
    let b = names_in(path);
    if a.is_prefix_of(b) {
        assert forall|i: int| 0 <= i < a.len() implies a[i] == #[trigger] b[i] by {
            assert(b.subrange(0, a.len() as int)[i] == b[i]);
        }
        assert(b.push(name).subrange(0, a.len() as int) =~= b.subrange(0, a.len() as int));
    }
    if a.len() <= b.len() && forall|i: int| 0 <= i < a.len() ==> a[i] == #[trigger] b[i] {
        assert(b.subrange(0, a.len() as int) =~= a);
    }
    assert(b.subrange(0, b.len() as int) =~= b);
    assert((path.push(47) + name)[0] == path[0]);
}

/// An entry is named behind its directory and one slash.
pub proof fn lemma_entries_of_directories(parent: Seq<u8>, name: Seq<u8>)
    ensures
        parent.len() > 0 && parent.last() != 47 ==> entry_in(parent, name) == parent.push(47)
            + name,
        parent.len() > 0 && parent.last() == 47 ==> entry_in(parent, name) == parent + name,
        parent.len() == 0 ==> entry_in(parent, name) == name,
{
    assert(parent + seq![47u8] =~= parent.push(47));
    if parent.len() == 0 {
        assert(parent + name =~= name);
    }
}

/// An answer to another question than the one that was asked changes nothing of the making of a
/// copy, and what was removed is known from the filtering on.
pub proof fn lemma_other_answers_to_a_copy(copying: Copying, event: CopyEvent)
    ensures
        !(copying.step is Filter) ==> copying.after(event).excluded == copying.excluded,
        !(event is Failed) ==> {
            &&& (copying.step is Look || copying.step is CheckSealed) && !(event is Yes) && !(
            event is No) ==> copying.after(event) == copying
            &&& (copying.step is RemoveOld || copying.step is MakeDirectory
                || copying.step is TakeCopy || copying.step is Seal) && !(event is Done)
                ==> copying.after(event) == copying
            &&& copying.step is Filter && !(event is Removed) ==> copying.after(event) == copying
        },
        copying.step is Ready || copying.step is Failed ==> copying.after(event) == copying,
{
}

} // verus!
