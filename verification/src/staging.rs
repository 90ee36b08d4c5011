//! The filtered copies that are sent in place of snapshots, and what is removed from them.
//!
//! A [`Copying`] builds or reuses a copy, and an [`Unlinking`] removes one file or directory from
//! it. Both decide what happens next; whoever runs them does what their step says and reports
//! what came of it.
use crate::excludes::Excluded;
use crate::paths::{below, file_name, join_path, last_name};
use crate::text::{contains_text, occurs_in, texts};
use vstd::prelude::*;
use vstd::utf8::encode_utf8;

verus! {

/// What building a filtered copy does now.
#[derive(Debug, Clone, Copy, PartialEq, Eq, Structural)]
pub enum CopyStep {
    /// Looks for a copy that is there already.
    Look,
    /// Finds out whether the copy that is there is read-only.
    CheckSealed,
    /// Deletes the copy that is there: it is an incomplete one.
    RemoveOld,
    /// Creates the directory that the copy goes into.
    MakeDirectory,
    /// Takes a read-write snapshot of the snapshot.
    TakeCopy,
    /// Removes the excluded paths from the copy.
    Filter,
    /// Makes the copy read-only.
    Seal,
    /// Deletes the copy again: it could not be finished.
    Discard(CopyFault),
    /// Nothing: the copy is ready.
    Ready,
    /// Nothing: there is no copy.
    Failed(CopyFault),
}

/// Why there is no filtered copy.
#[derive(Debug, Clone, Copy, PartialEq, Eq, Structural)]
pub enum CopyFault {
    /// Something on the way could not be done.
    Stopped,
    /// The excluded paths could not be removed.
    NotFiltered,
    /// The copy could not be made read-only.
    NotSealed,
}

/// What came of a step.
#[derive(Debug, Clone, Copy, PartialEq, Eq)]
pub enum CopyEvent {
    /// It was done.
    Done,
    /// It could not be done.
    Failed,
    /// What was asked is so.
    Yes,
    /// What was asked is not so.
    No,
    /// The excluded paths were removed.
    Removed(Excluded),
}

/// Building or reusing the filtered copy of a snapshot.
#[derive(Debug, Clone, Copy, PartialEq, Eq)]
pub struct Copying {
    pub step: CopyStep,
    /// What was removed from the copy. There is nothing for a copy that was there already.
    pub excluded: Option<Excluded>,
}

impl Copying {
    /// The work after what came of its step. What can't come of a step changes nothing.
    pub open spec fn after(self, event: CopyEvent) -> Copying {
        match (self.step, event) {
            (CopyStep::Look, CopyEvent::Yes) => self.at(CopyStep::CheckSealed),
            (CopyStep::Look, CopyEvent::No) => self.at(CopyStep::MakeDirectory),
            (CopyStep::CheckSealed, CopyEvent::Yes) => self.at(CopyStep::Ready),
            (CopyStep::CheckSealed, CopyEvent::No) => self.at(CopyStep::RemoveOld),
            (CopyStep::RemoveOld, CopyEvent::Done) => self.at(CopyStep::MakeDirectory),
            (CopyStep::MakeDirectory, CopyEvent::Done) => self.at(CopyStep::TakeCopy),
            (CopyStep::TakeCopy, CopyEvent::Done) => self.at(CopyStep::Filter),
            (CopyStep::Filter, CopyEvent::Removed(excluded)) => Copying {
                step: CopyStep::Seal,
                excluded: Some(excluded),
            },
            (CopyStep::Filter, CopyEvent::Failed) => self.at(
                CopyStep::Discard(CopyFault::NotFiltered),
            ),
            (CopyStep::Seal, CopyEvent::Done) => self.at(CopyStep::Ready),
            (CopyStep::Seal, CopyEvent::Failed) => self.at(CopyStep::Discard(CopyFault::NotSealed)),
            (CopyStep::Discard(fault), _) => self.at(CopyStep::Failed(fault)),
            (CopyStep::Ready, _) => self,
            (CopyStep::Failed(_), _) => self,
            (_, CopyEvent::Failed) => self.at(CopyStep::Failed(CopyFault::Stopped)),
            (_, _) => self,
        }
    }

    /// The work at another step.
    pub open spec fn at(self, step: CopyStep) -> Copying {
        Copying { step, ..self }
    }

    /// The work that has not started.
    pub open spec fn started() -> Copying {
        Copying { step: CopyStep::Look, excluded: None }
    }

    /// The work that has not started.
    pub fn start() -> (copying: Copying)
        ensures
            copying == Copying::started(),
    {
        Copying { step: CopyStep::Look, excluded: None }
    }

    /// Takes in what came of the step.
    pub fn next(&mut self, event: CopyEvent)
        ensures
            *final(self) == old(self).after(event),
    {
        match (self.step, event) {
            (CopyStep::Look, CopyEvent::Yes) => {
                self.step = CopyStep::CheckSealed;
            },
            (CopyStep::Look, CopyEvent::No) => {
                self.step = CopyStep::MakeDirectory;
            },
            (CopyStep::CheckSealed, CopyEvent::Yes) => {
                self.step = CopyStep::Ready;
            },
            (CopyStep::CheckSealed, CopyEvent::No) => {
                self.step = CopyStep::RemoveOld;
            },
            (CopyStep::RemoveOld, CopyEvent::Done) => {
                self.step = CopyStep::MakeDirectory;
            },
            (CopyStep::MakeDirectory, CopyEvent::Done) => {
                self.step = CopyStep::TakeCopy;
            },
            (CopyStep::TakeCopy, CopyEvent::Done) => {
                self.step = CopyStep::Filter;
            },
            (CopyStep::Filter, CopyEvent::Removed(excluded)) => {
                self.excluded = Some(excluded);
                self.step = CopyStep::Seal;
            },
            (CopyStep::Filter, CopyEvent::Failed) => {
                self.step = CopyStep::Discard(CopyFault::NotFiltered);
            },
            (CopyStep::Seal, CopyEvent::Done) => {
                self.step = CopyStep::Ready;
            },
            (CopyStep::Seal, CopyEvent::Failed) => {
                self.step = CopyStep::Discard(CopyFault::NotSealed);
            },
            (CopyStep::Discard(fault), _) => {
                self.step = CopyStep::Failed(fault);
            },
            (CopyStep::Ready, _) => {},
            (CopyStep::Failed(_), _) => {},
            (_, CopyEvent::Failed) => {
                self.step = CopyStep::Failed(CopyFault::Stopped);
            },
            (_, _) => {},
        }
    }
}

/// The work after everything that came of its steps, one event after the other.
pub open spec fn copied(copying: Copying, events: Seq<CopyEvent>) -> Copying
    decreases events.len(),
{
    if events.len() == 0 {
        copying
    } else {
        copied(copying, events.drop_last()).after(events.last())
    }
}

/// What was removed from a copy is known once the excluded paths are gone from it, and not before.
proof fn lemma_removed_is_known(events: Seq<CopyEvent>)
    ensures
        match copied(Copying::started(), events).step {
            CopyStep::Ready => true,
            CopyStep::Failed(_) => true,
            CopyStep::Discard(_) => true,
            CopyStep::Seal => copied(Copying::started(), events).excluded is Some,
            _ => copied(Copying::started(), events).excluded is None,
        },
    decreases events.len(),
{
    if events.len() > 0 {
        lemma_removed_is_known(events.drop_last());
    }
}

/// Whatever happens on the way, a filtered copy is handed out only when it is read-only: it was
/// found so, or it was made so after the excluded paths were removed from it. What was removed is
/// known exactly in the second case.
pub proof fn lemma_only_sealed_copies_are_ready(events: Seq<CopyEvent>)
    ensures
        copied(Copying::started(), events).step is Ready ==> {
            ||| copied(Copying::started(), events).excluded is None && exists|n: int|
                0 <= n < events.len() && (#[trigger] copied(Copying::started(), events.take(n))).step
                    is CheckSealed && events[n] is Yes
            ||| copied(Copying::started(), events).excluded is Some && exists|n: int|
                0 <= n < events.len() && (#[trigger] copied(Copying::started(), events.take(n))).step
                    is Seal && events[n] is Done
        },
    decreases events.len(),
{
    if events.len() > 0 {
        let front = events.drop_last();
        lemma_only_sealed_copies_are_ready(front);
        lemma_removed_is_known(front);
        let before = copied(Copying::started(), front);
        let last = events.len() - 1;
        assert(events.take(last) =~= front);
        assert(events[last] == events.last());
        if before.step is Ready {
            if before.excluded is None {
                let n = choose|n: int|
                    0 <= n < front.len() && (#[trigger] copied(
                        Copying::started(),
                        front.take(n),
                    )).step is CheckSealed && front[n] is Yes;
                assert(front.take(n) =~= events.take(n));
                assert(events[n] == front[n]);
            } else {
                let n = choose|n: int|
                    0 <= n < front.len() && (#[trigger] copied(
                        Copying::started(),
                        front.take(n),
                    )).step is Seal && front[n] is Done;
                assert(front.take(n) =~= events.take(n));
                assert(events[n] == front[n]);
            }
        } else {
            assert(copied(Copying::started(), events.take(last)) == before);
        }
    }
}

/// A copy that was begun and could not be finished is deleted before the failure is reported.
pub proof fn lemma_unfinished_copies_are_discarded(copying: Copying, event: CopyEvent)
    requires
        copying.step is Filter || copying.step is Seal,
    ensures
        !(copying.after(event).step is Failed),
        event is Failed ==> copying.after(event).step is Discard,
{
}

/// The command that takes a read-write snapshot of `snapshot` at `copy`.
pub fn copy_args(snapshot: &str, copy: &str) -> (args: Vec<String>)
    ensures
        texts(args@) == seq!["subvolume"@, "snapshot"@, snapshot@, copy@],
{
    let args: Vec<String> = vec![
        "subvolume".to_owned(),
        "snapshot".to_owned(),
        snapshot.to_owned(),
        copy.to_owned(),
    ];
    assert(texts(args@) =~= seq!["subvolume"@, "snapshot"@, snapshot@, copy@]);
    args
}

/// The command that makes `copy` read-only.
pub fn seal_args(copy: &str) -> (args: Vec<String>)
    ensures
        texts(args@) == seq!["property"@, "set"@, "-ts"@, copy@, "ro"@, "true"@],
{
    let args: Vec<String> = vec![
        "property".to_owned(),
        "set".to_owned(),
        "-ts".to_owned(),
        copy.to_owned(),
        "ro".to_owned(),
        "true".to_owned(),
    ];
    assert(texts(args@) =~= seq!["property"@, "set"@, "-ts"@, copy@, "ro"@, "true"@]);
    args
}

/// The command that says whether `copy` is read-only.
pub fn sealed_args(copy: &str) -> (args: Vec<String>)
    ensures
        texts(args@) == seq!["property"@, "get"@, "-ts"@, copy@, "ro"@],
{
    let args: Vec<String> = vec![
        "property".to_owned(),
        "get".to_owned(),
        "-ts".to_owned(),
        copy.to_owned(),
        "ro".to_owned(),
    ];
    assert(texts(args@) =~= seq!["property"@, "get"@, "-ts"@, copy@, "ro"@]);
    args
}

/// Whether the output of `btrfs property get` says that the subvolume is read-only.
pub fn is_read_only(output: &str) -> (yes: bool)
    ensures
        yes == occurs_in("ro=true"@, output@),
{
    contains_text(output, "ro=true")
}

/// What is found at a path.
#[derive(Debug)]
pub enum Tree {
    /// A directory, and what is in it.
    Directory(Vec<Tree>),
    /// A regular file of this size.
    File(u64),
    /// Something else, such as a symbolic link.
    Other,
}

/// The size of the files in a tree.
pub open spec fn size_of(tree: Tree) -> nat
    decreases tree, 0nat,
{
    match tree {
        Tree::Directory(entries) => size_of_first(entries@, entries@.len()),
        Tree::File(size) => size as nat,
        Tree::Other => 0,
    }
}

/// The size of the files in the first `n` of several trees.
pub open spec fn size_of_first(entries: Seq<Tree>, n: nat) -> nat
    decreases entries, n,
{
    if n == 0 || n > entries.len() {
        0
    } else {
        size_of_first(entries, (n - 1) as nat) + size_of(entries[n - 1])
    }
}

/// The sizes of more trees are not less.
proof fn lemma_size_grows(entries: Seq<Tree>, n: nat, m: nat)
    requires
        n <= m <= entries.len(),
    ensures
        size_of_first(entries, n) <= size_of_first(entries, m),
    decreases m,
{
    if n < m {
        lemma_size_grows(entries, n, (m - 1) as nat);
    }
}

/// The size of the files in a tree, unless it is too large to count.
pub fn tree_size(tree: &Tree) -> (size: Option<u64>)
    ensures
        match size {
            Some(size) => size == size_of(*tree),
            None => size_of(*tree) > u64::MAX,
        },
    decreases tree,
{
    match tree {
        Tree::Directory(entries) => {
            let mut total: u64 = 0;
            let mut i: usize = 0;
            while i < entries.len()
                invariant
                    i <= entries@.len(),
                    *tree == Tree::Directory(*entries),
                    total == size_of_first(entries@, i as nat),
                decreases entries@.len() - i,
            {
                proof {
                    lemma_size_grows(entries@, (i + 1) as nat, entries@.len());
                    assert(decreases_to!(*tree => tree->Directory_0));
                    assert(decreases_to!(tree->Directory_0 => entries@));
                    assert(decreases_to!(entries@ => entries@[i as int]));
                }
                let size: u64 = match tree_size(&entries[i]) {
                    Some(size) => size,
                    None => {
                        return None;
                    },
                };
                if size > u64::MAX - total {
                    return None;
                }
                total += size;
                i += 1;
            }
            Some(total)
        },
        Tree::File(size) => Some(*size),
        Tree::Other => Some(0),
    }
}

/// What the first `n` of these excluded paths amount to: those that are there, and the size of
/// the files under them.
pub open spec fn amount(found: Seq<Option<Tree>>, n: nat) -> (nat, nat)
    decreases n,
{
    if n == 0 || n > found.len() {
        (0, 0)
    } else {
        let (paths, bytes) = amount(found, (n - 1) as nat);
        match found[n - 1] {
            Some(tree) => (paths + 1, bytes + size_of(tree)),
            None => (paths, bytes),
        }
    }
}

proof fn lemma_amount_grows(found: Seq<Option<Tree>>, n: nat, m: nat)
    requires
        n <= m <= found.len(),
    ensures
        amount(found, n).1 <= amount(found, m).1,
        amount(found, m).0 <= m,
    decreases m,
{
    if n < m {
        lemma_amount_grows(found, n, (m - 1) as nat);
    } else if m > 0 {
        lemma_amount_grows(found, (m - 1) as nat, (m - 1) as nat);
    }
}

/// What was counted, with what is found at one more excluded path.
pub open spec fn counted(so_far: (nat, nat), found: Option<Tree>) -> (nat, nat) {
    match found {
        Some(tree) => (so_far.0 + 1, so_far.1 + size_of(tree)),
        None => so_far,
    }
}

/// What is counted when the excluded paths are removed one after the other.
pub open spec fn removed_in_turn(so_far: (nat, nat), found: Seq<Option<Tree>>) -> (nat, nat)
    decreases found.len(),
{
    if found.len() == 0 {
        so_far
    } else {
        removed_in_turn(counted(so_far, found[0]), found.drop_first())
    }
}

/// Counting what is found at the excluded paths one after the other comes to what they amount to.
/// If nothing is found at any of them, that is nothing.
pub proof fn lemma_removed_in_turn(found: Seq<Option<Tree>>)
    ensures
        removed_in_turn((0, 0), found) == amount(found, found.len()),
        (forall|i: int| 0 <= i < found.len() ==> #[trigger] found[i] is None) ==> amount(
            found,
            found.len(),
        ) == (0nat, 0nat),
{
    lemma_removed_from(found, 0);
    assert(found.skip(0) =~= found);
    if forall|i: int| 0 <= i < found.len() ==> #[trigger] found[i] is None {
        lemma_nothing_found(found, found.len());
    }
}

proof fn lemma_removed_from(found: Seq<Option<Tree>>, n: nat)
    requires
        n <= found.len(),
    ensures
        removed_in_turn(amount(found, n), found.skip(n as int)) == amount(found, found.len()),
    decreases found.len() - n,
{
    let rest = found.skip(n as int);
    if n < found.len() {
        lemma_removed_from(found, n + 1);
        assert(rest.drop_first() =~= found.skip((n + 1) as int));
        assert(rest[0] == found[n as int]);
        assert(amount(found, n + 1) == counted(amount(found, n), found[n as int]));
    }
}

proof fn lemma_nothing_found(found: Seq<Option<Tree>>, n: nat)
    requires
        n <= found.len(),
        forall|i: int| 0 <= i < found.len() ==> #[trigger] found[i] is None,
    ensures
        amount(found, n) == (0nat, 0nat),
    decreases n,
{
    if n > 0 {
        lemma_nothing_found(found, (n - 1) as nat);
        assert(found[n - 1] is None);
    }
}

/// What the excluded paths of a snapshot amount to, given what is found at each of them, or
/// nothing if that is too large to count.
pub fn measure_excludes(found: &[Option<Tree>]) -> (excluded: Option<Excluded>)
    ensures
        match excluded {
            Some(excluded) => amount(found@, found@.len()) == (
                excluded.paths as nat,
                excluded.bytes as nat,
            ),
            None => amount(found@, found@.len()).1 > u64::MAX,
        },
{
    let mut excluded: Excluded = Excluded { paths: 0, bytes: 0 };
    let mut i: usize = 0;
    while i < found.len()
        invariant
            i <= found@.len(),
            excluded.paths <= i,
            amount(found@, i as nat) == (excluded.paths as nat, excluded.bytes as nat),
        decreases found@.len() - i,
    {
        proof {
            lemma_amount_grows(found@, (i + 1) as nat, found@.len());
        }
        match remove_excludes(&excluded, &found[i]) {
            Some(more) => {
                excluded = more;
            },
            None => {
                return None;
            },
        }
        i += 1;
    }
    Some(excluded)
}

/// What was removed so far, with one more excluded path: what is found there is counted before it
/// goes. Nothing comes back if that is too large to count.
pub fn remove_excludes(removed: &Excluded, found: &Option<Tree>) -> (more: Option<Excluded>)
    requires
        removed.paths < usize::MAX,
    ensures
        ({
            let total = counted((removed.paths as nat, removed.bytes as nat), *found);
            match more {
                Some(more) => (more.paths as nat, more.bytes as nat) == total,
                None => total.1 > u64::MAX,
            }
        }),
{
    match found {
        Some(tree) => {
            let size: u64 = match tree_size(tree) {
                Some(size) => size,
                None => {
                    return None;
                },
            };
            if size > u64::MAX - removed.bytes {
                return None;
            }
            Some(Excluded { paths: removed.paths + 1, bytes: removed.bytes + size })
        },
        None => Some(*removed),
    }
}

/// The names in a path between its slashes, without empty ones and single dots. The dot that a
/// relative path starts with counts.
pub open spec fn names_in(path: Seq<u8>) -> Seq<Seq<u8>> {
    names_from(path, 0)
}

/// Where the piece of a path that starts at `from` ends: at the next slash or at the end.
pub open spec fn piece_end(path: Seq<u8>, from: int) -> int
    decreases path.len() - from,
{
    if 0 <= from < path.len() && path[from] != 47 {
        piece_end(path, from + 1)
    } else {
        from
    }
}

/// Whether the piece of a path between two positions is a name.
pub open spec fn is_name(path: Seq<u8>, from: int, end: int) -> bool {
    from < end && (path.subrange(from, end) != seq![46u8] || from == 0)
}

/// The names in a path from a position on, where a piece starts.
pub open spec fn names_from(path: Seq<u8>, from: int) -> Seq<Seq<u8>>
    decreases path.len() - from,
{
    if from < 0 || from >= path.len() {
        Seq::empty()
    } else {
        let end = piece_end(path, from);
        let rest = if from < end + 1 <= path.len() {
            names_from(path, end + 1)
        } else {
            Seq::empty()
        };
        if is_name(path, from, end) {
            seq![path.subrange(from, end)] + rest
        } else {
            rest
        }
    }
}

/// Whether a path is `root` or lies below it, name by name.
pub open spec fn lies_within(root: Seq<u8>, path: Seq<u8>) -> bool {
    (root.len() > 0 && root[0] == 47) == (path.len() > 0 && path[0] == 47) && names_in(
        root,
    ).is_prefix_of(names_in(path))
}

pub proof fn lemma_piece_end(path: Seq<u8>, from: int)
    requires
        0 <= from <= path.len(),
    ensures
        from <= piece_end(path, from) <= path.len(),
    decreases path.len() - from,
{
    if from < path.len() && path[from] != 47 {
        lemma_piece_end(path, from + 1);
    }
}

fn find_piece_end(path: &[u8], from: usize) -> (end: usize)
    requires
        from <= path@.len(),
    ensures
        end == piece_end(path@, from as int),
        from <= end <= path@.len(),
{
    let mut end: usize = from;
    while end < path.len() && path[end] != 47
        invariant
            from <= end <= path@.len(),
            piece_end(path@, end as int) == piece_end(path@, from as int),
        decreases path@.len() - end,
    {
        end += 1;
    }
    end
}

/// The pieces of a path, as bytes.
pub open spec fn byte_lists(list: Seq<Vec<u8>>) -> Seq<Seq<u8>> {
    list.map_values(|v: Vec<u8>| v@)
}

fn piece(path: &[u8], from: usize, end: usize) -> (bytes: Vec<u8>)
    requires
        from <= end <= path@.len(),
    ensures
        bytes@ == path@.subrange(from as int, end as int),
{
    let mut bytes: Vec<u8> = Vec::new();
    let mut i: usize = from;
    while i < end
        invariant
            from <= i <= end <= path@.len(),
            bytes@ == path@.subrange(from as int, i as int),
        decreases end - i,
    {
        bytes.push(path[i]);
        i += 1;
        assert(bytes@ =~= path@.subrange(from as int, i as int));
    }
    bytes
}

fn is_dot(bytes: &Vec<u8>) -> (yes: bool)
    ensures
        yes == (bytes@ == seq![46u8]),
{
    let yes: bool = bytes.len() == 1 && bytes[0] == 46;
    if yes {
        assert(bytes@ =~= seq![46u8]);
    }
    yes
}

fn split_names(path: &[u8]) -> (names: Vec<Vec<u8>>)
    ensures
        byte_lists(names@) == names_in(path@),
{
    let mut names: Vec<Vec<u8>> = Vec::new();
    let n: usize = path.len();
    let mut from: usize = 0;
    proof {
        assert(byte_lists(names@) + names_in(path@) =~= names_in(path@));
    }
    while from < n
        invariant
            n == path@.len(),
            from <= n,
            byte_lists(names@) + names_from(path@, from as int) == names_in(path@),
        decreases n - from,
    {
        let end: usize = find_piece_end(path, from);
        let ghost before = byte_lists(names@);
        let bytes: Vec<u8> = piece(path, from, end);
        let counts: bool = from < end && (!is_dot(&bytes) || from == 0);
        let ghost rest = names_from(path@, end + 1);
        if counts {
            let ghost shown = bytes@;
            names.push(bytes);
            proof {
                assert(byte_lists(names@) =~= before.push(shown));
                assert(before.push(shown) + rest =~= before + (seq![shown] + rest));
            }
        }
        if end == n {
            proof {
                assert(rest =~= Seq::<Seq<u8>>::empty());
                assert(names_from(path@, n as int) =~= rest);
            }
            from = n;
        } else {
            from = end + 1;
        }
    }
    proof {
        assert(names_from(path@, n as int) =~= Seq::<Seq<u8>>::empty());
        assert(byte_lists(names@) + Seq::<Seq<u8>>::empty() =~= byte_lists(names@));
    }
    names
}

fn same_bytes(a: &Vec<u8>, b: &Vec<u8>) -> (same: bool)
    ensures
        same == (a@ == b@),
{
    if a.len() != b.len() {
        return false;
    }
    let mut i: usize = 0;
    while i < a.len()
        invariant
            i <= a@.len(),
            a@.len() == b@.len(),
            forall|k: int| 0 <= k < i ==> a@[k] == b@[k],
        decreases a@.len() - i,
    {
        if a[i] != b[i] {
            return false;
        }
        i += 1;
    }
    assert(a@ =~= b@);
    true
}

/// Whether a path is `root` or lies below it, name by name. Both are paths without symbolic links
/// in them.
pub fn is_within(root: &[u8], path: &[u8]) -> (within: bool)
    ensures
        within == lies_within(root@, path@),
{
    let root_absolute: bool = root.len() > 0 && root[0] == 47;
    let path_absolute: bool = path.len() > 0 && path[0] == 47;
    let a: Vec<Vec<u8>> = split_names(root);
    let b: Vec<Vec<u8>> = split_names(path);
    let ghost x = byte_lists(a@);
    let ghost y = byte_lists(b@);
    if root_absolute != path_absolute || a.len() > b.len() {
        assert(x.len() == a@.len() && y.len() == b@.len());
        return false;
    }
    let mut i: usize = 0;
    while i < a.len()
        invariant
            i <= a@.len() <= b@.len(),
            x == byte_lists(a@),
            y == byte_lists(b@),
            x == names_in(root@),
            y == names_in(path@),
            forall|k: int| 0 <= k < i ==> x[k] == y[k],
        decreases a@.len() - i,
    {
        assert(x[i as int] == a@[i as int]@ && y[i as int] == b@[i as int]@);
        if !same_bytes(&a[i], &b[i]) {
            proof {
                if x.is_prefix_of(y) {
                    assert(y.subrange(0, x.len() as int)[i as int] == y[i as int]);
                }
            }
            return false;
        }
        i += 1;
    }
    assert(x =~= y.subrange(0, x.len() as int));
    true
}

/// A piece that ends within a path ends there too when something is put behind the path.
pub proof fn lemma_same_piece_end(path: Seq<u8>, tail: Seq<u8>, from: int)
    requires
        0 <= from <= path.len(),
        from < path.len() || tail.len() == 0 || tail[0] == 47,
        tail.len() == 0 || tail[0] == 47 || path.last() == 47,
    ensures
        piece_end(path + tail, from) == piece_end(path, from),
    decreases path.len() - from,
{
    let whole = path + tail;
    if from < path.len() {
        assert(whole[from] == path[from]);
        if path[from] != 47 {
            if from + 1 == path.len() {
                assert(path.last() == path[from]);
            }
            lemma_same_piece_end(path, tail, from + 1);
        }
    } else if tail.len() > 0 {
        assert(whole[from] == tail[0]);
    }
}

/// The names in a path are the first names in what it is continued to.
proof fn lemma_names_continue(path: Seq<u8>, tail: Seq<u8>, from: int)
    requires
        0 <= from <= path.len(),
        tail.len() == 0 || tail[0] == 47 || path.last() == 47,
    ensures
        names_from(path, from).is_prefix_of(names_from(path + tail, from)),
    decreases path.len() - from,
{
    let whole = path + tail;
    if from < path.len() {
        lemma_same_piece_end(path, tail, from);
        lemma_piece_end(path, from);
        let end = piece_end(path, from);
        assert(whole.subrange(from, end) =~= path.subrange(from, end));
        if end + 1 <= path.len() {
            lemma_names_continue(path, tail, end + 1);
            let first = seq![path.subrange(from, end)];
            let a = names_from(path, end + 1);
            let b = names_from(whole, end + 1);
            assert((first + b).subrange(0, (first + a).len() as int) =~= first + b.subrange(
                0,
                a.len() as int,
            ));
        } else {
            let a = names_from(path, from);
            let b = names_from(whole, from);
            assert(b.subrange(0, a.len() as int) =~= a);
        }
    } else {
        let b = names_from(whole, from);
        assert(b.subrange(0, 0) =~= Seq::<Seq<u8>>::empty());
    }
}

/// What is put below a directory within `root` is within `root`, whatever its name: an entry
/// whose parent directory is in the snapshot is in the snapshot.
pub proof fn lemma_entries_stay_within(root: Seq<u8>, parent: Seq<u8>, tail: Seq<u8>)
    requires
        lies_within(root, parent),
        parent.len() > 0,
        tail.len() > 0,
        tail[0] == 47 || parent.last() == 47,
    ensures
        lies_within(root, parent + tail),
{
    lemma_names_continue(parent, tail, 0);
    let x = names_in(root);
    let y = names_in(parent);
    let z = names_in(parent + tail);
    assert(z.subrange(0, x.len() as int) =~= z.subrange(0, y.len() as int).subrange(
        0,
        x.len() as int,
    ));
}

/// The path of what is called `name` in the directory `parent`.
pub open spec fn entry_in(parent: Seq<u8>, name: Seq<u8>) -> Seq<u8> {
    if parent.len() > 0 && parent.last() != 47 {
        parent + seq![47u8] + name
    } else {
        parent + name
    }
}

fn join_name(parent: &[u8], name: &[u8]) -> (path: Vec<u8>)
    ensures
        path@ == entry_in(parent@, name@),
{
    let mut path: Vec<u8> = Vec::new();
    path.extend_from_slice(parent);
    if parent.len() > 0 && parent[parent.len() - 1] != 47 {
        path.push(47);
    }
    path.extend_from_slice(name);
    assert(path@ =~= entry_in(parent@, name@));
    path
}

/// What becomes of an exclude entry.
#[derive(Debug, Clone, PartialEq, Eq)]
pub enum Located {
    /// It is not in the snapshot, and left alone.
    Absent,
    /// It is in the snapshot, at this path.
    Inside(Vec<u8>),
    /// Its parent directory is outside of the snapshot, and it is not touched.
    Outside,
    /// It does not end with a name, and it is not touched.
    Nameless,
}

/// Where the exclude `entry` of the snapshot at `root` is: `is_there` says whether something is
/// found at it, and the other paths are those of the snapshot and of the entry's parent directory
/// with all symbolic links resolved.
///
/// The last name is not followed: a symbolic link is removed as a link. The entry is refused when
/// its parent resolves outside the root: a symlink inside the snapshot may point at the live
/// system, and deleting through it would destroy live data.
pub fn locate_exclude(
    root: &str,
    entry: &str,
    is_there: bool,
    real_root: &[u8],
    real_parent: &[u8],
) -> (located: Located)
    ensures
        match located {
            Located::Absent => !is_there,
            Located::Outside => is_there && !lies_within(real_root@, real_parent@),
            Located::Nameless => {
                &&& is_there
                &&& lies_within(real_root@, real_parent@)
                &&& file_name(below(root@, entry@)) is None
            },
            Located::Inside(path) => {
                &&& is_there
                &&& lies_within(real_root@, real_parent@)
                &&& file_name(below(root@, entry@)) matches Some(name)
                &&& path@ == entry_in(real_parent@, encode_utf8(name))
                &&& real_parent@.len() > 0 ==> lies_within(real_root@, path@)
            },
        },
{
    if !is_there {
        return Located::Absent;
    }
    if !is_within(real_root, real_parent) {
        return Located::Outside;
    }
    let full: String = join_path(root, entry);
    match last_name(full.as_str()) {
        Some(name) => {
            let path: Vec<u8> = join_name(real_parent, name.as_str().as_bytes());
            proof {
                let bytes = encode_utf8(name@);
                if real_parent@.len() > 0 {
                    if real_parent@.last() != 47 {
                        lemma_entries_stay_within(real_root@, real_parent@, seq![47u8] + bytes);
                        assert(real_parent@ + (seq![47u8] + bytes) =~= path@);
                    } else if bytes.len() > 0 {
                        lemma_entries_stay_within(real_root@, real_parent@, bytes);
                    } else {
                        assert(path@ =~= real_parent@);
                    }
                }
            }
            Located::Inside(path)
        },
        None => Located::Nameless,
    }
}

/// What to say of an exclude entry that is outside of the snapshot.
pub fn outside_message(entry: &str, parent: &str) -> (message: String)
    ensures
        message@ == "exclude '"@ + entry@ + "' resolves outside the snapshot ("@ + parent@
            + "), refusing to touch it"@,
{
    "exclude '".to_owned().concat(entry).concat("' resolves outside the snapshot (").concat(
        parent,
    ).concat("), refusing to touch it")
}

/// How removing something went.
#[derive(Debug, Clone, Copy, PartialEq, Eq, Structural)]
pub enum Removal {
    /// It is gone.
    Removed,
    /// The system does not permit it.
    Denied,
    /// It was not there.
    NotFound,
    /// It failed for another reason.
    Failed,
}

/// Whether an excluded entry is removed by force: its plain removal was denied. A protected file
/// stops it even for root.
pub fn needs_force(removal: Removal) -> (force: bool)
    ensures
        force == (removal == Removal::Denied),
{
    matches!(removal, Removal::Denied)
}

/// What removing one entry by force does now.
#[derive(Debug, Clone, Copy, PartialEq, Eq, Structural)]
pub enum UnlinkStep {
    /// Removes the entry.
    Remove,
    /// Clears the attributes of the entry that protect it.
    ClearEntry,
    /// Clears the attributes of its directory that protect it.
    ClearParent,
    /// Removes the entry once more.
    RemoveAgain,
    /// Nothing: how it ended.
    Ended(Removal),
}

/// Removing one entry by force: once, and once more with the protecting attributes cleared from
/// the entry and from the directory that holds it.
#[derive(Debug, Clone, Copy, PartialEq, Eq, Structural)]
pub struct Unlinking {
    pub step: UnlinkStep,
    /// Whether the entry carried a protecting attribute that was cleared.
    pub entry_cleared: bool,
    /// Whether its directory carried a protecting attribute that was cleared.
    pub parent_cleared: bool,
}

impl Unlinking {
    /// The work that has not started.
    pub open spec fn started() -> Unlinking {
        Unlinking { step: UnlinkStep::Remove, entry_cleared: false, parent_cleared: false }
    }

    /// The work that has not started.
    pub fn start() -> (unlinking: Unlinking)
        ensures
            unlinking == Unlinking::started(),
    {
        Unlinking { step: UnlinkStep::Remove, entry_cleared: false, parent_cleared: false }
    }

    /// The work after a removal.
    pub open spec fn after_removal(self, removal: Removal) -> Unlinking {
        match self.step {
            UnlinkStep::Remove => Unlinking {
                step: if removal == Removal::Denied {
                    UnlinkStep::ClearEntry
                } else {
                    UnlinkStep::Ended(removal)
                },
                ..self
            },
            UnlinkStep::RemoveAgain => Unlinking { step: UnlinkStep::Ended(removal), ..self },
            _ => self,
        }
    }

    /// The work after attributes were looked at, and perhaps cleared.
    pub open spec fn after_clearing(self, cleared: bool) -> Unlinking {
        match self.step {
            UnlinkStep::ClearEntry => Unlinking {
                step: UnlinkStep::ClearParent,
                entry_cleared: cleared,
                ..self
            },
            UnlinkStep::ClearParent => Unlinking {
                step: UnlinkStep::RemoveAgain,
                parent_cleared: cleared,
                ..self
            },
            _ => self,
        }
    }

    /// Takes in how a removal went.
    pub fn removed(&mut self, removal: Removal)
        ensures
            *final(self) == old(self).after_removal(removal),
    {
        match self.step {
            UnlinkStep::Remove => {
                self.step = if matches!(removal, Removal::Denied) {
                    UnlinkStep::ClearEntry
                } else {
                    UnlinkStep::Ended(removal)
                };
            },
            UnlinkStep::RemoveAgain => {
                self.step = UnlinkStep::Ended(removal);
            },
            _ => {},
        }
    }

    /// Takes in whether an attribute was set and cleared. A failure to clear counts as none.
    pub fn cleared(&mut self, cleared: bool)
        ensures
            *final(self) == old(self).after_clearing(cleared),
    {
        match self.step {
            UnlinkStep::ClearEntry => {
                self.entry_cleared = cleared;
                self.step = UnlinkStep::ClearParent;
            },
            UnlinkStep::ClearParent => {
                self.parent_cleared = cleared;
                self.step = UnlinkStep::RemoveAgain;
            },
            _ => {},
        }
    }

    /// Whether the cleared attributes are reported: only where the removal succeeded after all.
    pub fn reports(&self) -> (yes: bool)
        ensures
            yes == (self.step == UnlinkStep::Ended(Removal::Removed)),
    {
        matches!(self.step, UnlinkStep::Ended(Removal::Removed))
    }
}

/// Attributes are only ever touched after a removal was denied, and the entry is removed at most
/// twice: where the first removal was not denied, that is how the work ends.
pub proof fn lemma_attributes_only_after_denial(
    first: Removal,
    entry: bool,
    parent: bool,
    second: Removal,
)
    ensures
        first != Removal::Denied ==> Unlinking::started().after_removal(first) == (Unlinking {
            step: UnlinkStep::Ended(first),
            entry_cleared: false,
            parent_cleared: false,
        }),
        first == Removal::Denied ==> Unlinking::started().after_removal(first).after_clearing(
            entry,
        ).after_clearing(parent).after_removal(second) == (Unlinking {
            step: UnlinkStep::Ended(second),
            entry_cleared: entry,
            parent_cleared: parent,
        }),
{
}

/// `FS_IMMUTABLE_FL` from `linux/fs.h`: the file can't be written, deleted or renamed.
pub const FS_IMMUTABLE_FL: i32 = 0x0000_0010;

/// `FS_APPEND_FL` from `linux/fs.h`: the file can only be opened for appending.
pub const FS_APPEND_FL: i32 = 0x0000_0020;

/// The attributes of a file without those that protect it from removal, if it has any of them.
pub fn clear_attributes(flags: i32) -> (wanted: Option<i32>)
    ensures
        match wanted {
            Some(wanted) => {
                &&& wanted == flags & !(FS_IMMUTABLE_FL | FS_APPEND_FL)
                &&& flags & (FS_IMMUTABLE_FL | FS_APPEND_FL) != 0
            },
            None => flags & (FS_IMMUTABLE_FL | FS_APPEND_FL) == 0,
        },
{
    let wanted: i32 = flags & !(FS_IMMUTABLE_FL | FS_APPEND_FL);
    proof {
        assert((flags & !(0x10i32 | 0x20i32) == flags) == (flags & (0x10i32 | 0x20i32) == 0))
            by (bit_vector);
    }
    if wanted == flags {
        None
    } else {
        Some(wanted)
    }
}

/// Clearing the protecting attributes leaves none of them and every other one, and there is
/// nothing to clear a second time.
pub proof fn lemma_cleared_attributes(flags: i32)
    ensures
        flags & !(FS_IMMUTABLE_FL | FS_APPEND_FL) & (FS_IMMUTABLE_FL | FS_APPEND_FL) == 0,
        (flags & !(FS_IMMUTABLE_FL | FS_APPEND_FL)) | (flags & (FS_IMMUTABLE_FL | FS_APPEND_FL))
            == flags,
{
    assert(flags & !(0x10i32 | 0x20i32) & (0x10i32 | 0x20i32) == 0) by (bit_vector);
    assert((flags & !(0x10i32 | 0x20i32)) | (flags & (0x10i32 | 0x20i32)) == flags)
        by (bit_vector);
}

} // verus!
