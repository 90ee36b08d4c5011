//! Unix paths written as text: their parts, their last name, and how they are put together.
use crate::text::{same_text, slices, split, split_at_each, text_option};
use vstd::prelude::*;

verus! {

/// One part of a path.
#[derive(Debug, Clone, PartialEq, Eq)]
pub enum PathPart {
    /// The slash that an absolute path starts with.
    Root,
    /// The `.` that a relative path starts with.
    Current,
    /// A `..`.
    Parent,
    /// A name.
    Normal(String),
}

/// One part of a path, as text.
pub enum Part {
    Root,
    Current,
    Parent,
    Normal(Seq<char>),
}

impl View for PathPart {
    type V = Part;

    open spec fn view(&self) -> Part {
        match self {
            PathPart::Root => Part::Root,
            PathPart::Current => Part::Current,
            PathPart::Parent => Part::Parent,
            PathPart::Normal(name) => Part::Normal(name@),
        }
    }
}

/// The parts of a list, as text.
pub open spec fn part_views(list: Seq<PathPart>) -> Seq<Part> {
    list.map_values(|p: PathPart| p@)
}

/// Whether a path starts at the root directory.
pub open spec fn is_absolute(path: Seq<char>) -> bool {
    path.len() > 0 && path[0] == '/'
}

/// Whether a piece between slashes is a part of its own: empty pieces and single dots are not.
pub open spec fn counts(piece: Seq<char>) -> bool {
    piece != ""@ && piece != "."@
}

/// The part that a piece between slashes stands for.
pub open spec fn part_of(piece: Seq<char>) -> Part {
    if piece == ".."@ {
        Part::Parent
    } else {
        Part::Normal(piece)
    }
}

/// The parts that the pieces between slashes stand for.
pub open spec fn named_parts(pieces: Seq<Seq<char>>) -> Seq<Part>
    decreases pieces.len(),
{
    if pieces.len() == 0 {
        Seq::empty()
    } else if counts(pieces.last()) {
        named_parts(pieces.drop_last()).push(part_of(pieces.last()))
    } else {
        named_parts(pieces.drop_last())
    }
}

/// What a path starts with: the root directory, the current one, or neither.
pub open spec fn leading_part(path: Seq<char>) -> Seq<Part> {
    if is_absolute(path) {
        seq![Part::Root]
    } else if split_at_each(path, '/')[0] == "."@ {
        seq![Part::Current]
    } else {
        Seq::empty()
    }
}

/// The parts of a path.
pub open spec fn parts_of(path: Seq<char>) -> Seq<Part> {
    leading_part(path) + named_parts(split_at_each(path, '/'))
}

/// The name that a path ends with, if it ends with one.
pub open spec fn file_name(path: Seq<char>) -> Option<Seq<char>> {
    let parts = parts_of(path);
    if parts.len() > 0 {
        match parts.last() {
            Part::Normal(name) => Some(name),
            _ => None,
        }
    } else {
        None
    }
}

/// `tail` below `base`. An absolute `tail` stands for itself.
pub open spec fn below(base: Seq<char>, tail: Seq<char>) -> Seq<char> {
    if is_absolute(tail) {
        tail
    } else if base.len() == 0 || base.last() == '/' {
        base + tail
    } else {
        base + "/"@ + tail
    }
}

/// Whether a path starts at the root directory.
pub fn starts_at_root(path: &str) -> (yes: bool)
    ensures
        yes == is_absolute(path@),
{
    path.unicode_len() > 0 && path.get_char(0) == '/'
}

/// The parts of a path.
pub fn parts(path: &str) -> (list: Vec<PathPart>)
    ensures
        part_views(list@) == parts_of(path@),
{
    let pieces: Vec<&str> = split(path, '/');
    let mut list: Vec<PathPart> = Vec::new();
    let ghost seen = split_at_each(path@, '/');
    assert(seen.len() > 0);
    assert(slices(pieces@)[0] == pieces@[0]@);
    if starts_at_root(path) {
        list.push(PathPart::Root);
    } else if same_text(pieces[0], ".") {
        list.push(PathPart::Current);
    }
    proof {
        assert(part_views(list@) =~= leading_part(path@));
        assert(leading_part(path@) + named_parts(seen.take(0)) =~= leading_part(path@));
    }
    let mut i: usize = 0;
    while i < pieces.len()
        invariant
            i <= pieces@.len(),
            seen == split_at_each(path@, '/'),
            seen == slices(pieces@),
            part_views(list@) == leading_part(path@) + named_parts(seen.take(i as int)),
        decreases pieces@.len() - i,
    {
        let piece: &str = pieces[i];
        let ghost before = part_views(list@);
        proof {
            assert(seen.take(i + 1).drop_last() =~= seen.take(i as int));
            assert(seen.take(i + 1).last() == piece@);
        }
        if !same_text(piece, "") && !same_text(piece, ".") {
            if same_text(piece, "..") {
                list.push(PathPart::Parent);
            } else {
                list.push(PathPart::Normal(piece.to_owned()));
            }
            proof {
                assert(part_views(list@) =~= before.push(part_of(piece@)));
                assert(before.push(part_of(piece@)) =~= leading_part(path@) + named_parts(
                    seen.take(i + 1),
                ));
            }
        }
        i += 1;
    }
    proof {
        assert(seen.take(seen.len() as int) =~= seen);
    }
    list
}

/// Whether a path ends with a name, and not with the root directory, `.` or `..`.
pub fn ends_with_name(path: &str) -> (yes: bool)
    ensures
        yes == (file_name(path@) is Some),
{
    let list: Vec<PathPart> = parts(path);
    assert(part_views(list@).len() == list@.len());
    if list.len() == 0 {
        return false;
    }
    assert(part_views(list@).last() == list@.last()@);
    match &list[list.len() - 1] {
        PathPart::Normal(_) => true,
        _ => false,
    }
}

/// The name that a path ends with, if it ends with one.
pub fn last_name(path: &str) -> (name: Option<String>)
    ensures
        text_option(name) == file_name(path@),
{
    let list: Vec<PathPart> = parts(path);
    assert(part_views(list@).len() == list@.len());
    if list.len() == 0 {
        return None;
    }
    assert(part_views(list@).last() == list@.last()@);
    match &list[list.len() - 1] {
        PathPart::Normal(name) => Some(name.clone()),
        _ => None,
    }
}

/// `tail` below `base`.
pub fn join_path(base: &str, tail: &str) -> (path: String)
    ensures
        path@ == below(base@, tail@),
{
    if starts_at_root(tail) {
        return tail.to_owned();
    }
    let n: usize = base.unicode_len();
    if n == 0 || base.get_char(n - 1) == '/' {
        base.to_owned().concat(tail)
    } else {
        base.to_owned().concat("/").concat(tail)
    }
}

} // verus!
