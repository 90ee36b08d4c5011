//! Directories as the database stores them, and the name of this machine.
use crate::paths::{below, is_absolute, join_path, starts_at_root};
use vstd::prelude::*;

verus! {

/// Whether `s` is not empty and made only of `c`.
pub open spec fn only(s: Seq<char>, c: char) -> bool {
    s.len() > 0 && forall|i: int| 0 <= i < s.len() ==> s[i] == c
}

/// Whether `s` is non-empty and made only of `specific_char`.
#[must_use]
pub fn is_same_character(s: &str, specific_char: char) -> (same: bool)
    ensures
        same == only(s@, specific_char),
{
    let n: usize = s.unicode_len();
    let mut i: usize = 0;
    while i < n
        invariant
            i <= n,
            n == s@.len(),
            forall|k: int| 0 <= k < i ==> s@[k] == specific_char,
        decreases n - i,
    {
        if s.get_char(i) != specific_char {
            return false;
        }
        i += 1;
    }
    n > 0
}

/// `path` without the slashes at its end.
pub open spec fn without_slashes(path: Seq<char>) -> Seq<char>
    decreases path.len(),
{
    if path.len() > 0 && path.last() == '/' {
        without_slashes(path.drop_last())
    } else {
        path
    }
}

/// `path` without the slashes at its end, the root directory being `/` itself.
pub open spec fn stripped(path: Seq<char>) -> Seq<char> {
    if path.len() > 0 && without_slashes(path).len() == 0 {
        "/"@
    } else {
        without_slashes(path)
    }
}

/// Remove trailing slashes from a path, keeping `/` itself intact.
#[must_use]
pub fn strip_trailing_slash(path: &str) -> (short: &str)
    ensures
        short@ == stripped(path@),
{
    let n: usize = path.unicode_len();
    let mut end: usize = n;
    proof {
        assert(path@.take(n as int) =~= path@);
    }
    while end > 0 && path.get_char(end - 1) == '/'
        invariant
            end <= n,
            n == path@.len(),
            without_slashes(path@) == without_slashes(path@.take(end as int)),
        decreases end,
    {
        assert(path@.take(end as int).drop_last() =~= path@.take(end - 1));
        end -= 1;
    }
    if end == 0 && n > 0 {
        assert(path@.take(0).len() == 0);
        return "/";
    }
    proof {
        assert(path@.subrange(0, end as int) =~= path@.take(end as int));
    }
    path.substring_char(0, end)
}

/// What is known of the directory that relative paths start from.
#[derive(Debug, Clone, PartialEq, Eq)]
pub enum WorkingDir {
    /// Its path.
    Known(String),
    /// It could not be read, for this reason.
    Unreadable(String),
    /// Its path is not valid Unicode, but looks like this.
    NotUnicode(String),
}

/// Why a directory could not be made absolute.
#[derive(Debug, Clone, Copy, PartialEq, Eq, Structural)]
pub enum DirError {
    /// The current directory could not be read.
    CurrentDirUnreadable,
    /// The path is not valid Unicode.
    NotUnicode,
}

impl DirError {
    /// What to say of a directory that could not be made absolute.
    pub fn message(&self, dir: &str, cwd: &WorkingDir) -> (message: String)
        ensures
            message@ == dir_error_text(*self, dir@, *cwd),
    {
        match *self {
            DirError::CurrentDirUnreadable => {
                let start: String = "failed to get the current working directory".to_owned();
                match cwd {
                    WorkingDir::Unreadable(reason) => start.concat(": ").concat(reason.as_str()),
                    _ => start,
                }
            },
            DirError::NotUnicode => {
                let path: String = match cwd {
                    WorkingDir::NotUnicode(base) => join_path(base.as_str(), dir),
                    _ => dir.to_owned(),
                };
                "the path ".to_owned().concat(path.as_str()).concat(" is not valid UTF-8")
            },
        }
    }
}

/// What to say of a directory that could not be made absolute.
pub open spec fn dir_error_text(error: DirError, dir: Seq<char>, cwd: WorkingDir) -> Seq<char> {
    match error {
        DirError::CurrentDirUnreadable => match cwd {
            WorkingDir::Unreadable(reason) => "failed to get the current working directory"@ + ": "@
                + reason@,
            _ => "failed to get the current working directory"@,
        },
        DirError::NotUnicode => "the path "@ + (match cwd {
            WorkingDir::NotUnicode(base) => below(base@, dir),
            _ => dir,
        }) + " is not valid UTF-8"@,
    }
}

/// `path` with a slash at its end.
pub open spec fn with_slash(path: Seq<char>) -> Seq<char> {
    if path.len() > 0 && path.last() == '/' {
        path
    } else {
        path + "/"@
    }
}

/// The form in which a directory is stored: absolute and with a slash at its end.
pub open spec fn normal_dir(dir: Seq<char>, cwd: WorkingDir) -> Result<Seq<char>, DirError> {
    if is_absolute(dir) {
        Ok(with_slash(dir))
    } else {
        match cwd {
            WorkingDir::Known(base) => Ok(with_slash(below(base@, dir))),
            WorkingDir::Unreadable(_) => Err(DirError::CurrentDirUnreadable),
            WorkingDir::NotUnicode(_) => Err(DirError::NotUnicode),
        }
    }
}

/// The text of a result that holds one.
pub open spec fn text_result<E>(result: Result<String, E>) -> Result<Seq<char>, E> {
    match result {
        Ok(s) => Ok(s@),
        Err(e) => Err(e),
    }
}

fn end_with_slash(path: String) -> (ended: String)
    ensures
        ended@ == with_slash(path@),
{
    let n: usize = path.as_str().unicode_len();
    if n > 0 && path.as_str().get_char(n - 1) == '/' {
        path
    } else {
        path.concat("/")
    }
}

/// Turn a directory path into an absolute path with a trailing slash.
///
/// Relative paths are resolved against the current working directory. The trailing slash is what
/// the database has always stored for `source` and `destination`, so we keep the format.
pub fn normalize_dir(dir: &str, cwd: &WorkingDir) -> (normalized: Result<String, DirError>)
    ensures
        text_result(normalized) == normal_dir(dir@, *cwd),
{
    if starts_at_root(dir) {
        return Ok(end_with_slash(dir.to_owned()));
    }
    match cwd {
        WorkingDir::Known(base) => Ok(end_with_slash(join_path(base.as_str(), dir))),
        WorkingDir::Unreadable(_) => Err(DirError::CurrentDirUnreadable),
        WorkingDir::NotUnicode(_) => Err(DirError::NotUnicode),
    }
}

/// The hostname could not be read.
#[derive(Debug, Clone, PartialEq, Eq)]
pub struct HostnameUnreadable {
    /// Why.
    pub reason: String,
}

/// Name of this machine, used in the snapshots metadata.
///
/// Calls `hostname::get`, which asks the operating system. Nothing is claimed of the name, nor of
/// whether there is one: both depend on the machine. Bytes that are not valid Unicode come back
/// as replacement characters.
#[verifier::external_body]
pub fn machine_name() -> (name: Result<String, HostnameUnreadable>) {
    match hostname::get() {
        Ok(name) => Ok(name.to_string_lossy().into_owned()),
        Err(error) => Err(HostnameUnreadable { reason: error.to_string() }),
    }
}

/// A directory in its stored form is absolute if the current directory is, and ends in a slash.
pub proof fn lemma_normal_dir_shape(dir: Seq<char>, cwd: WorkingDir)
    requires
        cwd matches WorkingDir::Known(base) ==> is_absolute(base@),
    ensures
        normal_dir(dir, cwd) matches Ok(path) ==> is_absolute(path) && path.last() == '/',
{
    reveal_strlit("/");
}

/// Storing a directory that is already in its stored form changes nothing.
pub proof fn lemma_normal_dir_idempotent(dir: Seq<char>, cwd: WorkingDir, later: WorkingDir)
    requires
        cwd matches WorkingDir::Known(base) ==> is_absolute(base@),
    ensures
        normal_dir(dir, cwd) matches Ok(path) ==> normal_dir(path, later) == Ok::<
            Seq<char>,
            DirError,
        >(path),
{
    lemma_normal_dir_shape(dir, cwd);
}

/// Stripping a path twice is stripping it once.
pub proof fn lemma_stripped_idempotent(path: Seq<char>)
    ensures
        stripped(stripped(path)) == stripped(path),
{
    reveal_strlit("/");
    lemma_without_slashes_end(path);
    let root = "/"@;
    assert(root.drop_last() =~= Seq::<char>::empty());
    reveal_with_fuel(without_slashes, 2);
}

/// What is left of a path without the slashes at its end does not end with one.
pub proof fn lemma_without_slashes_end(path: Seq<char>)
    ensures
        without_slashes(path).len() > 0 ==> without_slashes(path).last() != '/',
    decreases path.len(),
{
    if path.len() > 0 && path.last() == '/' {
        lemma_without_slashes_end(path.drop_last());
    }
}

} // verus!
