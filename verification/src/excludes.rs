//! Paths left out of the replicas: how they are written, where the filtered copies go, and what
//! leaving them out amounts to.
use crate::order::{add_distinct, arrange_texts, arranged_texts, distinct};
use crate::paths::{part_views, parts, parts_of, Part, PathPart};
use crate::text::{join, joined, texts, trim, trimmed};
use crate::utils::{strip_trailing_slash, stripped};
use vstd::prelude::*;
use vstd::utf8::encode_utf8;

verus! {

/// Why an exclude list is refused, and which entry is to blame.
#[derive(Debug, Clone, Copy, PartialEq, Eq, Structural)]
pub enum ExcludeError {
    /// The entry is absolute or holds `..`.
    Escaping(usize),
    /// The entry names nothing.
    Empty(usize),
}

/// Whether a part leads out of the directory that a path starts from.
pub open spec fn leads_out(part: Part) -> bool {
    part is Root || part is Parent
}

/// Whether a path leads out of the directory that it starts from.
pub open spec fn escapes(path: Seq<char>) -> bool {
    exists|i: int| 0 <= i < parts_of(path).len() && leads_out(#[trigger] parts_of(path)[i])
}

/// The names among the parts of a path.
pub open spec fn names(list: Seq<Part>) -> Seq<Seq<char>>
    decreases list.len(),
{
    if list.len() == 0 {
        Seq::empty()
    } else {
        match list.last() {
            Part::Normal(name) => names(list.drop_last()).push(name),
            _ => names(list.drop_last()),
        }
    }
}

/// The names along an exclude entry.
pub open spec fn entry_names(raw: Seq<char>) -> Seq<Seq<char>> {
    names(parts_of(trimmed(raw)))
}

/// An exclude entry in its normal form: its names with single slashes between them.
pub open spec fn entry_of(raw: Seq<char>) -> Seq<char> {
    joined(entry_names(raw), "/"@)
}

/// Whether an exclude entry can be used.
pub open spec fn is_usable(raw: Seq<char>) -> bool {
    !escapes(trimmed(raw)) && entry_names(raw).len() > 0
}

/// What is wrong with the entry `raw`, which stands at position `at`.
pub open spec fn entry_error(raw: Seq<char>, at: usize) -> ExcludeError {
    if escapes(trimmed(raw)) {
        ExcludeError::Escaping(at)
    } else {
        ExcludeError::Empty(at)
    }
}

/// The first thing wrong with a list of entries, if anything is.
pub open spec fn exclude_fault(excludes: Seq<Seq<char>>) -> Option<ExcludeError>
    decreases excludes.len(),
{
    if excludes.len() == 0 {
        None
    } else {
        match exclude_fault(excludes.drop_last()) {
            Some(error) => Some(error),
            None => if is_usable(excludes.last()) {
                None
            } else {
                Some(entry_error(excludes.last(), (excludes.len() - 1) as usize))
            },
        }
    }
}

/// The normal forms of a list of entries.
pub open spec fn entries_of(excludes: Seq<Seq<char>>) -> Seq<Seq<char>> {
    excludes.map_values(|raw: Seq<char>| entry_of(raw))
}

/// An exclude list in its normal form: every entry in its own, each once, in order.
pub open spec fn normal_excludes(excludes: Seq<Seq<char>>) -> Seq<Seq<char>> {
    arranged_texts(distinct(entries_of(excludes)))
}

/// The names along an exclude entry, unless it leads out.
fn names_of(raw: &str) -> (found: Option<Vec<String>>)
    ensures
        match found {
            Some(list) => !escapes(trimmed(raw@)) && texts(list@) == entry_names(raw@),
            None => escapes(trimmed(raw@)),
        },
{
    let list: Vec<PathPart> = parts(trim(raw));
    let ghost seen = parts_of(trimmed(raw@));
    let mut found: Vec<String> = Vec::new();
    let mut i: usize = 0;
    proof {
        assert(seen.take(0) =~= Seq::<Part>::empty());
        assert(texts(found@) =~= Seq::<Seq<char>>::empty());
    }
    while i < list.len()
        invariant
            i <= list@.len(),
            seen == parts_of(trimmed(raw@)),
            seen == part_views(list@),
            forall|k: int| 0 <= k < i ==> !leads_out(#[trigger] seen[k]),
            texts(found@) == names(seen.take(i as int)),
        decreases list@.len() - i,
    {
        let ghost before = texts(found@);
        proof {
            assert(seen.take(i + 1).drop_last() =~= seen.take(i as int));
            assert(seen.take(i + 1).last() == seen[i as int]);
            assert(seen[i as int] == list@[i as int]@);
        }
        match &list[i] {
            PathPart::Current => {},
            PathPart::Normal(name) => {
                found.push(name.clone());
                assert(texts(found@) =~= before.push(name@));
            },
            _ => {
                assert(leads_out(seen[i as int]));
                return None;
            },
        }
        i += 1;
    }
    proof {
        assert(seen.take(seen.len() as int) =~= seen);
        assert(forall|k: int| 0 <= k < seen.len() ==> !leads_out(#[trigger] seen[k]));
    }
    Some(found)
}

/// What is wrong with the start of a list is wrong with the list.
proof fn lemma_fault_stays(excludes: Seq<Seq<char>>, n: int)
    requires
        0 <= n <= excludes.len(),
        exclude_fault(excludes.take(n)) is Some,
    ensures
        exclude_fault(excludes) == exclude_fault(excludes.take(n)),
    decreases excludes.len() - n,
{
    if n == excludes.len() {
        assert(excludes.take(n) =~= excludes);
    } else {
        assert(excludes.take(n + 1).drop_last() =~= excludes.take(n));
        lemma_fault_stays(excludes, n + 1);
    }
}

/// Normalize the `exclude` entries of a target: relative paths inside the snapshot, without
/// leading `./`, trailing `/`, `.` or `..` components, deduplicated and sorted.
pub fn normalize_excludes(excludes: &[String]) -> (list: Result<Vec<String>, ExcludeError>)
    ensures
        match list {
            Ok(list) => exclude_fault(texts(excludes@)) is None && texts(list@)
                == normal_excludes(texts(excludes@)),
            Err(error) => exclude_fault(texts(excludes@)) == Some(error),
        },
{
    let mut list: Vec<String> = Vec::new();
    let ghost raws = texts(excludes@);
    let ghost entries = entries_of(raws);
    let mut i: usize = 0;
    proof {
        assert(entries.take(0) =~= Seq::<Seq<char>>::empty());
        assert(texts(list@) =~= Seq::<Seq<char>>::empty());
    }
    while i < excludes.len()
        invariant
            i <= excludes@.len(),
            raws == texts(excludes@),
            entries == entries_of(raws),
            exclude_fault(raws.take(i as int)) is None,
            texts(list@) == distinct(entries.take(i as int)),
        decreases excludes@.len() - i,
    {
        let raw: &str = excludes[i].as_str();
        proof {
            assert(raws.take(i + 1).drop_last() =~= raws.take(i as int));
            assert(raws.take(i + 1).last() == raw@);
        }
        let found: Option<Vec<String>> = names_of(raw);
        match found {
            None => {
                proof {
                    lemma_fault_stays(raws, i + 1);
                }
                return Err(ExcludeError::Escaping(i));
            },
            Some(found) => {
                assert(texts(found@).len() == found@.len());
                if found.len() == 0 {
                    proof {
                        lemma_fault_stays(raws, i + 1);
                    }
                    return Err(ExcludeError::Empty(i));
                }
                let entry: String = join(found.as_slice(), "/");
                proof {
                    assert(entries.take(i + 1).drop_last() =~= entries.take(i as int));
                    assert(entries.take(i + 1).last() == entry@);
                }
                add_distinct(&mut list, entry);
            },
        }
        i += 1;
    }
    proof {
        assert(entries.take(entries.len() as int) =~= entries);
        assert(raws.take(raws.len() as int) =~= raws);
    }
    Ok(arrange_texts(list))
}

impl ExcludeError {
    /// The entry to blame.
    pub open spec fn entry(self) -> usize {
        match self {
            ExcludeError::Escaping(at) => at,
            ExcludeError::Empty(at) => at,
        }
    }

    /// What to say of an exclude list that is refused.
    pub fn message(&self, excludes: &[String]) -> (message: String)
        requires
            self.entry() < excludes@.len(),
        ensures
            message@ == exclude_error_text(*self, texts(excludes@)),
    {
        match *self {
            ExcludeError::Escaping(at) => "exclude '".to_owned().concat(
                excludes[at].as_str(),
            ).concat("' must be a relative path inside the snapshot, without '..'"),
            ExcludeError::Empty(at) =>
                "exclude entries must be paths inside the snapshot, got '".to_owned().concat(
                excludes[at].as_str(),
            ).concat("'"),
        }
    }
}

/// What to say of an exclude list that is refused.
pub open spec fn exclude_error_text(error: ExcludeError, excludes: Seq<Seq<char>>) -> Seq<char> {
    match error {
        ExcludeError::Escaping(at) => "exclude '"@ + excludes[at as int]
            + "' must be a relative path inside the snapshot, without '..'"@,
        ExcludeError::Empty(at) => "exclude entries must be paths inside the snapshot, got '"@
            + excludes[at as int] + "'"@,
    }
}

/// What is wrong with a list is wrong with one of its entries.
pub proof fn lemma_fault_entry(excludes: Seq<Seq<char>>)
    requires
        excludes.len() <= usize::MAX,
    ensures
        exclude_fault(excludes) matches Some(error) ==> error.entry() < excludes.len()
            && !is_usable(excludes[error.entry() as int]),
    decreases excludes.len(),
{
    if excludes.len() > 0 {
        lemma_fault_entry(excludes.drop_last());
    }
}

/// The MD5 digest of some bytes: sixteen bytes.
pub uninterp spec fn md5_of(data: Seq<u8>) -> Seq<u8>;

/// The MD5 digest of a text.
///
/// Calls `md5::compute` on the UTF-8 bytes of `text`. The digest depends on them alone and has
/// sixteen bytes.
#[verifier::external_body]
fn md5_digest(text: &str) -> (digest: [u8; 16])
    ensures
        digest@ == md5_of(encode_utf8(text@)),
{
    md5::compute(text.as_bytes()).0
}

/// The lower case hexadecimal digit of `d`.
pub open spec fn hex_digit(d: int) -> char {
    if d < 10 {
        (48 + d) as char
    } else {
        (87 + d) as char
    }
}

/// Two hexadecimal digits for every byte.
pub open spec fn hex_of(data: Seq<u8>) -> Seq<char>
    decreases data.len(),
{
    if data.len() == 0 {
        Seq::empty()
    } else {
        hex_of(data.drop_last()).push(hex_digit((data.last() / 16) as int)).push(
            hex_digit((data.last() % 16) as int),
        )
    }
}

fn hex_text(d: u8) -> (s: &'static str)
    requires
        d < 16,
    ensures
        s@ == seq![hex_digit(d as int)],
{
    proof {
        reveal_strlit("0123456789abcdef");
    }
    let all: &'static str = "0123456789abcdef";
    let s: &'static str = all.substring_char(d as usize, d as usize + 1);
    assert(s@ =~= seq![hex_digit(d as int)]);
    s
}

/// Two hexadecimal digits for every byte.
fn hex(data: &[u8]) -> (s: String)
    ensures
        s@ == hex_of(data@),
{
    let mut s: String = String::new();
    let mut i: usize = 0;
    proof {
        assert(data@.take(0) =~= Seq::<u8>::empty());
    }
    while i < data.len()
        invariant
            i <= data@.len(),
            s@ == hex_of(data@.take(i as int)),
        decreases data@.len() - i,
    {
        let byte: u8 = data[i];
        let ghost before = s@;
        s.append(hex_text(byte / 16));
        s.append(hex_text(byte % 16));
        proof {
            assert(data@.take(i + 1).drop_last() =~= data@.take(i as int));
            assert(data@.take(i + 1).last() == byte);
            assert(s@ =~= before.push(hex_digit((byte / 16) as int)).push(
                hex_digit((byte % 16) as int),
            ));
        }
        i += 1;
    }
    proof {
        assert(data@.take(data@.len() as int) =~= data@);
    }
    s
}

/// The MD5 digest of a text, in hexadecimal.
pub open spec fn md5_hex(text: Seq<char>) -> Seq<char> {
    hex_of(md5_of(encode_utf8(text)))
}

/// The MD5 digest of a text, in hexadecimal.
pub fn text_id(text: &str) -> (id: String)
    ensures
        id@ == md5_hex(text@),
        id@.len() == 32,
{
    let digest: [u8; 16] = md5_digest(text);
    proof {
        lemma_hex_len(digest@);
    }
    hex(digest.as_slice())
}

proof fn lemma_hex_len(data: Seq<u8>)
    ensures
        hex_of(data).len() == 2 * data.len(),
    decreases data.len(),
{
    if data.len() > 0 {
        lemma_hex_len(data.drop_last());
    }
}

/// Whether a character is a lower case hexadecimal digit.
pub open spec fn is_hex_digit(c: char) -> bool {
    '0' <= c <= '9' || 'a' <= c <= 'f'
}

proof fn lemma_hex_digits(data: Seq<u8>)
    ensures
        forall|i: int| 0 <= i < hex_of(data).len() ==> is_hex_digit(#[trigger] hex_of(data)[i]),
    decreases data.len(),
{
    if data.len() > 0 {
        let front = hex_of(data.drop_last());
        let (high, low) = ((data.last() / 16) as int, (data.last() % 16) as int);
        lemma_hex_digits(data.drop_last());
        assert(0 <= high < 16 && 0 <= low < 16);
        assert(is_hex_digit(hex_digit(high)) && is_hex_digit(hex_digit(low)));
        assert forall|i: int| 0 <= i < hex_of(data).len() implies is_hex_digit(
            #[trigger] hex_of(data)[i],
        ) by {
            if i < front.len() {
                assert(hex_of(data)[i] == front[i]);
            }
        }
    }
}

/// Short id of an exclude list.
pub open spec fn exclude_id(excludes: Seq<Seq<char>>) -> Seq<char> {
    md5_hex(joined(excludes, "\n"@)).take(8)
}

/// Short id of an exclude list, used to keep one filtered copy per distinct list.
#[must_use]
pub fn exclude_hash(excludes: &[String]) -> (id: String)
    ensures
        id@ == exclude_id(texts(excludes@)),
        id@.len() == 8,
        forall|i: int| 0 <= i < 8 ==> is_hex_digit(#[trigger] id@[i]),
{
    let text: String = join(excludes, "\n");
    let id: String = text_id(text.as_str());
    proof {
        assert(id@.subrange(0, 8) =~= id@.take(8));
        lemma_hex_digits(md5_of(encode_utf8(text@)));
    }
    id.as_str().substring_char(0, 8).to_owned()
}

/// What an exclude list removed (or would remove) from a snapshot.
#[derive(Debug, Default, Clone, Copy, PartialEq, Eq)]
pub struct Excluded {
    /// Entries that existed in the snapshot.
    pub paths: usize,
    /// Apparent size of the files under them.
    pub bytes: u64,
}

/// Directory under the snapshots destination holding the filtered copies.
#[must_use]
pub fn staging_root(destination: &str) -> (root: String)
    ensures
        root@ == stripped(destination@) + "/.staging"@,
{
    strip_trailing_slash(destination).to_owned().concat("/.staging")
}

/// The path of a filtered copy.
pub open spec fn staging_place(
    destination: Seq<char>,
    excludes: Seq<Seq<char>>,
    name: Seq<char>,
) -> Seq<char> {
    stripped(destination) + "/.staging"@ + "/"@ + exclude_id(excludes) + "/"@ + name
}

/// Path of the filtered copy of `name` for an exclude list.
#[must_use]
pub fn staging_path(destination: &str, excludes: &[String], name: &str) -> (path: String)
    ensures
        path@ == staging_place(destination@, texts(excludes@), name@),
{
    let id: String = exclude_hash(excludes);
    staging_root(destination).concat("/").concat(id.as_str()).concat("/").concat(name)
}

} // verus!
