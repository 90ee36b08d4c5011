//! Names that match a pattern, in the way of the `LIKE` operator of SQLite.
use crate::text::{chars_of, cut, lemma_cut, until_nul};
use vstd::prelude::*;
use vstd::utf8::encode_utf8;

verus! {

/// The small letter for a capital one of the ASCII alphabet, and the replacement character for
/// the two that are no characters. Others stay.
pub open spec fn folded(c: char) -> char {
    if 'A' <= c <= 'Z' {
        (c as u32 + 32) as char
    } else if c == '\u{fffe}' || c == '\u{ffff}' {
        '\u{fffd}'
    } else {
        c
    }
}

/// Whether two characters count as the same one, whatever the case of ASCII letters.
pub open spec fn alike(a: char, b: char) -> bool {
    folded(a) == folded(b)
}

/// Whether all of `text` matches all of `pattern`: `%` stands for any characters, `_` for any
/// single one, and the rest for itself, whatever the case of ASCII letters.
pub open spec fn fits(pattern: Seq<char>, text: Seq<char>) -> bool
    decreases pattern.len(), text.len(),
{
    if pattern.len() == 0 {
        text.len() == 0
    } else if pattern[0] == '%' {
        fits(pattern.drop_first(), text) || (text.len() > 0 && fits(pattern, text.drop_first()))
    } else {
        text.len() > 0 && (pattern[0] == '_' || alike(pattern[0], text[0])) && fits(
            pattern.drop_first(),
            text.drop_first(),
        )
    }
}

/// Whether `text` matches `pattern`, both of which end at their first NUL character.
pub open spec fn like(pattern: Seq<char>, text: Seq<char>) -> bool {
    fits(cut(pattern), cut(text))
}

/// The longest pattern that can be matched, in bytes.
pub const MAX_PATTERN: usize = 50000;

/// Whether a pattern is too long to be matched.
pub open spec fn too_long(pattern: Seq<char>) -> bool {
    encode_utf8(pattern).len() > MAX_PATTERN
}

/// The pattern is too long to be matched.
#[derive(Debug, Clone, Copy, PartialEq, Eq, Structural)]
pub struct PatternTooLong;

fn is_too_long(pattern: &str) -> (yes: bool)
    ensures
        yes == too_long(pattern@),
{
    pattern.as_bytes().len() > MAX_PATTERN
}

/// The pattern for what starts with `prefix`, which is read as a pattern itself.
pub open spec fn prefix_pattern(prefix: Seq<char>) -> Seq<char> {
    prefix.push('%')
}

/// Whether the name of a snapshot starts with `prefix`, which is read as a pattern.
pub open spec fn has_prefix(name: Seq<char>, prefix: Seq<char>) -> bool {
    like(prefix_pattern(prefix), name)
}

fn fold(c: char) -> (small: u32)
    ensures
        small == folded(c) as u32,
{
    let code: u32 = c as u32;
    if 'A' <= c && c <= 'Z' {
        code + 32
    } else if c == '\u{fffe}' || c == '\u{ffff}' {
        0xfffd
    } else {
        code
    }
}

/// Whether all of `text` matches all of `pattern`.
fn is_fitting(pattern: &str, text: &str) -> (yes: bool)
    ensures
        yes == fits(pattern@, text@),
{
    let p: Vec<char> = chars_of(pattern);
    let t: Vec<char> = chars_of(text);
    let n: usize = t.len();
    // Whether what is left of the text at each position matches what is left of the pattern.
    let mut matching: Vec<bool> = Vec::new();
    let mut j: usize = 0;
    while j < n
        invariant
            j <= n,
            n == t@.len(),
            matching@.len() == j,
            forall|k: int| 0 <= k < j ==> matching@[k] == false,
        decreases n - j,
    {
        matching.push(false);
        j += 1;
    }
    matching.push(true);
    let mut i: usize = p.len();
    proof {
        assert forall|k: int| 0 <= k <= n implies #[trigger] matching@[k] == fits(
            p@.skip(i as int),
            t@.skip(k),
        ) by {
            assert(p@.skip(i as int).len() == 0);
        }
    }
    while i > 0
        invariant
            i <= p@.len(),
            n == t@.len(),
            matching@.len() == n + 1,
            forall|k: int|
                0 <= k <= n ==> #[trigger] matching@[k] == fits(p@.skip(i as int), t@.skip(k)),
        decreases i,
    {
        i -= 1;
        matching = fits_before(&p, &t, i, &matching);
    }
    proof {
        assert(p@.skip(0) =~= p@);
        assert(t@.skip(0) =~= t@);
    }
    matching[0]
}

/// One character of the pattern more: what fits from `i` on, given what fits behind it.
fn fits_before(p: &Vec<char>, t: &Vec<char>, i: usize, behind: &Vec<bool>) -> (matching: Vec<bool>)
    requires
        i < p@.len(),
        behind@.len() == t@.len() + 1,
        forall|k: int|
            0 <= k <= t@.len() ==> #[trigger] behind@[k] == fits(p@.skip(i + 1), t@.skip(k)),
    ensures
        matching@.len() == t@.len() + 1,
        forall|k: int|
            0 <= k <= t@.len() ==> #[trigger] matching@[k] == fits(p@.skip(i as int), t@.skip(k)),
{
    let n: usize = behind.len() - 1;
    let ghost from = p@.skip(i as int);
    let mut matching: Vec<bool> = Vec::new();
    let mut j: usize = 0;
    while j <= n
        invariant
            j <= n + 1,
            n == t@.len(),
            n < usize::MAX,
            matching@.len() == j,
        decreases n + 1 - j,
    {
        matching.push(false);
        j += 1;
    }
    proof {
        assert(from.drop_first() =~= p@.skip(i + 1));
    }
    let c: char = p[i];
    let mut k: usize = n + 1;
    while k > 0
        invariant
            k <= n + 1,
            n == t@.len(),
            i < p@.len(),
            c == p@[i as int],
            matching@.len() == n + 1,
            behind@.len() == n + 1,
            from == p@.skip(i as int),
            from.drop_first() == p@.skip(i + 1),
            forall|m: int|
                0 <= m <= n ==> #[trigger] behind@[m] == fits(p@.skip(i + 1), t@.skip(m)),
            forall|m: int| k <= m <= n ==> #[trigger] matching@[m] == fits(from, t@.skip(m)),
        decreases k,
    {
        k -= 1;
        proof {
            assert(from[0] == c);
            if k < n {
                assert(t@.skip(k as int).drop_first() =~= t@.skip(k + 1));
                assert(t@.skip(k as int)[0] == t@[k as int]);
            }
        }
        let here: bool = if c == '%' {
            behind[k] || (k < n && matching[k + 1])
        } else {
            k < n && (c == '_' || fold(c) == fold(t[k])) && behind[k + 1]
        };
        matching.set(k, here);
    }
    matching
}

fn is_matching(pattern: &str, text: &str) -> (yes: bool)
    ensures
        yes == like(pattern@, text@),
{
    is_fitting(until_nul(pattern).as_str(), until_nul(text).as_str())
}

/// Whether `text` matches `pattern`. Patterns that are too long are refused.
pub fn is_like(pattern: &str, text: &str) -> (yes: Result<bool, PatternTooLong>)
    ensures
        yes == if too_long(pattern@) {
            Err::<bool, PatternTooLong>(PatternTooLong)
        } else {
            Ok::<bool, PatternTooLong>(like(pattern@, text@))
        },
{
    if is_too_long(pattern) {
        Err(PatternTooLong)
    } else {
        Ok(is_matching(pattern, text))
    }
}

/// The pattern for what starts with `prefix`.
pub fn pattern_for(prefix: &str) -> (pattern: String)
    ensures
        pattern@ == prefix_pattern(prefix@),
{
    let pattern: String = prefix.to_owned().concat("%");
    proof {
        reveal_strlit("%");
        assert(pattern@ =~= prefix_pattern(prefix@));
    }
    pattern
}

/// Whether the pattern for a prefix is too long to be matched.
pub fn is_prefix_too_long(prefix: &str) -> (yes: bool)
    ensures
        yes == too_long(prefix_pattern(prefix@)),
{
    is_too_long(pattern_for(prefix).as_str())
}

/// Whether the name of a snapshot starts with `prefix`, however long that is.
pub(crate) fn is_selected(name: &str, prefix: &str) -> (yes: bool)
    ensures
        yes == has_prefix(name@, prefix@),
{
    is_matching(pattern_for(prefix).as_str(), name)
}

/// Whether the name of a snapshot starts with `prefix`, which is read as a pattern. Prefixes that
/// are too long are refused.
pub fn starts_with(name: &str, prefix: &str) -> (yes: Result<bool, PatternTooLong>)
    ensures
        yes == if too_long(prefix_pattern(prefix@)) {
            Err::<bool, PatternTooLong>(PatternTooLong)
        } else {
            Ok::<bool, PatternTooLong>(has_prefix(name@, prefix@))
        },
{
    is_like(pattern_for(prefix).as_str(), name)
}

/// A pattern that ends in `%` matches whatever continues a match of what stands before it.
proof fn lemma_like_continued(pattern: Seq<char>, start: Seq<char>, rest: Seq<char>)
    requires
        fits(pattern, start),
    ensures
        fits(pattern.push('%'), start + rest),
    decreases pattern.len(), start.len() + rest.len(),
{
    let open = pattern.push('%');
    let whole = start + rest;
    if pattern.len() == 0 {
        assert(whole =~= rest);
        assert(open.drop_first() =~= pattern);
        if rest.len() > 0 {
            lemma_like_continued(pattern, start, rest.drop_first());
            assert(start + rest.drop_first() =~= whole.drop_first());
        }
    } else {
        assert(open.drop_first() =~= pattern.drop_first().push('%'));
        assert(open[0] == pattern[0]);
        if pattern[0] == '%' {
            if fits(pattern.drop_first(), start) {
                lemma_like_continued(pattern.drop_first(), start, rest);
            } else {
                lemma_like_continued(pattern, start.drop_first(), rest);
                assert(start.drop_first() + rest =~= whole.drop_first());
            }
        } else {
            lemma_like_continued(pattern.drop_first(), start.drop_first(), rest);
            assert(start.drop_first() + rest =~= whole.drop_first());
            assert(whole[0] == start[0]);
        }
    }
}

/// A text matches itself as a pattern.
proof fn lemma_like_itself(text: Seq<char>)
    ensures
        fits(text, text),
    decreases text.len(),
{
    if text.len() > 0 {
        lemma_like_itself(text.drop_first());
        if text[0] == '%' {
            assert(fits(text, text.drop_first()));
        }
    }
}

/// A name that does begin with the prefix is one that the prefix selects, whatever follows: the
/// prefix `home` also selects `home-data-1`. A prefix with a NUL character is left out: it selects
/// only what ends there.
pub proof fn lemma_prefix_selects_its_names(prefix: Seq<char>, rest: Seq<char>)
    requires
        !prefix.contains('\0'),
    ensures
        has_prefix(prefix + rest, prefix),
{
    let pattern = prefix_pattern(prefix);
    let name = prefix + rest;
    lemma_cut(prefix);
    lemma_cut(name);
    lemma_cut(pattern);
    if pattern.contains('\0') {
        let k = choose|k: int| 0 <= k < pattern.len() && pattern[k] == '\0';
        assert(prefix.contains(prefix[k]));
    }
    assert(pattern.drop_last() =~= prefix);
    let n = cut(name).len() as int;
    if n < prefix.len() {
        assert(prefix[n] == name[n]);
        assert(prefix.contains(prefix[n]));
    }
    let shown = cut(name).skip(prefix.len() as int);
    assert(cut(name) =~= prefix + shown) by {
        assert(cut(name) =~= name.take(n));
    }
    lemma_like_itself(prefix);
    lemma_like_continued(prefix, prefix, shown);
}

} // verus!
