//! What a pattern matches, said piece by piece.
use crate::pattern::{alike, fits, folded, has_prefix, like, prefix_pattern, too_long};
use crate::text::lemma_cut;
use crate::text_laws::lemma_read_up_to_nul;
use vstd::prelude::*;
use vstd::utf8::encode_utf8;

verus! {

/// Whether a character stands for no character: the replacement character and the two that are
/// none.
pub open spec fn is_replaced(c: char) -> bool {
    c == '\u{fffd}' || c == '\u{fffe}' || c == '\u{ffff}'
}

/// Whether two characters are one ASCII letter, one of them large and the other small.
pub open spec fn differ_in_case(a: char, b: char) -> bool {
    ||| 'A' <= a && a <= 'Z' && b as u32 == a as u32 + 32
    ||| 'A' <= b && b <= 'Z' && a as u32 == b as u32 + 32
}

/// Two characters count as one if and only if they are the same, differ only in the case of an
/// ASCII letter, or both stand for no character.
pub proof fn lemma_alike(a: char, b: char)
    ensures
        alike(a, b) <==> a == b || differ_in_case(a, b) || (is_replaced(a) && is_replaced(b)),
{
    assert('A' <= a && a <= 'Z' ==> folded(a) as u32 == a as u32 + 32);
    assert('A' <= b && b <= 'Z' ==> folded(b) as u32 == b as u32 + 32);
}

/// A pattern of one character matches what it stands for: `%` everything, `_` any one character,
/// and another one what counts as it. An empty pattern matches an empty text.
pub proof fn lemma_single_patterns(c: char, text: Seq<char>)
    ensures
        fits(Seq::empty(), text) <==> text.len() == 0,
        fits(seq!['%'], text),
        fits(seq!['_'], text) <==> text.len() == 1,
        c != '%' && c != '_' ==> (fits(seq![c], text) <==> text.len() == 1 && alike(c, text[0])),
    decreases text.len(),
{
    assert(seq!['%'].drop_first() =~= Seq::<char>::empty());
    assert(seq!['_'].drop_first() =~= Seq::<char>::empty());
    assert(seq![c].drop_first() =~= Seq::<char>::empty());
    if text.len() > 0 {
        lemma_single_patterns(c, text.drop_first());
    }
}

/// Two patterns behind each other match two texts behind each other.
pub proof fn lemma_patterns_in_a_row(p: Seq<char>, q: Seq<char>, text: Seq<char>)
    ensures
        fits(p + q, text) <==> exists|n: int|
            0 <= n <= text.len() && fits(p, #[trigger] text.take(n)) && fits(q, text.skip(n)),
    decreases p.len(), text.len(),
{
    let both = p + q;
    if p.len() == 0 {
        assert(both =~= q);
        assert(text.skip(0) =~= text);
        assert(text.take(0).len() == 0);
        if exists|n: int|
            0 <= n <= text.len() && fits(p, #[trigger] text.take(n)) && fits(q, text.skip(n)) {
            let n = choose|n: int|
                0 <= n <= text.len() && fits(p, #[trigger] text.take(n)) && fits(q, text.skip(n));
            assert(text.take(n).len() == n);
        }
    } else {
        assert(both[0] == p[0]);
        assert(both.drop_first() =~= p.drop_first() + q);
        if p[0] == '%' {
            lemma_patterns_in_a_row(p.drop_first(), q, text);
            if text.len() > 0 {
                lemma_patterns_in_a_row(p, q, text.drop_first());
            }
            if fits(p.drop_first() + q, text) {
                let n = choose|n: int|
                    0 <= n <= text.len() && fits(p.drop_first(), #[trigger] text.take(n)) && fits(
                        q,
                        text.skip(n),
                    );
                assert(fits(p, text.take(n)));
            } else if text.len() > 0 && fits(both, text.drop_first()) {
                let rest = text.drop_first();
                let n = choose|n: int|
                    0 <= n <= rest.len() && fits(p, #[trigger] rest.take(n)) && fits(
                        q,
                        rest.skip(n),
                    );
                assert(text.take(n + 1).drop_first() =~= rest.take(n));
                assert(text.skip(n + 1) =~= rest.skip(n));
                assert(fits(p, text.take(n + 1)));
            }
            if exists|n: int|
                0 <= n <= text.len() && fits(p, #[trigger] text.take(n)) && fits(q, text.skip(n)) {
                let n = choose|n: int|
                    0 <= n <= text.len() && fits(p, #[trigger] text.take(n)) && fits(
                        q,
                        text.skip(n),
                    );
                if fits(p.drop_first(), text.take(n)) {
                    assert(fits(p.drop_first() + q, text));
                } else {
                    assert(n > 0);
                    let rest = text.drop_first();
                    assert(text.take(n).drop_first() =~= rest.take(n - 1));
                    assert(text.skip(n) =~= rest.skip(n - 1));
                    assert(fits(both, rest));
                }
            }
        } else if text.len() > 0 {
            let rest = text.drop_first();
            lemma_patterns_in_a_row(p.drop_first(), q, rest);
            if fits(both, text) {
                let n = choose|n: int|
                    0 <= n <= rest.len() && fits(p.drop_first(), #[trigger] rest.take(n)) && fits(
                        q,
                        rest.skip(n),
                    );
                assert(text.take(n + 1).drop_first() =~= rest.take(n));
                assert(text.take(n + 1)[0] == text[0]);
                assert(text.skip(n + 1) =~= rest.skip(n));
                assert(fits(p, text.take(n + 1)));
            }
            if exists|n: int|
                0 <= n <= text.len() && fits(p, #[trigger] text.take(n)) && fits(q, text.skip(n)) {
                let n = choose|n: int|
                    0 <= n <= text.len() && fits(p, #[trigger] text.take(n)) && fits(
                        q,
                        text.skip(n),
                    );
                assert(text.take(n).len() == n);
                assert(text.take(n).drop_first() =~= rest.take(n - 1));
                assert(text.take(n)[0] == text[0]);
                assert(text.skip(n) =~= rest.skip(n - 1));
                assert(fits(p.drop_first(), rest.take(n - 1)));
            }
        } else {
            if exists|n: int|
                0 <= n <= text.len() && fits(p, #[trigger] text.take(n)) && fits(q, text.skip(n)) {
                let n = choose|n: int|
                    0 <= n <= text.len() && fits(p, #[trigger] text.take(n)) && fits(
                        q,
                        text.skip(n),
                    );
                assert(text.take(n).len() == 0);
            }
        }
    }
}

/// A pattern without wildcards matches the texts of its length whose characters count as its own.
pub proof fn lemma_literal_pattern(pattern: Seq<char>, text: Seq<char>)
    requires
        !pattern.contains('%'),
        !pattern.contains('_'),
    ensures
        fits(pattern, text) <==> text.len() == pattern.len() && forall|i: int|
            0 <= i < pattern.len() ==> alike(#[trigger] pattern[i], text[i]),
    decreases pattern.len(),
{
    if pattern.len() > 0 {
        let p = pattern.drop_first();
        assert(pattern.contains(pattern[0]));
        assert(!p.contains('%')) by {
            if p.contains('%') {
                let i = choose|i: int| 0 <= i < p.len() && p[i] == '%';
                assert(pattern[i + 1] == '%');
            }
        }
        assert(!p.contains('_')) by {
            if p.contains('_') {
                let i = choose|i: int| 0 <= i < p.len() && p[i] == '_';
                assert(pattern[i + 1] == '_');
            }
        }
        if text.len() > 0 {
            let t = text.drop_first();
            lemma_literal_pattern(p, t);
            if fits(pattern, text) {
                assert forall|i: int| 0 <= i < pattern.len() implies alike(
                    #[trigger] pattern[i],
                    text[i],
                ) by {
                    if i > 0 {
                        assert(alike(p[i - 1], t[i - 1]));
                    }
                }
            }
            if text.len() == pattern.len() && forall|i: int|
                0 <= i < pattern.len() ==> alike(#[trigger] pattern[i], text[i]) {
                assert(alike(pattern[0], text[0]));
                assert forall|i: int| 0 <= i < p.len() implies alike(#[trigger] p[i], t[i]) by {
                    assert(alike(pattern[i + 1], text[i + 1]));
                }
            }
        }
    }
}

/// Without NUL characters a pattern matches whole texts. What follows one on either side does not
/// count.
pub proof fn lemma_matching_up_to_nul(
    pattern: Seq<char>,
    text: Seq<char>,
    more: Seq<char>,
    rest: Seq<char>,
)
    requires
        !pattern.contains('\0'),
        !text.contains('\0'),
    ensures
        like(pattern, text) <==> fits(pattern, text),
        like(pattern.push('\0') + more, text.push('\0') + rest) <==> fits(pattern, text),
{
    lemma_read_up_to_nul(pattern, more);
    lemma_read_up_to_nul(text, rest);
}

/// A prefix without wildcards selects exactly the names that begin with it, whatever the case of
/// ASCII letters.
pub proof fn lemma_literal_prefix(name: Seq<char>, prefix: Seq<char>)
    requires
        !prefix.contains('%'),
        !prefix.contains('_'),
        !prefix.contains('\0'),
        !name.contains('\0'),
    ensures
        has_prefix(name, prefix) <==> name.len() >= prefix.len() && forall|i: int|
            0 <= i < prefix.len() ==> alike(#[trigger] prefix[i], name[i]),
{
    let pattern = prefix_pattern(prefix);
    assert(pattern =~= prefix + seq!['%']);
    assert(!pattern.contains('\0')) by {
        if pattern.contains('\0') {
            let i = choose|i: int| 0 <= i < pattern.len() && pattern[i] == '\0';
            assert(prefix[i] == '\0');
        }
    }
    lemma_cut(pattern);
    lemma_cut(name);
    lemma_patterns_in_a_row(prefix, seq!['%'], name);
    if has_prefix(name, prefix) {
        let n = choose|n: int|
            0 <= n <= name.len() && fits(prefix, #[trigger] name.take(n)) && fits(
                seq!['%'],
                name.skip(n),
            );
        lemma_literal_pattern(prefix, name.take(n));
        assert forall|i: int| 0 <= i < prefix.len() implies alike(#[trigger] prefix[i], name[i]) by {
            assert(name.take(n)[i] == name[i]);
        }
    }
    if name.len() >= prefix.len() && forall|i: int|
        0 <= i < prefix.len() ==> alike(#[trigger] prefix[i], name[i]) {
        let n = prefix.len() as int;
        assert forall|i: int| 0 <= i < prefix.len() implies alike(
            #[trigger] prefix[i],
            name.take(n)[i],
        ) by {
            assert(name.take(n)[i] == name[i]);
        }
        lemma_literal_pattern(prefix, name.take(n));
        lemma_single_patterns('a', name.skip(n));
        assert(fits(prefix, name.take(n)));
    }
}

/// A prefix with wildcards selects the names of which a part at the start matches it.
pub proof fn lemma_prefix_with_wildcards(name: Seq<char>, prefix: Seq<char>)
    requires
        !prefix.contains('\0'),
        !name.contains('\0'),
    ensures
        has_prefix(name, prefix) <==> exists|n: int|
            0 <= n <= name.len() && fits(prefix, #[trigger] name.take(n)),
{
    let pattern = prefix_pattern(prefix);
    assert(pattern =~= prefix + seq!['%']);
    assert(!pattern.contains('\0')) by {
        if pattern.contains('\0') {
            let i = choose|i: int| 0 <= i < pattern.len() && pattern[i] == '\0';
            assert(prefix[i] == '\0');
        }
    }
    lemma_cut(pattern);
    lemma_cut(name);
    lemma_patterns_in_a_row(prefix, seq!['%'], name);
    if exists|n: int| 0 <= n <= name.len() && fits(prefix, #[trigger] name.take(n)) {
        let n = choose|n: int| 0 <= n <= name.len() && fits(prefix, #[trigger] name.take(n));
        lemma_single_patterns('a', name.skip(n));
        assert(fits(prefix, name.take(n)) && fits(seq!['%'], name.skip(n)));
    }
}

/// A pattern is too long from 50001 bytes on.
pub proof fn lemma_pattern_limit(pattern: Seq<char>)
    ensures
        too_long(pattern) <==> encode_utf8(pattern).len() >= 50001,
{
}

} // verus!
