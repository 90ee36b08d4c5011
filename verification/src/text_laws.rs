//! What the functions on texts do, said character by character.
use crate::order::{distinct, lemma_distinct};
use crate::text::{
    cut, is_digit, is_space, joined, lines_of, numeral, port_number, split_at_each, text_before,
    trim_back, trim_front, trimmed,
};
use crate::utils::{only, stripped, without_slashes};
use vstd::prelude::*;

verus! {

/// Whether two texts agree before position `k`, where the first one ends or has the smaller
/// character.
pub open spec fn smaller_at(a: Seq<char>, b: Seq<char>, k: int) -> bool {
    &&& 0 <= k <= a.len()
    &&& k < b.len()
    &&& forall|i: int| 0 <= i < k ==> a[i] == b[i]
    &&& k == a.len() || a[k] < b[k]
}

/// A text goes before another one if and only if it has the smaller character where they first
/// differ, or ends there.
pub proof fn lemma_order_is_by_the_first_difference(a: Seq<char>, b: Seq<char>)
    ensures
        text_before(a, b) <==> exists|k: int| smaller_at(a, b, k),
    decreases a.len(),
{
    if a.len() > 0 && b.len() > 0 && a[0] == b[0] {
        let (x, y) = (a.drop_first(), b.drop_first());
        lemma_order_is_by_the_first_difference(x, y);
        if text_before(a, b) {
            let k = choose|k: int| smaller_at(x, y, k);
            assert forall|i: int| 0 <= i < k + 1 implies a[i] == b[i] by {
                if i > 0 {
                    assert(x[i - 1] == y[i - 1]);
                }
            }
            assert(smaller_at(a, b, k + 1));
        }
        if exists|k: int| smaller_at(a, b, k) {
            let k = choose|k: int| smaller_at(a, b, k);
            assert forall|i: int| 0 <= i < k - 1 implies x[i] == y[i] by {
                assert(a[i + 1] == b[i + 1]);
            }
            assert(smaller_at(x, y, k - 1));
        }
    } else {
        if text_before(a, b) {
            assert(smaller_at(a, b, 0));
        }
        if exists|k: int| smaller_at(a, b, k) {
            let k = choose|k: int| smaller_at(a, b, k);
            if k > 0 {
                assert(a[0] == b[0]);
            }
        }
    }
}

/// White space is what Unicode counts as such: of ASCII the space and the five control characters
/// from the tab to the carriage return.
pub proof fn lemma_white_space(c: char)
    ensures
        (c as u32) < 128 ==> (is_space(c) <==> c == ' ' || (9 <= (c as u32) && (c as u32) <= 13)),
        (c as u32) >= 128 ==> (is_space(c) <==> c == '\u{85}' || c == '\u{a0}' || c == '\u{1680}'
            || ('\u{2000}' <= c && c <= '\u{200a}') || c == '\u{2028}' || c == '\u{2029}' || c
            == '\u{202f}' || c == '\u{205f}' || c == '\u{3000}'),
{
}

/// Whether a text consists of white space.
pub open spec fn all_space(s: Seq<char>) -> bool {
    forall|i: int| 0 <= i < s.len() ==> is_space(#[trigger] s[i])
}

/// Trimming takes the white space off both ends of a text and nothing else, whatever is between.
pub proof fn lemma_trimming(before: Seq<char>, middle: Seq<char>, behind: Seq<char>)
    requires
        all_space(before),
        all_space(behind),
        middle.len() > 0 ==> !is_space(middle[0]) && !is_space(middle.last()),
    ensures
        trimmed(before + middle + behind) == middle,
    decreases before.len() + behind.len(),
{
    let whole = before + middle + behind;
    if before.len() > 0 {
        assert(before[0] == whole[0]);
        assert(whole.drop_first() =~= before.drop_first() + middle + behind);
        assert forall|i: int| 0 <= i < before.drop_first().len() implies is_space(
            #[trigger] before.drop_first()[i],
        ) by {
            assert(before[i + 1] == before.drop_first()[i]);
        }
        lemma_trimming(before.drop_first(), middle, behind);
        assert(trim_front(whole) == trim_front(whole.drop_first()));
    } else {
        assert(whole =~= middle + behind);
        if middle.len() > 0 {
            assert(whole[0] == middle[0]);
            assert(trim_front(whole) == whole);
            lemma_trim_back(middle, behind);
        } else if behind.len() > 0 {
            assert(whole =~= behind);
            assert(is_space(behind[0]));
            assert(behind.drop_first() =~= Seq::<char>::empty() + Seq::<char>::empty()
                + behind.drop_first());
            assert forall|i: int| 0 <= i < behind.drop_first().len() implies is_space(
                #[trigger] behind.drop_first()[i],
            ) by {
                assert(behind[i + 1] == behind.drop_first()[i]);
            }
            lemma_trimming(Seq::empty(), Seq::empty(), behind.drop_first());
            assert(trim_front(whole) == trim_front(behind.drop_first()));
            assert(middle =~= Seq::<char>::empty());
        } else {
            assert(whole =~= middle);
        }
    }
}

proof fn lemma_trim_back(middle: Seq<char>, behind: Seq<char>)
    requires
        middle.len() > 0,
        !is_space(middle.last()),
        all_space(behind),
    ensures
        trim_back(middle + behind) == middle,
    decreases behind.len(),
{
    let whole = middle + behind;
    if behind.len() > 0 {
        assert(whole.last() == behind[behind.len() - 1]);
        assert(whole.drop_last() =~= middle + behind.drop_last());
        assert forall|i: int| 0 <= i < behind.drop_last().len() implies is_space(
            #[trigger] behind.drop_last()[i],
        ) by {
            assert(behind[i] == behind.drop_last()[i]);
        }
        lemma_trim_back(middle, behind.drop_last());
    } else {
        assert(whole =~= middle);
    }
}

/// Texts are joined by putting the separator between neighbours: nothing for no text, the text
/// itself for one, and a joined list before and behind the separator for two lists.
pub proof fn lemma_joining(a: Seq<Seq<char>>, b: Seq<Seq<char>>, one: Seq<char>, sep: Seq<char>)
    ensures
        joined(Seq::<Seq<char>>::empty(), sep).len() == 0,
        joined(seq![one], sep) == one,
        a.len() > 0 && b.len() > 0 ==> joined(a + b, sep) == joined(a, sep) + sep + joined(b, sep),
    decreases b.len(),
{
    if a.len() > 0 && b.len() > 0 {
        let whole = a + b;
        if b.len() == 1 {
            assert(whole.drop_last() =~= a);
            assert(whole.last() == b[0]);
        } else {
            lemma_joining(a, b.drop_last(), one, sep);
            assert(whole.drop_last() =~= a + b.drop_last());
            assert(whole.last() == b.last());
            assert(joined(a, sep) + sep + joined(b.drop_last(), sep) + sep + b.last() =~= joined(
                a,
                sep,
            ) + sep + (joined(b.drop_last(), sep) + sep + b.last()));
        }
    }
}

/// Texts without a character come back when they are joined with it and split at it: the joined
/// text determines the list.
pub proof fn lemma_split_gives_back(list: Seq<Seq<char>>, c: char)
    requires
        list.len() > 0,
        forall|i: int| 0 <= i < list.len() ==> !(#[trigger] list[i]).contains(c),
    ensures
        split_at_each(joined(list, seq![c]), c) == list,
    decreases list.len(),
{
    let first = list[0];
    assert(!first.contains(c));
    if list.len() == 1 {
        first.index_of_first_ensures(c);
        assert(split_at_each(first, c) =~= list);
    } else {
        let rest = list.drop_first();
        assert forall|i: int| 0 <= i < rest.len() implies !(#[trigger] rest[i]).contains(c) by {
            assert(rest[i] == list[i + 1]);
        }
        lemma_split_gives_back(rest, c);
        lemma_joining(seq![first], rest, first, seq![c]);
        assert(seq![first] + rest =~= list);
        let whole = first + seq![c] + joined(rest, seq![c]);
        whole.index_of_first_ensures(c);
        assert(whole[first.len() as int] == c);
        let k = whole.index_of_first(c)->0;
        if k < first.len() {
            assert(first[k] == c);
            assert(first.contains(c));
        }
        assert(whole.take(k) =~= first);
        assert(whole.skip(k + 1) =~= joined(rest, seq![c]));
    }
}

/// Two different lists of texts without a character are different when they are joined with it,
/// but for the list of nothing and that of one empty text.
pub proof fn lemma_joined_determines_the_list(a: Seq<Seq<char>>, b: Seq<Seq<char>>, c: char)
    requires
        a != b,
        forall|i: int| 0 <= i < a.len() ==> !(#[trigger] a[i]).contains(c) && a[i].len() > 0,
        forall|i: int| 0 <= i < b.len() ==> !(#[trigger] b[i]).contains(c) && b[i].len() > 0,
    ensures
        joined(a, seq![c]) != joined(b, seq![c]),
{
    if a.len() > 0 {
        lemma_split_gives_back(a, c);
        lemma_joined_is_not_empty(a, seq![c]);
    }
    if b.len() > 0 {
        lemma_split_gives_back(b, c);
        lemma_joined_is_not_empty(b, seq![c]);
    }
    if a.len() == 0 && b.len() == 0 {
        assert(a =~= b);
    }
}

proof fn lemma_joined_is_not_empty(list: Seq<Seq<char>>, sep: Seq<char>)
    requires
        list.len() > 0,
        list[0].len() > 0,
    ensures
        joined(list, sep).len() > 0,
    decreases list.len(),
{
    if list.len() > 1 {
        assert(list.drop_last()[0] == list[0]);
        lemma_joined_is_not_empty(list.drop_last(), sep);
    }
}

/// What is split at a character is put together again by joining it, and no piece holds the
/// character.
pub proof fn lemma_splitting(s: Seq<char>, c: char)
    ensures
        split_at_each(s, c).len() > 0,
        joined(split_at_each(s, c), seq![c]) == s,
        forall|i: int|
            0 <= i < split_at_each(s, c).len() ==> !(#[trigger] split_at_each(s, c)[i]).contains(c),
    decreases s.len(),
{
    s.index_of_first_ensures(c);
    match s.index_of_first(c) {
        Some(k) => {
            let rest = s.skip(k + 1);
            let pieces = split_at_each(rest, c);
            lemma_splitting(rest, c);
            lemma_joining(seq![s.take(k)], pieces, s.take(k), seq![c]);
            assert(s.take(k) + seq![c] + rest =~= s);
            let all = seq![s.take(k)] + pieces;
            assert forall|i: int| 0 <= i < all.len() implies !(#[trigger] all[i]).contains(c) by {
                if i == 0 {
                    assert(all[0] == s.take(k));
                } else {
                    assert(all[i] == pieces[i - 1]);
                }
            }
        },
        None => {
            assert(split_at_each(s, c) =~= seq![s]);
        },
    }
}

/// A text has one line for each line feed, without a carriage return before it, and one more for
/// what follows the last one, unless that is empty.
pub proof fn lemma_lines(line: Seq<char>, rest: Seq<char>)
    requires
        !line.contains('\n'),
    ensures
        lines_of(line.push('\n') + rest) == seq![
            if line.len() > 0 && line.last() == '\r' {
                line.drop_last()
            } else {
                line
            },
        ] + lines_of(rest),
        lines_of(line) == if line.len() == 0 {
            Seq::<Seq<char>>::empty()
        } else {
            seq![line]
        },
{
    let whole = line.push('\n') + rest;
    whole.index_of_first_ensures('\n');
    line.index_of_first_ensures('\n');
    assert(whole[line.len() as int] == '\n');
    assert(whole.contains('\n'));
    let k = whole.index_of_first('\n')->0;
    if k < line.len() {
        assert(line[k] == '\n');
        assert(line.contains('\n'));
    }
    assert(whole.take(k) =~= line);
    assert(whole.skip(k + 1) =~= rest);
}

/// Putting lines behind others puts their texts behind each other.
pub proof fn lemma_lines_of_two(a: Seq<char>, b: Seq<char>)
    requires
        a.len() > 0 ==> a.last() == '\n',
    ensures
        lines_of(a + b) == lines_of(a) + lines_of(b),
    decreases a.len(),
{
    if a.len() == 0 {
        assert(a + b =~= b);
        assert(lines_of(a) + lines_of(b) =~= lines_of(b));
    } else {
        a.index_of_first_ensures('\n');
        assert(a.contains(a[a.len() - 1]));
        let k = a.index_of_first('\n')->0;
        let line = a.take(k);
        let rest = a.skip(k + 1);
        assert(!line.contains('\n'));
        if rest.len() > 0 {
            assert(rest.last() == a.last());
        }
        assert(line.push('\n') + rest =~= a);
        assert(line.push('\n') + (rest + b) =~= a + b);
        lemma_lines(line, rest);
        lemma_lines(line, rest + b);
        lemma_lines_of_two(rest, b);
        let first = lines_of(a)[0];
        assert(lines_of(a + b) =~= lines_of(a) + lines_of(b));
    }
}

/// A numeral is written in the decimal system: a digit behind another numeral is that digit more
/// than ten times its number.
pub proof fn lemma_numerals(n: nat, d: nat)
    requires
        d < 10,
    ensures
        numeral(d) == seq![(('0' as u32) + d) as char],
        n > 0 ==> numeral(10 * n + d) == numeral(n).push((('0' as u32) + d) as char),
{
    if n > 0 {
        assert((10 * n + d) / 10 == n && (10 * n + d) % 10 == d) by (nonlinear_arith)
            requires
                d < 10,
        ;
    }
}

/// A numeral consists of digits, the first of which is no zero unless it is the only one.
pub proof fn lemma_numeral_shape(n: nat)
    ensures
        numeral(n).len() > 0,
        forall|i: int|
            0 <= i < numeral(n).len() ==> '0' <= #[trigger] numeral(n)[i] && numeral(n)[i] <= '9',
        n > 0 ==> numeral(n)[0] != '0',
        numeral(n)[0] == '0' ==> n == 0,
    decreases n,
{
    if n >= 10 {
        lemma_numeral_shape(n / 10);
        lemma_numerals(n / 10, n % 10);
        assert(10 * (n / 10) + n % 10 == n);
        let front = numeral(n / 10);
        assert forall|i: int| 0 <= i < numeral(n).len() implies '0' <= #[trigger] numeral(n)[i]
            && numeral(n)[i] <= '9' by {
            if i < front.len() {
                assert(numeral(n)[i] == front[i]);
            }
        }
        assert(numeral(n)[0] == front[0]);
    }
}

/// As many zeros as asked for.
pub open spec fn zeros(k: nat) -> Seq<char> {
    Seq::new(k, |i: int| '0')
}

proof fn lemma_number_of_zeros(k: nat)
    ensures
        crate::text::number(zeros(k)) == 0,
    decreases k,
{
    if k > 0 {
        assert(zeros(k).drop_last() =~= zeros((k - 1) as nat));
        assert(zeros(k).last() == '0');
        lemma_number_of_zeros((k - 1) as nat);
    }
}

proof fn lemma_number_of_numeral(k: nat, n: nat)
    ensures
        crate::text::number(zeros(k) + numeral(n)) == n,
    decreases n,
{
    let whole = zeros(k) + numeral(n);
    lemma_number_of_zeros(k);
    if n < 10 {
        assert(whole.drop_last() =~= zeros(k));
    } else {
        lemma_number_of_numeral(k, n / 10);
        assert(whole.drop_last() =~= zeros(k) + numeral(n / 10));
    }
}

/// A port is written as its numeral, and leading zeros or a plus sign before it make no
/// difference. Larger numbers are no ports.
pub proof fn lemma_ports(k: nat, n: nat)
    ensures
        port_number(zeros(k) + numeral(n)) == if n <= 65535 {
            Some(n as u16)
        } else {
            None
        },
        port_number(seq!['+'] + zeros(k) + numeral(n)) == if n <= 65535 {
            Some(n as u16)
        } else {
            None
        },
{
    let whole = zeros(k) + numeral(n);
    let signed = seq!['+'] + zeros(k) + numeral(n);
    lemma_numeral_shape(n);
    lemma_number_of_numeral(k, n);
    assert forall|i: int| 0 <= i < whole.len() implies is_digit(#[trigger] whole[i]) by {
        if i >= k {
            assert(whole[i] == numeral(n)[i - k]);
        }
    }
    assert(is_digit(whole[0]));
    assert(signed[0] == '+');
    assert(signed.skip(1) =~= whole);
}

/// What holds something else than digits behind a plus sign that it may start with is no port, and
/// neither is a text without digits.
pub proof fn lemma_no_ports(s: Seq<char>, i: int)
    requires
        s.len() == 0 || (s.len() == 1 && s[0] == '+') || (0 <= i < s.len() && !('0' <= s[i] && s[i]
            <= '9') && (i > 0 || s[i] != '+')),
    ensures
        port_number(s) is None,
{
    if 0 <= i < s.len() && !('0' <= s[i] && s[i] <= '9') && (i > 0 || s[i] != '+') {
        if s[0] == '+' {
            assert(s.skip(1)[i - 1] == s[i]);
            assert(!is_digit(s.skip(1)[i - 1]));
        } else {
            assert(!is_digit(s[i]));
        }
    }
}

/// As many slashes as asked for.
pub open spec fn slashes(k: nat) -> Seq<char> {
    Seq::new(k, |i: int| '/')
}

/// Stripping takes all slashes off the end of a path and nothing else. Of slashes alone one is
/// left: that is the root directory.
pub proof fn lemma_stripping(path: Seq<char>, k: nat)
    requires
        path.len() > 0 ==> path.last() != '/',
    ensures
        stripped(path + slashes(k)) == if path.len() > 0 || k == 0 {
            path
        } else {
            seq!['/']
        },
{
    reveal_strlit("/");
    lemma_without_slashes(path, k);
    assert("/"@ =~= seq!['/']);
    if path.len() == 0 && k > 0 {
        assert((path + slashes(k)).len() > 0);
    }
}

proof fn lemma_without_slashes(path: Seq<char>, k: nat)
    requires
        path.len() > 0 ==> path.last() != '/',
    ensures
        without_slashes(path + slashes(k)) == path,
    decreases k,
{
    if k > 0 {
        let whole = path + slashes(k);
        assert(whole.drop_last() =~= path + slashes((k - 1) as nat));
        assert(whole.last() == '/');
        lemma_without_slashes(path, (k - 1) as nat);
    } else {
        assert(path + slashes(0) =~= path);
    }
}

/// What follows a NUL character is not read.
pub proof fn lemma_read_up_to_nul(start: Seq<char>, rest: Seq<char>)
    requires
        !start.contains('\0'),
    ensures
        cut(start) == start,
        cut(start.push('\0') + rest) == start,
{
    let whole = start.push('\0') + rest;
    start.index_of_first_ensures('\0');
    whole.index_of_first_ensures('\0');
    assert(whole[start.len() as int] == '\0');
    assert(whole.contains('\0'));
    let k = whole.index_of_first('\0')->0;
    if k < start.len() {
        assert(start[k] == '\0');
        assert(start.contains('\0'));
    }
    assert(whole.take(k) =~= start);
}

/// A text is made of one character only if it is not empty and holds no other one.
pub proof fn lemma_one_character(k: nat, c: char, before: Seq<char>, d: char, behind: Seq<char>)
    ensures
        only(Seq::new(k, |i: int| c), c) <==> k > 0,
        only(before.push(d) + behind, c) ==> d == c,
        !only(Seq::empty(), c),
{
    let whole = before.push(d) + behind;
    assert(whole[before.len() as int] == d);
}

/// Of repeated texts the first one stays: what is distinct in a list does not change with what
/// comes behind it.
pub proof fn lemma_first_occurrences(list: Seq<Seq<char>>, one: Seq<char>)
    ensures
        distinct(Seq::empty()).len() == 0,
        list.contains(one) ==> distinct(list.push(one)) == distinct(list),
        !list.contains(one) ==> distinct(list.push(one)) == distinct(list).push(one),
{
    assert(list.push(one).drop_last() =~= list);
    lemma_distinct(list);
    assert(distinct(list).contains(one) == list.contains(one));
}

} // verus!
