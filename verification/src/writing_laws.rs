//! How arguments and sizes are written, said for every one of them.
use crate::shell::{escaped, is_safe, quoted};
use crate::sizes::{excess, nearest, readable, significant, unit_of, unit_size};
use crate::text::numeral;
use vstd::arithmetic::div_mod::lemma_fundamental_div_mod_converse;
use vstd::arithmetic::power2::{lemma_pow2_pos, lemma_pow2_unfold, pow2};
use vstd::prelude::*;

verus! {

/// A shell takes the letters and digits of ASCII and ten other characters as they are.
pub proof fn lemma_safe_characters(c: char)
    ensures
        is_safe(c) <==> ('0' <= c && c <= '9') || ('A' <= c && c <= 'Z') || ('a' <= c && c <= 'z')
            || seq!['-', '_', '.', '/', ':', '=', '@', '%', '+', ','].contains(c),
{
    let others = seq!['-', '_', '.', '/', ':', '=', '@', '%', '+', ','];
    assert(others[0] == '-' && others[1] == '_' && others[2] == '.' && others[3] == '/' && others[4]
        == ':' && others[5] == '=' && others[6] == '@' && others[7] == '%' && others[8] == '+'
        && others[9] == ',');
    if is_safe(c) && !(('0' <= c && c <= '9') || ('A' <= c && c <= 'Z') || ('a' <= c && c
        <= 'z')) {
        assert(exists|i: int| 0 <= i < others.len() && others[i] == c);
    }
}

/// Arguments are written between single quotes unless all their characters are safe. There a single
/// quote ends the quotes, stands behind a backslash, and opens them again, and anything else stands
/// for itself.
pub proof fn lemma_quoting(a: Seq<char>, b: Seq<char>, c: char)
    ensures
        a.len() > 0 && (forall|i: int| 0 <= i < a.len() ==> is_safe(#[trigger] a[i])) ==> quoted(a)
            == a,
        a.len() == 0 || (exists|i: int| 0 <= i < a.len() && !is_safe(#[trigger] a[i])) ==> quoted(
            a,
        ) == seq!['\''] + escaped(a) + seq!['\''],
        escaped(Seq::empty()).len() == 0,
        escaped(seq![c]) == if c == '\'' {
            seq!['\'', '\\', '\'', '\'']
        } else {
            seq![c]
        },
        escaped(a + b) == escaped(a) + escaped(b),
    decreases b.len(),
{
    reveal_strlit("'");
    reveal_strlit("'\\''");
    assert("'"@ =~= seq!['\'']);
    assert("'\\''"@ =~= seq!['\'', '\\', '\'', '\'']);
    assert(seq![c].drop_last() =~= Seq::<char>::empty());
    reveal_with_fuel(escaped, 2);
    let none = Seq::<char>::empty();
    assert(none.push(c) =~= seq![c]);
    assert(none + "'\\''"@ =~= seq!['\'', '\\', '\'', '\'']);
    if b.len() == 0 {
        assert(a + b =~= a);
        assert(escaped(a) + escaped(b) =~= escaped(a));
    } else {
        lemma_quoting(a, b.drop_last(), c);
        assert((a + b).drop_last() =~= a + b.drop_last());
        assert((a + b).last() == b.last());
        if b.last() == '\'' {
            assert(escaped(a + b) =~= escaped(a) + (escaped(b.drop_last()) + "'\\''"@));
        } else {
            assert(escaped(a + b) =~= escaped(a) + escaped(b.drop_last()).push(b.last()));
        }
    }
}

/// Whether a whole number is nearest to a fraction: at most a half away from it, and even if there
/// is another one as near.
pub open spec fn is_nearest(num: nat, den: nat, t: nat) -> bool {
    let away = if num >= t * den {
        num - t * den
    } else {
        t * den - num
    };
    2 * away < den || (2 * away == den && t % 2 == 0)
}

/// Fractions are rounded to the nearest whole number.
pub proof fn lemma_rounding(num: nat, den: nat, t: nat)
    requires
        den > 0,
        is_nearest(num, den, t),
    ensures
        nearest(num, den) == t,
{
    let (n, d, k) = (num as int, den as int, t as int);
    if n >= k * d {
        let r = n - k * d;
        assert(n == k * d + r);
        lemma_fundamental_div_mod_converse(n, d, k, r);
    } else {
        let r = d - (k * d - n);
        assert((k - 1) * d == k * d - d) by (nonlinear_arith);
        assert(n == (k - 1) * d + r);
        lemma_fundamental_div_mod_converse(n, d, k - 1, r);
        assert(k >= 1) by (nonlinear_arith)
            requires
                n >= 0,
                n < k * d,
                d > 0,
        ;
    }
}

/// A size with one decimal in a unit.
pub open spec fn in_unit(tenths: nat, name: Seq<char>) -> Seq<char> {
    numeral(tenths / 10) + seq!['.'] + numeral(tenths % 10) + seq![' '] + name
}

proof fn lemma_in_unit(tenths: nat, name: Seq<char>)
    ensures
        numeral(tenths / 10) + "."@ + numeral(tenths % 10) + " "@ + name == in_unit(tenths, name),
{
    reveal_strlit(".");
    reveal_strlit(" ");
    assert("."@ =~= seq!['.']);
    assert(" "@ =~= seq![' ']);
}

proof fn lemma_small_is_exact(n: nat)
    requires
        n < 0x20_0000_0000_0000,
    ensures
        significant(n) == n,
{
    assert(excess(n) == 0);
    vstd::arithmetic::power2::lemma2_to64();
    assert(pow2(0) == 1);
    assert(n as int / 1 == n as int);
    assert(n as int % 1 == 0);
    assert(nearest(n, 1) == n);
}

/// Sizes are written in bytes below 1024, and otherwise with one decimal in the largest unit that
/// they reach, to the nearest tenth. This is for sizes below eight pebibytes.
pub proof fn lemma_readable_sizes(n: nat, tenths: nat)
    requires
        n < 0x20_0000_0000_0000,
    ensures
        n < 1024 ==> readable(n) == numeral(n) + " B"@,
        1024 <= n < 1024 * 1024 && is_nearest(10 * n, 1024, tenths) ==> readable(n)
            == in_unit(tenths, "KiB"@),
        1024 * 1024 <= n < 1024 * 1024 * 1024 && is_nearest(10 * n, 1024 * 1024, tenths)
            ==> readable(n) == in_unit(tenths, "MiB"@),
        1024 * 1024 * 1024 <= n < 1024 * 1024 * 1024 * 1024 && is_nearest(
            10 * n,
            1024 * 1024 * 1024,
            tenths,
        ) ==> readable(n) == in_unit(tenths, "GiB"@),
        1024 * 1024 * 1024 * 1024 <= n && is_nearest(
            10 * n,
            1024 * 1024 * 1024 * 1024,
            tenths,
        ) ==> readable(n) == in_unit(tenths, "TiB"@),
{
    lemma_small_is_exact(n);
    let size = unit_size(unit_of(n));
    assert(n * 10 == 10 * n);
    if n >= 1024 && is_nearest(10 * n, size, tenths) {
        lemma_rounding(10 * n, size, tenths);
        lemma_in_unit(tenths, crate::sizes::unit_name(unit_of(n)));
    }
}

proof fn lemma_excess(n: nat, k: nat)
    requires
        k > 0,
        0x10_0000_0000_0000 * pow2(k) <= n < 0x20_0000_0000_0000 * pow2(k),
    ensures
        excess(n) == k,
    decreases k,
{
    lemma_pow2_unfold(k);
    lemma_pow2_pos((k - 1) as nat);
    let p = pow2((k - 1) as nat);
    assert(0x10_0000_0000_0000 * p <= n / 2 < 0x20_0000_0000_0000 * p);
    if k == 1 {
        vstd::arithmetic::power2::lemma2_to64();
        assert(excess(n / 2) == 0);
    } else {
        lemma_excess(n / 2, (k - 1) as nat);
    }
}

/// Larger sizes are rounded to fifty-three binary digits first, to the nearest number with so many,
/// and written in tebibytes.
pub proof fn lemma_large_sizes(n: nat, k: nat, m: nat, tenths: nat)
    requires
        k > 0,
        0x10_0000_0000_0000 * pow2(k) <= n < 0x20_0000_0000_0000 * pow2(k),
        is_nearest(n, pow2(k), m),
        is_nearest(10 * (m * pow2(k)), 1024 * 1024 * 1024 * 1024, tenths),
    ensures
        significant(n) == m * pow2(k),
        readable(n) == in_unit(tenths, "TiB"@),
{
    lemma_pow2_pos(k);
    lemma_excess(n, k);
    lemma_rounding(n, pow2(k), m);
    let value = m * pow2(k);
    assert(value >= 0x100_0000_0000) by (nonlinear_arith)
        requires
            value == m * pow2(k),
            0x10_0000_0000_0000 * pow2(k) <= n,
            pow2(k) >= 1,
            n - value <= pow2(k),
    ;
    lemma_rounding(10 * value, 0x100_0000_0000, tenths);
    assert(value * 10 == 10 * value);
    lemma_in_unit(tenths, "TiB"@);
}

} // verus!
