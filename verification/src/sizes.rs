//! Sizes as people read them.
use crate::text::{decimal, numeral};
use vstd::arithmetic::power2::{lemma_pow2_pos, lemma_pow2_unfold, pow2};
use vstd::prelude::*;

verus! {

/// `num / den` to the nearest whole number, halves to the even one.
pub open spec fn nearest(num: nat, den: nat) -> nat {
    let q = num / den;
    let r = num % den;
    if 2 * r > den || (2 * r == den && q % 2 == 1) {
        q + 1
    } else {
        q
    }
}

/// How many binary digits `n` has beyond fifty-three.
pub open spec fn excess(n: nat) -> nat
    decreases n,
{
    if n < 0x20_0000_0000_0000 {
        0
    } else {
        1 + excess(n / 2)
    }
}

/// `n` to fifty-three significant binary digits.
pub open spec fn significant(n: nat) -> nat {
    nearest(n, pow2(excess(n))) * pow2(excess(n))
}

/// The largest unit that a size is not below, as the exponent of 1024, up to four.
pub open spec fn unit_of(value: nat) -> nat {
    if value >= 0x100_0000_0000 {
        4
    } else if value >= 0x4000_0000 {
        3
    } else if value >= 0x10_0000 {
        2
    } else if value >= 0x400 {
        1
    } else {
        0
    }
}

/// How many bytes a unit has.
pub open spec fn unit_size(unit: nat) -> nat {
    if unit == 4 {
        0x100_0000_0000
    } else if unit == 3 {
        0x4000_0000
    } else if unit == 2 {
        0x10_0000
    } else if unit == 1 {
        0x400
    } else {
        1
    }
}

/// The name of a unit.
pub open spec fn unit_name(unit: nat) -> Seq<char> {
    if unit == 4 {
        "TiB"@
    } else if unit == 3 {
        "GiB"@
    } else if unit == 2 {
        "MiB"@
    } else if unit == 1 {
        "KiB"@
    } else {
        "B"@
    }
}

/// A size as people read it: whole bytes below 1024, else the largest unit with one decimal.
///
/// Sizes with more than fifty-three significant binary digits are rounded to that many first,
/// and a size that falls between two tenths goes to the nearer one, or to the even one.
pub open spec fn readable(bytes: nat) -> Seq<char> {
    let value = significant(bytes);
    let unit = unit_of(value);
    if unit == 0 {
        numeral(bytes) + " B"@
    } else {
        let tenths = nearest(value * 10, unit_size(unit));
        numeral(tenths / 10) + "."@ + numeral(tenths % 10) + " "@ + unit_name(unit)
    }
}

fn round(num: u128, den: u128) -> (q: u128)
    requires
        0 < den <= 0x1_0000_0000_0000_0000,
        num <= 0x10_0000_0000_0000_0000,
    ensures
        q == nearest(num as nat, den as nat),
{
    let q: u128 = num / den;
    let r: u128 = num % den;
    if 2 * r > den || (2 * r == den && q % 2 == 1) {
        assert(q <= num) by (nonlinear_arith)
            requires
                q == num / den,
                den > 0,
        ;
        q + 1
    } else {
        q
    }
}

proof fn lemma_excess_bound(n: nat)
    requires
        n < 0x1_0000_0000_0000_0000,
    ensures
        excess(n) <= 11,
{
    reveal_with_fuel(excess, 13);
    assert(excess(n) <= 11);
}

/// `bytes` to fifty-three significant binary digits.
fn to_significant(bytes: u64) -> (value: u128)
    ensures
        value == significant(bytes as nat),
        value <= 0x1_0000_0000_0000_0000,
{
    let mut rest: u64 = bytes;
    let mut step: u128 = 1;
    let ghost mut k: nat = 0;
    proof {
        lemma_excess_bound(bytes as nat);
        vstd::arithmetic::power2::lemma2_to64();
    }
    while rest >= 0x20_0000_0000_0000
        invariant
            excess(bytes as nat) == k + excess(rest as nat),
            step == pow2(k),
            step <= 2048,
            excess(bytes as nat) <= 11,
            k <= 11,
            rest as nat == bytes as nat / pow2(k),
        decreases rest,
    {
        proof {
            lemma_pow2_unfold(k + 1);
            lemma_pow2_pos(k);
            assert(bytes as nat / pow2(k) / 2 == bytes as nat / (pow2(k) * 2)) by {
                vstd::arithmetic::div_mod::lemma_div_denominator(
                    bytes as int,
                    pow2(k) as int,
                    2,
                );
            }
            assert(pow2(k) * 2 == pow2(k + 1)) by (nonlinear_arith)
                requires
                    pow2(k + 1) == 2 * pow2(k),
            ;
            assert(k + 1 <= 11);
            vstd::arithmetic::power2::lemma2_to64();
            if k + 1 < 11 {
                vstd::arithmetic::power2::lemma_pow2_strictly_increases(k + 1, 11);
            }
        }
        rest = rest / 2;
        step = step * 2;
        proof {
            k = k + 1;
        }
    }
    let q: u128 = round(bytes as u128, step);
    proof {
        assert(k == excess(bytes as nat));
        assert(rest < 0x20_0000_0000_0000);
        assert(q <= rest + 1);
        assert(q * step <= 0x20_0000_0000_0000 * 2048) by (nonlinear_arith)
            requires
                q <= 0x20_0000_0000_0000,
                step <= 2048,
        ;
    }
    q * step
}

/// Bytes as a short human readable size.
#[must_use]
pub fn human_size(bytes: u64) -> (size: String)
    ensures
        size@ == readable(bytes as nat),
{
    let value: u128 = to_significant(bytes);
    if value < 0x400 {
        return decimal(bytes).concat(" B");
    }
    let (unit, name): (u128, &str) = if value >= 0x100_0000_0000 {
        (0x100_0000_0000, "TiB")
    } else if value >= 0x4000_0000 {
        (0x4000_0000, "GiB")
    } else if value >= 0x10_0000 {
        (0x10_0000, "MiB")
    } else {
        (0x400, "KiB")
    };
    let tenths: u128 = round(value * 10, unit);
    let whole: u64 = (tenths / 10) as u64;
    let part: u64 = (tenths % 10) as u64;
    let front: String = decimal(whole);
    let back: String = decimal(part);
    front.concat(".").concat(back.as_str()).concat(" ").concat(name)
}

} // verus!
