//! Byte counts for people: `1536` reads `1.50 KB`.
//!
//! A size is shown in the largest binary unit that does not exceed it, with
//! two decimals, rounded to the nearest hundredth and to the even one when
//! it lies midway.

use vstd::prelude::*;
use vstd::string::StringExecFns;

verus! {

/// `1024` to the power `k`.
pub open spec fn pow1024(k: nat) -> nat
    decreases k,
{
    if k == 0 {
        1
    } else {
        1024 * pow1024((k - 1) as nat)
    }
}

/// The unit a size is shown in, counted from bytes: how often the size can
/// be divided by 1024 before it drops below 1024.
pub open spec fn unit_index(size: nat) -> nat
    decreases size,
{
    if size < 1024 {
        0
    } else {
        1 + unit_index(size / 1024)
    }
}

/// The names of the units, from bytes up.
pub open spec fn unit_name(unit: nat) -> Seq<char> {
    if unit == 0 {
        seq!['B']
    } else if unit == 1 {
        seq!['K', 'B']
    } else if unit == 2 {
        seq!['M', 'B']
    } else if unit == 3 {
        seq!['G', 'B']
    } else if unit == 4 {
        seq!['T', 'B']
    } else if unit == 5 {
        seq!['P', 'B']
    } else if unit == 6 {
        seq!['E', 'B']
    } else if unit == 7 {
        seq!['Z', 'B']
    } else {
        seq!['Y', 'B']
    }
}

/// `n / d` rounded to the nearest whole number, and to the even one of the
/// two when `n / d` lies midway between them.
pub open spec fn round_half_even(n: nat, d: nat) -> nat {
    let q = n / d;
    let r = n % d;
    if 2 * r < d || (2 * r == d && q % 2 == 0) {
        q
    } else {
        q + 1
    }
}

/// The size in hundredths of its unit.
pub open spec fn hundredths(size: nat) -> nat {
    round_half_even(size * 100, pow1024(unit_index(size)))
}

/// The character of a decimal digit.
pub open spec fn digit(d: nat) -> char {
    if d == 0 {
        '0'
    } else if d == 1 {
        '1'
    } else if d == 2 {
        '2'
    } else if d == 3 {
        '3'
    } else if d == 4 {
        '4'
    } else if d == 5 {
        '5'
    } else if d == 6 {
        '6'
    } else if d == 7 {
        '7'
    } else if d == 8 {
        '8'
    } else {
        '9'
    }
}

/// A number in decimal, without leading zeros.
pub open spec fn decimal(n: nat) -> Seq<char>
    decreases n,
{
    if n < 10 {
        seq![digit(n)]
    } else {
        decimal(n / 10).push(digit(n % 10))
    }
}

/// The text of a size: whole part, point, two decimals, a space, the unit.
pub open spec fn size_text(size: nat) -> Seq<char> {
    let h = hundredths(size);
    decimal(h / 100) + seq!['.', digit(h / 10 % 10), digit(h % 10), ' '] + unit_name(
        unit_index(size),
    )
}

/// A size of at least one byte lies between one and 1024 of its unit.
pub proof fn lemma_unit_fits(size: nat)
    requires
        size >= 1,
    ensures
        pow1024(unit_index(size)) <= size < 1024 * pow1024(unit_index(size)),
    decreases size,
{
    if size >= 1024 {
        lemma_unit_fits(size / 1024);
    }
}

/// A size below `1024` to the power `k + 1` is shown in unit `k` at most.
pub proof fn lemma_unit_bound(size: nat, k: nat)
    requires
        size < pow1024(k + 1),
    ensures
        unit_index(size) <= k,
    decreases k,
{
    if size >= 1024 {
        if k == 0 {
            assert(pow1024(1) == 1024 * pow1024(0));
        } else {
            lemma_unit_bound(size / 1024, (k - 1) as nat);
        }
    }
}

/// The unit of a size is the largest that does not exceed it, so that the
/// value shown is at least 1 and below 1024 (before rounding), and no `u64`
/// needs a unit beyond `EB`. In hundredths the value lies between `1.00` and
/// `1024.00`.
pub proof fn law_unit_is_largest_that_fits(size: u64)
    requires
        size >= 1,
    ensures
        pow1024(unit_index(size as nat)) <= size < pow1024(unit_index(size as nat) + 1),
        unit_index(size as nat) <= 6,
        100 <= hundredths(size as nat) <= 102400,
{
    let u = unit_index(size as nat);
    let d = pow1024(u);
    lemma_unit_fits(size as nat);
    assert(pow1024(7) == 0x40_0000_0000_0000_0000) by {
        reveal_with_fuel(pow1024, 8);
    }
    lemma_unit_bound(size as nat, 6);
    let n = size as nat * 100;
    assert(100 <= n / d < 102400) by (nonlinear_arith)
        requires
            n == size * 100,
            1 <= d <= size < 1024 * d,
    ;
}

/// Rounding goes to the nearest whole number: the result differs from
/// `n / d` by half at most.
pub proof fn law_rounding_is_nearest(n: nat, d: nat)
    requires
        d > 0,
    ensures
        2 * (round_half_even(n, d) * d - n) <= d,
        2 * (n - round_half_even(n, d) * d) <= d,
{
    let q = n / d;
    let r = n % d;
    assert(n == q * d + r && 0 <= r < d && (q + 1) * d == q * d + d) by (nonlinear_arith)
        requires
            d > 0,
            q == n / d,
            r == n % d,
    ;
}

/// The power of 1024 that belongs to a unit.
fn unit_size(unit: usize) -> (d: u64)
    requires
        unit <= 6,
    ensures
        d == pow1024(unit as nat),
{
    proof {
        reveal_with_fuel(pow1024, 7);
    }
    if unit == 0 {
        1
    } else if unit == 1 {
        0x400
    } else if unit == 2 {
        0x10_0000
    } else if unit == 3 {
        0x4000_0000
    } else if unit == 4 {
        0x100_0000_0000
    } else if unit == 5 {
        0x4_0000_0000_0000
    } else {
        0x1000_0000_0000_0000
    }
}

/// The name of a unit that a `u64` can need.
fn unit_str(unit: usize) -> (name: &'static str)
    requires
        unit <= 6,
    ensures
        name@ == unit_name(unit as nat),
{
    proof {
        reveal_strlit("B");
        reveal_strlit("KB");
        reveal_strlit("MB");
        reveal_strlit("GB");
        reveal_strlit("TB");
        reveal_strlit("PB");
        reveal_strlit("EB");
    }
    let name = if unit == 0 {
        "B"
    } else if unit == 1 {
        "KB"
    } else if unit == 2 {
        "MB"
    } else if unit == 3 {
        "GB"
    } else if unit == 4 {
        "TB"
    } else if unit == 5 {
        "PB"
    } else {
        "EB"
    };
    assert(name@ =~= unit_name(unit as nat));
    name
}

/// One decimal digit as text.
fn digit_str(d: u64) -> (text: &'static str)
    requires
        d < 10,
    ensures
        text@ == seq![digit(d as nat)],
{
    proof {
        reveal_strlit("0");
        reveal_strlit("1");
        reveal_strlit("2");
        reveal_strlit("3");
        reveal_strlit("4");
        reveal_strlit("5");
        reveal_strlit("6");
        reveal_strlit("7");
        reveal_strlit("8");
        reveal_strlit("9");
    }
    let text = if d == 0 {
        "0"
    } else if d == 1 {
        "1"
    } else if d == 2 {
        "2"
    } else if d == 3 {
        "3"
    } else if d == 4 {
        "4"
    } else if d == 5 {
        "5"
    } else if d == 6 {
        "6"
    } else if d == 7 {
        "7"
    } else if d == 8 {
        "8"
    } else {
        "9"
    };
    assert(text@ =~= seq![digit(d as nat)]);
    text
}

/// Appends `n` in decimal.
fn push_decimal(out: &mut String, n: u64)
    ensures
        final(out)@ == old(out)@ + decimal(n as nat),
    decreases n,
{
    if n >= 10 {
        push_decimal(out, n / 10);
    }
    out.append(digit_str(n % 10));
    assert(out@ =~= old(out)@ + decimal(n as nat));
}

/// The unit of a size, as an index from bytes up.
pub fn unit_of(size: u64) -> (unit: usize)
    ensures
        unit == unit_index(size as nat),
        unit <= 6,
{
    proof {
        assert(pow1024(7) == 0x40_0000_0000_0000_0000) by {
            reveal_with_fuel(pow1024, 8);
        }
        lemma_unit_bound(size as nat, 6);
    }
    let mut unit: usize = 0;
    let mut rest: u64 = size;
    while rest >= 1024
        invariant
            unit + unit_index(rest as nat) == unit_index(size as nat),
            unit_index(size as nat) <= 6,
        decreases rest,
    {
        rest = rest / 1024;
        unit = unit + 1;
    }
    unit
}

/// Renders a byte count with two decimals and a binary unit.
pub fn human_readable_size(size: u64) -> (text: String)
    ensures
        text@ == size_text(size as nat),
{
    let unit = unit_of(size);
    let d: u128 = unit_size(unit) as u128;
    let n: u128 = size as u128 * 100;
    proof {
        if size >= 1 {
            law_unit_is_largest_that_fits(size);
        }
    }
    let q: u128 = n / d;
    let r: u128 = n % d;
    proof {
        assert(q <= 102400) by (nonlinear_arith)
            requires
                q == n / d,
                d >= 1,
                n == size * 100,
                size < 1024 * d,
        ;
    }
    let h: u64 = if 2 * r < d || (2 * r == d && q % 2 == 0) {
        q as u64
    } else {
        (q + 1) as u64
    };
    assert(h == hundredths(size as nat));
    let mut text = String::new();
    push_decimal(&mut text, h / 100);
    text.append(".");
    text.append(digit_str(h / 10 % 10));
    text.append(digit_str(h % 10));
    text.append(" ");
    text.append(unit_str(unit));
    proof {
        reveal_strlit(".");
        reveal_strlit(" ");
        assert(text@ =~= size_text(size as nat));
    }
    text
}

} // verus!
