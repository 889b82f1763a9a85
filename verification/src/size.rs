//! Human-readable byte counts ("1.4 GB").
//!
//! Sizes are shown the way a byte count converted to a 64-bit float and divided by
//! 1024 per unit prints with a fixed number of decimals: the count is first rounded
//! to 53 significant bits (round half to even), divisions by 1024 are exact, and the
//! decimal digits are rounded half to even.
use vstd::prelude::*;
use crate::text::{dec_seq, digit_char, dec_chars, push_all, push_str, digit, string_from_chars};

verus! {

/// `2^s`.
pub open spec fn two_pow(s: nat) -> nat
    decreases s,
{
    if s == 0 {
        1
    } else {
        2 * two_pow((s - 1) as nat)
    }
}

/// How many low bits of `b` a 64-bit float cannot keep (53-bit significand).
pub open spec fn float_shift(b: nat) -> nat
    decreases b,
{
    if b < 0x20000000000000 {
        0
    } else {
        1 + float_shift(b / 2)
    }
}

/// `n / d` rounded to the nearest integer, ties to the even neighbour.
pub open spec fn div_half_even(n: nat, d: nat) -> nat {
    let q = n / d;
    let r = n % d;
    if r * 2 > d || (r * 2 == d && q % 2 == 1) {
        q + 1
    } else {
        q
    }
}

/// The value a byte count takes once converted to a 64-bit float.
pub open spec fn float_value(b: nat) -> nat {
    let p = two_pow(float_shift(b));
    div_half_even(b, p) * p
}

/// The unit a value is shown in: 0 = B, 1 = KB, 2 = MB, 3 = GB, 4 = TB.
pub open spec fn size_unit(v: nat) -> nat {
    if v < 1024 {
        0
    } else if v < 1048576 {
        1
    } else if v < 1073741824 {
        2
    } else if v < 1099511627776 {
        3
    } else {
        4
    }
}

/// `1024^u` for the units above.
pub open spec fn unit_divisor(u: nat) -> nat {
    if u == 0 {
        1
    } else if u == 1 {
        1024
    } else if u == 2 {
        1048576
    } else if u == 3 {
        1073741824
    } else {
        1099511627776
    }
}

/// The unit's name.
pub open spec fn unit_name(u: nat) -> Seq<char> {
    if u == 0 {
        "B"@
    } else if u == 1 {
        "KB"@
    } else if u == 2 {
        "MB"@
    } else if u == 3 {
        "GB"@
    } else {
        "TB"@
    }
}

/// A byte count with one decimal: `"{:.1} {unit}"`.
pub open spec fn size_one_decimal(bytes: nat) -> Seq<char> {
    let v = float_value(bytes);
    let u = size_unit(v);
    let t = div_half_even(v * 10, unit_divisor(u));
    dec_seq(t / 10) + seq!['.'] + dec_seq(t % 10) + seq![' '] + unit_name(u)
}

/// A byte count as `"{bytes} B"` below one KB, else with two decimals: `"{:.2} {unit}"`.
pub open spec fn size_two_decimals(bytes: nat) -> Seq<char> {
    let v = float_value(bytes);
    let u = size_unit(v);
    let t = div_half_even(v * 100, unit_divisor(u));
    if u == 0 {
        dec_seq(bytes) + " B"@
    } else {
        dec_seq(t / 100) + seq!['.', digit_char((t % 100) / 10), digit_char(t % 10)] + seq![' ']
            + unit_name(u)
    }
}

/// `n / d` rounded half to even.
fn div_round_even(n: u128, d: u128) -> (r: u128)
    requires
        d > 0,
        d <= 0x1_0000_0000_0000_0000,
        n / d < 0xFFFF_FFFF_FFFF_FFFF,
    ensures
        r == div_half_even(n as nat, d as nat),
{
    let q = n / d;
    let rem = n % d;
    if rem * 2 > d || (rem * 2 == d && q % 2 == 1) {
        q + 1
    } else {
        q
    }
}

/// The byte count as a 64-bit float would hold it.
fn float_of(b: u64) -> (v: u128)
    ensures
        v == float_value(b as nat),
        v <= 2 * (b as nat),
{
    let mut x: u128 = b as u128;
    let mut p: u128 = 1;
    let ghost mut s: nat = 0;
    while x >= 0x20000000000000
        invariant
            p > 0,
            p == two_pow(s),
            x == (b as nat) / (p as nat),
            x * p <= b,
            p == 1 || x >= 1,
            float_shift(b as nat) == s + float_shift(x as nat),
        decreases x,
    {
        proof {
            vstd::arithmetic::div_mod::lemma_div_denominator(b as int, p as int, 2);
            assert(x * p >= p) by (nonlinear_arith)
                requires
                    x >= 1,
                    p > 0,
            ;
        }
        let ghost old_x = x;
        x = x / 2;
        p = p * 2;
        proof {
            s = s + 1;
            assert((x as int) * (p as int) <= (old_x as int) * ((p / 2) as int)) by (nonlinear_arith)
                requires
                    x == old_x / 2,
                    p % 2 == 0,
                    p > 0,
            ;
        }
    }
    proof {
        vstd::arithmetic::div_mod::lemma_fundamental_div_mod(b as int, p as int);
        if p != 1 {
            assert(p <= x * p) by (nonlinear_arith)
                requires
                    x >= 1,
                    p > 0,
            ;
        }
    }
    let r = div_round_even(b as u128, p);
    proof {
        assert(r * p <= 2 * (b as nat)) by (nonlinear_arith)
            requires
                r <= x + 1,
                x * p <= b,
                p == 1 || x >= 1,
                p == 1 ==> r == x,
        ;
    }
    r * p
}

/// The unit index and divisor for a value.
fn unit_of(v: u128) -> (r: (u64, u128))
    ensures
        r.0 == size_unit(v as nat),
        r.1 == unit_divisor(size_unit(v as nat)),
{
    if v < 1024 {
        (0, 1)
    } else if v < 1048576 {
        (1, 1024)
    } else if v < 1073741824 {
        (2, 1048576)
    } else if v < 1099511627776 {
        (3, 1073741824)
    } else {
        (4, 1099511627776)
    }
}

/// Appends the unit name.
fn push_unit(out: &mut Vec<char>, u: u64)
    requires
        u <= 4,
    ensures
        final(out)@ == old(out)@ + unit_name(u as nat),
{
    if u == 0 {
        push_str(out, "B");
    } else if u == 1 {
        push_str(out, "KB");
    } else if u == 2 {
        push_str(out, "MB");
    } else if u == 3 {
        push_str(out, "GB");
    } else {
        push_str(out, "TB");
    }
}

/// The rounded count of `1/m` units, below `2^63`.
fn scaled(bytes: u64, m: u128) -> (r: (u64, u64))
    requires
        m == 10 || m == 100,
    ensures
        r.0 == size_unit(float_value(bytes as nat)),
        r.1 == div_half_even(
            float_value(bytes as nat) * (m as nat),
            unit_divisor(size_unit(float_value(bytes as nat))),
        ),
{
    let v = float_of(bytes);
    let (u, d) = unit_of(v);
    let n: u128 = v * m;
    proof {
        if u < 4 {
            assert(n / d < 1024 * m) by (nonlinear_arith)
                requires
                    v < d * 1024,
                    n == v * m,
                    d > 0,
                    m > 0,
            ;
        } else {
            assert(n / d <= n / 1099511627776) by (nonlinear_arith)
                requires
                    d == 1099511627776,
            ;
            assert(n / 1099511627776 < 0x1_0000_0000);
        }
    }
    let t = div_round_even(n, d);
    (u, t as u64)
}

/// `"{:.1} {unit}"` for a byte count.
pub fn format_one_decimal(bytes: u64) -> (r: String)
    ensures
        r@ == size_one_decimal(bytes as nat),
{
    let (u, t) = scaled(bytes, 10);
    let mut out = dec_chars(t / 10);
    out.push('.');
    let frac = dec_chars(t % 10);
    push_all(&mut out, &frac);
    out.push(' ');
    push_unit(&mut out, u);
    proof {
        assert(dec_seq((t % 10) as nat) == seq![digit_char((t % 10) as nat)]);
    }
    string_from_chars(&out)
}

/// `"{} B"` below one KB, else `"{:.2} {unit}"` for a byte count.
pub fn format_two_decimals(bytes: u64) -> (r: String)
    ensures
        r@ == size_two_decimals(bytes as nat),
{
    let (u, t) = scaled(bytes, 100);
    if u == 0 {
        let mut out = dec_chars(bytes);
        push_str(&mut out, " B");
        return string_from_chars(&out);
    }
    let mut out = dec_chars(t / 100);
    out.push('.');
    out.push(digit((t % 100) / 10));
    out.push(digit(t % 10));
    out.push(' ');
    push_unit(&mut out, u);
    string_from_chars(&out)
}

} // verus!
