//! Readable byte counts ("48.5 MB"), digit for digit as Rust prints the `f64` arithmetic
//! they come from: the count is first rounded to the nearest `f64` (ties to even), divided by a
//! power of 1024 (exact in binary), and printed with a fixed number of decimals, rounding the
//! exact value half to even.

use vstd::prelude::*;
use crate::text::{dec_string, digit_char, push_dec, push_signed_dec, signed_dec_string, push_str,
    string_from_chars};

verus! {

/// Integers below this are exact as `f64` (53-bit mantissa).
pub const F64_EXACT_LIMIT: u64 = 9007199254740992;

pub open spec fn two_pow(e: nat) -> nat
    decreases e,
{
    if e == 0 {
        1
    } else {
        2 * two_pow((e - 1) as nat)
    }
}

pub open spec fn ten_pow(d: nat) -> nat {
    if d == 0 {
        1
    } else if d == 1 {
        10
    } else {
        100
    }
}

/// `a / d` rounded to the nearest integer, ties to the even one.
pub open spec fn div_round_half_even(a: nat, d: nat) -> nat {
    let q = a / d;
    let r = a % d;
    if 2 * r > d || (2 * r == d && q % 2 == 1) {
        q + 1
    } else {
        q
    }
}

/// How many low bits of `n` do not fit in a 53-bit mantissa.
pub open spec fn f64_shift(n: nat) -> nat
    decreases n,
{
    if n < F64_EXACT_LIMIT {
        0
    } else {
        1 + f64_shift(n / 2)
    }
}

/// The value of `n as f64`: the representable number nearest to `n`, ties to an even mantissa.
pub open spec fn f64_round(n: nat) -> nat {
    let p = two_pow(f64_shift(n));
    div_round_half_even(n, p) * p
}

/// `units` hundredths, tenths or ones written with that many decimals.
pub open spec fn fixed_point_string(units: nat, decimals: nat) -> Seq<char> {
    if decimals == 0 {
        dec_string(units)
    } else if decimals == 1 {
        dec_string(units / 10) + seq!['.', digit_char(units % 10)]
    } else {
        dec_string(units / 100) + seq!['.', digit_char((units / 10) % 10), digit_char(units % 10)]
    }
}

/// `format!("{:.decimals}", n as f64 / unit)` for a power-of-two `unit`.
pub open spec fn scaled_string(n: nat, unit: nat, decimals: nat) -> Seq<char> {
    fixed_point_string(div_round_half_even(f64_round(n) * ten_pow(decimals), unit), decimals)
}

/// The value of `n as f64`, as an integer.
pub fn f64_round_u64(n: u64) -> (v: u128)
    ensures
        v == f64_round(n as nat),
        v <= n + 4096,
{
    let mut m: u64 = n;
    let mut p: u64 = 1;
    let ghost mut e: nat = 0;
    while m >= F64_EXACT_LIMIT
        invariant
            1 <= p <= 4096,
            p == two_pow(e),
            m == n as nat / p as nat,
            f64_shift(n as nat) == e + f64_shift(m as nat),
        decreases m,
    {
        proof {
            assert(p * (n as nat / p as nat) <= n) by (nonlinear_arith)
                requires
                    p >= 1,
            ;
            assert(p * F64_EXACT_LIMIT <= n) by (nonlinear_arith)
                requires
                    p * m <= n,
                    m >= F64_EXACT_LIMIT,
            ;
            assert(p < 2048);
            vstd::arithmetic::div_mod::lemma_div_denominator(n as int, p as int, 2);
        }
        m = m / 2;
        p = p * 2;
        proof {
            e = e + 1;
        }
    }
    proof {
        assert(p as nat * (n as nat / p as nat) + n as nat % p as nat == n) by (nonlinear_arith)
            requires
                p >= 1,
        ;
    }
    let q: u64 = m;
    let r: u64 = n % p;
    let rounded: u64 = if 2 * r > p || (2 * r == p && q % 2 == 1) {
        q + 1
    } else {
        q
    };
    proof {
        assert(rounded * p <= n + p) by (nonlinear_arith)
            requires
                rounded <= q + 1,
                q * p <= n,
        ;
    }
    (rounded as u128) * (p as u128)
}

/// `div_round_half_even(f64_round(n) * 10^decimals, unit)`: the digits of `{:.decimals}`.
fn scaled_units(n: u64, unit: u64, decimals: u32) -> (u: u64)
    requires
        unit >= 1024,
        decimals <= 2,
    ensures
        u == div_round_half_even(f64_round(n as nat) * ten_pow(decimals as nat), unit as nat),
{
    let v = f64_round_u64(n);
    let tens: u128 = if decimals == 0 {
        1
    } else if decimals == 1 {
        10
    } else {
        100
    };
    proof {
        assert(v * tens <= (u64::MAX + 4096) * 100) by (nonlinear_arith)
            requires
                v <= u64::MAX + 4096,
                tens <= 100,
        ;
    }
    let a: u128 = v * tens;
    let d: u128 = unit as u128;
    let q: u128 = a / d;
    let r: u128 = a % d;
    proof {
        assert(q <= a / 1024) by (nonlinear_arith)
            requires
                q == a / d,
                d >= 1024,
        ;
        assert(a / 1024 <= (u64::MAX + 4096) * 100 / 1024) by (nonlinear_arith)
            requires
                a <= (u64::MAX + 4096) * 100,
        ;
    }
    let rounded: u128 = if 2 * r > d || (2 * r == d && q % 2 == 1) {
        q + 1
    } else {
        q
    };
    rounded as u64
}

/// Appends `units` written with `decimals` decimals.
fn push_fixed_point(out: &mut Vec<char>, units: u64, decimals: u32)
    requires
        decimals <= 2,
    ensures
        final(out)@ == old(out)@ + fixed_point_string(units as nat, decimals as nat),
{
    if decimals == 0 {
        push_dec(out, units);
    } else if decimals == 1 {
        push_dec(out, units / 10);
        out.push('.');
        out.push((48u8 + (units % 10) as u8) as char);
        assert(final(out)@ =~= old(out)@ + fixed_point_string(units as nat, decimals as nat));
    } else {
        push_dec(out, units / 100);
        out.push('.');
        out.push((48u8 + ((units / 10) % 10) as u8) as char);
        out.push((48u8 + (units % 10) as u8) as char);
        assert(final(out)@ =~= old(out)@ + fixed_point_string(units as nat, decimals as nat));
    }
}

/// Appends `format!("{:.decimals}", n as f64 / unit as f64)` for a power-of-two `unit`.
pub fn push_scaled(out: &mut Vec<char>, n: u64, unit: u64, decimals: u32)
    requires
        unit >= 1024,
        decimals <= 2,
    ensures
        final(out)@ == old(out)@ + scaled_string(n as nat, unit as nat, decimals as nat),
{
    let u = scaled_units(n, unit, decimals);
    push_fixed_point(out, u, decimals);
}

pub const KIB: u64 = 1024;

pub const MIB: u64 = 1048576;

pub const GIB: u64 = 1073741824;

/// "512 B", "1.5 KB", "128.0 MB", "2.25 GB": one decimal up to megabytes, two for gigabytes.
pub open spec fn spec_human_bytes(n: int) -> Seq<char> {
    if n < KIB {
        signed_dec_string(n) + " B"@
    } else if n < MIB {
        scaled_string(n as nat, KIB as nat, 1) + " KB"@
    } else if n < GIB {
        scaled_string(n as nat, MIB as nat, 1) + " MB"@
    } else {
        scaled_string(n as nat, GIB as nat, 2) + " GB"@
    }
}

/// A byte count for messages about limits: "512 B", "1.0 KB", "128.0 MB", "1.50 GB".
pub fn human_bytes(n: i64) -> (s: String)
    ensures
        s@ == spec_human_bytes(n as int),
{
    let mut out: Vec<char> = Vec::new();
    if n < 1024 {
        push_signed_dec(&mut out, n);
        push_str(&mut out, " B");
    } else if n < 1048576 {
        push_scaled(&mut out, n as u64, KIB, 1);
        push_str(&mut out, " KB");
    } else if n < 1073741824 {
        push_scaled(&mut out, n as u64, MIB, 1);
        push_str(&mut out, " MB");
    } else {
        push_scaled(&mut out, n as u64, GIB, 2);
        push_str(&mut out, " GB");
    }
    string_from_chars(out)
}

/// "512 B", "1.5 KB", "48.5 MB", "2.0 GB": one decimal at every scale.
pub open spec fn spec_human_size(n: int) -> Seq<char> {
    if n >= GIB {
        scaled_string(n as nat, GIB as nat, 1) + " GB"@
    } else if n >= MIB {
        scaled_string(n as nat, MIB as nat, 1) + " MB"@
    } else if n >= KIB {
        scaled_string(n as nat, KIB as nat, 1) + " KB"@
    } else {
        signed_dec_string(n) + " B"@
    }
}

/// A transfer size for notifications: one decimal, scaled down to the largest unit that fits.
pub fn human_size(bytes: i64) -> (s: String)
    ensures
        s@ == spec_human_size(bytes as int),
{
    let mut out: Vec<char> = Vec::new();
    if bytes >= 1073741824 {
        push_scaled(&mut out, bytes as u64, GIB, 1);
        push_str(&mut out, " GB");
    } else if bytes >= 1048576 {
        push_scaled(&mut out, bytes as u64, MIB, 1);
        push_str(&mut out, " MB");
    } else if bytes >= 1024 {
        push_scaled(&mut out, bytes as u64, KIB, 1);
        push_str(&mut out, " KB");
    } else {
        push_signed_dec(&mut out, bytes);
        push_str(&mut out, " B");
    }
    string_from_chars(out)
}

} // verus!
