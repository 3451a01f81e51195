//! Byte counts as the dashboard writes them: binary units with a fixed
//! number of decimals, as `format!("{:.2}")` writes the `f64` value.

use vstd::prelude::*;

use crate::decimal::{dec, dec_u64, digit_char, digit_to_char};
use crate::text::{owned, push_all, push_char, string_of};

verus! {

pub open spec fn pow2(n: nat) -> nat
    decreases n,
{
    if n == 0 {
        1
    } else {
        2 * pow2((n - 1) as nat)
    }
}

/// How many low bits a `u64` loses when it becomes an `f64` (53 bits of
/// mantissa).
pub open spec fn f64_exp(b: nat) -> nat
    decreases b,
{
    if b < 0x20_0000_0000_0000 {
        0
    } else {
        1 + f64_exp(b / 2)
    }
}

/// `n / d` rounded to the nearest whole number, ties to even.
pub open spec fn div_round_even(n: nat, d: nat) -> nat {
    let q = n / d;
    let r = n % d;
    if 2 * r > d || (2 * r == d && q % 2 == 1) {
        q + 1
    } else {
        q
    }
}

/// The value of `b as f64`: `b` rounded to 53 significant bits, ties to even.
pub open spec fn as_f64(b: nat) -> nat {
    let e = f64_exp(b);
    if e == 0 {
        b
    } else {
        div_round_even(b, pow2(e)) * pow2(e)
    }
}

/// A number of hundredths (or tenths) written with two (or one) decimals.
pub open spec fn fixed(units: nat, decimals: nat) -> Seq<char> {
    if decimals == 2 {
        dec(units / 100).push('.').push(digit_char((units % 100) / 10)).push(digit_char(units % 10))
    } else {
        dec(units / 10).push('.').push(digit_char(units % 10))
    }
}

/// `value / 2^shift` with `decimals` decimals (the value is a multiple of
/// nothing in particular; the quotient is rounded half to even, as float
/// formatting does).
pub open spec fn scaled_text(value: nat, shift: nat, decimals: nat) -> Seq<char> {
    let ten = if decimals == 2 {
        100nat
    } else {
        10nat
    };
    fixed(div_round_even(value * ten, pow2(shift)), decimals)
}

/// How the dashboard writes a byte count: `1.50G`, `12.3M`, `4.0K` or `512B`.
pub open spec fn format_bytes_model(b: nat) -> Seq<char> {
    let v = as_f64(b);
    if v >= pow2(30) {
        scaled_text(v, 30, 2).push('G')
    } else if v >= pow2(20) {
        scaled_text(v, 20, 1).push('M')
    } else if v >= pow2(10) {
        scaled_text(v, 10, 1).push('K')
    } else {
        dec(b).push('B')
    }
}

/// How the detail view writes a byte count: `1.50 GiB`, `12.34 MiB`,
/// `4.00 KiB` or `512 B`.
pub open spec fn format_bytes_long_model(b: nat) -> Seq<char> {
    let v = as_f64(b);
    if v >= pow2(30) {
        scaled_text(v, 30, 2) + " GiB"@
    } else if v >= pow2(20) {
        scaled_text(v, 20, 2) + " MiB"@
    } else if v >= pow2(10) {
        scaled_text(v, 10, 2) + " KiB"@
    } else {
        dec(b) + " B"@
    }
}

proof fn lemma_pow2_values()
    ensures
        pow2(10) == 1024,
        pow2(20) == 1048576,
        pow2(30) == 1073741824,
{
    reveal_with_fuel(pow2, 31);
}

/// The value of `b as f64`.
fn f64_value(b: u64) -> (v: u128)
    ensures
        v == as_f64(b as nat),
        v < 0x4_0000_0000_0000_0000,
{
    let mut x: u64 = b;
    let ghost mut e: nat = 0;
    let mut p: u64 = 1;
    while x >= 0x20_0000_0000_0000
        invariant
            f64_exp(b as nat) == e + f64_exp(x as nat),
            p == pow2(e),
            1 <= p < 0x1000,
            x * p <= b,
            b < (x + 1) * p,
        decreases x,
    {
        proof {
            assert(p < 0x800) by (nonlinear_arith)
                requires
                    x * p <= b,
                    x >= 0x20_0000_0000_0000,
                    b <= 0xffff_ffff_ffff_ffff,
            ;
            assert((x / 2) * (2 * p) <= x * p) by (nonlinear_arith);
            assert((x + 1) * p <= (x / 2 + 1) * (2 * p)) by (nonlinear_arith);
        }
        x = x / 2;
        p = p * 2;
        proof {
            e = e + 1;
        }
    }
    if p == 1 {
        proof {
            if e > 0 {
                assert(pow2(e) == 2 * pow2((e - 1) as nat));
            }
        }
        b as u128
    } else {
        proof {
            if e == 0 {
                assert(pow2(0) == 1);
            }
        }
        let q = b / p;
        let r = b % p;
        let up = 2 * (r as u128) > (p as u128) || (2 * (r as u128) == (p as u128) && q % 2 == 1);
        let rounded: u128 = if up { q as u128 + 1 } else { q as u128 };
        proof {
            assert(q < 0x20_0000_0000_0000) by (nonlinear_arith)
                requires
                    q == b / p,
                    p >= 1,
                    b < (x + 1) * p,
                    x < 0x20_0000_0000_0000,
            ;
            assert(rounded * (p as u128) < 0x4_0000_0000_0000_0000) by (nonlinear_arith)
                requires
                    rounded <= 0x20_0000_0000_0000,
                    p < 0x1000,
            ;
        }
        rounded * (p as u128)
    }
}

proof fn lemma_pow2_le(a: nat, b: nat)
    requires
        a <= b,
    ensures
        pow2(a) <= pow2(b),
    decreases b,
{
    if a < b {
        lemma_pow2_le(a, (b - 1) as nat);
    }
}

fn div_round_even_exec(n: u128, d: u128) -> (r: u128)
    requires
        0 < d <= 0x1_0000_0000,
        n < 0x1_0000_0000_0000_0000_0000_0000,
    ensures
        r == div_round_even(n as nat, d as nat),
{
    let q = n / d;
    let r = n % d;
    if 2 * r > d || (2 * r == d && q % 2 == 1) {
        q + 1
    } else {
        q
    }
}

/// Appends a number of hundredths (or tenths) with two (or one) decimals.
fn push_fixed(out: &mut Vec<char>, units: u128, decimals: u64)
    requires
        decimals == 1 || decimals == 2,
        units < 0x1_0000_0000_0000_0000,
    ensures
        final(out)@ == old(out)@ + fixed(units as nat, decimals as nat),
{
    let whole: u64 = if decimals == 2 { (units / 100) as u64 } else { (units / 10) as u64 };
    let w = dec_u64(whole);
    push_all(out, &w);
    out.push('.');
    if decimals == 2 {
        out.push(digit_to_char(((units % 100) / 10) as u64));
    }
    out.push(digit_to_char((units % 10) as u64));
    proof {
        if decimals == 2 {
            assert(fixed(units as nat, 2) == dec(units as nat / 100).push('.').push(
                digit_char((units as nat % 100) / 10),
            ).push(digit_char(units as nat % 10)));
        }
        assert(out@ =~= old(out)@ + fixed(units as nat, decimals as nat));
    }
}

/// Appends `value / 2^shift` with `decimals` decimals.
fn push_scaled(out: &mut Vec<char>, value: u128, shift: u64, decimals: u64)
    requires
        decimals == 1 || decimals == 2,
        shift == 10 || shift == 20 || shift == 30,
        value < 0x4_0000_0000_0000_0000,
    ensures
        final(out)@ == old(out)@ + scaled_text(value as nat, shift as nat, decimals as nat),
{
    proof {
        lemma_pow2_values();
    }
    let ten: u128 = if decimals == 2 { 100 } else { 10 };
    let d: u128 = if shift == 30 { 1073741824 } else if shift == 20 { 1048576 } else { 1024 };
    let units = div_round_even_exec(value * ten, d);
    proof {
        let vt: int = (value as int) * (ten as int);
        assert(units as int <= vt / (d as int) + 1);
        assert(vt / (d as int) + 1 < 0x1_0000_0000_0000_0000) by (nonlinear_arith)
            requires
                vt == (value as int) * (ten as int),
                value < 0x4_0000_0000_0000_0000,
                ten <= 100,
                d >= 1024,
        ;
    }
    push_fixed(out, units, decimals);
}

/// A byte count as the dashboard writes it: `1.50G`, `12.3M`, `4.0K` or
/// `512B` (binary units, like the float formatting it matches).
pub fn format_bytes(bytes: u64) -> (r: String)
    ensures
        r@ == format_bytes_model(bytes as nat),
{
    proof {
        lemma_pow2_values();
    }
    let v = f64_value(bytes);
    let mut out: Vec<char> = Vec::new();
    if v >= 1073741824 {
        push_scaled(&mut out, v, 30, 2);
        out.push('G');
    } else if v >= 1048576 {
        push_scaled(&mut out, v, 20, 1);
        out.push('M');
    } else if v >= 1024 {
        push_scaled(&mut out, v, 10, 1);
        out.push('K');
    } else {
        out = dec_u64(bytes);
        out.push('B');
    }
    proof {
        assert(out@ =~= format_bytes_model(bytes as nat));
    }
    string_of(&out)
}

/// A byte count as the detail view writes it: `1.50 GiB`, `12.34 MiB`,
/// `4.00 KiB` or `512 B`.
pub fn format_bytes_long(bytes: u64) -> (r: String)
    ensures
        r@ == format_bytes_long_model(bytes as nat),
{
    proof {
        lemma_pow2_values();
    }
    let v = f64_value(bytes);
    let mut out: Vec<char> = Vec::new();
    let unit = if v >= 1073741824 {
        push_scaled(&mut out, v, 30, 2);
        crate::text::chars_of(" GiB")
    } else if v >= 1048576 {
        push_scaled(&mut out, v, 20, 2);
        crate::text::chars_of(" MiB")
    } else if v >= 1024 {
        push_scaled(&mut out, v, 10, 2);
        crate::text::chars_of(" KiB")
    } else {
        out = dec_u64(bytes);
        crate::text::chars_of(" B")
    };
    push_all(&mut out, &unit);
    proof {
        assert(out@ =~= format_bytes_long_model(bytes as nat));
    }
    string_of(&out)
}

/// A rate as the dashboard writes it: a byte count followed by `/s`.
pub fn format_rate(bytes_per_second: u64) -> (r: String)
    ensures
        r@ == format_bytes_model(bytes_per_second as nat) + "/s"@,
{
    let mut out = format_bytes(bytes_per_second);
    crate::text::push_chars(&mut out, &crate::text::chars_of("/s"));
    out
}

} // verus!
