//! Sizes and durations as people read them.

use crate::text::{decimal, decimal_string};
use vstd::prelude::*;

verus! {

/// Bytes in a KiB.
pub const KIB: u64 = 1024;

/// Bytes in a MiB.
pub const MIB: u64 = 1048576;

/// Bytes in a GiB.
pub const GIB: u64 = 1073741824;

/// `n / d` rounded to the nearest whole number, a tie going to the even
/// one.
pub open spec fn rounded_div(n: nat, d: nat) -> nat {
    let q = n / d;
    let r = n % d;
    if 2 * r > d || (2 * r == d && q % 2 == 1) {
        q + 1
    } else {
        q
    }
}

/// The spacing of the numbers that a double-precision float can hold,
/// around `n`: 1 below 2 to the power of 53, and twice as much with every
/// doubling of `n` from there on.
pub open spec fn double_step(n: nat) -> nat
    decreases n,
{
    if n < 0x20_0000_0000_0000 {
        1
    } else {
        2 * double_step(n / 2)
    }
}

/// The number nearest to `n` that a double-precision float can hold, a
/// tie going to the one with the even mantissa. Sizes are rounded so
/// before they are divided.
pub open spec fn as_double(n: nat) -> nat {
    rounded_div(n, double_step(n)) * double_step(n)
}

/// A number of tenths written with one decimal place.
pub open spec fn one_decimal(tenths: nat) -> Seq<char> {
    decimal(tenths / 10) + "."@ + decimal(tenths % 10)
}

/// `bytes` in the largest binary unit that it reaches: GiB and MiB with
/// one decimal place, KiB in whole numbers, bytes as they are.
pub open spec fn human_size_text(bytes: nat) -> Seq<char> {
    if bytes >= GIB {
        one_decimal(rounded_div(as_double(bytes) * 10, GIB as nat)) + " GiB"@
    } else if bytes >= MIB {
        one_decimal(rounded_div(bytes * 10, MIB as nat)) + " MiB"@
    } else if bytes >= KIB {
        decimal(rounded_div(bytes, KIB as nat)) + " KiB"@
    } else {
        decimal(bytes) + " B"@
    }
}

/// A duration in its two largest units: seconds below a minute, minutes
/// and seconds below an hour, hours and minutes from there on.
pub open spec fn duration_text(secs: nat) -> Seq<char> {
    if secs < 60 {
        decimal(secs) + "s"@
    } else if secs < 3600 {
        decimal(secs / 60) + "m "@ + decimal(secs % 60) + "s"@
    } else {
        decimal(secs / 3600) + "h "@ + decimal((secs % 3600) / 60) + "m"@
    }
}

/// The number nearest to `n` that a double-precision float can hold.
fn nearest_double(n: u64) -> (r: u128)
    ensures
        r == as_double(n as nat),
        r <= 0x2_0000_0000_0000_0000,
        n < 0x20_0000_0000_0000 ==> r == n,
{
    let mut step: u64 = 1;
    let mut m: u64 = n;
    while m >= 0x20_0000_0000_0000
        invariant
            1 <= step < 4096,
            m == n / step,
            double_step(n as nat) == step * double_step(m as nat),
        decreases m,
    {
        proof {
            vstd::arithmetic::div_mod::lemma_div_denominator(n as int, step as int, 2);
            vstd::arithmetic::div_mod::lemma_fundamental_div_mod(n as int, step as int);
            assert(step * m <= n) by (nonlinear_arith)
                requires
                    n == step * (n / step) + (n % step),
                    m == n / step,
                    n % step >= 0,
            ;
            assert(step < 2048) by (nonlinear_arith)
                requires
                    step * m <= n,
                    m >= 0x20_0000_0000_0000,
                    n <= 0xffff_ffff_ffff_ffff,
                    step >= 1,
            ;
            assert(step * (2 * double_step((m / 2) as nat)) == (step * 2) * double_step(
                (m / 2) as nat,
            )) by (nonlinear_arith);
        }
        m = m / 2;
        step = step * 2;
    }
    assert(double_step(m as nat) == 1);
    assert(step * 1 == step);
    if step == 1 {
        assert(rounded_div(n as nat, 1) == n);
        return n as u128;
    }
    proof {
        vstd::arithmetic::div_mod::lemma_fundamental_div_mod(n as int, step as int);
        assert(step * m <= n) by (nonlinear_arith)
            requires
                n == step * (n / step) + (n % step),
                m == n / step,
                n % step >= 0,
        ;
        assert(step % 2 == 0) by {
            assert(double_step(n as nat) == 2 * double_step((n / 2) as nat));
        }
    }
    let q = divide_rounded(n as u128, step);
    proof {
        assert(q <= m + 1);
        assert(q * step <= 0x2_0000_0000_0000_0000) by (nonlinear_arith)
            requires
                q <= 0x20_0000_0000_0000,
                step < 4096,
        ;
    }
    q as u128 * step as u128
}

/// `n / d` rounded to the nearest whole number, ties to even.
fn divide_rounded(n: u128, d: u64) -> (r: u64)
    requires
        d > 0,
        d % 2 == 0,
        n / (d as u128) < u64::MAX,
    ensures
        r == rounded_div(n as nat, d as nat),
        r <= n / (d as u128) + 1,
{
    let q: u128 = n / (d as u128);
    let r: u128 = n % (d as u128);
    let half: u128 = (d / 2) as u128;
    if r > half || (r == half && q % 2 == 1) {
        (q + 1) as u64
    } else {
        q as u64
    }
}

fn with_one_decimal(tenths: u64, unit: &str) -> (r: String)
    ensures
        r@ == one_decimal(tenths as nat) + unit@,
{
    let mut r = decimal_string(tenths / 10);
    r.append(".");
    r.append(decimal_string(tenths % 10).as_str());
    r.append(unit);
    r
}

/// Writes a byte count for people: `1.5 MiB`, `2 KiB`, `512 B`.
pub fn human_size(bytes: u64) -> (r: String)
    ensures
        r@ == human_size_text(bytes as nat),
{
    if bytes >= GIB {
        with_one_decimal(divide_rounded(nearest_double(bytes) * 10, GIB), " GiB")
    } else if bytes >= MIB {
        with_one_decimal(divide_rounded(bytes as u128 * 10, MIB), " MiB")
    } else if bytes >= KIB {
        let mut r = decimal_string(divide_rounded(bytes as u128, KIB));
        r.append(" KiB");
        r
    } else {
        let mut r = decimal_string(bytes);
        r.append(" B");
        r
    }
}

/// Writes a duration in seconds for people: `45s`, `1m 30s`, `1h 1m`.
pub fn format_seconds(secs: u64) -> (r: String)
    ensures
        r@ == duration_text(secs as nat),
{
    if secs < 60 {
        let mut r = decimal_string(secs);
        r.append("s");
        r
    } else if secs < 3600 {
        let mut r = decimal_string(secs / 60);
        r.append("m ");
        r.append(decimal_string(secs % 60).as_str());
        r.append("s");
        r
    } else {
        let mut r = decimal_string(secs / 3600);
        r.append("h ");
        r.append(decimal_string((secs % 3600) / 60).as_str());
        r.append("m");
        r
    }
}

} // verus!
