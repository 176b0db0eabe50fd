//! Numbers of bytes for people to read.
//!
//! A number of bytes is taken in double precision, scaled by powers of 1024,
//! and shown without decimals from 10 on and with one decimal below, rounded
//! to the nearest value, ties to even.

use crate::text::{decimal, push_decimal};
use vstd::prelude::*;
use vstd::string::StringExecFns;

verus! {

/// `n / d`, rounded to the nearest integer, ties to even.
pub open spec fn nearest(n: nat, d: nat) -> nat {
    let q = n / d;
    let r = n % d;
    if 2 * r < d || (2 * r == d && q % 2 == 0) {
        q
    } else {
        q + 1
    }
}

/// The distance between neighbouring double precision numbers at `n`: with 53
/// significant bits, the smallest power of two `p` such that `n < 2^53 * p`.
pub open spec fn double_step(n: nat) -> nat
    decreases n,
{
    if n < 0x20_0000_0000_0000 {
        1
    } else {
        2 * double_step(n / 2)
    }
}

/// The double precision number nearest to `n`, ties to even.
pub open spec fn as_double(n: nat) -> nat {
    nearest(n, double_step(n)) * double_step(n)
}

/// The size of the unit in which a number of bytes is shown.
pub open spec fn unit_size(n: nat) -> nat {
    if n < 0x400 {
        1
    } else if n < 0x10_0000 {
        0x400
    } else if n < 0x4000_0000 {
        0x10_0000
    } else if n < 0x100_0000_0000 {
        0x4000_0000
    } else {
        0x100_0000_0000
    }
}

/// The name of a unit.
pub open spec fn unit_name(size: nat) -> Seq<char> {
    if size == 1 {
        " B"@
    } else if size == 0x400 {
        " KB"@
    } else if size == 0x10_0000 {
        " MB"@
    } else if size == 0x4000_0000 {
        " GB"@
    } else {
        " TB"@
    }
}

/// How a number of bytes is shown.
pub open spec fn bytes_text(value: nat) -> Seq<char> {
    let n = as_double(value);
    let unit = unit_size(n);
    if unit == 1 || n >= 10 * unit {
        decimal(nearest(n, unit)) + unit_name(unit)
    } else {
        let tenths = nearest(10 * n, unit);
        decimal(tenths / 10) + "."@ + decimal(tenths % 10) + unit_name(unit)
    }
}

fn nearest_of(n: u128, d: u128) -> (r: u128)
    requires
        d > 0,
        n < 0x1_0000_0000_0000_0000_0000,
        d < 0x1_0000_0000_0000,
    ensures
        r == nearest(n as nat, d as nat),
        r <= n + 1,
        r * d <= n + d,
{
    let q: u128 = n / d;
    let rest: u128 = n % d;
    proof {
        assert(n == d * (n / d) + n % d) by (nonlinear_arith)
            requires
                d > 0,
        ;
        assert(q * d == d * q) by (nonlinear_arith);
        assert((q + 1) * d == d * q + d) by (nonlinear_arith);
        assert(q <= n) by (nonlinear_arith)
            requires
                d > 0,
                n == d * q + rest,
        ;
    }
    if 2 * rest < d || (2 * rest == d && q % 2 == 0) {
        q
    } else {
        q + 1
    }
}

proof fn lemma_double_step_scales(n: nat, p: nat)
    requires
        n < 0x20_0000_0000_0000 * p,
        p == 1 || n >= 0x10_0000_0000_0000 * p,
        p == 1 || p == 2 || p == 4 || p == 8 || p == 16 || p == 32 || p == 64 || p == 128 || p
            == 256 || p == 512 || p == 1024 || p == 2048,
    ensures
        double_step(n) == p,
    decreases p,
{
    if p > 1 {
        lemma_double_step_scales(n / 2, p / 2);
    }
}

fn double_step_of(n: u64) -> (r: u128)
    ensures
        r == double_step(n as nat),
        1 <= r <= 2048,
        r == 1 || r * 0x10_0000_0000_0000 <= n,
{
    let v: u128 = n as u128;
    let mut p: u128 = 1;
    while v >= 0x20_0000_0000_0000 * p
        invariant
            v == n,
            p == 1 || v >= 0x10_0000_0000_0000 * p,
            p == 1 || p == 2 || p == 4 || p == 8 || p == 16 || p == 32 || p == 64 || p == 128 || p
                == 256 || p == 512 || p == 1024 || p == 2048,
        decreases 4096 - p,
    {
        p = p * 2;
    }
    proof {
        lemma_double_step_scales(n as nat, p as nat);
    }
    p
}

/// Shows a number of bytes with a fitting unit.
pub fn format_bytes(value: u64) -> (r: String)
    ensures
        r@ == bytes_text(value as nat),
{
    let step: u128 = double_step_of(value);
    let n: u128 = nearest_of(value as u128, step) * step;
    let unit: u128 = if n < 0x400 {
        1
    } else if n < 0x10_0000 {
        0x400
    } else if n < 0x4000_0000 {
        0x10_0000
    } else if n < 0x100_0000_0000 {
        0x4000_0000
    } else {
        0x100_0000_0000
    };
    assert(unit == unit_size(n as nat));
    let mut text = String::new();
    if unit == 1 || n >= 10 * unit {
        push_decimal(&mut text, nearest_of(n, unit));
    } else {
        let tenths: u128 = nearest_of(10 * n, unit);
        push_decimal(&mut text, tenths / 10);
        text.append(".");
        push_decimal(&mut text, tenths % 10);
    }
    if unit == 1 {
        text.append(" B");
    } else if unit == 0x400 {
        text.append(" KB");
    } else if unit == 0x10_0000 {
        text.append(" MB");
    } else if unit == 0x4000_0000 {
        text.append(" GB");
    } else {
        text.append(" TB");
    }
    assert(text@ =~= bytes_text(value as nat));
    text
}

// ---------------------------------------------------------------------------
// What is shown
// ---------------------------------------------------------------------------

/// The nearest integer to a quotient is the one that is at most a half away, and
/// the even one of two that are.
pub proof fn lemma_nearest(n: nat, d: nat, q: nat)
    requires
        d > 0,
        2 * q * d <= 2 * n + d,
        2 * n <= 2 * q * d + d,
        2 * q * d == 2 * n + d || 2 * n == 2 * q * d + d ==> q % 2 == 0,
    ensures
        nearest(n, d) == q,
{
    let q0 = n / d;
    let r = n % d;
    assert(n == q0 * d + r && r < d) by (nonlinear_arith)
        requires
            d > 0,
            q0 == n / d,
            r == n % d,
    ;
    if q < q0 {
        assert(q0 * d >= q * d + d) by (nonlinear_arith)
            requires
                q + 1 <= q0,
        ;
        assert(2 * q * d == 2 * (q * d)) by (nonlinear_arith);
    } else if q > q0 + 1 {
        assert(q * d >= q0 * d + 2 * d) by (nonlinear_arith)
            requires
                q >= q0 + 2,
        ;
        assert(2 * q * d == 2 * (q * d)) by (nonlinear_arith);
    } else if q == q0 {
        assert(2 * q * d == 2 * (q0 * d)) by (nonlinear_arith)
            requires
                q == q0,
        ;
    } else {
        assert(2 * q * d == 2 * (q0 * d) + 2 * d) by (nonlinear_arith)
            requires
                q == q0 + 1,
        ;
    }
}

proof fn lemma_nearest_is_close(n: nat, d: nat)
    requires
        d > 0,
    ensures
        2 * (nearest(n, d) * d) <= 2 * n + d,
        2 * n <= 2 * (nearest(n, d) * d) + d,
{
    let q = n / d;
    let r = n % d;
    assert(n == q * d + r && r < d) by (nonlinear_arith)
        requires
            d > 0,
            q == n / d,
            r == n % d,
    ;
    assert((q + 1) * d == q * d + d) by (nonlinear_arith);
}

/// A number is taken in double precision: as the nearest multiple of the power of
/// two that leaves 53 significant bits, the even one of two. Numbers below 2^53
/// are taken as they are.
pub proof fn lemma_as_double(n: nat, p: nat, m: nat)
    requires
        p == 1 || p == 2 || p == 4 || p == 8 || p == 16 || p == 32 || p == 64 || p == 128 || p
            == 256 || p == 512 || p == 1024 || p == 2048,
        n < 0x20_0000_0000_0000 * p,
        p == 1 || n >= 0x10_0000_0000_0000 * p,
        2 * m * p <= 2 * n + p,
        2 * n <= 2 * m * p + p,
        2 * m * p == 2 * n + p || 2 * n == 2 * m * p + p ==> m % 2 == 0,
    ensures
        as_double(n) == m * p,
        p == 1 ==> as_double(n) == n,
{
    lemma_double_step_scales(n, p);
    lemma_nearest(n, p, m);
}

/// What is shown of a number of bytes below 2^53: below 1024 the number itself,
/// in bytes. Above, the number of the largest unit that fits, each 1024 times the
/// one before: from ten on the nearest whole number, below ten the nearest number
/// of tenths, with one decimal; of two nearest the even one.
pub proof fn lemma_what_is_shown(value: nat, unit: nat, name: Seq<char>, q: nat)
    requires
        value < 0x20_0000_0000_0000,
        ({
            ||| unit == 1 && name == " B"@ && value < 1024
            ||| unit == 1024 && name == " KB"@ && 1024 <= value < 1048576
            ||| unit == 1048576 && name == " MB"@ && 1048576 <= value < 1073741824
            ||| unit == 1073741824 && name == " GB"@ && 1073741824 <= value < 1099511627776
            ||| unit == 1099511627776 && name == " TB"@ && 1099511627776 <= value
        }),
    ensures
        unit == 1 ==> bytes_text(value) == decimal(value) + name,
        unit > 1 && value >= 10 * unit && 2 * q * unit <= 2 * value + unit && 2 * value <= 2 * q
            * unit + unit && (2 * q * unit == 2 * value + unit || 2 * value == 2 * q * unit + unit
            ==> q % 2 == 0) ==> bytes_text(value) == decimal(q) + name,
        unit > 1 && value < 10 * unit && 2 * q * unit <= 20 * value + unit && 20 * value <= 2 * q
            * unit + unit && (2 * q * unit == 20 * value + unit || 20 * value == 2 * q * unit + unit
            ==> q % 2 == 0) ==> bytes_text(value) == decimal(q / 10) + "."@ + decimal(q % 10)
            + name,
{
    lemma_as_double(value, 1, value);
    assert(unit_size(value) == unit);
    if unit == 1 {
        lemma_nearest(value, 1, value);
    } else {
        if value >= 10 * unit && 2 * q * unit <= 2 * value + unit && 2 * value <= 2 * q * unit
            + unit && (2 * q * unit == 2 * value + unit || 2 * value == 2 * q * unit + unit ==> q
            % 2 == 0) {
            lemma_nearest(value, unit, q);
        }
        if value < 10 * unit && 2 * q * unit <= 20 * value + unit && 20 * value <= 2 * q * unit
            + unit && (2 * q * unit == 20 * value + unit || 20 * value == 2 * q * unit + unit ==> q
            % 2 == 0) {
            lemma_nearest(10 * value, unit, q);
        }
    }
}

/// Taking a number of 64 bits in double precision changes it by at most 1024.
proof fn lemma_double_is_near(value: nat)
    requires
        0x20_0000_0000_0000 <= value < 0x1_0000_0000_0000_0000,
    ensures
        value <= as_double(value) + 1024,
        as_double(value) <= value + 1024,
{
    let p: nat = if value < 0x40_0000_0000_0000 {
        2
    } else if value < 0x80_0000_0000_0000 {
        4
    } else if value < 0x100_0000_0000_0000 {
        8
    } else if value < 0x200_0000_0000_0000 {
        16
    } else if value < 0x400_0000_0000_0000 {
        32
    } else if value < 0x800_0000_0000_0000 {
        64
    } else if value < 0x1000_0000_0000_0000 {
        128
    } else if value < 0x2000_0000_0000_0000 {
        256
    } else if value < 0x4000_0000_0000_0000 {
        512
    } else if value < 0x8000_0000_0000_0000 {
        1024
    } else {
        2048
    };
    lemma_double_step_scales(value, p);
    lemma_nearest_is_close(value, p);
    assert(as_double(value) == nearest(value, p) * p);
}

/// Numbers of bytes from 2^53 on are shown in the largest unit, as the nearest
/// whole number, wherever rounding to double precision cannot change which one
/// that is.
pub proof fn lemma_large_numbers_are_shown(value: nat, q: nat)
    requires
        0x20_0000_0000_0000 <= value < 0x1_0000_0000_0000_0000,
        2 * q * 1099511627776 + 2048 < 2 * value + 1099511627776,
        2 * value + 2048 < 2 * q * 1099511627776 + 1099511627776,
    ensures
        bytes_text(value) == decimal(q) + " TB"@,
{
    lemma_double_is_near(value);
    lemma_nearest(as_double(value), 1099511627776, q);
}

/// From 2^53 on the number that is shown is the nearest to the number in double
/// precision, the even one of two.
pub proof fn lemma_large_numbers_are_rounded(value: nat, q: nat)
    requires
        0x20_0000_0000_0000 <= value < 0x1_0000_0000_0000_0000,
        2 * q * 1099511627776 <= 2 * as_double(value) + 1099511627776,
        2 * as_double(value) <= 2 * q * 1099511627776 + 1099511627776,
        2 * q * 1099511627776 == 2 * as_double(value) + 1099511627776 || 2 * as_double(value) == 2
            * q * 1099511627776 + 1099511627776 ==> q % 2 == 0,
    ensures
        bytes_text(value) == decimal(q) + " TB"@,
{
    lemma_double_is_near(value);
    lemma_nearest(as_double(value), 1099511627776, q);
}

} // verus!
