//! Byte sizes as people read them.
//!
//! A size is shown as a double would show it: it is rounded to the precision of a double first,
//! and then to one decimal. Both roundings go to the nearest value and, half-way, to the even one.

use crate::numbers;
use vstd::prelude::*;
use vstd::string::*;

verus! {

/// The first number whose neighbours a double cannot tell apart.
pub const PRECISION: u64 = 0x20_0000_0000_0000;

pub const KB: u64 = 0x400;

pub const MB: u64 = 0x10_0000;

pub const GB: u64 = 0x4000_0000;

pub const TB: u64 = 0x100_0000_0000;

/// The quotient rounded to the nearest number, and to the even one half-way.
pub open spec fn half_even(n: nat, d: nat) -> nat {
    let q = n / d;
    let r = n % d;
    if 2 * r > d || (2 * r == d && q % 2 == 1) {
        q + 1
    } else {
        q
    }
}

/// The distance of the doubles around a number.
pub open spec fn spacing(n: nat) -> nat
    decreases n,
{
    if n < PRECISION {
        1
    } else {
        2 * spacing(n / 2)
    }
}

/// The double nearest to a number.
pub open spec fn as_double(n: nat) -> nat {
    half_even(n, spacing(n)) * spacing(n)
}

/// The unit in which a size from one kilobyte on is shown, in bytes.
pub open spec fn unit_of(n: nat) -> nat {
    if n < MB {
        KB as nat
    } else if n < GB {
        MB as nat
    } else if n < TB {
        GB as nat
    } else {
        TB as nat
    }
}

/// The name of that unit.
pub open spec fn unit_name(n: nat) -> Seq<char> {
    if n < MB {
        " KB"@
    } else if n < GB {
        " MB"@
    } else if n < TB {
        " GB"@
    } else {
        " TB"@
    }
}

/// The tenths of its unit that a size is shown with.
pub open spec fn tenths(n: nat) -> nat {
    half_even(10 * as_double(n), unit_of(n))
}

/// A size as it is shown: below one kilobyte in bytes, else with one decimal.
pub open spec fn size_text(n: nat) -> Seq<char> {
    if n < KB {
        numbers::decimal(n) + " B"@
    } else {
        numbers::decimal(tenths(n) / 10) + "."@ + numbers::decimal(tenths(n) % 10) + unit_name(n)
    }
}

fn round_half_even(n: u128, d: u128) -> (r: u128)
    requires
        0 < d <= u64::MAX,
        n < u128::MAX,
    ensures
        r as nat == half_even(n as nat, d as nat),
        r <= n / d + 1,
{
    let q: u128 = n / d;
    let m: u128 = n % d;
    assert(q <= n) by (nonlinear_arith)
        requires
            d >= 1,
            q == n / d,
    ;
    if 2 * m > d || (2 * m == d && q % 2 == 1) {
        q + 1
    } else {
        q
    }
}

fn spacing_of(n: u64) -> (r: u64)
    ensures
        r as nat == spacing(n as nat),
        1 <= r <= 4096,
        n < PRECISION * r,
{
    let mut x: u64 = n;
    let mut p: u64 = 1;
    while x >= PRECISION
        invariant
            p * spacing(x as nat) == spacing(n as nat),
            1 <= p <= 4096,
            x * p <= n < (x + 1) * p,
        decreases x,
    {
        let ghost s = spacing((x / 2) as nat);
        let ghost y = (x / 2) as int;
        assert(p <= 2048) by (nonlinear_arith)
            requires
                x * p <= n,
                x >= PRECISION,
                n <= 0xffff_ffff_ffff_ffff,
                PRECISION == 0x20_0000_0000_0000,
        ;
        assert(p * (2 * s) == (2 * p) * s) by (nonlinear_arith);
        assert(y * (2 * p) <= x * p && (x + 1) * p <= (y + 1) * (2 * p)) by (nonlinear_arith)
            requires
                2 * y <= x,
                x + 1 <= (y + 1) * 2,
                p >= 1,
        ;
        x = x / 2;
        p = 2 * p;
    }
    assert((x + 1) * p <= PRECISION * p) by (nonlinear_arith)
        requires
            x + 1 <= PRECISION,
            p >= 1,
    ;
    assert(p * 1 == p);
    p
}

/// The double nearest to a number.
fn to_double(n: u64) -> (r: u128)
    ensures
        r as nat == as_double(n as nat),
        r <= 0x2_0000_0000_0000_0000,
{
    let p: u64 = spacing_of(n);
    let q: u128 = round_half_even(n as u128, p as u128);
    assert(q <= PRECISION) by {
        assert(n as u128 / p as u128 <= PRECISION - 1) by (nonlinear_arith)
            requires
                n < PRECISION * p,
                p >= 1,
        ;
    }
    assert(q * p <= PRECISION * 4096) by (nonlinear_arith)
        requires
            q <= PRECISION,
            p <= 4096,
    ;
    q * p as u128
}

/// Human-readable byte size.
pub fn human_size(bytes: u64) -> (r: String)
    ensures
        r@ == size_text(bytes as nat),
{
    if bytes < KB {
        let mut s: String = numbers::decimal_of(bytes);
        s.append(" B");
        return s;
    }
    let (unit, name): (u64, &str) = if bytes < MB {
        (KB, " KB")
    } else if bytes < GB {
        (MB, " MB")
    } else if bytes < TB {
        (GB, " GB")
    } else {
        (TB, " TB")
    };
    let value: u128 = to_double(bytes);
    let t: u128 = round_half_even(10 * value, unit as u128);
    assert(t <= u64::MAX) by {
        let most = 0x2_0000_0000_0000_0000int;
        assert((10 * value) / unit as int <= (10 * most) / 0x400) by (nonlinear_arith)
            requires
                most == 0x2_0000_0000_0000_0000int,
                0 <= value <= 0x2_0000_0000_0000_0000,
                unit >= 0x400,
        ;
    }
    let shown: u64 = t as u64;
    let mut s: String = numbers::decimal_of(shown / 10);
    s.append(".");
    s.append(numbers::decimal_of(shown % 10).as_str());
    s.append(name);
    s
}

/// A size from one kilobyte up to a thousand terabytes is shown in a unit of which it holds at
/// least one and at most 1024.
pub proof fn unit_fits_the_size(n: nat)
    requires
        KB <= n < 1024 * TB,
    ensures
        10 <= tenths(n) <= 10240,
        unit_of(n) <= n < 1024 * unit_of(n),
{
    assert(spacing(n) == 1);
    assert(half_even(n, 1) == n) by {
        assert(n / 1 == n && n % 1 == 0);
    }
    assert(as_double(n) == n);
    if n < MB {
        assert(tenths(n) == half_even(10 * n, 0x400));
    } else if n < GB {
        assert(tenths(n) == half_even(10 * n, 0x10_0000));
    } else if n < TB {
        assert(tenths(n) == half_even(10 * n, 0x4000_0000));
    } else {
        assert(tenths(n) == half_even(10 * n, 0x100_0000_0000));
    }
}

/// A rounded quotient is the nearest number, and the even one half-way.
proof fn lemma_half_even(n: nat, d: nat, t: nat)
    requires
        d > 0,
        -(d as int) <= 2 * (n - t * d) <= d,
        2 * (n - t * d) == d || 2 * (n - t * d) == -(d as int) ==> t % 2 == 0,
    ensures
        half_even(n, d) == t,
{
    let q = n / d;
    let r = n % d;
    vstd::arithmetic::div_mod::lemma_fundamental_div_mod(n as int, d as int);
    vstd::arithmetic::div_mod::lemma_mod_bound(n as int, d as int);
    assert(n == d * q + r && 0 <= r < d);
    assert(t == q || t == q + 1) by (nonlinear_arith)
        requires
            n == d * q + r,
            0 <= r < d,
            -(d as int) <= 2 * (n - t * d) <= d,
    ;
    assert(q * d == d * q) by (nonlinear_arith);
    assert((q + 1) * d == d * q + d) by (nonlinear_arith);
}

/// Below one kilobyte a size is shown in bytes, exactly.
pub proof fn small_sizes_are_exact(n: nat)
    requires
        n < 1024,
    ensures
        size_text(n) == numbers::decimal(n) + " B"@,
{
}

/// From one kilobyte on a size is shown with one decimal, in the largest unit of which it holds at
/// least one; what is shown is the tenth of that unit that is nearest to the size, and the even one
/// half-way.
pub proof fn shown_tenth_is_the_nearest(n: nat, unit: nat, name: Seq<char>, t: nat)
    requires
        1024 <= n < PRECISION,
        (unit, name) == (1024nat, " KB"@) && n < 1024 * 1024 || (unit, name) == (
            1024nat * 1024,
            " MB"@,
        ) && 1024 * 1024 <= n < 1024 * 1024 * 1024 || (unit, name) == (
            1024nat * 1024 * 1024,
            " GB"@,
        ) && 1024 * 1024 * 1024 <= n < 1024 * 1024 * 1024 * 1024 || (unit, name) == (
            1024nat * 1024 * 1024 * 1024,
            " TB"@,
        ) && 1024 * 1024 * 1024 * 1024 <= n,
        -(unit as int) <= 2 * (10 * n - t * unit) <= unit,
        2 * (10 * n - t * unit) == unit || 2 * (10 * n - t * unit) == -(unit as int) ==> t % 2
            == 0,
    ensures
        size_text(n) == numbers::decimal(t / 10) + "."@ + numbers::decimal(t % 10) + name,
{
    assert(spacing(n) == 1);
    assert(half_even(n, 1) == n) by {
        assert(n / 1 == n && n % 1 == 0);
    }
    assert(as_double(n) == n);
    assert(unit_of(n) == unit);
    lemma_half_even(10 * n, unit, t);
    assert(tenths(n) == t);
}

/// A number from the precision of a double on counts as the nearest number that a double can hold: a
/// multiple of the distance of the doubles around it, and the even one half-way.
pub proof fn large_numbers_are_rounded_to_a_double(n: nat, k: nat, q: nat)
    requires
        PRECISION * vstd::arithmetic::power2::pow2(k) <= 2 * n,
        n < PRECISION * vstd::arithmetic::power2::pow2(k),
        -(vstd::arithmetic::power2::pow2(k) as int) <= 2 * (n - q
            * vstd::arithmetic::power2::pow2(k)) <= vstd::arithmetic::power2::pow2(k),
        2 * (n - q * vstd::arithmetic::power2::pow2(k)) == vstd::arithmetic::power2::pow2(k) || 2 * (
        n - q * vstd::arithmetic::power2::pow2(k)) == -(vstd::arithmetic::power2::pow2(k) as int)
            ==> q % 2 == 0,
    ensures
        as_double(n) == q * vstd::arithmetic::power2::pow2(k),
{
    vstd::arithmetic::power2::lemma_pow2_pos(k);
    lemma_spacing(n, k);
    lemma_half_even(n, vstd::arithmetic::power2::pow2(k), q);
}

proof fn lemma_spacing(n: nat, k: nat)
    requires
        PRECISION * vstd::arithmetic::power2::pow2(k) <= 2 * n,
        n < PRECISION * vstd::arithmetic::power2::pow2(k),
    ensures
        spacing(n) == vstd::arithmetic::power2::pow2(k),
    decreases k,
{
    vstd::arithmetic::power2::lemma2_to64();
    if k > 0 {
        let j = (k - 1) as nat;
        vstd::arithmetic::power2::lemma_pow2_unfold(k);
        vstd::arithmetic::power2::lemma_pow2_pos(j);
        let p = vstd::arithmetic::power2::pow2(j);
        assert(vstd::arithmetic::power2::pow2(k) == 2 * p);
        assert(n >= PRECISION * p);
        assert(n < PRECISION * p * 2);
        assert(PRECISION * p >= PRECISION) by (nonlinear_arith)
            requires
                p >= 1,
        ;
        assert(PRECISION * p <= 2 * (n / 2)) by {
            let half = (PRECISION / 2) * p;
            assert(PRECISION * p == 2 * half) by (nonlinear_arith)
                requires
                    half == (PRECISION / 2) * p,
                    PRECISION == 2 * (PRECISION / 2),
            ;
        }
        lemma_spacing(n / 2, j);
    }
}

}
