//! Fixed-point arithmetic and decimal rendering.
//!
//! Channel and alpha magnitudes are carried as integers scaled by a power of
//! ten; every rounding step is division that rounds half away from zero, the
//! same convention the decimal renderer applies before printing.
use vstd::prelude::*;
use vstd::string::StringExecFns;

verus! {

/// Channel scale: a channel magnitude `x` is stored as `x * SCALE`.
pub const SCALE: u64 = 1_000_000;

/// Internal conversion scale: conversion math runs at `x * WIDE` precision.
pub const WIDE: i128 = 1_000_000_000_000;

pub open spec fn pow10(e: nat) -> int
    decreases e,
{
    if e == 0 {
        1
    } else {
        10 * pow10((e - 1) as nat)
    }
}

/// Division rounding half away from zero.
pub open spec fn spec_rdiv(n: int, d: int) -> int
    recommends
        d > 0,
{
    if n >= 0 {
        (n + d / 2) / d
    } else {
        -((-n + d / 2) / d)
    }
}

pub proof fn lemma_rdiv_bounds(n: int, d: int)
    requires
        d > 0,
    ensures
        n >= 0 ==> 0 <= spec_rdiv(n, d) <= n,
        n < 0 ==> n <= spec_rdiv(n, d) <= 0,
{
    if n >= 0 {
        assert(0 <= (n + d / 2) / d <= n) by (nonlinear_arith)
            requires
                d > 0,
                n >= 0,
        ;
    } else {
        assert(0 <= (-n + d / 2) / d <= -n) by (nonlinear_arith)
            requires
                d > 0,
                n < 0,
        ;
    }
}

pub proof fn lemma_rdiv_mag(n: int, d: int, b: int)
    requires
        d > 0,
        b >= 0,
        -(b * d) <= n <= b * d,
    ensures
        -b <= spec_rdiv(n, d) <= b,
{
    if n >= 0 {
        assert((n + d / 2) / d <= b) by (nonlinear_arith)
            requires
                d > 0,
                b >= 0,
                n <= b * d,
                n >= 0,
        ;
        lemma_rdiv_bounds(n, d);
    } else {
        assert((-n + d / 2) / d <= b) by (nonlinear_arith)
            requires
                d > 0,
                b >= 0,
                -n <= b * d,
                n < 0,
        ;
        lemma_rdiv_bounds(n, d);
    }
}

/// Rounding division on a signed 128-bit magnitude.
pub fn rdiv(n: i128, d: i128) -> (r: i128)
    requires
        0 < d,
        -0x7fff_ffff_ffff_ffff_0000_0000_0000_0000 <= n
            <= 0x7fff_ffff_ffff_ffff_0000_0000_0000_0000,
        d <= 0x1_0000_0000_0000_0000,
    ensures
        r == spec_rdiv(n as int, d as int),
        n >= 0 ==> 0 <= r <= n,
        n < 0 ==> n <= r <= 0,
{
    proof {
        lemma_rdiv_bounds(n as int, d as int);
    }
    if n >= 0 {
        (n + d / 2) / d
    } else {
        -((-n + d / 2) / d)
    }
}

pub open spec fn spec_digit(d: int) -> char {
    if d == 0 {
        '0'
    } else if d == 1 {
        '1'
    } else if d == 2 {
        '2'
    } else if d == 3 {
        '3'
    } else if d == 4 {
        '4'
    } else if d == 5 {
        '5'
    } else if d == 6 {
        '6'
    } else if d == 7 {
        '7'
    } else if d == 8 {
        '8'
    } else {
        '9'
    }
}

/// Decimal digits of `n`, most significant first, no leading zeros.
pub open spec fn spec_dec(n: int) -> Seq<char>
    decreases n,
{
    if n < 10 {
        seq![spec_digit(n)]
    } else {
        spec_dec(n / 10).push(spec_digit(n % 10))
    }
}

/// Decimal digits of `n` zero-padded on the left to exactly `w` digits.
pub open spec fn spec_dec_pad(n: int, w: nat) -> Seq<char>
    decreases w,
{
    if w == 0 {
        Seq::empty()
    } else {
        spec_dec_pad(n / 10, (w - 1) as nat).push(spec_digit(n % 10))
    }
}

/// Drop trailing decimal zeros: `(123400, 4)` becomes `(1234, 2)`.
pub open spec fn spec_strip(k: int, d: nat) -> (int, nat)
    decreases d,
{
    if d > 0 && k % 10 == 0 {
        spec_strip(k / 10, (d - 1) as nat)
    } else {
        (k, d)
    }
}

/// Digits of a non-negative magnitude `k` scaled by `10^d`, trailing
/// zeros stripped, with a decimal point only if fractional digits remain.
pub open spec fn spec_fmt_mag(k: int, d: nat) -> Seq<char> {
    let kd = spec_strip(k, d);
    if kd.1 == 0 {
        spec_dec(kd.0)
    } else {
        spec_dec(kd.0 / pow10(kd.1)).push('.') + spec_dec_pad(kd.0 % pow10(kd.1), kd.1)
    }
}

/// Render a `WIDE`-scaled magnitude rounded to `dec` decimal places, the
/// way the engine prints every numeric field: round half away from zero,
/// then strip redundant trailing zeros and a redundant decimal point.
pub open spec fn spec_fmt12(x: int, dec: nat) -> Seq<char>
    recommends
        dec <= 12,
{
    let k = spec_rdiv(x, pow10((12 - dec) as nat));
    if k < 0 {
        seq!['-'] + spec_fmt_mag(-k, dec)
    } else {
        spec_fmt_mag(k, dec)
    }
}

pub fn digit_str(d: u64) -> (r: &'static str)
    requires
        d < 10,
    ensures
        r@ == seq![spec_digit(d as int)],
{
    proof {
        reveal_strlit("0");
        reveal_strlit("1");
        reveal_strlit("2");
        reveal_strlit("3");
        reveal_strlit("4");
        reveal_strlit("5");
        reveal_strlit("6");
        reveal_strlit("7");
        reveal_strlit("8");
        reveal_strlit("9");
    }
    let r = match d {
        0 => "0",
        1 => "1",
        2 => "2",
        3 => "3",
        4 => "4",
        5 => "5",
        6 => "6",
        7 => "7",
        8 => "8",
        _ => "9",
    };
    proof {
        assert(r@ =~= seq![spec_digit(d as int)]);
    }
    r
}

pub fn dec_u64(n: u64) -> (r: String)
    ensures
        r@ == spec_dec(n as int),
    decreases n,
{
    if n < 10 {
        digit_str(n).to_owned()
    } else {
        let q = dec_u64(n / 10);
        let r = q.concat(digit_str(n % 10));
        proof {
            assert(r@ =~= spec_dec(n as int));
        }
        r
    }
}

pub fn dec_pad(n: u64, w: u64) -> (r: String)
    ensures
        r@ == spec_dec_pad(n as int, w as nat),
    decreases w,
{
    if w == 0 {
        let r = String::new();
        proof {
            assert(r@ =~= spec_dec_pad(n as int, 0));
        }
        r
    } else {
        let q = dec_pad(n / 10, w - 1);
        let r = q.concat(digit_str(n % 10));
        proof {
            assert(r@ =~= spec_dec_pad(n as int, w as nat));
        }
        r
    }
}

pub fn pow10_u64(e: u64) -> (r: u64)
    requires
        e <= 18,
    ensures
        r == pow10(e as nat),
        r >= 1,
        e >= 6 ==> r >= 1_000_000,
{
    proof {
        reveal_with_fuel(pow10, 20);
    }
    match e {
        0 => 1,
        1 => 10,
        2 => 100,
        3 => 1_000,
        4 => 10_000,
        5 => 100_000,
        6 => 1_000_000,
        7 => 10_000_000,
        8 => 100_000_000,
        9 => 1_000_000_000,
        10 => 10_000_000_000,
        11 => 100_000_000_000,
        12 => 1_000_000_000_000,
        13 => 10_000_000_000_000,
        14 => 100_000_000_000_000,
        15 => 1_000_000_000_000_000,
        16 => 10_000_000_000_000_000,
        17 => 100_000_000_000_000_000,
        _ => 1_000_000_000_000_000_000,
    }
}

/// Render a `WIDE`-scaled value to `dec` decimal places.
pub fn fmt12(x: i128, dec: u64) -> (r: String)
    requires
        dec <= 6,
        -1_000_000_000_000_000_000_000_000 <= x <= 1_000_000_000_000_000_000_000_000,
    ensures
        r@ == spec_fmt12(x as int, dec as nat),
{
    let div = pow10_u64(12 - dec);
    proof {
        assert(1_000_000_000_000_000_000 * (div as int) >= 1_000_000_000_000_000_000_000_000)
            by (nonlinear_arith)
            requires
                div >= 1_000_000,
        ;
        lemma_rdiv_mag(x as int, div as int, 1_000_000_000_000_000_000);
    }
    let k = rdiv(x, div as i128);
    let neg = k < 0;
    let k_mag: u64 = if neg {
        (-k) as u64
    } else {
        k as u64
    };
    let ghost k_mag0 = k_mag;
    let mut m: u64 = k_mag;
    let mut d: u64 = dec;
    while d > 0 && m % 10 == 0
        invariant
            d <= dec <= 6,
            spec_strip(k_mag0 as int, dec as nat) == spec_strip(m as int, d as nat),
            m <= k_mag0,
        decreases d,
    {
        m = m / 10;
        d = d - 1;
    }
    proof {
        assert(spec_strip(m as int, d as nat) == (m as int, d as nat));
    }
    let body = if d == 0 {
        dec_u64(m)
    } else {
        let p = pow10_u64(d);
        proof {
            reveal_strlit(".");
        }
        let head = dec_u64(m / p);
        let mid = head.concat(".");
        proof {
            assert(mid@ =~= spec_dec(m as int / pow10(d as nat)).push('.'));
        }
        mid.concat(dec_pad(m % p, d).as_str())
    };
    proof {
        assert(body@ =~= spec_fmt_mag(k_mag as int, dec as nat));
    }
    if neg {
        proof {
            reveal_strlit("-");
        }
        let r = String::from_str("-").concat(body.as_str());
        proof {
            assert(r@ =~= spec_fmt12(x as int, dec as nat));
        }
        r
    } else {
        body
    }
}

} // verus!
