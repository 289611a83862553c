//! CIE XYZ and LAB, on `WIDE`-scaled integers.
//!
//! The gamma expansion `((c + 0.055) / 1.055)^2.4` is computed as the fifth
//! root of the twelfth power, and the CIE `f` companding as a cube root;
//! both roots are integer floor roots, pinned by the property that the
//! result's power is the last one not exceeding the radicand.
use vstd::prelude::*;

use crate::color::{Color, valid};
use crate::convert::spec_norm;
use crate::num::{spec_rdiv, rdiv, lemma_rdiv_mag, WIDE};

verus! {

pub open spec fn p3(y: int) -> int {
    y * y * y
}

pub open spec fn p5(y: int) -> int {
    y * y * y * y * y
}

pub open spec fn root3_ok(c: int, y: int) -> bool {
    0 <= y && p3(y) <= c && c < p3(y + 1)
}

pub open spec fn root5_ok(c: int, y: int) -> bool {
    0 <= y && p5(y) <= c && c < p5(y + 1)
}

/// The integer cube root: the unique `y` with `y^3 <= c < (y+1)^3`.
pub open spec fn spec_iroot3(c: int) -> int {
    choose|y: int| root3_ok(c, y)
}

/// The integer fifth root: the unique `y` with `y^5 <= c < (y+1)^5`.
pub open spec fn spec_iroot5(c: int) -> int {
    choose|y: int| root5_ok(c, y)
}

pub proof fn lemma_p3_mono(a: int, b: int)
    requires
        0 <= a <= b,
    ensures
        p3(a) <= p3(b),
{
    assert(a * a * a <= b * b * b) by (nonlinear_arith)
        requires
            0 <= a <= b,
    ;
}

pub proof fn lemma_p5_mono(a: int, b: int)
    requires
        0 <= a <= b,
    ensures
        p5(a) <= p5(b),
{
    assert(a * a * a * a * a <= b * b * b * b * b) by (nonlinear_arith)
        requires
            0 <= a <= b,
    ;
}

pub proof fn lemma_root3_unique(c: int, y: int)
    requires
        root3_ok(c, y),
    ensures
        spec_iroot3(c) == y,
{
    assert(root3_ok(c, spec_iroot3(c)));
    let z = spec_iroot3(c);
    if z < y {
        lemma_p3_mono(z + 1, y);
    } else if z > y {
        lemma_p3_mono(y + 1, z);
    }
}

pub proof fn lemma_root5_unique(c: int, y: int)
    requires
        root5_ok(c, y),
    ensures
        spec_iroot5(c) == y,
{
    assert(root5_ok(c, spec_iroot5(c)));
    let z = spec_iroot5(c);
    if z < y {
        lemma_p5_mono(z + 1, y);
    } else if z > y {
        lemma_p5_mono(y + 1, z);
    }
}

pub fn iroot3(c: i128, hi0: i128) -> (y: i128)
    requires
        0 <= c,
        1 <= hi0 <= 1_200_000_000_001,
        p3(hi0 as int) > c,
    ensures
        y == spec_iroot3(c as int),
        root3_ok(c as int, y as int),
        0 <= y < hi0,
{
    let mut lo: i128 = 0;
    let mut hi: i128 = hi0;
    while lo + 1 < hi
        invariant
            0 <= lo < hi <= hi0 <= 1_200_000_000_001,
            p3(lo as int) <= c,
            p3(hi as int) > c,
        decreases hi - lo,
    {
        let mid = lo + (hi - lo) / 2;
        proof {
            assert(mid * mid * mid <= 2_000_000_000_000_000_000_000_000_000_000_000_000
                && mid * mid <= 2_000_000_000_000_000_000_000_000
                && mid * mid >= 0 && mid * mid * mid >= 0) by (nonlinear_arith)
                requires
                    0 <= mid <= 1_200_000_000_001,
            ;
        }
        let m3 = mid * mid * mid;
        if m3 <= c {
            lo = mid;
        } else {
            hi = mid;
        }
    }
    proof {
        lemma_root3_unique(c as int, lo as int);
    }
    lo
}

pub fn iroot5(c: i128, hi0: i128) -> (y: i128)
    requires
        0 <= c,
        1 <= hi0 <= 40_000_001,
        p5(hi0 as int) > c,
    ensures
        y == spec_iroot5(c as int),
        root5_ok(c as int, y as int),
        0 <= y < hi0,
{
    let mut lo: i128 = 0;
    let mut hi: i128 = hi0;
    while lo + 1 < hi
        invariant
            0 <= lo < hi <= hi0 <= 40_000_001,
            p5(lo as int) <= c,
            p5(hi as int) > c,
        decreases hi - lo,
    {
        let mid = lo + (hi - lo) / 2;
        proof {
            assert(mid * mid * mid * mid * mid
                <= 120_000_000_000_000_000_000_000_000_000_000_000_000 && mid * mid >= 0
                && mid * mid * mid >= 0 && mid * mid * mid * mid >= 0 && mid * mid
                <= 1_600_000_080_000_001 && mid * mid * mid <= 64_000_004_800_000_120_000_001
                && mid * mid * mid * mid
                <= 2_560_000_256_000_009_600_000_160_000_001) by (nonlinear_arith)
                requires
                    0 <= mid <= 40_000_001,
            ;
        }
        let m5 = mid * mid * mid * mid * mid;
        if m5 <= c {
            lo = mid;
        } else {
            hi = mid;
        }
    }
    proof {
        lemma_root5_unique(c as int, lo as int);
    }
    lo
}

/// Gamma expansion of one normalized channel: `c / 12.92` below the
/// `0.04045` knee, else `((c + 0.055) / 1.055)^2.4` as `(a^12)^(1/5)`,
/// the fifth root taken at 1/40_000_000 resolution.
pub open spec fn spec_gamma(n: int) -> int {
    if n <= 40_450_000_000 {
        spec_rdiv(n * 100, 1292)
    } else {
        let a = spec_rdiv((n + 55_000_000_000) * WIDE, 1_055_000_000_000);
        let a2 = spec_rdiv(a * a, WIDE as int);
        let a4 = spec_rdiv(a2 * a2, WIDE as int);
        let a8 = spec_rdiv(a4 * a4, WIDE as int);
        let a12 = spec_rdiv(a8 * a4, WIDE as int);
        25_000 * spec_iroot5(a12 * 102_400_000_000_000_000_000_000_000)
    }
}

pub fn gamma(n: i128) -> (g: i128)
    requires
        0 <= n <= WIDE,
    ensures
        g == spec_gamma(n as int),
        0 <= g <= WIDE,
{
    if n <= 40_450_000_000 {
        proof {
            lemma_rdiv_mag(n as int * 100, 1292, WIDE as int);
        }
        rdiv(n * 100, 1292)
    } else {
        proof {
            assert((n as int + 55_000_000_000) * WIDE <= WIDE * 1_055_000_000_000
                && (n as int + 55_000_000_000) * WIDE >= 0) by (nonlinear_arith)
                requires
                    0 <= n <= WIDE,
            ;
            lemma_rdiv_mag((n as int + 55_000_000_000) * WIDE, 1_055_000_000_000, WIDE as int);
        }
        let a = rdiv((n + 55_000_000_000) * WIDE, 1_055_000_000_000);
        proof {
            assert(a as int * a <= WIDE * WIDE && a as int * a >= 0) by (nonlinear_arith)
                requires
                    0 <= a <= WIDE,
            ;
            lemma_rdiv_mag(a as int * a, WIDE as int, WIDE as int);
        }
        let a2 = rdiv(a * a, WIDE);
        proof {
            assert(a2 as int * a2 <= WIDE * WIDE && a2 as int * a2 >= 0) by (nonlinear_arith)
                requires
                    0 <= a2 <= WIDE,
            ;
            lemma_rdiv_mag(a2 as int * a2, WIDE as int, WIDE as int);
        }
        let a4 = rdiv(a2 * a2, WIDE);
        proof {
            assert(a4 as int * a4 <= WIDE * WIDE && a4 as int * a4 >= 0) by (nonlinear_arith)
                requires
                    0 <= a4 <= WIDE,
            ;
            lemma_rdiv_mag(a4 as int * a4, WIDE as int, WIDE as int);
        }
        let a8 = rdiv(a4 * a4, WIDE);
        proof {
            assert(a8 as int * a4 <= WIDE * WIDE && a8 as int * a4 >= 0) by (nonlinear_arith)
                requires
                    0 <= a8 <= WIDE,
                    0 <= a4 <= WIDE,
            ;
            lemma_rdiv_mag(a8 as int * a4, WIDE as int, WIDE as int);
        }
        let a12 = rdiv(a8 * a4, WIDE);
        proof {
            assert(a12 as int * 102_400_000_000_000_000_000_000_000
                <= 102_400_000_000_000_000_000_000_000_000_000_000_000
                && a12 as int * 102_400_000_000_000_000_000_000_000 >= 0) by (nonlinear_arith)
                requires
                    0 <= a12 <= WIDE,
            ;
            assert(p5(40_000_001) == 40_000_001 * 40_000_001 * 40_000_001 * 40_000_001
                * 40_000_001);
            assert(40_000_001 * 40_000_001 * 40_000_001 * 40_000_001 * 40_000_001
                > 102_400_000_000_000_000_000_000_000_000_000_000_000) by (nonlinear_arith);
        }
        let y5 = iroot5(a12 * 102_400_000_000_000_000_000_000_000, 40_000_001);
        25_000 * y5
    }
}

/// CIE `f` companding at `WIDE` scale: a cube root above the `0.008856`
/// knee, else the linear segment `7.787 t + 16/116`.
pub open spec fn spec_flab(t: int) -> int {
    if t > 8_856_000_000 {
        spec_iroot3(t * WIDE * WIDE)
    } else {
        spec_rdiv(7787 * t, 1000) + 137_931_034_483
    }
}

pub fn flab(t: i128) -> (f: i128)
    requires
        0 <= t <= 1_200_000_000_000,
    ensures
        f == spec_flab(t as int),
        0 <= f <= 1_200_000_000_000,
{
    if t > 8_856_000_000 {
        proof {
            assert(t as int * WIDE * WIDE <= 1_200_000_000_000_000_000_000_000_000_000_000_000
                && t as int * WIDE >= 0 && t as int * WIDE * WIDE >= 0) by (nonlinear_arith)
                requires
                    0 <= t <= 1_200_000_000_000,
            ;
            assert(p3(1_200_000_000_001) == 1_200_000_000_001 * 1_200_000_000_001
                * 1_200_000_000_001);
            assert(1_200_000_000_001 * 1_200_000_000_001 * 1_200_000_000_001
                > 1_200_000_000_000_000_000_000_000_000_000_000_000) by (nonlinear_arith);
        }
        let y = iroot3(t * WIDE * WIDE, 1_200_000_000_001);
        proof {
            if y > 1_200_000_000_000 {
                lemma_p3_mono(1_200_000_000_001, y as int);
            }
        }
        y
    } else {
        proof {
            lemma_rdiv_mag(7787 * t as int, 1000, 70_000_000_000);
        }
        rdiv(7787 * t, 1000) + 137_931_034_483
    }
}

/// XYZ of a color: gamma-expanded channels through the D65 sRGB matrix,
/// each coordinate divided by its reference-white component and companded
/// with the CIE `f` function.
pub open spec fn spec_xyz(c: Color) -> (int, int, int) {
    let gr = spec_gamma(spec_norm(c.r as int));
    let gg = spec_gamma(spec_norm(c.g as int));
    let gb = spec_gamma(spec_norm(c.b as int));
    let xl = spec_rdiv(4124564 * gr + 3575761 * gg + 1804375 * gb, 10_000_000);
    let yl = spec_rdiv(2126729 * gr + 7151522 * gg + 721750 * gb, 10_000_000);
    let zl = spec_rdiv(193339 * gr + 1191920 * gg + 9503041 * gb, 10_000_000);
    (
        spec_flab(spec_rdiv(xl * 100_000, 95047)),
        spec_flab(yl),
        spec_flab(spec_rdiv(zl * 100_000, 108883)),
    )
}

/// LAB from the companded XYZ coordinates: `L = 116 fy - 16`,
/// `a = 500 (fx - fy)`, `b = 200 (fy - fz)`.
pub open spec fn spec_lab(c: Color) -> (int, int, int) {
    let (fx, fy, fz) = spec_xyz(c);
    (116 * fy - 16 * WIDE, 500 * (fx - fy), 200 * (fy - fz))
}

pub fn rgb2xyz(c: &Color) -> (xyz: (i128, i128, i128))
    requires
        valid(*c),
    ensures
        (xyz.0 as int, xyz.1 as int, xyz.2 as int) == spec_xyz(*c),
        0 <= xyz.0 <= 1_200_000_000_000,
        0 <= xyz.1 <= 1_200_000_000_000,
        0 <= xyz.2 <= 1_200_000_000_000,
{
    let gr = gamma(crate::convert::norm(c.r));
    let gg = gamma(crate::convert::norm(c.g));
    let gb = gamma(crate::convert::norm(c.b));
    proof {
        lemma_rdiv_mag(
            4124564 * gr as int + 3575761 * gg + 1804375 * gb,
            10_000_000,
            950_470_000_001,
        );
        lemma_rdiv_mag(
            2126729 * gr as int + 7151522 * gg + 721750 * gb,
            10_000_000,
            1_000_000_100_001,
        );
        lemma_rdiv_mag(
            193339 * gr as int + 1191920 * gg + 9503041 * gb,
            10_000_000,
            1_088_830_000_001,
        );
    }
    let xl = rdiv(4124564 * gr + 3575761 * gg + 1804375 * gb, 10_000_000);
    let yl = rdiv(2126729 * gr + 7151522 * gg + 721750 * gb, 10_000_000);
    let zl = rdiv(193339 * gr + 1191920 * gg + 9503041 * gb, 10_000_000);
    proof {
        lemma_rdiv_mag(xl as int * 100_000, 95047, 1_100_000_000_000);
        lemma_rdiv_mag(zl as int * 100_000, 108883, 1_100_000_000_000);
    }
    let tx = rdiv(xl * 100_000, 95047);
    let tz = rdiv(zl * 100_000, 108883);
    let fx = flab(tx);
    let fy = flab(yl);
    let fz = flab(tz);
    (fx, fy, fz)
}

pub fn rgb2lab(c: &Color) -> (lab: (i128, i128, i128))
    requires
        valid(*c),
    ensures
        (lab.0 as int, lab.1 as int, lab.2 as int) == spec_lab(*c),
        -700_000_000_000_000 <= lab.0 <= 700_000_000_000_000,
        -700_000_000_000_000 <= lab.1 <= 700_000_000_000_000,
        -700_000_000_000_000 <= lab.2 <= 700_000_000_000_000,
{
    let (fx, fy, fz) = rgb2xyz(c);
    (116 * fy - 16 * WIDE, 500 * (fx - fy), 200 * (fy - fz))
}

} // verus!
