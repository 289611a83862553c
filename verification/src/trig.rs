//! The arccosine needed for the HSI hue, on `WIDE`-scaled integers.
//!
//! The HSI hue is printed in whole degrees, so all that is needed is the
//! degree whose half-degree neighbourhood contains the angle. The cosine is
//! evaluated by its Taylor polynomial through the twelfth power on the first
//! quadrant (remainder below `10^-8`), mirrored onto the second, and the
//! angle is found by binary search over half-degree boundaries, comparing
//! `num / (2 den)` against the polynomial exactly, in integers.
use vstd::prelude::*;

use crate::num::{spec_rdiv, rdiv, lemma_rdiv_mag, WIDE};

verus! {

/// One half degree in `WIDE`-scaled radians.
pub const HALF_DEG: i128 = 8_726_646_260;

/// Taylor cosine on `[0, pi/2]`, radians times `WIDE`.
pub open spec fn spec_cospoly(x: int) -> int {
    let x2 = spec_rdiv(x * x, WIDE as int);
    let x4 = spec_rdiv(x2 * x2, WIDE as int);
    let x6 = spec_rdiv(x4 * x2, WIDE as int);
    let x8 = spec_rdiv(x4 * x4, WIDE as int);
    let x10 = spec_rdiv(x8 * x2, WIDE as int);
    let x12 = spec_rdiv(x8 * x4, WIDE as int);
    WIDE - spec_rdiv(x2, 2) + spec_rdiv(x4, 24) - spec_rdiv(x6, 720) + spec_rdiv(x8, 40320)
        - spec_rdiv(x10, 3_628_800) + spec_rdiv(x12, 479_001_600)
}

/// Cosine at `d` half degrees, `0 <= d <= 360`, by quadrant symmetry.
pub open spec fn spec_cos_half(d: int) -> int {
    if d <= 180 {
        spec_cospoly(d * HALF_DEG)
    } else {
        -spec_cospoly((360 - d) * HALF_DEG)
    }
}

pub fn cospoly(x: i128) -> (r: i128)
    requires
        0 <= x <= 1_600_000_000_000,
    ensures
        r == spec_cospoly(x as int),
        -2 * WIDE <= r <= 2 * WIDE,
{
    proof {
        assert(x as int * x <= 2_560_000_000_000_000_000_000_000 && x as int * x >= 0)
            by (nonlinear_arith)
            requires
                0 <= x <= 1_600_000_000_000,
        ;
        lemma_rdiv_mag(x as int * x, WIDE as int, 2_560_000_000_000);
    }
    let x2 = rdiv(x * x, WIDE);
    proof {
        assert(x2 as int * x2 <= 6_553_600_000_000_000_000_000_000 && x2 as int * x2 >= 0)
            by (nonlinear_arith)
            requires
                0 <= x2 <= 2_560_000_000_000,
        ;
        lemma_rdiv_mag(x2 as int * x2, WIDE as int, 6_553_600_000_000);
    }
    let x4 = rdiv(x2 * x2, WIDE);
    proof {
        assert(x4 as int * x2 <= 16_777_216_000_000_000_000_000_000 && x4 as int * x2 >= 0
            && x4 as int * x4 <= 42_949_672_960_000_000_000_000_000 && x4 as int * x4 >= 0)
            by (nonlinear_arith)
            requires
                0 <= x2 <= 2_560_000_000_000,
                0 <= x4 <= 6_553_600_000_000,
        ;
        lemma_rdiv_mag(x4 as int * x2, WIDE as int, 16_777_216_000_000);
        lemma_rdiv_mag(x4 as int * x4, WIDE as int, 42_949_672_960_000);
    }
    let x6 = rdiv(x4 * x2, WIDE);
    let x8 = rdiv(x4 * x4, WIDE);
    proof {
        assert(x8 as int * x2 <= 109_951_162_777_600_000_000_000_000 && x8 as int * x2 >= 0
            && x8 as int * x4 <= 281_474_976_710_656_000_000_000_000 && x8 as int * x4
            >= 0) by (nonlinear_arith)
            requires
                0 <= x2 <= 2_560_000_000_000,
                0 <= x4 <= 6_553_600_000_000,
                0 <= x8 <= 42_949_672_960_000,
        ;
        lemma_rdiv_mag(x8 as int * x2, WIDE as int, 109_951_162_777_600);
        lemma_rdiv_mag(x8 as int * x4, WIDE as int, 281_474_976_710_656);
    }
    let x10 = rdiv(x8 * x2, WIDE);
    let x12 = rdiv(x8 * x4, WIDE);
    proof {
        lemma_rdiv_mag(x2 as int, 2, 2_560_000_000_000);
        lemma_rdiv_mag(x4 as int, 24, 6_553_600_000_000);
        lemma_rdiv_mag(x6 as int, 720, 16_777_216_000_000);
        lemma_rdiv_mag(x8 as int, 40320, 42_949_672_960_000);
        lemma_rdiv_mag(x10 as int, 3_628_800, 109_951_162_777_600);
        lemma_rdiv_mag(x12 as int, 479_001_600, 281_474_976_710_656);
    }
    WIDE - rdiv(x2, 2) + rdiv(x4, 24) - rdiv(x6, 720) + rdiv(x8, 40320) - rdiv(x10, 3_628_800)
        + rdiv(x12, 479_001_600)
}

pub fn cos_half(d: i128) -> (r: i128)
    requires
        0 <= d <= 360,
    ensures
        r == spec_cos_half(d as int),
        -2 * WIDE <= r <= 2 * WIDE,
{
    if d <= 180 {
        cospoly(d * HALF_DEG)
    } else {
        -cospoly((360 - d) * HALF_DEG)
    }
}

/// The binary search for the whole degree whose half-degree window holds
/// the angle with cosine `num / (2 den)`; `lo` already lies at or below the
/// angle's degree, `hi` at or above it.
pub open spec fn spec_acos_search(num: int, den: int, lo: int, hi: int) -> int
    decreases hi - lo,
{
    if lo >= hi {
        lo
    } else {
        let mid = lo + (hi - lo + 1) / 2;
        if num * WIDE <= 2 * den * spec_cos_half(2 * mid - 1) {
            spec_acos_search(num, den, mid, hi)
        } else {
            spec_acos_search(num, den, lo, mid - 1)
        }
    }
}

/// Arc cosine of `num / (2 den)` in whole degrees, `0..=180`.
pub open spec fn spec_acos_deg(num: int, den: int) -> int {
    if num >= 2 * den {
        0
    } else if num <= -2 * den {
        180
    } else {
        spec_acos_search(num, den, 0, 180)
    }
}

fn acos_search(num: i128, den: i128, lo: i128, hi: i128) -> (d: i128)
    requires
        1 <= den <= 2_000_000_000_000,
        -4_000_000_000_000 <= num <= 4_000_000_000_000,
        0 <= lo <= hi <= 180,
    ensures
        d == spec_acos_search(num as int, den as int, lo as int, hi as int),
        lo <= d <= hi,
    decreases hi - lo,
{
    if lo >= hi {
        lo
    } else {
        let mid = lo + (hi - lo + 1) / 2;
        let c = cos_half(2 * mid - 1);
        proof {
            assert(num as int * WIDE <= 4_000_000_000_000_000_000_000_000_000 && num as int
                * WIDE >= -4_000_000_000_000_000_000_000_000_000 && 2 * (den as int) * c
                <= 8_000_000_000_000_000_000_000_000_000 && 2 * (den as int) * c
                >= -8_000_000_000_000_000_000_000_000_000) by (nonlinear_arith)
                requires
                    -4_000_000_000_000 <= num <= 4_000_000_000_000,
                    1 <= den <= 2_000_000_000_000,
                    -2 * WIDE <= c <= 2 * WIDE,
            ;
        }
        if num * WIDE <= 2 * den * c {
            acos_search(num, den, mid, hi)
        } else {
            acos_search(num, den, lo, mid - 1)
        }
    }
}

pub fn acos_deg(num: i128, den: i128) -> (d: i128)
    requires
        1 <= den <= 2_000_000_000_000,
        -4_000_000_000_000 <= num <= 4_000_000_000_000,
    ensures
        d == spec_acos_deg(num as int, den as int),
        0 <= d <= 180,
{
    let dd = 2 * den;
    if num >= dd {
        0
    } else if num <= -dd {
        180
    } else {
        acos_search(num, den, 0, 180)
    }
}

/// Integer square root: the unique `y` with `y^2 <= c < (y+1)^2`.
pub open spec fn root2_ok(c: int, y: int) -> bool {
    0 <= y && y * y <= c && c < (y + 1) * (y + 1)
}

pub open spec fn spec_isqrt(c: int) -> int {
    choose|y: int| root2_ok(c, y)
}

pub proof fn lemma_root2_unique(c: int, y: int)
    requires
        root2_ok(c, y),
    ensures
        spec_isqrt(c) == y,
{
    assert(root2_ok(c, spec_isqrt(c)));
    let z = spec_isqrt(c);
    if z < y {
        assert((z + 1) * (z + 1) <= y * y) by (nonlinear_arith)
            requires
                0 <= z + 1 <= y,
        ;
    } else if z > y {
        assert((y + 1) * (y + 1) <= z * z) by (nonlinear_arith)
            requires
                0 <= y + 1 <= z,
        ;
    }
}

pub fn isqrt(c: i128) -> (y: i128)
    requires
        0 <= c <= 4_000_000_000_000_000_000_000_000,
    ensures
        y == spec_isqrt(c as int),
        root2_ok(c as int, y as int),
        0 <= y <= 2_000_000_000_000,
{
    let mut lo: i128 = 0;
    let mut hi: i128 = 2_000_000_000_001;
    proof {
        assert(2_000_000_000_001 * 2_000_000_000_001 > 4_000_000_000_000_000_000_000_000)
            by (nonlinear_arith);
    }
    while lo + 1 < hi
        invariant
            0 <= lo < hi <= 2_000_000_000_001,
            lo * lo <= c,
            hi * hi > c,
        decreases hi - lo,
    {
        let mid = lo + (hi - lo) / 2;
        proof {
            assert(mid * mid <= 4_000_000_008_000_000_000_000_001 && mid * mid >= 0)
                by (nonlinear_arith)
                requires
                    0 <= mid <= 2_000_000_000_001,
            ;
        }
        let m2 = mid * mid;
        if m2 <= c {
            lo = mid;
        } else {
            hi = mid;
        }
    }
    proof {
        lemma_root2_unique(c as int, lo as int);
    }
    lo
}


/// Pi at `WIDE` scale.
pub const PI12: i128 = 3_141_592_653_590;

/// Cosine for any angle in `[0, 2/3 pi]` radians times `WIDE`, reduced to
/// the first quadrant by `cos x = -cos(pi - x)`.
pub open spec fn spec_cos12(x: int) -> int {
    if x <= 1_570_796_326_795 {
        spec_cospoly(x)
    } else {
        -spec_cospoly(PI12 - x)
    }
}

pub fn cos12(x: i128) -> (r: i128)
    requires
        0 <= x <= 2_100_000_000_000,
    ensures
        r == spec_cos12(x as int),
        -2 * WIDE <= r <= 2 * WIDE,
{
    if x <= 1_570_796_326_795 {
        cospoly(x)
    } else {
        -cospoly(PI12 - x)
    }
}

} // verus!
