//! Channel-space conversions out of the canonical color.
//!
//! RGB is the hub: every space here is computed from the three channel
//! magnitudes. All math runs on `WIDE`-scaled integers (fraction times
//! `10^12`), with `spec_rdiv` rounding at each division exactly as the
//! executable code rounds. Hues are degrees times `10^12`, fractions are
//! unit intervals times `10^12`.
use vstd::prelude::*;

use crate::color::{Color, valid};
use crate::num::{spec_rdiv, rdiv, lemma_rdiv_mag, WIDE};

verus! {

/// One channel normalized from `[0, 255 * SCALE]` to a `WIDE`-scaled fraction.
pub open spec fn spec_norm(c: int) -> int {
    spec_rdiv(c * 1_000_000, 255)
}

pub open spec fn max3(a: int, b: int, c: int) -> int {
    if a >= b && a >= c {
        a
    } else if b >= c {
        b
    } else {
        c
    }
}

pub open spec fn min3(a: int, b: int, c: int) -> int {
    if a <= b && a <= c {
        a
    } else if b <= c {
        b
    } else {
        c
    }
}

/// The six-sector hue of normalized channels, in degrees times `WIDE`;
/// zero when the color is achromatic.
pub open spec fn spec_hue(rn: int, gn: int, bn: int) -> int {
    let mx = max3(rn, gn, bn);
    let mn = min3(rn, gn, bn);
    let delta = mx - mn;
    if delta == 0 {
        0
    } else if mx == rn {
        let h = 60 * spec_rdiv((gn - bn) * WIDE, delta);
        if h < 0 {
            h + 360 * WIDE
        } else {
            h
        }
    } else if mx == gn {
        60 * (spec_rdiv((bn - rn) * WIDE, delta) + 2 * WIDE)
    } else {
        60 * (spec_rdiv((rn - gn) * WIDE, delta) + 4 * WIDE)
    }
}

pub open spec fn spec_clamp_frac(x: int) -> int {
    if x < 0 {
        0
    } else if x > WIDE {
        WIDE as int
    } else {
        x
    }
}

/// HSL of a color: hue, then saturation `delta / (1 - |2l - 1|)` and
/// lightness `(max + min) / 2`, saturation clamped at the unit bound.
pub open spec fn spec_hsl(c: Color) -> (int, int, int) {
    let rn = spec_norm(c.r as int);
    let gn = spec_norm(c.g as int);
    let bn = spec_norm(c.b as int);
    let mx = max3(rn, gn, bn);
    let mn = min3(rn, gn, bn);
    let delta = mx - mn;
    let l = spec_rdiv(mx + mn, 2);
    let den = WIDE - (if 2 * l - WIDE >= 0 {
        2 * l - WIDE
    } else {
        WIDE - 2 * l
    });
    let s = if delta == 0 || den <= 0 {
        if delta == 0 {
            0
        } else {
            WIDE as int
        }
    } else {
        spec_clamp_frac(spec_rdiv(delta * WIDE, den))
    };
    (spec_hue(rn, gn, bn), s, l)
}

/// HSV: value is the channel maximum, saturation `delta / max`.
pub open spec fn spec_hsv(c: Color) -> (int, int, int) {
    let rn = spec_norm(c.r as int);
    let gn = spec_norm(c.g as int);
    let bn = spec_norm(c.b as int);
    let mx = max3(rn, gn, bn);
    let mn = min3(rn, gn, bn);
    let delta = mx - mn;
    let s = if delta == 0 {
        0
    } else {
        spec_clamp_frac(spec_rdiv(delta * WIDE, mx))
    };
    (spec_hue(rn, gn, bn), s, mx)
}

/// HWB: whiteness is the channel minimum, blackness one minus the maximum.
pub open spec fn spec_hwb(c: Color) -> (int, int, int) {
    let rn = spec_norm(c.r as int);
    let gn = spec_norm(c.g as int);
    let bn = spec_norm(c.b as int);
    (spec_hue(rn, gn, bn), min3(rn, gn, bn), WIDE - max3(rn, gn, bn))
}

/// CMYK: black is one minus the maximum, the inks are each channel's
/// complement relative to the maximum.
pub open spec fn spec_cmyk(c: Color) -> (int, int, int, int) {
    let rn = spec_norm(c.r as int);
    let gn = spec_norm(c.g as int);
    let bn = spec_norm(c.b as int);
    let mx = max3(rn, gn, bn);
    if mx == 0 {
        (0, 0, 0, WIDE as int)
    } else {
        (
            spec_clamp_frac(spec_rdiv((mx - rn) * WIDE, mx)),
            spec_clamp_frac(spec_rdiv((mx - gn) * WIDE, mx)),
            spec_clamp_frac(spec_rdiv((mx - bn) * WIDE, mx)),
            WIDE - mx,
        )
    }
}

/// HSI saturation and intensity: intensity is the channel mean, saturation
/// one minus the ratio of the minimum to the intensity.
pub open spec fn spec_hsi_si(c: Color) -> (int, int) {
    let rn = spec_norm(c.r as int);
    let gn = spec_norm(c.g as int);
    let bn = spec_norm(c.b as int);
    let i = spec_rdiv(rn + gn + bn, 3);
    let mn = min3(rn, gn, bn);
    let s = if i == 0 {
        0
    } else {
        spec_clamp_frac(WIDE - spec_rdiv(mn * WIDE, i))
    };
    (s, i)
}

/// YUV from normalized channels, BT.601 luma with `0.492` / `0.877`
/// chroma scaling.
pub open spec fn spec_yuv(c: Color) -> (int, int, int) {
    let rn = spec_norm(c.r as int);
    let gn = spec_norm(c.g as int);
    let bn = spec_norm(c.b as int);
    let y = spec_rdiv(299 * rn + 587 * gn + 114 * bn, 1000);
    (y, spec_rdiv(492 * (bn - y), 1000), spec_rdiv(877 * (rn - y), 1000))
}

/// YCbCr on the `0..255` channel scale, BT.601 luma with `0.564` / `0.713`
/// chroma scaling offset to 128.
pub open spec fn spec_ycbcr(c: Color) -> (int, int, int) {
    let r = c.r * 1_000_000;
    let g = c.g * 1_000_000;
    let b = c.b * 1_000_000;
    let y = spec_rdiv(299 * r + 587 * g + 114 * b, 1000);
    (y, spec_rdiv(564 * (b - y), 1000) + 128 * WIDE, spec_rdiv(713 * (r - y), 1000) + 128
        * WIDE)
}

pub fn norm(c: u64) -> (n: i128)
    requires
        c <= 255_000_000,
    ensures
        n == spec_norm(c as int),
        0 <= n <= WIDE,
{
    proof {
        lemma_rdiv_mag(c as int * 1_000_000, 255, WIDE as int);
    }
    rdiv(c as i128 * 1_000_000, 255)
}

/// Six-sector hue dispatch shared by HSL, HSV and HWB.
pub fn hue12(rn: i128, gn: i128, bn: i128) -> (h: i128)
    requires
        0 <= rn <= WIDE,
        0 <= gn <= WIDE,
        0 <= bn <= WIDE,
    ensures
        h == spec_hue(rn as int, gn as int, bn as int),
        0 <= h <= 360 * WIDE,
{
    let mx = if rn >= gn && rn >= bn {
        rn
    } else if gn >= bn {
        gn
    } else {
        bn
    };
    let mn = if rn <= gn && rn <= bn {
        rn
    } else if gn <= bn {
        gn
    } else {
        bn
    };
    let delta = mx - mn;
    if delta == 0 {
        0
    } else if mx == rn {
        proof {
            assert((gn as int - bn) * WIDE <= WIDE * (delta as int) && (gn as int - bn) * WIDE
                >= -(WIDE * (delta as int))) by (nonlinear_arith)
                requires
                    gn as int - bn <= delta,
                    bn as int - gn <= delta,
                    delta > 0,
            ;
            lemma_rdiv_mag((gn as int - bn) * WIDE, delta as int, WIDE as int);
        }
        let h = 60 * rdiv((gn - bn) * WIDE, delta);
        if h < 0 {
            h + 360 * WIDE
        } else {
            h
        }
    } else if mx == gn {
        proof {
            assert((bn as int - rn) * WIDE <= WIDE * (delta as int) && (bn as int - rn) * WIDE
                >= -(WIDE * (delta as int))) by (nonlinear_arith)
                requires
                    bn as int - rn <= delta,
                    rn as int - bn <= delta,
                    delta > 0,
            ;
            lemma_rdiv_mag((bn as int - rn) * WIDE, delta as int, WIDE as int);
        }
        60 * (rdiv((bn - rn) * WIDE, delta) + 2 * WIDE)
    } else {
        proof {
            assert((rn as int - gn) * WIDE <= WIDE * (delta as int) && (rn as int - gn) * WIDE
                >= -(WIDE * (delta as int))) by (nonlinear_arith)
                requires
                    rn as int - gn <= delta,
                    gn as int - rn <= delta,
                    delta > 0,
            ;
            lemma_rdiv_mag((rn as int - gn) * WIDE, delta as int, WIDE as int);
        }
        60 * (rdiv((rn - gn) * WIDE, delta) + 4 * WIDE)
    }
}

pub fn clamp_frac(x: i128) -> (r: i128)
    ensures
        r == spec_clamp_frac(x as int),
        0 <= r <= WIDE,
{
    if x < 0 {
        0
    } else if x > WIDE {
        WIDE
    } else {
        x
    }
}

pub fn rgb2hsl(c: &Color) -> (hsl: (i128, i128, i128))
    requires
        valid(*c),
    ensures
        (hsl.0 as int, hsl.1 as int, hsl.2 as int) == spec_hsl(*c),
        0 <= hsl.0 <= 360 * WIDE,
        0 <= hsl.1 <= WIDE,
        0 <= hsl.2 <= WIDE,
{
    let rn = norm(c.r);
    let gn = norm(c.g);
    let bn = norm(c.b);
    let h = hue12(rn, gn, bn);
    let mx = if rn >= gn && rn >= bn {
        rn
    } else if gn >= bn {
        gn
    } else {
        bn
    };
    let mn = if rn <= gn && rn <= bn {
        rn
    } else if gn <= bn {
        gn
    } else {
        bn
    };
    let delta = mx - mn;
    let l = rdiv(mx + mn, 2);
    proof {
        lemma_rdiv_mag(mx as int + mn, 2, WIDE as int);
    }
    let dl = 2 * l - WIDE;
    let den = WIDE - (if dl >= 0 {
        dl
    } else {
        -dl
    });
    let s = if delta == 0 || den <= 0 {
        if delta == 0 {
            0
        } else {
            WIDE
        }
    } else {
        proof {
            assert(delta as int * WIDE <= 2 * WIDE * WIDE * (den as int) && delta as int * WIDE
                >= 0 && 2 * WIDE * WIDE * (den as int) >= 0) by (nonlinear_arith)
                requires
                    0 <= delta <= WIDE,
                    den >= 1,
            ;
            lemma_rdiv_mag(delta as int * WIDE, den as int, 2 * WIDE * WIDE);
        }
        clamp_frac(rdiv(delta * WIDE, den))
    };
    (h, s, l)
}

pub fn rgb2hsv(c: &Color) -> (hsv: (i128, i128, i128))
    requires
        valid(*c),
    ensures
        (hsv.0 as int, hsv.1 as int, hsv.2 as int) == spec_hsv(*c),
        0 <= hsv.0 <= 360 * WIDE,
        0 <= hsv.1 <= WIDE,
        0 <= hsv.2 <= WIDE,
{
    let rn = norm(c.r);
    let gn = norm(c.g);
    let bn = norm(c.b);
    let h = hue12(rn, gn, bn);
    let mx = if rn >= gn && rn >= bn {
        rn
    } else if gn >= bn {
        gn
    } else {
        bn
    };
    let mn = if rn <= gn && rn <= bn {
        rn
    } else if gn <= bn {
        gn
    } else {
        bn
    };
    let delta = mx - mn;
    let s = if delta == 0 {
        0
    } else {
        proof {
            assert(delta as int * WIDE <= 2 * WIDE * WIDE * (mx as int) && delta as int * WIDE
                >= 0 && 2 * WIDE * WIDE * (mx as int) >= 0) by (nonlinear_arith)
                requires
                    0 <= delta <= WIDE,
                    mx >= 1,
            ;
            lemma_rdiv_mag(delta as int * WIDE, mx as int, 2 * WIDE * WIDE);
        }
        clamp_frac(rdiv(delta * WIDE, mx))
    };
    (h, s, mx)
}

pub fn rgb2hwb(c: &Color) -> (hwb: (i128, i128, i128))
    requires
        valid(*c),
    ensures
        (hwb.0 as int, hwb.1 as int, hwb.2 as int) == spec_hwb(*c),
        0 <= hwb.0 <= 360 * WIDE,
        0 <= hwb.1 <= WIDE,
        0 <= hwb.2 <= WIDE,
{
    let rn = norm(c.r);
    let gn = norm(c.g);
    let bn = norm(c.b);
    let h = hue12(rn, gn, bn);
    let mx = if rn >= gn && rn >= bn {
        rn
    } else if gn >= bn {
        gn
    } else {
        bn
    };
    let mn = if rn <= gn && rn <= bn {
        rn
    } else if gn <= bn {
        gn
    } else {
        bn
    };
    (h, mn, WIDE - mx)
}

pub fn rgb2cmyk(c: &Color) -> (cmyk: (i128, i128, i128, i128))
    requires
        valid(*c),
    ensures
        (cmyk.0 as int, cmyk.1 as int, cmyk.2 as int, cmyk.3 as int) == spec_cmyk(*c),
        0 <= cmyk.0 <= WIDE,
        0 <= cmyk.1 <= WIDE,
        0 <= cmyk.2 <= WIDE,
        0 <= cmyk.3 <= WIDE,
{
    let rn = norm(c.r);
    let gn = norm(c.g);
    let bn = norm(c.b);
    let mx = if rn >= gn && rn >= bn {
        rn
    } else if gn >= bn {
        gn
    } else {
        bn
    };
    if mx == 0 {
        (0, 0, 0, WIDE)
    } else {
        proof {
            assert((mx as int - rn) * WIDE <= 2 * WIDE * WIDE * (mx as int)
                && (mx as int - rn) * WIDE >= -(2 * WIDE * WIDE * (mx as int))
                && (mx as int - gn) * WIDE <= 2 * WIDE * WIDE * (mx as int)
                && (mx as int - gn) * WIDE >= -(2 * WIDE * WIDE * (mx as int))
                && (mx as int - bn) * WIDE <= 2 * WIDE * WIDE * (mx as int)
                && (mx as int - bn) * WIDE >= -(2 * WIDE * WIDE * (mx as int)))
                by (nonlinear_arith)
                requires
                    0 <= rn <= WIDE,
                    0 <= gn <= WIDE,
                    0 <= bn <= WIDE,
                    1 <= mx <= WIDE,
                    rn <= mx,
                    gn <= mx,
                    bn <= mx,
            ;
            lemma_rdiv_mag((mx as int - rn) * WIDE, mx as int, 2 * WIDE * WIDE);
            lemma_rdiv_mag((mx as int - gn) * WIDE, mx as int, 2 * WIDE * WIDE);
            lemma_rdiv_mag((mx as int - bn) * WIDE, mx as int, 2 * WIDE * WIDE);
        }
        let cy = clamp_frac(rdiv((mx - rn) * WIDE, mx));
        let mg = clamp_frac(rdiv((mx - gn) * WIDE, mx));
        let ye = clamp_frac(rdiv((mx - bn) * WIDE, mx));
        (cy, mg, ye, WIDE - mx)
    }
}

pub fn rgb2hsi_si(c: &Color) -> (si: (i128, i128))
    requires
        valid(*c),
    ensures
        (si.0 as int, si.1 as int) == spec_hsi_si(*c),
        0 <= si.0 <= WIDE,
        0 <= si.1 <= WIDE,
{
    let rn = norm(c.r);
    let gn = norm(c.g);
    let bn = norm(c.b);
    let i = rdiv(rn + gn + bn, 3);
    proof {
        lemma_rdiv_mag(rn as int + gn + bn, 3, WIDE as int);
    }
    let mn = if rn <= gn && rn <= bn {
        rn
    } else if gn <= bn {
        gn
    } else {
        bn
    };
    let s = if i == 0 {
        0
    } else {
        proof {
            assert(mn as int * WIDE <= 2 * WIDE * WIDE * (i as int) && mn as int * WIDE >= 0)
                by (nonlinear_arith)
                requires
                    0 <= mn <= WIDE,
                    1 <= i <= WIDE,
            ;
            lemma_rdiv_mag(mn as int * WIDE, i as int, 2 * WIDE * WIDE);
        }
        clamp_frac(WIDE - rdiv(mn * WIDE, i))
    };
    (s, i)
}

pub fn rgb2yuv(c: &Color) -> (yuv: (i128, i128, i128))
    requires
        valid(*c),
    ensures
        (yuv.0 as int, yuv.1 as int, yuv.2 as int) == spec_yuv(*c),
        0 <= yuv.0 <= WIDE,
        -WIDE <= yuv.1 <= WIDE,
        -WIDE <= yuv.2 <= WIDE,
{
    let rn = norm(c.r);
    let gn = norm(c.g);
    let bn = norm(c.b);
    proof {
        lemma_rdiv_mag(299 * rn as int + 587 * gn + 114 * bn, 1000, WIDE as int);
    }
    let y = rdiv(299 * rn + 587 * gn + 114 * bn, 1000);
    proof {
        lemma_rdiv_mag(492 * (bn as int - y), 1000, WIDE as int);
        lemma_rdiv_mag(877 * (rn as int - y), 1000, WIDE as int);
    }
    let u = rdiv(492 * (bn - y), 1000);
    let v = rdiv(877 * (rn - y), 1000);
    (y, u, v)
}

pub fn rgb2ycbcr(c: &Color) -> (ycc: (i128, i128, i128))
    requires
        valid(*c),
    ensures
        (ycc.0 as int, ycc.1 as int, ycc.2 as int) == spec_ycbcr(*c),
        0 <= ycc.0 <= 255 * WIDE,
        -16 * WIDE <= ycc.1 <= 272 * WIDE,
        -54 * WIDE <= ycc.2 <= 310 * WIDE,
{
    let r = c.r as i128 * 1_000_000;
    let g = c.g as i128 * 1_000_000;
    let b = c.b as i128 * 1_000_000;
    proof {
        lemma_rdiv_mag(299 * r as int + 587 * g + 114 * b, 1000, 255 * WIDE);
    }
    let y = rdiv(299 * r + 587 * g + 114 * b, 1000);
    proof {
        lemma_rdiv_mag(564 * (b as int - y), 1000, 144 * WIDE);
        lemma_rdiv_mag(713 * (r as int - y), 1000, 182 * WIDE);
    }
    let cb = rdiv(564 * (b - y), 1000) + 128 * WIDE;
    let cr = rdiv(713 * (r - y), 1000) + 128 * WIDE;
    (y, cb, cr)
}

/// The HSI hue: the angle whose cosine is
/// `((r-g) + (r-b)) / (2 sqrt((r-g)^2 + (r-b)(g-b)))`, in whole degrees,
/// reflected to `360 - angle` when blue exceeds green.
pub open spec fn spec_hsi_hue(c: Color) -> int {
    let rn = spec_norm(c.r as int);
    let gn = spec_norm(c.g as int);
    let bn = spec_norm(c.b as int);
    let num = (rn - gn) + (rn - bn);
    let d2 = (rn - gn) * (rn - gn) + (rn - bn) * (gn - bn);
    if d2 == 0 {
        0
    } else {
        let th = crate::trig::spec_acos_deg(num, crate::trig::spec_isqrt(d2));
        if bn > gn {
            360 - th
        } else {
            th
        }
    }
}

pub fn rgb2hsi_hue(c: &Color) -> (h: i128)
    requires
        valid(*c),
    ensures
        h == spec_hsi_hue(*c),
        0 <= h <= 360,
{
    let rn = norm(c.r);
    let gn = norm(c.g);
    let bn = norm(c.b);
    proof {
        assert((rn as int - gn) * (rn as int - gn) + (rn as int - bn) * (gn as int - bn) >= 0
            && (rn as int - gn) * (rn as int - gn) + (rn as int - bn) * (gn as int - bn)
            <= 2_000_000_000_000_000_000_000_000
            && (rn as int - gn) * (rn as int - gn) >= 0
            && (rn as int - gn) * (rn as int - gn) <= 1_000_000_000_000_000_000_000_000
            && (rn as int - bn) * (gn as int - bn) <= 1_000_000_000_000_000_000_000_000
            && (rn as int - bn) * (gn as int - bn)
            >= -1_000_000_000_000_000_000_000_000) by (nonlinear_arith)
            requires
                0 <= rn <= WIDE,
                0 <= gn <= WIDE,
                0 <= bn <= WIDE,
        ;
    }
    let num = (rn - gn) + (rn - bn);
    let d2 = (rn - gn) * (rn - gn) + (rn - bn) * (gn - bn);
    if d2 == 0 {
        0
    } else {
        let den = crate::trig::isqrt(d2);
        proof {
            if den == 0 {
                assert((den as int + 1) * (den as int + 1) == 1) by (nonlinear_arith)
                    requires
                        den == 0,
                ;
                assert(d2 < 1);
            }
        }
        let th = crate::trig::acos_deg(num, den);
        if bn > gn {
            360 - th
        } else {
            th
        }
    }
}

/// Channel clamp into `[0, 255 * SCALE]`, the canonical channel range.
pub open spec fn spec_clamp_ch(x: int) -> int {
    if x < 0 {
        0
    } else if x > 255_000_000 {
        255_000_000
    } else {
        x
    }
}

/// HSL back to `SCALE`-scaled channels: chroma `(1 - |2l - 1|) s`, the
/// secondary component from the hue's position inside its 120-degree
/// span, and the match-on-sector assembly, `m = l - c/2` added to each.
pub open spec fn spec_hsl2rgb(h: int, s: int, l: int) -> (int, int, int) {
    let c = spec_rdiv((WIDE - (if 2 * l - WIDE >= 0 {
        2 * l - WIDE
    } else {
        WIDE - 2 * l
    })) * s, WIDE as int);
    let q = spec_rdiv(h % (120 * WIDE), 60);
    let x = spec_rdiv(c * (WIDE - (if q - WIDE >= 0 {
        q - WIDE
    } else {
        WIDE - q
    })), WIDE as int);
    let m = l - spec_rdiv(c, 2);
    let sector = h / (60 * WIDE);
    let v = if sector == 0 {
        (c, x, 0)
    } else if sector == 1 {
        (x, c, 0)
    } else if sector == 2 {
        (0int, c, x)
    } else if sector == 3 {
        (0int, x, c)
    } else if sector == 4 {
        (x, 0int, c)
    } else {
        (c, 0int, x)
    };
    (
        spec_clamp_ch(spec_rdiv((v.0 + m) * 255, 1_000_000)),
        spec_clamp_ch(spec_rdiv((v.1 + m) * 255, 1_000_000)),
        spec_clamp_ch(spec_rdiv((v.2 + m) * 255, 1_000_000)),
    )
}

fn clamp_ch(x: i128) -> (r: u64)
    ensures
        r == spec_clamp_ch(x as int),
        r <= 255_000_000,
{
    if x < 0 {
        0
    } else if x > 255_000_000 {
        255_000_000
    } else {
        x as u64
    }
}

/// HSL to canonical channels; hue in `[0, 360)` degrees, saturation and
/// lightness in `[0, 1]`, all times `WIDE`.
pub fn hsl2rgb(h: i128, s: i128, l: i128) -> (rgb: (u64, u64, u64))
    requires
        0 <= h < 360 * WIDE,
        0 <= s <= WIDE,
        0 <= l <= WIDE,
    ensures
        ((rgb.0 as int, rgb.1 as int, rgb.2 as int)) == spec_hsl2rgb(h as int, s as int, l as int),
        rgb.0 <= 255_000_000,
        rgb.1 <= 255_000_000,
        rgb.2 <= 255_000_000,
{
    let dl = 2 * l - WIDE;
    let span = WIDE - (if dl >= 0 {
        dl
    } else {
        -dl
    });
    proof {
        assert(span * (s as int) <= WIDE * WIDE && span * (s as int) >= 0) by (nonlinear_arith)
            requires
                0 <= span <= WIDE,
                0 <= s <= WIDE,
        ;
        lemma_rdiv_mag(span * (s as int), WIDE as int, WIDE as int);
    }
    let c = rdiv(span * s, WIDE);
    let hm = h % (120 * WIDE);
    proof {
        lemma_rdiv_mag(hm as int, 60, 2 * WIDE);
    }
    let q = rdiv(hm, 60);
    let dq = q - WIDE;
    let t = WIDE - (if dq >= 0 {
        dq
    } else {
        -dq
    });
    proof {
        assert(c as int * t <= WIDE * WIDE && c as int * t >= -(WIDE * WIDE)) by (nonlinear_arith)
            requires
                0 <= c <= WIDE,
                -WIDE <= t <= WIDE,
        ;
        lemma_rdiv_mag(c as int * t, WIDE as int, WIDE as int);
        lemma_rdiv_mag(c as int, 2, WIDE as int);
    }
    let x = rdiv(c * t, WIDE);
    let m = l - rdiv(c, 2);
    let sector = h / (60 * WIDE);
    let v: (i128, i128, i128) = if sector == 0 {
        (c, x, 0)
    } else if sector == 1 {
        (x, c, 0)
    } else if sector == 2 {
        (0, c, x)
    } else if sector == 3 {
        (0, x, c)
    } else if sector == 4 {
        (x, 0, c)
    } else {
        (c, 0, x)
    };
    proof {
        lemma_rdiv_mag((v.0 as int + m) * 255, 1_000_000, 1_000_000_000_000_000);
        lemma_rdiv_mag((v.1 as int + m) * 255, 1_000_000, 1_000_000_000_000_000);
        lemma_rdiv_mag((v.2 as int + m) * 255, 1_000_000, 1_000_000_000_000_000);
    }
    let r = clamp_ch(rdiv((v.0 + m) * 255, 1_000_000));
    let g = clamp_ch(rdiv((v.1 + m) * 255, 1_000_000));
    let b = clamp_ch(rdiv((v.2 + m) * 255, 1_000_000));
    (r, g, b)
}


/// HSV back to `SCALE`-scaled channels: chroma `v s`, `m = v - c`.
pub open spec fn spec_hsv2rgb(h: int, s: int, v: int) -> (int, int, int) {
    let c = spec_rdiv(v * s, WIDE as int);
    let q = spec_rdiv(h % (120 * WIDE), 60);
    let x = spec_rdiv(c * (WIDE - (if q - WIDE >= 0 {
        q - WIDE
    } else {
        WIDE - q
    })), WIDE as int);
    let m = v - c;
    let sector = h / (60 * WIDE);
    let t = if sector == 0 {
        (c, x, 0)
    } else if sector == 1 {
        (x, c, 0)
    } else if sector == 2 {
        (0int, c, x)
    } else if sector == 3 {
        (0int, x, c)
    } else if sector == 4 {
        (x, 0int, c)
    } else {
        (c, 0int, x)
    };
    (
        spec_clamp_ch(spec_rdiv((t.0 + m) * 255, 1_000_000)),
        spec_clamp_ch(spec_rdiv((t.1 + m) * 255, 1_000_000)),
        spec_clamp_ch(spec_rdiv((t.2 + m) * 255, 1_000_000)),
    )
}

/// HSV to canonical channels; hue in `[0, 360)` degrees, saturation and
/// value in `[0, 1]`, all times `WIDE`.
pub fn hsv2rgb(h: i128, s: i128, v: i128) -> (rgb: (u64, u64, u64))
    requires
        0 <= h < 360 * WIDE,
        0 <= s <= WIDE,
        0 <= v <= WIDE,
    ensures
        ((rgb.0 as int, rgb.1 as int, rgb.2 as int)) == spec_hsv2rgb(h as int, s as int, v as int),
        rgb.0 <= 255_000_000,
        rgb.1 <= 255_000_000,
        rgb.2 <= 255_000_000,
{
    proof {
        assert(v as int * s <= WIDE * WIDE && v as int * s >= 0) by (nonlinear_arith)
            requires
                0 <= v <= WIDE,
                0 <= s <= WIDE,
        ;
        lemma_rdiv_mag(v as int * s, WIDE as int, WIDE as int);
    }
    let c = rdiv(v * s, WIDE);
    let hm = h % (120 * WIDE);
    proof {
        lemma_rdiv_mag(hm as int, 60, 2 * WIDE);
    }
    let q = rdiv(hm, 60);
    let dq = q - WIDE;
    let t = WIDE - (if dq >= 0 {
        dq
    } else {
        -dq
    });
    proof {
        assert(c as int * t <= WIDE * WIDE && c as int * t >= -(WIDE * WIDE)) by (nonlinear_arith)
            requires
                0 <= c <= WIDE,
                -WIDE <= t <= WIDE,
        ;
        lemma_rdiv_mag(c as int * t, WIDE as int, WIDE as int);
    }
    let x = rdiv(c * t, WIDE);
    let m = v - c;
    let sector = h / (60 * WIDE);
    let tv: (i128, i128, i128) = if sector == 0 {
        (c, x, 0)
    } else if sector == 1 {
        (x, c, 0)
    } else if sector == 2 {
        (0, c, x)
    } else if sector == 3 {
        (0, x, c)
    } else if sector == 4 {
        (x, 0, c)
    } else {
        (c, 0, x)
    };
    proof {
        lemma_rdiv_mag((tv.0 as int + m) * 255, 1_000_000, 1_000_000_000_000_000);
        lemma_rdiv_mag((tv.1 as int + m) * 255, 1_000_000, 1_000_000_000_000_000);
        lemma_rdiv_mag((tv.2 as int + m) * 255, 1_000_000, 1_000_000_000_000_000);
    }
    let r = clamp_ch(rdiv((tv.0 + m) * 255, 1_000_000));
    let g = clamp_ch(rdiv((tv.1 + m) * 255, 1_000_000));
    let b = clamp_ch(rdiv((tv.2 + m) * 255, 1_000_000));
    (r, g, b)
}

/// HWB back to channels: at `w + b >= 1` an achromatic gray of level
/// `w / (w + b)`, else HSV with `s = 1 - w / (1 - b)` and `v = 1 - b`.
pub open spec fn spec_hwb2rgb(h: int, w: int, bk: int) -> (int, int, int) {
    if w + bk >= WIDE {
        let gray = spec_rdiv(w * WIDE, w + bk);
        let ch = spec_clamp_ch(spec_rdiv(gray * 255, 1_000_000));
        (ch, ch, ch)
    } else {
        let v = WIDE - bk;
        let s = WIDE - spec_rdiv(w * WIDE, v);
        spec_hsv2rgb(h, spec_clamp_frac(s), v)
    }
}

/// HWB to canonical channels; hue in `[0, 360)` degrees, whiteness and
/// blackness in `[0, 1]`, all times `WIDE`.
pub fn hwb2rgb(h: i128, w: i128, bk: i128) -> (rgb: (u64, u64, u64))
    requires
        0 <= h < 360 * WIDE,
        0 <= w <= WIDE,
        0 <= bk <= WIDE,
    ensures
        ((rgb.0 as int, rgb.1 as int, rgb.2 as int)) == spec_hwb2rgb(
            h as int,
            w as int,
            bk as int,
        ),
        rgb.0 <= 255_000_000,
        rgb.1 <= 255_000_000,
        rgb.2 <= 255_000_000,
{
    if w + bk >= WIDE {
        proof {
            assert(w as int * WIDE <= 2 * WIDE * (w as int + bk) && w as int * WIDE >= 0)
                by (nonlinear_arith)
                requires
                    0 <= w <= WIDE,
                    w as int + bk >= WIDE,
            ;
            lemma_rdiv_mag(w as int * WIDE, w as int + bk, 2 * WIDE);
        }
        let gray = rdiv(w * WIDE, w + bk);
        proof {
            lemma_rdiv_mag(gray as int * 255, 1_000_000, 1_000_000_000_000_000);
        }
        let ch = clamp_ch(rdiv(gray * 255, 1_000_000));
        (ch, ch, ch)
    } else {
        let v = WIDE - bk;
        proof {
            assert(w as int * WIDE <= 2 * WIDE * (v as int) && w as int * WIDE >= 0)
                by (nonlinear_arith)
                requires
                    0 <= w,
                    w < v,
                    1 <= v <= WIDE,
            ;
            lemma_rdiv_mag(w as int * WIDE, v as int, 2 * WIDE);
        }
        let s = WIDE - rdiv(w * WIDE, v);
        hsv2rgb(h, clamp_frac(s), v)
    }
}

/// CMYK back to channels: each channel is `255 (1 - ink)(1 - k)`.
pub open spec fn spec_cmyk2rgb(cy: int, m: int, ye: int, k: int) -> (int, int, int) {
    (
        spec_clamp_ch(
            spec_rdiv(spec_rdiv((WIDE - cy) * (WIDE - k), WIDE as int) * 255, 1_000_000),
        ),
        spec_clamp_ch(
            spec_rdiv(spec_rdiv((WIDE - m) * (WIDE - k), WIDE as int) * 255, 1_000_000),
        ),
        spec_clamp_ch(
            spec_rdiv(spec_rdiv((WIDE - ye) * (WIDE - k), WIDE as int) * 255, 1_000_000),
        ),
    )
}

/// CMYK to canonical channels; all four inks in `[0, 1]` times `WIDE`.
pub fn cmyk2rgb(cy: i128, m: i128, ye: i128, k: i128) -> (rgb: (u64, u64, u64))
    requires
        0 <= cy <= WIDE,
        0 <= m <= WIDE,
        0 <= ye <= WIDE,
        0 <= k <= WIDE,
    ensures
        ((rgb.0 as int, rgb.1 as int, rgb.2 as int)) == spec_cmyk2rgb(
            cy as int,
            m as int,
            ye as int,
            k as int,
        ),
        rgb.0 <= 255_000_000,
        rgb.1 <= 255_000_000,
        rgb.2 <= 255_000_000,
{
    proof {
        assert((WIDE - cy) * (WIDE - k) <= WIDE * WIDE && (WIDE - cy) * (WIDE - k) >= 0
            && (WIDE - m) * (WIDE - k) <= WIDE * WIDE && (WIDE - m) * (WIDE - k) >= 0
            && (WIDE - ye) * (WIDE - k) <= WIDE * WIDE && (WIDE - ye) * (WIDE - k) >= 0)
            by (nonlinear_arith)
            requires
                0 <= cy <= WIDE,
                0 <= m <= WIDE,
                0 <= ye <= WIDE,
                0 <= k <= WIDE,
        ;
        lemma_rdiv_mag((WIDE - cy as int) * (WIDE - k), WIDE as int, WIDE as int);
        lemma_rdiv_mag((WIDE - m as int) * (WIDE - k), WIDE as int, WIDE as int);
        lemma_rdiv_mag((WIDE - ye as int) * (WIDE - k), WIDE as int, WIDE as int);
    }
    let rl = rdiv((WIDE - cy) * (WIDE - k), WIDE);
    let gl = rdiv((WIDE - m) * (WIDE - k), WIDE);
    let bl = rdiv((WIDE - ye) * (WIDE - k), WIDE);
    proof {
        lemma_rdiv_mag(rl as int * 255, 1_000_000, 1_000_000_000_000_000);
        lemma_rdiv_mag(gl as int * 255, 1_000_000, 1_000_000_000_000_000);
        lemma_rdiv_mag(bl as int * 255, 1_000_000, 1_000_000_000_000_000);
    }
    let r = clamp_ch(rdiv(rl * 255, 1_000_000));
    let g = clamp_ch(rdiv(gl * 255, 1_000_000));
    let b = clamp_ch(rdiv(bl * 255, 1_000_000));
    (r, g, b)
}


/// HSI back to channels: within each 120-degree sector one channel is
/// `i (1 - s)`, one is `i (1 + s cos(h') / cos(60deg - h'))` with `h'`
/// the offset into the sector, and the third makes the mean `i`.
pub open spec fn spec_hsi2rgb(h: int, s: int, i: int) -> (int, int, int) {
    let k = h / (120 * WIDE);
    let hp = h % (120 * WIDE);
    let ca = crate::trig::spec_cos12(spec_rdiv(hp * 17_453_292_520, WIDE as int));
    let db = if hp >= 60 * WIDE {
        hp - 60 * WIDE
    } else {
        60 * WIDE - hp
    };
    let cb0 = crate::trig::spec_cos12(spec_rdiv(db * 17_453_292_520, WIDE as int));
    let cb = if cb0 < 1 {
        1
    } else {
        cb0
    };
    let x = spec_rdiv(i * (WIDE - s), WIDE as int);
    let ratio = spec_rdiv(ca * WIDE, cb);
    let y = spec_rdiv(i * (WIDE + spec_rdiv(s * ratio, WIDE as int)), WIDE as int);
    let z = 3 * i - x - y;
    let t = if k == 0 {
        (y, z, x)
    } else if k == 1 {
        (x, y, z)
    } else {
        (z, x, y)
    };
    (
        spec_clamp_ch(spec_rdiv(t.0 * 255, 1_000_000)),
        spec_clamp_ch(spec_rdiv(t.1 * 255, 1_000_000)),
        spec_clamp_ch(spec_rdiv(t.2 * 255, 1_000_000)),
    )
}

/// HSI to canonical channels; hue in `[0, 360)` degrees, saturation and
/// intensity in `[0, 1]`, all times `WIDE`.
pub fn hsi2rgb(h: i128, s: i128, i: i128) -> (rgb: (u64, u64, u64))
    requires
        0 <= h < 360 * WIDE,
        0 <= s <= WIDE,
        0 <= i <= WIDE,
    ensures
        ((rgb.0 as int, rgb.1 as int, rgb.2 as int)) == spec_hsi2rgb(h as int, s as int, i as int),
        rgb.0 <= 255_000_000,
        rgb.1 <= 255_000_000,
        rgb.2 <= 255_000_000,
{
    let k = h / (120 * WIDE);
    let hp = h % (120 * WIDE);
    proof {
        lemma_rdiv_mag(hp as int * 17_453_292_520, WIDE as int, 2_100_000_000_000);
    }
    let ca = crate::trig::cos12(rdiv(hp * 17_453_292_520, WIDE));
    let db = if hp >= 60 * WIDE {
        hp - 60 * WIDE
    } else {
        60 * WIDE - hp
    };
    proof {
        lemma_rdiv_mag(db as int * 17_453_292_520, WIDE as int, 1_100_000_000_000);
    }
    let cb0 = crate::trig::cos12(rdiv(db * 17_453_292_520, WIDE));
    let cb = if cb0 < 1 {
        1
    } else {
        cb0
    };
    proof {
        assert(i as int * (WIDE - s) <= WIDE * WIDE && i as int * (WIDE - s) >= 0)
            by (nonlinear_arith)
            requires
                0 <= i <= WIDE,
                0 <= s <= WIDE,
        ;
        lemma_rdiv_mag(i as int * (WIDE - s), WIDE as int, WIDE as int);
        assert(ca as int * WIDE <= 4_000_000_000_000_000_000_000_000 * (cb as int) && ca as int
            * WIDE >= -(4_000_000_000_000_000_000_000_000 * (cb as int))) by (nonlinear_arith)
            requires
                -2 * WIDE <= ca <= 2 * WIDE,
                1 <= cb,
        ;
        lemma_rdiv_mag(ca as int * WIDE, cb as int, 4_000_000_000_000_000_000_000_000);
    }
    let x = rdiv(i * (WIDE - s), WIDE);
    let ratio = rdiv(ca * WIDE, cb);
    proof {
        assert(s as int * ratio <= 4_000_000_000_000_000_000_000_000 * WIDE && s as int * ratio
            >= -(4_000_000_000_000_000_000_000_000 * WIDE)) by (nonlinear_arith)
            requires
                0 <= s <= WIDE,
                -4_000_000_000_000_000_000_000_000 <= ratio
                    <= 4_000_000_000_000_000_000_000_000,
        ;
        lemma_rdiv_mag(s as int * ratio, WIDE as int, 4_000_000_000_000_000_000_000_000);
    }
    let sr = rdiv(s * ratio, WIDE);
    proof {
        assert(i as int * (WIDE + sr) <= 5_000_000_000_000_000_000_000_000 * WIDE && i as int
            * (WIDE + sr) >= -(5_000_000_000_000_000_000_000_000 * WIDE)) by (nonlinear_arith)
            requires
                0 <= i <= WIDE,
                -4_000_000_000_000_000_000_000_000 <= sr <= 4_000_000_000_000_000_000_000_000,
        ;
        lemma_rdiv_mag(i as int * (WIDE + sr), WIDE as int, 5_000_000_000_000_000_000_000_000);
    }
    let y = rdiv(i * (WIDE + sr), WIDE);
    let z = 3 * i - x - y;
    let t: (i128, i128, i128) = if k == 0 {
        (y, z, x)
    } else if k == 1 {
        (x, y, z)
    } else {
        (z, x, y)
    };
    proof {
        lemma_rdiv_mag(t.0 as int * 255, 1_000_000, 2_000_000_000_000_000_000_000_000_000);
        lemma_rdiv_mag(t.1 as int * 255, 1_000_000, 2_000_000_000_000_000_000_000_000_000);
        lemma_rdiv_mag(t.2 as int * 255, 1_000_000, 2_000_000_000_000_000_000_000_000_000);
    }
    let r = clamp_ch(rdiv(t.0 * 255, 1_000_000));
    let g = clamp_ch(rdiv(t.1 * 255, 1_000_000));
    let b = clamp_ch(rdiv(t.2 * 255, 1_000_000));
    (r, g, b)
}

} // verus!
