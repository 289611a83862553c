//! Textual forms of a color, one per supported space.
//!
//! Each method converts the canonical color on demand and renders with the
//! space's own rounding: hues and most percentages to whole numbers, HSI
//! percentages to two decimals, LAB to two, YUV and YCbCr to four, XYZ to
//! six; trailing zeros are always stripped. The contracts give the exact
//! character sequence produced.
use vstd::prelude::*;
use vstd::string::StringExecFns;

use crate::cie::{spec_xyz, spec_lab, rgb2xyz, rgb2lab};
use crate::color::{Color, valid};
use crate::convert::{
    spec_hsl, spec_hsv, spec_hwb, spec_cmyk, spec_hsi_si, spec_hsi_hue, spec_yuv, spec_ycbcr,
    rgb2hsl, rgb2hsv, rgb2hwb, rgb2cmyk, rgb2hsi_si, rgb2hsi_hue, rgb2yuv, rgb2ycbcr,
};
use crate::hexfmt::{
    spec_hex_string, spec_hex_long, spec_r8, spec_g8, spec_b8, hex_string, hex_long_string,
    channel8,
};
use crate::names::{spec_name_of, name_of_rgb};
use crate::num::{spec_dec, spec_fmt12, dec_u64, fmt12, SCALE};

verus! {

pub open spec fn spec_rgb_string(c: Color) -> Seq<char> {
    "rgb("@ + spec_dec(spec_r8(c)) + ", "@ + spec_dec(spec_g8(c)) + ", "@ + spec_dec(spec_b8(c))
        + ")"@
}

pub open spec fn spec_alpha_str(c: Color) -> Seq<char> {
    spec_fmt12(c.alpha * 1_000_000, 6)
}

pub open spec fn spec_rgba_string(c: Color) -> Seq<char> {
    "rgba("@ + spec_dec(spec_r8(c)) + ", "@ + spec_dec(spec_g8(c)) + ", "@ + spec_dec(
        spec_b8(c),
    ) + ", "@ + spec_alpha_str(c) + ")"@
}

pub open spec fn spec_hsl_string(c: Color) -> Seq<char> {
    "hsl("@ + spec_fmt12(spec_hsl(c).0, 0) + ", "@ + spec_fmt12(spec_hsl(c).1 * 100, 0) + "%, "@
        + spec_fmt12(spec_hsl(c).2 * 100, 0) + "%)"@
}

pub open spec fn spec_hsla_string(c: Color) -> Seq<char> {
    "hsla("@ + spec_fmt12(spec_hsl(c).0, 0) + ", "@ + spec_fmt12(spec_hsl(c).1 * 100, 0) + "%, "@
        + spec_fmt12(spec_hsl(c).2 * 100, 0) + "%, "@ + spec_alpha_str(c) + ")"@
}

pub open spec fn spec_hsv_string(c: Color) -> Seq<char> {
    "hsv("@ + spec_fmt12(spec_hsv(c).0, 0) + ", "@ + spec_fmt12(spec_hsv(c).1 * 100, 0) + "%, "@
        + spec_fmt12(spec_hsv(c).2 * 100, 0) + "%)"@
}

pub open spec fn spec_hsi_string(c: Color) -> Seq<char> {
    "hsi("@ + spec_dec(spec_hsi_hue(c)) + ", "@ + spec_fmt12(spec_hsi_si(c).0 * 100, 2) + "%, "@
        + spec_fmt12(spec_hsi_si(c).1 * 100, 2) + "%)"@
}

pub open spec fn spec_hwb_string(c: Color) -> Seq<char> {
    "hwb("@ + spec_fmt12(spec_hwb(c).0, 0) + ", "@ + spec_fmt12(spec_hwb(c).1 * 100, 0) + "%, "@
        + spec_fmt12(spec_hwb(c).2 * 100, 0) + "%)"@
}

pub open spec fn spec_cmyk_string(c: Color) -> Seq<char> {
    "cmyk("@ + spec_fmt12(spec_cmyk(c).0 * 100, 0) + "%, "@ + spec_fmt12(spec_cmyk(c).1 * 100, 0)
        + "%, "@ + spec_fmt12(spec_cmyk(c).2 * 100, 0) + "%, "@ + spec_fmt12(
        spec_cmyk(c).3 * 100,
        0,
    ) + "%)"@
}

pub open spec fn spec_xyz_string(c: Color) -> Seq<char> {
    "xyz("@ + spec_fmt12(spec_xyz(c).0, 6) + ", "@ + spec_fmt12(spec_xyz(c).1, 6) + ", "@
        + spec_fmt12(spec_xyz(c).2, 6) + ")"@
}

pub open spec fn spec_yuv_string(c: Color) -> Seq<char> {
    "yuv("@ + spec_fmt12(spec_yuv(c).0, 4) + ", "@ + spec_fmt12(spec_yuv(c).1, 4) + ", "@
        + spec_fmt12(spec_yuv(c).2, 4) + ")"@
}

pub open spec fn spec_lab_string(c: Color) -> Seq<char> {
    "lab("@ + spec_fmt12(spec_lab(c).0, 2) + ", "@ + spec_fmt12(spec_lab(c).1, 2) + ", "@
        + spec_fmt12(spec_lab(c).2, 2) + ")"@
}

pub open spec fn spec_ycbcr_string(c: Color) -> Seq<char> {
    "YCbCr("@ + spec_fmt12(spec_ycbcr(c).0, 4) + ", "@ + spec_fmt12(spec_ycbcr(c).1, 4) + ", "@
        + spec_fmt12(spec_ycbcr(c).2, 4) + ")"@
}

/// The display name of a color: for an opaque color, the table name of its
/// full-length hex form, or that hex form itself when the table holds no
/// entry; for a translucent color, its (alpha-bearing) hex string.
pub open spec fn spec_name_string(c: Color) -> Seq<char> {
    if c.alpha == SCALE {
        match spec_name_of(spec_r8(c), spec_g8(c), spec_b8(c)) {
            Some(n) => n,
            None => spec_hex_long(c),
        }
    } else {
        spec_hex_string(c)
    }
}

impl Color {
    /// Hex string of the color, shortened where the digits allow.
    pub fn hex(self) -> (r: String)
        requires
            valid(self),
        ensures
            r@ == spec_hex_string(self),
    {
        hex_string(&self)
    }

    /// `rgb(r, g, b)` with channels rounded to whole values.
    pub fn rgb(self) -> (r: String)
        requires
            valid(self),
        ensures
            r@ == spec_rgb_string(self),
    {
        let out = String::from_str("rgb(").concat(dec_u64(channel8(self.r)).as_str()).concat(
            ", ",
        ).concat(dec_u64(channel8(self.g)).as_str()).concat(", ").concat(
            dec_u64(channel8(self.b)).as_str(),
        ).concat(")");
        proof {
            assert(out@ =~= spec_rgb_string(self));
        }
        out
    }

    /// `rgba(r, g, b, a)`: whole channels, alpha with redundant digits
    /// stripped.
    pub fn rgba(self) -> (r: String)
        requires
            valid(self),
        ensures
            r@ == spec_rgba_string(self),
    {
        let out = String::from_str("rgba(").concat(dec_u64(channel8(self.r)).as_str()).concat(
            ", ",
        ).concat(dec_u64(channel8(self.g)).as_str()).concat(", ").concat(
            dec_u64(channel8(self.b)).as_str(),
        ).concat(", ").concat(fmt12(self.alpha as i128 * 1_000_000, 6).as_str()).concat(")");
        proof {
            assert(out@ =~= spec_rgba_string(self));
        }
        out
    }

    /// `hsl(h, s%, l%)`, each field rounded to a whole number.
    pub fn hsl(self) -> (r: String)
        requires
            valid(self),
        ensures
            r@ == spec_hsl_string(self),
    {
        let (h, s, l) = rgb2hsl(&self);
        let out = String::from_str("hsl(").concat(fmt12(h, 0).as_str()).concat(", ").concat(
            fmt12(s * 100, 0).as_str(),
        ).concat("%, ").concat(fmt12(l * 100, 0).as_str()).concat("%)");
        proof {
            assert(out@ =~= spec_hsl_string(self));
        }
        out
    }

    /// `hsla(h, s%, l%, a)`.
    pub fn hsla(self) -> (r: String)
        requires
            valid(self),
        ensures
            r@ == spec_hsla_string(self),
    {
        let (h, s, l) = rgb2hsl(&self);
        let out = String::from_str("hsla(").concat(fmt12(h, 0).as_str()).concat(", ").concat(
            fmt12(s * 100, 0).as_str(),
        ).concat("%, ").concat(fmt12(l * 100, 0).as_str()).concat("%, ").concat(
            fmt12(self.alpha as i128 * 1_000_000, 6).as_str(),
        ).concat(")");
        proof {
            assert(out@ =~= spec_hsla_string(self));
        }
        out
    }

    /// `hsv(h, s%, v%)`, each field rounded to a whole number.
    pub fn hsv(self) -> (r: String)
        requires
            valid(self),
        ensures
            r@ == spec_hsv_string(self),
    {
        let (h, s, v) = rgb2hsv(&self);
        let out = String::from_str("hsv(").concat(fmt12(h, 0).as_str()).concat(", ").concat(
            fmt12(s * 100, 0).as_str(),
        ).concat("%, ").concat(fmt12(v * 100, 0).as_str()).concat("%)");
        proof {
            assert(out@ =~= spec_hsv_string(self));
        }
        out
    }

    /// `hsi(h, s%, i%)`: whole-degree hue, two-decimal percentages.
    pub fn hsi(self) -> (r: String)
        requires
            valid(self),
        ensures
            r@ == spec_hsi_string(self),
    {
        let h = rgb2hsi_hue(&self);
        let (s, i) = rgb2hsi_si(&self);
        let out = String::from_str("hsi(").concat(dec_u64(h as u64).as_str()).concat(", ").concat(
            fmt12(s * 100, 2).as_str(),
        ).concat("%, ").concat(fmt12(i * 100, 2).as_str()).concat("%)");
        proof {
            assert(out@ =~= spec_hsi_string(self));
        }
        out
    }

    /// `hwb(h, w%, b%)`, each field rounded to a whole number.
    pub fn hwb(self) -> (r: String)
        requires
            valid(self),
        ensures
            r@ == spec_hwb_string(self),
    {
        let (h, w, b) = rgb2hwb(&self);
        let out = String::from_str("hwb(").concat(fmt12(h, 0).as_str()).concat(", ").concat(
            fmt12(w * 100, 0).as_str(),
        ).concat("%, ").concat(fmt12(b * 100, 0).as_str()).concat("%)");
        proof {
            assert(out@ =~= spec_hwb_string(self));
        }
        out
    }

    /// `cmyk(c%, m%, y%, k%)`, each field rounded to a whole number.
    pub fn cmyk(self) -> (r: String)
        requires
            valid(self),
        ensures
            r@ == spec_cmyk_string(self),
    {
        let (cy, m, ye, k) = rgb2cmyk(&self);
        let out = String::from_str("cmyk(").concat(fmt12(cy * 100, 0).as_str()).concat(
            "%, ",
        ).concat(fmt12(m * 100, 0).as_str()).concat("%, ").concat(
            fmt12(ye * 100, 0).as_str(),
        ).concat("%, ").concat(fmt12(k * 100, 0).as_str()).concat("%)");
        proof {
            assert(out@ =~= spec_cmyk_string(self));
        }
        out
    }

    /// `xyz(x, y, z)` to six decimals.
    pub fn xyz(self) -> (r: String)
        requires
            valid(self),
        ensures
            r@ == spec_xyz_string(self),
    {
        let (x, y, z) = rgb2xyz(&self);
        let out = String::from_str("xyz(").concat(fmt12(x, 6).as_str()).concat(", ").concat(
            fmt12(y, 6).as_str(),
        ).concat(", ").concat(fmt12(z, 6).as_str()).concat(")");
        proof {
            assert(out@ =~= spec_xyz_string(self));
        }
        out
    }

    /// `yuv(y, u, v)` to four decimals.
    pub fn yuv(self) -> (r: String)
        requires
            valid(self),
        ensures
            r@ == spec_yuv_string(self),
    {
        let (y, u, v) = rgb2yuv(&self);
        let out = String::from_str("yuv(").concat(fmt12(y, 4).as_str()).concat(", ").concat(
            fmt12(u, 4).as_str(),
        ).concat(", ").concat(fmt12(v, 4).as_str()).concat(")");
        proof {
            assert(out@ =~= spec_yuv_string(self));
        }
        out
    }

    /// `lab(l, a, b)` to two decimals.
    pub fn lab(self) -> (r: String)
        requires
            valid(self),
        ensures
            r@ == spec_lab_string(self),
    {
        let (l, a, b) = rgb2lab(&self);
        let out = String::from_str("lab(").concat(fmt12(l, 2).as_str()).concat(", ").concat(
            fmt12(a, 2).as_str(),
        ).concat(", ").concat(fmt12(b, 2).as_str()).concat(")");
        proof {
            assert(out@ =~= spec_lab_string(self));
        }
        out
    }

    /// `YCbCr(y, cb, cr)` to four decimals.
    pub fn ycbcr(self) -> (r: String)
        requires
            valid(self),
        ensures
            r@ == spec_ycbcr_string(self),
    {
        let (y, cb, cr) = rgb2ycbcr(&self);
        let out = String::from_str("YCbCr(").concat(fmt12(y, 4).as_str()).concat(", ").concat(
            fmt12(cb, 4).as_str(),
        ).concat(", ").concat(fmt12(cr, 4).as_str()).concat(")");
        proof {
            assert(out@ =~= spec_ycbcr_string(self));
        }
        out
    }

    /// The color's display name; a color with any translucency always
    /// names as its hex string, never as a table entry.
    pub fn name(self) -> (r: String)
        requires
            valid(self),
        ensures
            r@ == spec_name_string(self),
            self.alpha < SCALE ==> r@ == spec_hex_string(self),
    {
        if self.alpha == SCALE {
            let r8 = channel8(self.r);
            let g8 = channel8(self.g);
            let b8 = channel8(self.b);
            match name_of_rgb(r8, g8, b8) {
                Some(n) => n.to_owned(),
                None => hex_long_string(&self),
            }
        } else {
            hex_string(&self)
        }
    }
}

} // verus!
