//! The canonical color value.
//!
//! Every textual form is parsed into, and every conversion starts from, one
//! canonical tuple: three channel magnitudes in `[0, 255]` and an alpha in
//! `[0, 1]`, each held as a `SCALE`-scaled integer so that fractional
//! channels (an average, a hex alpha) are carried exactly.
use vstd::prelude::*;

use crate::num::{spec_rdiv, rdiv, lemma_rdiv_mag, SCALE};

verus! {

/// Canonical color: `r`, `g`, `b` are channel magnitudes times `SCALE`
/// (so at most `255 * SCALE`), `alpha` is the opacity times `SCALE`.
#[derive(Clone, Copy, PartialEq, Eq, Structural, Debug)]
pub struct Color {
    pub r: u64,
    pub g: u64,
    pub b: u64,
    pub alpha: u64,
}

/// Channel invariant: no color holds an out-of-range channel.
pub open spec fn valid(c: Color) -> bool {
    c.r <= 255 * SCALE && c.g <= 255 * SCALE && c.b <= 255 * SCALE && c.alpha <= SCALE
}

pub open spec fn spec_clamp(x: int, max: int) -> int {
    if x > max {
        max
    } else {
        x
    }
}

impl Color {
    /// Construct from whole channel values in `0..=255` and an alpha in
    /// parts per `SCALE`; inputs beyond a channel's bound are clamped to it.
    pub fn new(r: u64, g: u64, b: u64, alpha: u64) -> (c: Color)
        ensures
            valid(c),
            c.r == spec_clamp(r as int, 255) * SCALE,
            c.g == spec_clamp(g as int, 255) * SCALE,
            c.b == spec_clamp(b as int, 255) * SCALE,
            c.alpha == spec_clamp(alpha as int, SCALE as int),
    {
        Color {
            r: if r > 255 {
                255 * SCALE
            } else {
                r * SCALE
            },
            g: if g > 255 {
                255 * SCALE
            } else {
                g * SCALE
            },
            b: if b > 255 {
                255 * SCALE
            } else {
                b * SCALE
            },
            alpha: if alpha > SCALE {
                SCALE
            } else {
                alpha
            },
        }
    }

    /// Construct from already `SCALE`-scaled channel magnitudes, clamping
    /// each at its bound; this is how fractional channels enter.
    pub fn from_scaled(r: u64, g: u64, b: u64, alpha: u64) -> (c: Color)
        ensures
            valid(c),
            c.r == spec_clamp(r as int, 255 * SCALE),
            c.g == spec_clamp(g as int, 255 * SCALE),
            c.b == spec_clamp(b as int, 255 * SCALE),
            c.alpha == spec_clamp(alpha as int, SCALE as int),
    {
        Color {
            r: if r > 255 * SCALE {
                255 * SCALE
            } else {
                r
            },
            g: if g > 255 * SCALE {
                255 * SCALE
            } else {
                g
            },
            b: if b > 255 * SCALE {
                255 * SCALE
            } else {
                b
            },
            alpha: if alpha > SCALE {
                SCALE
            } else {
                alpha
            },
        }
    }
}

pub open spec fn sum_r(s: Seq<Color>) -> int
    decreases s.len(),
{
    if s.len() == 0 {
        0
    } else {
        sum_r(s.drop_last()) + s.last().r
    }
}

pub open spec fn sum_g(s: Seq<Color>) -> int
    decreases s.len(),
{
    if s.len() == 0 {
        0
    } else {
        sum_g(s.drop_last()) + s.last().g
    }
}

pub open spec fn sum_b(s: Seq<Color>) -> int
    decreases s.len(),
{
    if s.len() == 0 {
        0
    } else {
        sum_b(s.drop_last()) + s.last().b
    }
}

pub open spec fn sum_alpha(s: Seq<Color>) -> int
    decreases s.len(),
{
    if s.len() == 0 {
        0
    } else {
        sum_alpha(s.drop_last()) + s.last().alpha
    }
}

pub proof fn lemma_sum_bounds(s: Seq<Color>)
    requires
        forall|i: int| 0 <= i < s.len() ==> valid(#[trigger] s[i]),
    ensures
        0 <= sum_r(s) <= s.len() * 255 * SCALE,
        0 <= sum_g(s) <= s.len() * 255 * SCALE,
        0 <= sum_b(s) <= s.len() * 255 * SCALE,
        0 <= sum_alpha(s) <= s.len() * SCALE,
    decreases s.len(),
{
    if s.len() > 0 {
        lemma_sum_bounds(s.drop_last());
        assert(valid(s.last()));
    }
}

impl Color {
    /// Mean of a list of colors: each of the four components is averaged
    /// independently, with the empty list yielding opaque black.
    pub fn average(colors: &Vec<Color>) -> (c: Color)
        requires
            forall|i: int| 0 <= i < colors@.len() ==> valid(#[trigger] colors@[i]),
        ensures
            valid(c),
            colors@.len() == 0 ==> c == (Color { r: 0, g: 0, b: 0, alpha: SCALE }),
            colors@.len() > 0 ==> c.r == spec_rdiv(sum_r(colors@), colors@.len() as int)
                && c.g == spec_rdiv(sum_g(colors@), colors@.len() as int)
                && c.b == spec_rdiv(sum_b(colors@), colors@.len() as int)
                && c.alpha == spec_rdiv(sum_alpha(colors@), colors@.len() as int),
    {
        let n = colors.len();
        if n == 0 {
            return Color { r: 0, g: 0, b: 0, alpha: SCALE };
        }
        let mut tr: i128 = 0;
        let mut tg: i128 = 0;
        let mut tb: i128 = 0;
        let mut ta: i128 = 0;
        let mut i: usize = 0;
        while i < n
            invariant
                n == colors@.len(),
                0 <= i <= n,
                forall|j: int| 0 <= j < colors@.len() ==> valid(#[trigger] colors@[j]),
                tr == sum_r(colors@.take(i as int)),
                tg == sum_g(colors@.take(i as int)),
                tb == sum_b(colors@.take(i as int)),
                ta == sum_alpha(colors@.take(i as int)),
                0 <= tr <= i * 255 * SCALE,
                0 <= tg <= i * 255 * SCALE,
                0 <= tb <= i * 255 * SCALE,
                0 <= ta <= i * SCALE,
            decreases n - i,
    {
            let cc = colors[i];
            proof {
                assert(colors@.take(i + 1).drop_last() =~= colors@.take(i as int));
                assert(colors@.take(i + 1).last() == colors@[i as int]);
                assert(valid(colors@[i as int]));
                assert((i + 1) * 255 * SCALE == i * 255 * SCALE + 255 * SCALE)
                    by (nonlinear_arith);
                assert((i + 1) * SCALE == i * SCALE + SCALE) by (nonlinear_arith);
            }
            tr = tr + cc.r as i128;
            tg = tg + cc.g as i128;
            tb = tb + cc.b as i128;
            ta = ta + cc.alpha as i128;
            i = i + 1;
        }
        proof {
            assert(colors@.take(n as int) =~= colors@);
            assert(n as int * 255 * SCALE == 255 * SCALE * (n as int)) by (nonlinear_arith);
            assert(n as int * SCALE == SCALE * (n as int)) by (nonlinear_arith);
            assert(n as int * 255 * SCALE <= 0x7fff_ffff_ffff_ffff_0000_0000_0000_0000)
                by (nonlinear_arith)
                requires
                    0 < n <= 0xffff_ffff_ffff_ffff,
            ;
            lemma_rdiv_mag(tr as int, n as int, 255 * SCALE);
            lemma_rdiv_mag(tg as int, n as int, 255 * SCALE);
            lemma_rdiv_mag(tb as int, n as int, 255 * SCALE);
            lemma_rdiv_mag(ta as int, n as int, SCALE as int);
        }
        let r = rdiv(tr, n as i128) as u64;
        let g = rdiv(tg, n as i128) as u64;
        let b = rdiv(tb, n as i128) as u64;
        let a = rdiv(ta, n as i128) as u64;
        Color { r, g, b, alpha: a }
    }
}

} // verus!
