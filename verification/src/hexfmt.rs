//! Hexadecimal rendering of the canonical color.
//!
//! Channels are rounded to whole `0..=255` values, alpha to `0..=255` by
//! scaling with 255, and the result is shortened to the `#rgb` / `#rgba`
//! form exactly when the six channel digits are one and the same digit
//! (with any alpha pair doubled); alpha digits appear only when the color
//! is not fully opaque.
use vstd::prelude::*;
use vstd::string::StringExecFns;

use crate::color::{Color, valid};
use crate::num::{spec_rdiv, rdiv, lemma_rdiv_mag, SCALE};

verus! {

pub open spec fn spec_hexdigit(d: int) -> char {
    if d == 0 {
        '0'
    } else if d == 1 {
        '1'
    } else if d == 2 {
        '2'
    } else if d == 3 {
        '3'
    } else if d == 4 {
        '4'
    } else if d == 5 {
        '5'
    } else if d == 6 {
        '6'
    } else if d == 7 {
        '7'
    } else if d == 8 {
        '8'
    } else if d == 9 {
        '9'
    } else if d == 10 {
        'a'
    } else if d == 11 {
        'b'
    } else if d == 12 {
        'c'
    } else if d == 13 {
        'd'
    } else if d == 14 {
        'e'
    } else {
        'f'
    }
}

/// The two hex digits of a byte value.
pub open spec fn spec_hex_pair(v: int) -> Seq<char> {
    seq![spec_hexdigit(v / 16), spec_hexdigit(v % 16)]
}

/// A byte whose two hex digits are equal.
pub open spec fn spec_dup(v: int) -> bool {
    v / 16 == v % 16
}

pub open spec fn spec_r8(c: Color) -> int {
    spec_rdiv(c.r as int, SCALE as int)
}

pub open spec fn spec_g8(c: Color) -> int {
    spec_rdiv(c.g as int, SCALE as int)
}

pub open spec fn spec_b8(c: Color) -> int {
    spec_rdiv(c.b as int, SCALE as int)
}

pub open spec fn spec_a8(c: Color) -> int {
    spec_rdiv(c.alpha * 255, SCALE as int)
}

/// The full-length hex form `#rrggbb`, no alpha, no shortening.
pub open spec fn spec_hex_long(c: Color) -> Seq<char> {
    seq!['#'] + spec_hex_pair(spec_r8(c)) + spec_hex_pair(spec_g8(c)) + spec_hex_pair(spec_b8(c))
}

/// Whether a hex form may be shortened: the six channel digits must all
/// be the same digit, and an alpha pair, when present, must carry equal
/// digits of its own.
pub open spec fn spec_short(r8: int, g8: int, b8: int) -> bool {
    spec_dup(r8) && spec_dup(g8) && spec_dup(b8) && r8 == g8 && g8 == b8
}

/// The hex string of a color: `#rrggbb` when opaque, `#rrggbbaa`
/// otherwise, shortened to the `#rgb` / `#rgba` form exactly when the
/// six channel digits are all equal (and any alpha pair is doubled).
pub open spec fn spec_hex_string(c: Color) -> Seq<char> {
    let r8 = spec_r8(c);
    let g8 = spec_g8(c);
    let b8 = spec_b8(c);
    let a8 = spec_a8(c);
    if c.alpha == SCALE {
        if spec_short(r8, g8, b8) {
            seq!['#', spec_hexdigit(r8 / 16), spec_hexdigit(g8 / 16), spec_hexdigit(b8 / 16)]
        } else {
            spec_hex_long(c)
        }
    } else {
        if spec_short(r8, g8, b8) && spec_dup(a8) {
            seq![
                '#',
                spec_hexdigit(r8 / 16),
                spec_hexdigit(g8 / 16),
                spec_hexdigit(b8 / 16),
                spec_hexdigit(a8 / 16),
            ]
        } else {
            spec_hex_long(c) + spec_hex_pair(a8)
        }
    }
}

pub fn hexdigit_str(d: u64) -> (r: &'static str)
    requires
        d < 16,
    ensures
        r@ == seq![spec_hexdigit(d as int)],
{
    proof {
        reveal_strlit("0");
        reveal_strlit("1");
        reveal_strlit("2");
        reveal_strlit("3");
        reveal_strlit("4");
        reveal_strlit("5");
        reveal_strlit("6");
        reveal_strlit("7");
        reveal_strlit("8");
        reveal_strlit("9");
        reveal_strlit("a");
        reveal_strlit("b");
        reveal_strlit("c");
        reveal_strlit("d");
        reveal_strlit("e");
        reveal_strlit("f");
    }
    let r = match d {
        0 => "0",
        1 => "1",
        2 => "2",
        3 => "3",
        4 => "4",
        5 => "5",
        6 => "6",
        7 => "7",
        8 => "8",
        9 => "9",
        10 => "a",
        11 => "b",
        12 => "c",
        13 => "d",
        14 => "e",
        _ => "f",
    };
    proof {
        assert(r@ =~= seq![spec_hexdigit(d as int)]);
    }
    r
}

/// Round one `SCALE`-scaled channel to its whole `0..=255` value.
pub fn channel8(c: u64) -> (v: u64)
    requires
        c <= 255 * SCALE,
    ensures
        v == spec_rdiv(c as int, SCALE as int),
        v <= 255,
{
    proof {
        lemma_rdiv_mag(c as int, SCALE as int, 255);
    }
    rdiv(c as i128, SCALE as i128) as u64
}

/// Round alpha to its `0..=255` byte value.
pub fn alpha8(a: u64) -> (v: u64)
    requires
        a <= SCALE,
    ensures
        v == spec_rdiv(a as int * 255, SCALE as int),
        v <= 255,
{
    proof {
        lemma_rdiv_mag(a as int * 255, SCALE as int, 255);
    }
    rdiv(a as i128 * 255, SCALE as i128) as u64
}

fn push_pair(s: String, v: u64) -> (r: String)
    requires
        v < 256,
    ensures
        r@ == s@ + spec_hex_pair(v as int),
{
    let r = s.concat(hexdigit_str(v / 16)).concat(hexdigit_str(v % 16));
    proof {
        assert(r@ =~= s@ + spec_hex_pair(v as int));
    }
    r
}

/// Build the hex string of a color.
pub fn hex_string(c: &Color) -> (r: String)
    requires
        valid(*c),
    ensures
        r@ == spec_hex_string(*c),
{
    proof {
        reveal_strlit("#");
    }
    let r8 = channel8(c.r);
    let g8 = channel8(c.g);
    let b8 = channel8(c.b);
    let dup3 = r8 / 16 == r8 % 16 && g8 / 16 == g8 % 16 && b8 / 16 == b8 % 16 && r8 == g8
        && g8 == b8;
    if c.alpha == SCALE {
        if dup3 {
            let r = String::from_str("#").concat(hexdigit_str(r8 / 16)).concat(
                hexdigit_str(g8 / 16),
            ).concat(hexdigit_str(b8 / 16));
            proof {
                assert(r@ =~= spec_hex_string(*c));
            }
            r
        } else {
            let r = push_pair(push_pair(push_pair(String::from_str("#"), r8), g8), b8);
            proof {
                assert(r@ =~= spec_hex_string(*c));
            }
            r
        }
    } else {
        let a8 = alpha8(c.alpha);
        if dup3 && a8 / 16 == a8 % 16 {
            let r = String::from_str("#").concat(hexdigit_str(r8 / 16)).concat(
                hexdigit_str(g8 / 16),
            ).concat(hexdigit_str(b8 / 16)).concat(hexdigit_str(a8 / 16));
            proof {
                assert(r@ =~= spec_hex_string(*c));
            }
            r
        } else {
            let r = push_pair(
                push_pair(push_pair(push_pair(String::from_str("#"), r8), g8), b8),
                a8,
            );
            proof {
                assert(r@ =~= spec_hex_string(*c));
            }
            r
        }
    }
}

/// Build the full-length `#rrggbb` hex form.
pub fn hex_long_string(c: &Color) -> (r: String)
    requires
        valid(*c),
    ensures
        r@ == spec_hex_long(*c),
{
    proof {
        reveal_strlit("#");
    }
    let r8 = channel8(c.r);
    let g8 = channel8(c.g);
    let b8 = channel8(c.b);
    let r = push_pair(push_pair(push_pair(String::from_str("#"), r8), g8), b8);
    proof {
        assert(r@ =~= spec_hex_long(*c));
    }
    r
}

} // verus!
