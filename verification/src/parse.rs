//! The textual parser: hex, `rgb()` / `rgba()`, `hsl()` / `hsla()` and
//! named forms into the canonical color.
//!
//! Parsing is a two-stage pipeline: the text is collapsed (spaces removed,
//! letters lowercased), the wrapper and comma structure is taken apart, each
//! field is read as a scaled decimal and checked against its space's legal
//! range, and only then is the space tuple converted to canonical channels.
use vstd::prelude::*;

use crate::color::Color;
use crate::convert::{
    spec_hsl2rgb, hsl2rgb, spec_hsv2rgb, hsv2rgb, spec_hwb2rgb, hwb2rgb, spec_cmyk2rgb, cmyk2rgb,
    spec_hsi2rgb, hsi2rgb,
};
use crate::names::{spec_rgb_of_name, rgb_of_name};
use crate::num::{spec_rdiv, rdiv, lemma_rdiv_mag, pow10, pow10_u64, spec_dec, dec_u64, SCALE};
use vstd::string::StringExecFns;

verus! {

/// Why a text failed to parse: broken wrapper or comma structure, a field
/// that is not a number (0-based index), or a numeric field outside its
/// space's legal range (0-based index).
#[derive(Clone, Copy, Debug, PartialEq, Eq, Structural)]
pub enum ParseError {
    Syntax,
    BadNumber(usize),
    OutOfRange(usize),
}

/// The human-readable account of a parse failure, naming the offending
/// field by its position in the wrapper.
pub open spec fn spec_message(e: ParseError) -> Seq<char> {
    match e {
        ParseError::Syntax => "malformed color syntax"@,
        ParseError::BadNumber(i) => "field "@ + spec_dec(i as int) + " is not a number"@,
        ParseError::OutOfRange(i) => "field "@ + spec_dec(i as int)
            + " is outside its legal range"@,
    }
}

impl ParseError {
    /// Describe the failure in words.
    pub fn message(&self) -> (r: String)
        ensures
            r@ == spec_message(*self),
    {
        match self {
            ParseError::Syntax => String::from_str("malformed color syntax"),
            ParseError::BadNumber(i) => {
                let r = String::from_str("field ").concat(
                    dec_u64(*i as u64).as_str(),
                ).concat(" is not a number");
                proof {
                    assert(r@ =~= spec_message(*self));
                }
                r
            },
            ParseError::OutOfRange(i) => {
                let r = String::from_str("field ").concat(
                    dec_u64(*i as u64).as_str(),
                ).concat(" is outside its legal range");
                proof {
                    assert(r@ =~= spec_message(*self));
                }
                r
            },
        }
    }
}

pub open spec fn spec_lower(c: char) -> char {
    if c == 'A' {
        'a'
    } else if c == 'B' {
        'b'
    } else if c == 'C' {
        'c'
    } else if c == 'D' {
        'd'
    } else if c == 'E' {
        'e'
    } else if c == 'F' {
        'f'
    } else if c == 'G' {
        'g'
    } else if c == 'H' {
        'h'
    } else if c == 'I' {
        'i'
    } else if c == 'J' {
        'j'
    } else if c == 'K' {
        'k'
    } else if c == 'L' {
        'l'
    } else if c == 'M' {
        'm'
    } else if c == 'N' {
        'n'
    } else if c == 'O' {
        'o'
    } else if c == 'P' {
        'p'
    } else if c == 'Q' {
        'q'
    } else if c == 'R' {
        'r'
    } else if c == 'S' {
        's'
    } else if c == 'T' {
        't'
    } else if c == 'U' {
        'u'
    } else if c == 'V' {
        'v'
    } else if c == 'W' {
        'w'
    } else if c == 'X' {
        'x'
    } else if c == 'Y' {
        'y'
    } else if c == 'Z' {
        'z'
    } else {
        c
    }
}

/// The collapsed text: spaces dropped, letters lowercased.
pub open spec fn spec_collapse(s: Seq<char>) -> Seq<char>
    decreases s.len(),
{
    if s.len() == 0 {
        Seq::empty()
    } else if s.last() == ' ' {
        spec_collapse(s.drop_last())
    } else {
        spec_collapse(s.drop_last()).push(spec_lower(s.last()))
    }
}

fn lower_char(c: char) -> (r: char)
    ensures
        r == spec_lower(c),
{
    match c {
        'A' => 'a',
        'B' => 'b',
        'C' => 'c',
        'D' => 'd',
        'E' => 'e',
        'F' => 'f',
        'G' => 'g',
        'H' => 'h',
        'I' => 'i',
        'J' => 'j',
        'K' => 'k',
        'L' => 'l',
        'M' => 'm',
        'N' => 'n',
        'O' => 'o',
        'P' => 'p',
        'Q' => 'q',
        'R' => 'r',
        'S' => 's',
        'T' => 't',
        'U' => 'u',
        'V' => 'v',
        'W' => 'w',
        'X' => 'x',
        'Y' => 'y',
        'Z' => 'z',
        other => other,
    }
}

fn collapse(s: &str) -> (v: Vec<char>)
    ensures
        v@ == spec_collapse(s@),
{
    let n = s.unicode_len();
    let mut v: Vec<char> = Vec::new();
    let mut i: usize = 0;
    while i < n
        invariant
            n == s@.len(),
            0 <= i <= n,
            v@ == spec_collapse(s@.take(i as int)),
        decreases n - i,
    {
        let c = s.get_char(i);
        proof {
            assert(s@.take(i + 1).drop_last() =~= s@.take(i as int));
            assert(s@.take(i + 1).last() == s@[i as int]);
        }
        if c != ' ' {
            v.push(lower_char(c));
        }
        i = i + 1;
    }
    proof {
        assert(s@.take(n as int) =~= s@);
    }
    v
}

/// The position of the first comma at or after `i`, or the length.
pub open spec fn spec_find_comma(s: Seq<char>, i: int) -> int
    decreases s.len() - i,
{
    if i < 0 || i >= s.len() {
        s.len() as int
    } else if s[i] == ',' {
        i
    } else {
        spec_find_comma(s, i + 1)
    }
}

fn find_comma(v: &Vec<char>, i: usize) -> (j: usize)
    requires
        i <= v@.len(),
    ensures
        j == spec_find_comma(v@, i as int),
        i <= j <= v@.len(),
    decreases v@.len() - i,
{
    if i >= v.len() {
        v.len()
    } else if *v.get(i).unwrap() == ',' {
        i
    } else {
        find_comma(v, i + 1)
    }
}

pub proof fn lemma_find_comma_bounds(s: Seq<char>, i: int)
    requires
        0 <= i <= s.len(),
    ensures
        i <= spec_find_comma(s, i) <= s.len(),
        spec_find_comma(s, i) < s.len() ==> s[spec_find_comma(s, i)] == ',',
    decreases s.len() - i,
{
    if i < s.len() && s[i] != ',' {
        lemma_find_comma_bounds(s, i + 1);
    }
}

/// The comma-separated fields of `s` from position `i` on.
pub open spec fn spec_fields(s: Seq<char>, i: int) -> Seq<Seq<char>>
    decreases s.len() - i,
    when 0 <= i <= s.len()
    via spec_fields_dec
{
    let j = spec_find_comma(s, i);
    if j >= s.len() {
        seq![s.subrange(i, s.len() as int)]
    } else {
        seq![s.subrange(i, j)] + spec_fields(s, j + 1)
    }
}

#[via_fn]
proof fn spec_fields_dec(s: Seq<char>, i: int) {
    lemma_find_comma_bounds(s, i);
}

fn copy_range(v: &Vec<char>, from: usize, to: usize) -> (f: Vec<char>)
    requires
        from <= to <= v@.len(),
    ensures
        f@ == v@.subrange(from as int, to as int),
{
    let mut f: Vec<char> = Vec::new();
    let mut k = from;
    while k < to
        invariant
            from <= k <= to <= v@.len(),
            f@ == v@.subrange(from as int, k as int),
        decreases to - k,
    {
        f.push(*v.get(k).unwrap());
        proof {
            assert(v@.subrange(from as int, k + 1) =~= v@.subrange(from as int, k as int).push(
                v@[k as int],
            ));
        }
        k = k + 1;
    }
    f
}

fn fields_from(v: &Vec<char>, i: usize) -> (fs: Vec<Vec<char>>)
    requires
        i <= v@.len(),
    ensures
        fs.deep_view() == spec_fields(v@, i as int),
        fs@.len() >= 1,
    decreases v@.len() - i,
{
    let j = find_comma(v, i);
    if j >= v.len() {
        let f = copy_range(v, i, v.len());
        let mut fs: Vec<Vec<char>> = Vec::new();
        fs.push(f);
        proof {
            assert(fs.deep_view() =~~= spec_fields(v@, i as int));
        }
        fs
    } else {
        let f = copy_range(v, i, j);
        let mut rest = fields_from(v, j + 1);
        rest.insert(0, f);
        proof {
            assert(rest.deep_view() =~~= spec_fields(v@, i as int));
        }
        rest
    }
}

pub open spec fn is_digit(c: char) -> bool {
    '0' <= c && c <= '9'
}

pub open spec fn dval(c: char) -> int {
    c as int - 48
}

/// Integer-part scan: digits accumulate until a cap far above every legal
/// channel bound, so an absurdly long field still reads as a huge number.
pub open spec fn spec_int_scan(f: Seq<char>, i: int, acc: int) -> (int, int)
    decreases f.len() - i,
{
    if 0 <= i < f.len() && is_digit(f[i]) {
        spec_int_scan(
            f,
            i + 1,
            if acc < 100_000_000_000 {
                acc * 10 + dval(f[i])
            } else {
                acc
            },
        )
    } else {
        (i, acc)
    }
}

/// Fraction scan: the first six decimal digits accumulate, later ones are
/// read and dropped; the digit count is capped at six.
pub open spec fn spec_frac_scan(f: Seq<char>, i: int, acc: int, k: int, seen: int) -> (
    int,
    int,
    int,
    int,
) decreases f.len() - i,
{
    if 0 <= i < f.len() && is_digit(f[i]) {
        let seen2: int = if seen < 1_000_000 {
            seen + 1
        } else {
            seen
        };
        if k < 6 {
            spec_frac_scan(f, i + 1, acc * 10 + dval(f[i]), k + 1, seen2)
        } else {
            spec_frac_scan(f, i + 1, acc, k, seen2)
        }
    } else {
        (i, acc, k, seen)
    }
}

fn int_scan(f: &Vec<char>, i: usize, acc: i128) -> (r: (usize, i128))
    requires
        i <= f@.len(),
        0 <= acc <= 1_000_000_000_000,
    ensures
        (r.0 as int, r.1 as int) == spec_int_scan(f@, i as int, acc as int),
        i <= r.0 <= f@.len(),
        0 <= r.1 <= 1_000_000_000_000,
    decreases f@.len() - i,
{
    if i < f.len() {
        let c = *f.get(i).unwrap();
        if '0' <= c && c <= '9' {
            let d = (c as u32) - 48;
            let acc2 = if acc < 100_000_000_000 {
                acc * 10 + d as i128
            } else {
                acc
            };
            return int_scan(f, i + 1, acc2);
        }
    }
    (i, acc)
}

fn frac_scan(f: &Vec<char>, i: usize, acc: i128, k: u64, seen: u64) -> (r: (
    usize,
    i128,
    u64,
    u64,
))
    requires
        i <= f@.len(),
        k <= 6,
        0 <= acc < pow10(k as nat),
        seen <= 1_000_000,
    ensures
        (r.0 as int, r.1 as int, r.2 as int, r.3 as int) == spec_frac_scan(
            f@,
            i as int,
            acc as int,
            k as int,
            seen as int,
        ),
        i <= r.0 <= f@.len(),
        r.2 <= 6,
        0 <= r.1 < pow10(r.2 as nat),
    decreases f@.len() - i,
{
    if i < f.len() {
        let c = *f.get(i).unwrap();
        if '0' <= c && c <= '9' {
            if k < 6 {
                let d = (c as u32) - 48;
                proof {
                    reveal_with_fuel(pow10, 8);
                }
                return frac_scan(
                    f,
                    i + 1,
                    acc * 10 + d as i128,
                    k + 1,
                    if seen < 1_000_000 {
                        seen + 1
                    } else {
                        seen
                    },
                );
            } else {
                return frac_scan(
                    f,
                    i + 1,
                    acc,
                    k,
                    if seen < 1_000_000 {
                        seen + 1
                    } else {
                        seen
                    },
                );
            }
        }
    }
    (i, acc, k, seen)
}

/// A field read as a `SCALE`-scaled signed decimal: optional minus sign,
/// digits with one optional point, an optional trailing percent sign
/// (meaning division by 100) where the space's grammar has one.
pub open spec fn spec_parse_num(f: Seq<char>, allow_pct: bool) -> Option<int> {
    let i0: int = if f.len() > 0 && f[0] == '-' {
        1
    } else {
        0
    };
    let neg = i0 == 1;
    let ia = spec_int_scan(f, i0, 0);
    let int_digits = ia.0 - i0;
    let fb = if ia.0 < f.len() && f[ia.0] == '.' {
        spec_frac_scan(f, ia.0 + 1, 0, 0, 0)
    } else {
        (ia.0, 0int, 0int, 0int)
    };
    let pct = allow_pct && fb.0 < f.len() && f[fb.0] == '%';
    let end: int = if pct {
        fb.0 + 1
    } else {
        fb.0
    };
    if end != f.len() || (int_digits == 0 && fb.3 == 0) {
        None
    } else {
        let mag = ia.1 * 1_000_000 + fb.1 * pow10((6 - fb.2) as nat);
        let v = if neg {
            -mag
        } else {
            mag
        };
        if pct {
            Some(spec_rdiv(v, 100))
        } else {
            Some(v)
        }
    }
}

fn parse_num(f: &Vec<char>, allow_pct: bool) -> (r: Option<i128>)
    ensures
        r matches Some(v) ==> spec_parse_num(f@, allow_pct) == Some(v as int)
            && -2_000_000_000_000_000_000 <= v <= 2_000_000_000_000_000_000,
        r is None ==> spec_parse_num(f@, allow_pct) is None,
{
    let len = f.len();
    let i0: usize = if len > 0 && *f.get(0).unwrap() == '-' {
        1
    } else {
        0
    };
    let neg = i0 == 1;
    if i0 > len {
        return None;
    }
    let (ia, intacc) = int_scan(f, i0, 0);
    let int_digits = ia - i0;
    let (fe, fracacc, k, seen): (usize, i128, u64, u64) = if ia < len && *f.get(ia).unwrap()
        == '.' {
        frac_scan(f, ia + 1, 0, 0, 0)
    } else {
        (ia, 0, 0, 0)
    };
    let pct = allow_pct && fe < len && *f.get(fe).unwrap() == '%';
    let end = if pct {
        fe + 1
    } else {
        fe
    };
    if end != len || (int_digits == 0 && seen == 0) {
        return None;
    }
    proof {
        reveal_with_fuel(pow10, 8);
        assert(fracacc as int * pow10((6 - k) as nat) <= 1_000_000_000_000) by (nonlinear_arith)
            requires
                0 <= fracacc < 1_000_000,
                0 <= pow10((6 - k) as nat) <= 1_000_000,
        ;
    }
    let p = pow10_u64(6 - k);
    let mag = intacc * 1_000_000 + fracacc * p as i128;
    let v = if neg {
        -mag
    } else {
        mag
    };
    if pct {
        proof {
            lemma_rdiv_mag(v as int, 100, 2_000_000_000_000_000_000);
        }
        Some(rdiv(v, 100))
    } else {
        Some(v)
    }
}

pub open spec fn starts_with(s: Seq<char>, p: Seq<char>) -> bool {
    s.len() >= p.len() && s.subrange(0, p.len() as int) == p
}

fn has_prefix(v: &Vec<char>, p: &str) -> (r: bool)
    ensures
        r == starts_with(v@, p@),
{
    let n = p.unicode_len();
    if v.len() < n {
        proof {
            assert(!starts_with(v@, p@));
        }
        return false;
    }
    let mut k: usize = 0;
    while k < n
        invariant
            n == p@.len() <= v@.len(),
            0 <= k <= n,
            forall|t: int| 0 <= t < k ==> v@[t] == p@[t],
        decreases n - k,
    {
        if *v.get(k).unwrap() != p.get_char(k) {
            proof {
                assert(v@.subrange(0, p@.len() as int)[k as int] != p@[k as int]);
            }
            return false;
        }
        k = k + 1;
    }
    proof {
        assert(v@.subrange(0, p@.len() as int) =~= p@);
    }
    true
}

pub open spec fn spec_hexval(c: char) -> int {
    if is_digit(c) {
        dval(c)
    } else if 'a' <= c && c <= 'f' {
        c as int - 87
    } else {
        -1
    }
}

fn hexval(c: char) -> (r: Option<u64>)
    ensures
        r matches Some(v) ==> spec_hexval(c) == v && v < 16,
        r is None ==> spec_hexval(c) < 0,
{
    if '0' <= c && c <= '9' {
        Some(((c as u32) - 48) as u64)
    } else if 'a' <= c && c <= 'f' {
        Some(((c as u32) - 87) as u64)
    } else {
        None
    }
}

/// One numeric field checked against its legal range: a malformed field
/// reads as a bad-number error, a well-formed one outside `[lo, hi]` as an
/// out-of-range error, each naming the field by position.
pub open spec fn spec_field(fs: Seq<Seq<char>>, idx: int, pct: bool, lo: int, hi: int) -> Result<
    int,
    ParseError,
> {
    match spec_parse_num(fs[idx], pct) {
        None => Err(ParseError::BadNumber(idx as usize)),
        Some(v) => if v < lo || v > hi {
            Err(ParseError::OutOfRange(idx as usize))
        } else {
            Ok(v)
        },
    }
}

fn field(fs: &Vec<Vec<char>>, idx: usize, pct: bool, lo: i128, hi: i128) -> (r: Result<
    i128,
    ParseError,
>)
    requires
        idx < fs@.len(),
        -1_000_000_000_000_000_000 <= lo <= hi <= 1_000_000_000_000_000_000,
    ensures
        r matches Ok(v) ==> spec_field(fs.deep_view(), idx as int, pct, lo as int, hi as int)
            == Ok::<int, ParseError>(v as int) && lo <= v <= hi,
        r matches Err(e) ==> spec_field(fs.deep_view(), idx as int, pct, lo as int, hi as int)
            == Err::<int, ParseError>(e),
{
    proof {
        assert(fs.deep_view()[idx as int] == fs@[idx as int]@);
    }
    match parse_num(fs.get(idx).unwrap(), pct) {
        None => Err(ParseError::BadNumber(idx)),
        Some(v) => if v < lo || v > hi {
            Err(ParseError::OutOfRange(idx))
        } else {
            Ok(v)
        },
    }
}

/// Three channel fields of an `rgb` body, each within `[0, 255]`.
pub open spec fn spec_rgb_fields(body: Seq<char>) -> Result<(int, int, int), ParseError> {
    let fs = spec_fields(body, 0);
    if fs.len() != 3 {
        Err(ParseError::Syntax)
    } else {
        match spec_field(fs, 0, false, 0, 255_000_000) {
            Err(e) => Err(e),
            Ok(r) => match spec_field(fs, 1, false, 0, 255_000_000) {
                Err(e) => Err(e),
                Ok(g) => match spec_field(fs, 2, false, 0, 255_000_000) {
                    Err(e) => Err(e),
                    Ok(b) => Ok((r, g, b)),
                },
            },
        }
    }
}

fn rgb_fields(body: &Vec<char>) -> (r: Result<(u64, u64, u64), ParseError>)
    ensures
        r matches Ok(t) ==> spec_rgb_fields(body@) == Ok::<(int, int, int), ParseError>((t.0 as int, t.1 as int, t.2 as int))
            && t.0 <= 255_000_000 && t.1 <= 255_000_000 && t.2 <= 255_000_000,
        r matches Err(e) ==> spec_rgb_fields(body@) == Err::<(int, int, int), ParseError>(e),
{
    let fs = fields_from(body, 0);
    if fs.len() != 3 {
        return Err(ParseError::Syntax);
    }
    let rv = match field(&fs, 0, false, 0, 255_000_000) {
        Err(e) => {
            return Err(e);
        },
        Ok(v) => v,
    };
    let gv = match field(&fs, 1, false, 0, 255_000_000) {
        Err(e) => {
            return Err(e);
        },
        Ok(v) => v,
    };
    let bv = match field(&fs, 2, false, 0, 255_000_000) {
        Err(e) => {
            return Err(e);
        },
        Ok(v) => v,
    };
    Ok((rv as u64, gv as u64, bv as u64))
}

/// An `rgba` body: three channels in `[0, 255]` and an alpha in `[0, 1]`.
pub open spec fn spec_parse_rgba(body: Seq<char>) -> Result<Color, ParseError> {
    let fs = spec_fields(body, 0);
    if fs.len() != 4 {
        Err(ParseError::Syntax)
    } else {
        match spec_field(fs, 0, false, 0, 255_000_000) {
            Err(e) => Err(e),
            Ok(r) => match spec_field(fs, 1, false, 0, 255_000_000) {
                Err(e) => Err(e),
                Ok(g) => match spec_field(fs, 2, false, 0, 255_000_000) {
                    Err(e) => Err(e),
                    Ok(b) => match spec_field(fs, 3, false, 0, 1_000_000) {
                        Err(e) => Err(e),
                        Ok(a) => Ok(
                            Color { r: r as u64, g: g as u64, b: b as u64, alpha: a as u64 },
                        ),
                    },
                },
            },
        }
    }
}

/// An `hsl`/`hsla` body: a hue in `[0, 360)` degrees, saturation and
/// lightness in `[0, 1]` (or percent), converted through `spec_hsl2rgb`.
pub open spec fn spec_parse_hsl_body(body: Seq<char>, with_alpha: bool) -> Result<
    Color,
    ParseError,
> {
    let fs = spec_fields(body, 0);
    if fs.len() != (if with_alpha {
        4int
    } else {
        3int
    }) {
        Err(ParseError::Syntax)
    } else {
        match spec_field(fs, 0, false, 0, 359_999_999) {
            Err(e) => Err(e),
            Ok(h) => match spec_field(fs, 1, true, 0, 1_000_000) {
                Err(e) => Err(e),
                Ok(sv) => match spec_field(fs, 2, true, 0, 1_000_000) {
                    Err(e) => Err(e),
                    Ok(l) => {
                        let a: Result<int, ParseError> = if with_alpha {
                            spec_field(fs, 3, false, 0, 1_000_000)
                        } else {
                            Ok(1_000_000)
                        };
                        match a {
                            Err(e) => Err(e),
                            Ok(av) => {
                                let ch = spec_hsl2rgb(
                                    h * 1_000_000,
                                    sv * 1_000_000,
                                    l * 1_000_000,
                                );
                                Ok(
                                    Color {
                                        r: ch.0 as u64,
                                        g: ch.1 as u64,
                                        b: ch.2 as u64,
                                        alpha: av as u64,
                                    },
                                )
                            },
                        }
                    },
                },
            },
        }
    }
}

pub open spec fn all_hex(d: Seq<char>) -> bool {
    forall|i: int| 0 <= i < d.len() ==> spec_hexval(#[trigger] d[i]) >= 0
}

/// Hex digits (no `#`): 3, 4, 6 or 8 of them; in the short forms each
/// digit stands for its own pair, and an alpha pair scales to `[0, 1]`
/// by 255.
pub open spec fn spec_parse_hexdigits(d: Seq<char>) -> Result<Color, ParseError> {
    if !all_hex(d) {
        Err(ParseError::Syntax)
    } else if d.len() == 3 {
        Ok(
            Color {
                r: (spec_hexval(d[0]) * 17 * 1_000_000) as u64,
                g: (spec_hexval(d[1]) * 17 * 1_000_000) as u64,
                b: (spec_hexval(d[2]) * 17 * 1_000_000) as u64,
                alpha: SCALE,
            },
        )
    } else if d.len() == 4 {
        Ok(
            Color {
                r: (spec_hexval(d[0]) * 17 * 1_000_000) as u64,
                g: (spec_hexval(d[1]) * 17 * 1_000_000) as u64,
                b: (spec_hexval(d[2]) * 17 * 1_000_000) as u64,
                alpha: spec_rdiv(spec_hexval(d[3]) * 17 * 1_000_000, 255) as u64,
            },
        )
    } else if d.len() == 6 {
        Ok(
            Color {
                r: ((spec_hexval(d[0]) * 16 + spec_hexval(d[1])) * 1_000_000) as u64,
                g: ((spec_hexval(d[2]) * 16 + spec_hexval(d[3])) * 1_000_000) as u64,
                b: ((spec_hexval(d[4]) * 16 + spec_hexval(d[5])) * 1_000_000) as u64,
                alpha: SCALE,
            },
        )
    } else if d.len() == 8 {
        Ok(
            Color {
                r: ((spec_hexval(d[0]) * 16 + spec_hexval(d[1])) * 1_000_000) as u64,
                g: ((spec_hexval(d[2]) * 16 + spec_hexval(d[3])) * 1_000_000) as u64,
                b: ((spec_hexval(d[4]) * 16 + spec_hexval(d[5])) * 1_000_000) as u64,
                alpha: spec_rdiv(
                    (spec_hexval(d[6]) * 16 + spec_hexval(d[7])) * 1_000_000,
                    255,
                ) as u64,
            },
        )
    } else {
        Err(ParseError::Syntax)
    }
}

/// What any text parses to: functional `rgb`/`rgba`/`hsl`/`hsla` wrappers,
/// then a `#`-led hex form, then a named color, then a bare hex form.
pub open spec fn spec_parse(s: Seq<char>) -> Result<Color, ParseError> {
    let t = spec_collapse(s);
    if starts_with(t, "rgba("@) && t.len() > 5 && t.last() == ')' {
        spec_parse_rgba(t.subrange(5, t.len() - 1))
    } else if starts_with(t, "rgb("@) && t.len() > 4 && t.last() == ')' {
        match spec_rgb_fields(t.subrange(4, t.len() - 1)) {
            Err(e) => Err(e),
            Ok(v) => Ok(Color { r: v.0 as u64, g: v.1 as u64, b: v.2 as u64, alpha: SCALE }),
        }
    } else if starts_with(t, "hsla("@) && t.len() > 5 && t.last() == ')' {
        spec_parse_hsl_body(t.subrange(5, t.len() - 1), true)
    } else if starts_with(t, "hsl("@) && t.len() > 4 && t.last() == ')' {
        spec_parse_hsl_body(t.subrange(4, t.len() - 1), false)
    } else if starts_with(t, "hsi("@) && t.len() > 4 && t.last() == ')' {
        spec_parse_hsi_body(t.subrange(4, t.len() - 1))
    } else if starts_with(t, "hsv("@) && t.len() > 4 && t.last() == ')' {
        spec_parse_hue_tri_body(t.subrange(4, t.len() - 1), true)
    } else if starts_with(t, "hwb("@) && t.len() > 4 && t.last() == ')' {
        spec_parse_hue_tri_body(t.subrange(4, t.len() - 1), false)
    } else if starts_with(t, "cmyk("@) && t.len() > 5 && t.last() == ')' {
        spec_parse_cmyk_body(t.subrange(5, t.len() - 1))
    } else if t.len() > 0 && t[0] == '#' {
        spec_parse_hexdigits(t.subrange(1, t.len() as int))
    } else if spec_rgb_of_name(t) is Some {
        let v = spec_rgb_of_name(t).unwrap();
        Ok(
            Color {
                r: (v.0 * 1_000_000) as u64,
                g: (v.1 * 1_000_000) as u64,
                b: (v.2 * 1_000_000) as u64,
                alpha: SCALE,
            },
        )
    } else {
        spec_parse_hexdigits(t)
    }
}

fn parse_hexdigits(d: &Vec<char>) -> (r: Result<Color, ParseError>)
    ensures
        r == spec_parse_hexdigits(d@),
        r matches Ok(c) ==> crate::color::valid(c),
{
    let n = d.len();
    let mut vals: Vec<u64> = Vec::new();
    let mut i: usize = 0;
    while i < n
        invariant
            n == d@.len(),
            0 <= i <= n,
            vals@.len() == i,
            forall|k: int|
                0 <= k < i ==> vals@[k] == spec_hexval(#[trigger] d@[k]) && spec_hexval(d@[k])
                    >= 0 && vals@[k] < 16,
        decreases n - i,
    {
        match hexval(*d.get(i).unwrap()) {
            Some(v) => {
                vals.push(v);
            },
            None => {
                proof {
                    assert(!all_hex(d@));
                }
                return Err(ParseError::Syntax);
            },
        }
        i = i + 1;
    }
    proof {
        assert(all_hex(d@));
    }
    if n == 3 {
        Ok(
            Color {
                r: *vals.get(0).unwrap() * 17 * 1_000_000,
                g: *vals.get(1).unwrap() * 17 * 1_000_000,
                b: *vals.get(2).unwrap() * 17 * 1_000_000,
                alpha: SCALE,
            },
        )
    } else if n == 4 {
        proof {
            lemma_rdiv_mag(spec_hexval(d@[3]) * 17 * 1_000_000, 255, 1_000_000);
        }
        Ok(
            Color {
                r: *vals.get(0).unwrap() * 17 * 1_000_000,
                g: *vals.get(1).unwrap() * 17 * 1_000_000,
                b: *vals.get(2).unwrap() * 17 * 1_000_000,
                alpha: rdiv(*vals.get(3).unwrap() as i128 * 17 * 1_000_000, 255) as u64,
            },
        )
    } else if n == 6 {
        Ok(
            Color {
                r: (*vals.get(0).unwrap() * 16 + *vals.get(1).unwrap()) * 1_000_000,
                g: (*vals.get(2).unwrap() * 16 + *vals.get(3).unwrap()) * 1_000_000,
                b: (*vals.get(4).unwrap() * 16 + *vals.get(5).unwrap()) * 1_000_000,
                alpha: SCALE,
            },
        )
    } else if n == 8 {
        proof {
            lemma_rdiv_mag(
                (spec_hexval(d@[6]) * 16 + spec_hexval(d@[7])) * 1_000_000,
                255,
                1_000_000,
            );
        }
        Ok(
            Color {
                r: (*vals.get(0).unwrap() * 16 + *vals.get(1).unwrap()) * 1_000_000,
                g: (*vals.get(2).unwrap() * 16 + *vals.get(3).unwrap()) * 1_000_000,
                b: (*vals.get(4).unwrap() * 16 + *vals.get(5).unwrap()) * 1_000_000,
                alpha: rdiv(
                    (*vals.get(6).unwrap() as i128 * 16 + *vals.get(7).unwrap() as i128)
                        * 1_000_000,
                    255,
                ) as u64,
            },
        )
    } else {
        Err(ParseError::Syntax)
    }
}

fn parse_hsl_body(body: &Vec<char>, with_alpha: bool) -> (r: Result<Color, ParseError>)
    ensures
        r == spec_parse_hsl_body(body@, with_alpha),
        r matches Ok(c) ==> crate::color::valid(c),
{
    let fs = fields_from(body, 0);
    let want: usize = if with_alpha {
        4
    } else {
        3
    };
    if fs.len() != want {
        return Err(ParseError::Syntax);
    }
    let h = match field(&fs, 0, false, 0, 359_999_999) {
        Err(e) => {
            return Err(e);
        },
        Ok(v) => v,
    };
    let sv = match field(&fs, 1, true, 0, 1_000_000) {
        Err(e) => {
            return Err(e);
        },
        Ok(v) => v,
    };
    let l = match field(&fs, 2, true, 0, 1_000_000) {
        Err(e) => {
            return Err(e);
        },
        Ok(v) => v,
    };
    let av: i128 = if with_alpha {
        match field(&fs, 3, false, 0, 1_000_000) {
            Err(e) => {
                return Err(e);
            },
            Ok(v) => v,
        }
    } else {
        1_000_000
    };
    let ch = hsl2rgb(h * 1_000_000, sv * 1_000_000, l * 1_000_000);
    Ok(Color { r: ch.0, g: ch.1, b: ch.2, alpha: av as u64 })
}

/// An `hsv` or `hwb` body: a hue in `[0, 360)` and two unit-interval
/// fields (plain or percent), converted through the given space.
pub open spec fn spec_parse_hue_tri_body(body: Seq<char>, is_hsv: bool) -> Result<
    Color,
    ParseError,
> {
    let fs = spec_fields(body, 0);
    if fs.len() != 3 {
        Err(ParseError::Syntax)
    } else {
        match spec_field(fs, 0, false, 0, 359_999_999) {
            Err(e) => Err(e),
            Ok(h) => match spec_field(fs, 1, true, 0, 1_000_000) {
                Err(e) => Err(e),
                Ok(a) => match spec_field(fs, 2, true, 0, 1_000_000) {
                    Err(e) => Err(e),
                    Ok(b) => {
                        let ch = if is_hsv {
                            spec_hsv2rgb(h * 1_000_000, a * 1_000_000, b * 1_000_000)
                        } else {
                            spec_hwb2rgb(h * 1_000_000, a * 1_000_000, b * 1_000_000)
                        };
                        Ok(
                            Color {
                                r: ch.0 as u64,
                                g: ch.1 as u64,
                                b: ch.2 as u64,
                                alpha: SCALE,
                            },
                        )
                    },
                },
            },
        }
    }
}

fn parse_hue_tri_body(body: &Vec<char>, is_hsv: bool) -> (r: Result<Color, ParseError>)
    ensures
        r == spec_parse_hue_tri_body(body@, is_hsv),
        r matches Ok(c) ==> crate::color::valid(c),
{
    let fs = fields_from(body, 0);
    if fs.len() != 3 {
        return Err(ParseError::Syntax);
    }
    let h = match field(&fs, 0, false, 0, 359_999_999) {
        Err(e) => {
            return Err(e);
        },
        Ok(v) => v,
    };
    let a = match field(&fs, 1, true, 0, 1_000_000) {
        Err(e) => {
            return Err(e);
        },
        Ok(v) => v,
    };
    let b = match field(&fs, 2, true, 0, 1_000_000) {
        Err(e) => {
            return Err(e);
        },
        Ok(v) => v,
    };
    let ch = if is_hsv {
        hsv2rgb(h * 1_000_000, a * 1_000_000, b * 1_000_000)
    } else {
        hwb2rgb(h * 1_000_000, a * 1_000_000, b * 1_000_000)
    };
    Ok(Color { r: ch.0, g: ch.1, b: ch.2, alpha: SCALE })
}

/// A `cmyk` body: four ink fields in `[0, 1]` (plain or percent).
pub open spec fn spec_parse_cmyk_body(body: Seq<char>) -> Result<Color, ParseError> {
    let fs = spec_fields(body, 0);
    if fs.len() != 4 {
        Err(ParseError::Syntax)
    } else {
        match spec_field(fs, 0, true, 0, 1_000_000) {
            Err(e) => Err(e),
            Ok(cy) => match spec_field(fs, 1, true, 0, 1_000_000) {
                Err(e) => Err(e),
                Ok(m) => match spec_field(fs, 2, true, 0, 1_000_000) {
                    Err(e) => Err(e),
                    Ok(ye) => match spec_field(fs, 3, true, 0, 1_000_000) {
                        Err(e) => Err(e),
                        Ok(k) => {
                            let ch = spec_cmyk2rgb(
                                cy * 1_000_000,
                                m * 1_000_000,
                                ye * 1_000_000,
                                k * 1_000_000,
                            );
                            Ok(
                                Color {
                                    r: ch.0 as u64,
                                    g: ch.1 as u64,
                                    b: ch.2 as u64,
                                    alpha: SCALE,
                                },
                            )
                        },
                    },
                },
            },
        }
    }
}

fn parse_cmyk_body(body: &Vec<char>) -> (r: Result<Color, ParseError>)
    ensures
        r == spec_parse_cmyk_body(body@),
        r matches Ok(c) ==> crate::color::valid(c),
{
    let fs = fields_from(body, 0);
    if fs.len() != 4 {
        return Err(ParseError::Syntax);
    }
    let cy = match field(&fs, 0, true, 0, 1_000_000) {
        Err(e) => {
            return Err(e);
        },
        Ok(v) => v,
    };
    let m = match field(&fs, 1, true, 0, 1_000_000) {
        Err(e) => {
            return Err(e);
        },
        Ok(v) => v,
    };
    let ye = match field(&fs, 2, true, 0, 1_000_000) {
        Err(e) => {
            return Err(e);
        },
        Ok(v) => v,
    };
    let k = match field(&fs, 3, true, 0, 1_000_000) {
        Err(e) => {
            return Err(e);
        },
        Ok(v) => v,
    };
    let ch = cmyk2rgb(cy * 1_000_000, m * 1_000_000, ye * 1_000_000, k * 1_000_000);
    Ok(Color { r: ch.0, g: ch.1, b: ch.2, alpha: SCALE })
}

/// An `hsi` body: a hue in `[0, 360)` and two unit-interval fields
/// (plain or percent), converted through the HSI formulas.
pub open spec fn spec_parse_hsi_body(body: Seq<char>) -> Result<Color, ParseError> {
    let fs = spec_fields(body, 0);
    if fs.len() != 3 {
        Err(ParseError::Syntax)
    } else {
        match spec_field(fs, 0, false, 0, 359_999_999) {
            Err(e) => Err(e),
            Ok(h) => match spec_field(fs, 1, true, 0, 1_000_000) {
                Err(e) => Err(e),
                Ok(sv) => match spec_field(fs, 2, true, 0, 1_000_000) {
                    Err(e) => Err(e),
                    Ok(iv) => {
                        let ch = spec_hsi2rgb(h * 1_000_000, sv * 1_000_000, iv * 1_000_000);
                        Ok(
                            Color {
                                r: ch.0 as u64,
                                g: ch.1 as u64,
                                b: ch.2 as u64,
                                alpha: SCALE,
                            },
                        )
                    },
                },
            },
        }
    }
}

fn parse_hsi_body(body: &Vec<char>) -> (r: Result<Color, ParseError>)
    ensures
        r == spec_parse_hsi_body(body@),
        r matches Ok(c) ==> crate::color::valid(c),
{
    let fs = fields_from(body, 0);
    if fs.len() != 3 {
        return Err(ParseError::Syntax);
    }
    let h = match field(&fs, 0, false, 0, 359_999_999) {
        Err(e) => {
            return Err(e);
        },
        Ok(v) => v,
    };
    let sv = match field(&fs, 1, true, 0, 1_000_000) {
        Err(e) => {
            return Err(e);
        },
        Ok(v) => v,
    };
    let iv = match field(&fs, 2, true, 0, 1_000_000) {
        Err(e) => {
            return Err(e);
        },
        Ok(v) => v,
    };
    let ch = hsi2rgb(h * 1_000_000, sv * 1_000_000, iv * 1_000_000);
    Ok(Color { r: ch.0, g: ch.1, b: ch.2, alpha: SCALE })
}

/// Parse any accepted textual color form into a canonical color.
pub fn parse(s: &str) -> (r: Result<Color, ParseError>)
    ensures
        r == spec_parse(s@),
        r matches Ok(c) ==> crate::color::valid(c),
{
    let t = collapse(s);
    let n = t.len();
    if has_prefix(&t, "rgba(") && n > 5 && *t.get(n - 1).unwrap() == ')' {
        let body = copy_range(&t, 5, n - 1);
        let fs = fields_from(&body, 0);
        if fs.len() != 4 {
            return Err(ParseError::Syntax);
        }
        let rv = match field(&fs, 0, false, 0, 255_000_000) {
            Err(e) => {
                return Err(e);
            },
            Ok(v) => v,
        };
        let gv = match field(&fs, 1, false, 0, 255_000_000) {
            Err(e) => {
                return Err(e);
            },
            Ok(v) => v,
        };
        let bv = match field(&fs, 2, false, 0, 255_000_000) {
            Err(e) => {
                return Err(e);
            },
            Ok(v) => v,
        };
        let av = match field(&fs, 3, false, 0, 1_000_000) {
            Err(e) => {
                return Err(e);
            },
            Ok(v) => v,
        };
        Ok(Color { r: rv as u64, g: gv as u64, b: bv as u64, alpha: av as u64 })
    } else if has_prefix(&t, "rgb(") && n > 4 && *t.get(n - 1).unwrap() == ')' {
        let body = copy_range(&t, 4, n - 1);
        match rgb_fields(&body) {
            Err(e) => Err(e),
            Ok(v) => Ok(Color { r: v.0, g: v.1, b: v.2, alpha: SCALE }),
        }
    } else if has_prefix(&t, "hsla(") && n > 5 && *t.get(n - 1).unwrap() == ')' {
        let body = copy_range(&t, 5, n - 1);
        parse_hsl_body(&body, true)
    } else if has_prefix(&t, "hsl(") && n > 4 && *t.get(n - 1).unwrap() == ')' {
        let body = copy_range(&t, 4, n - 1);
        parse_hsl_body(&body, false)
    } else if has_prefix(&t, "hsi(") && n > 4 && *t.get(n - 1).unwrap() == ')' {
        let body = copy_range(&t, 4, n - 1);
        parse_hsi_body(&body)
    } else if has_prefix(&t, "hsv(") && n > 4 && *t.get(n - 1).unwrap() == ')' {
        let body = copy_range(&t, 4, n - 1);
        parse_hue_tri_body(&body, true)
    } else if has_prefix(&t, "hwb(") && n > 4 && *t.get(n - 1).unwrap() == ')' {
        let body = copy_range(&t, 4, n - 1);
        parse_hue_tri_body(&body, false)
    } else if has_prefix(&t, "cmyk(") && n > 5 && *t.get(n - 1).unwrap() == ')' {
        let body = copy_range(&t, 5, n - 1);
        parse_cmyk_body(&body)
    } else if n > 0 && *t.get(0).unwrap() == '#' {
        let d = copy_range(&t, 1, n);
        parse_hexdigits(&d)
    } else {
        match rgb_of_name(&t) {
            Some(tr) => {
                proof {
                    vstd::arithmetic::div_mod::lemma_fundamental_div_mod(tr.0 as int, SCALE as int);
                    vstd::arithmetic::div_mod::lemma_fundamental_div_mod(tr.1 as int, SCALE as int);
                    vstd::arithmetic::div_mod::lemma_fundamental_div_mod(tr.2 as int, SCALE as int);
                }
                Ok(Color { r: tr.0, g: tr.1, b: tr.2, alpha: SCALE })
            },
            None => parse_hexdigits(&t),
        }
    }
}

/// The `rgb()` wrapper alone, handing back the three `SCALE`-scaled
/// channel magnitudes.
pub open spec fn spec_parser_rgb_str(s: Seq<char>) -> Result<(int, int, int), ParseError> {
    let t = spec_collapse(s);
    if starts_with(t, "rgb("@) && t.len() > 4 && t.last() == ')' {
        spec_rgb_fields(t.subrange(4, t.len() - 1))
    } else {
        Err(ParseError::Syntax)
    }
}

/// Parse an `rgb(r, g, b)` text into its three channel magnitudes,
/// each `SCALE`-scaled and within `[0, 255 * SCALE]`.
pub fn parser_rgb_str(s: &str) -> (r: Result<(u64, u64, u64), ParseError>)
    ensures
        r matches Ok(t) ==> spec_parser_rgb_str(s@) == Ok::<(int, int, int), ParseError>(
            (t.0 as int, t.1 as int, t.2 as int),
        ) && t.0 <= 255_000_000 && t.1 <= 255_000_000 && t.2 <= 255_000_000,
        r matches Err(e) ==> spec_parser_rgb_str(s@) == Err::<(int, int, int), ParseError>(e),
{
    let t = collapse(s);
    let n = t.len();
    if has_prefix(&t, "rgb(") && n > 4 && *t.get(n - 1).unwrap() == ')' {
        let body = copy_range(&t, 4, n - 1);
        rgb_fields(&body)
    } else {
        Err(ParseError::Syntax)
    }
}

impl core::str::FromStr for Color {
    type Err = ParseError;

    fn from_str(s: &str) -> Result<Color, ParseError> {
        parse(s)
    }
}

} // verus!
