//! Laws relating the stringifier and the parser.
//!
//! The round-trip statement: rendering a color in the `rgb()` form and
//! parsing the text back yields exactly the color with each channel rounded
//! to its nearest whole value — a reconstruction error of at most half a
//! channel unit — and rendering that reparsed color again reproduces the
//! same text, making render-parse-render a fixed point.
use vstd::prelude::*;

use crate::color::{Color, valid};
use crate::hexfmt::{
    spec_hex_string, spec_hex_long, spec_short, spec_dup, spec_hexdigit, spec_hex_pair, spec_r8,
    spec_g8, spec_b8, spec_a8,
};
use crate::num::{spec_dec, spec_digit, SCALE};
use crate::parse::{
    spec_collapse, spec_lower, spec_find_comma, spec_fields, spec_int_scan, spec_parse_num,
    spec_parse, spec_hexval, all_hex, starts_with, is_digit, dval, ParseError,
};
use crate::stringify::spec_rgb_string;

verus! {

pub open spec fn all_digits(s: Seq<char>) -> bool {
    forall|i: int| 0 <= i < s.len() ==> is_digit(#[trigger] s[i])
}

/// Collapsing distributes over concatenation.
pub proof fn lemma_collapse_concat(a: Seq<char>, b: Seq<char>)
    ensures
        spec_collapse(a + b) == spec_collapse(a) + spec_collapse(b),
    decreases b.len(),
{
    if b.len() == 0 {
        assert(a + b =~= a);
        assert(spec_collapse(a) + spec_collapse(b) =~= spec_collapse(a));
    } else {
        lemma_collapse_concat(a, b.drop_last());
        assert((a + b).drop_last() =~= a + b.drop_last());
        assert((a + b).last() == b.last());
        if b.last() == ' ' {
        } else {
            assert(spec_collapse(a) + spec_collapse(b.drop_last()).push(spec_lower(b.last()))
                =~= (spec_collapse(a) + spec_collapse(b.drop_last())).push(
                spec_lower(b.last()),
            ));
        }
    }
}

/// Decimal digit sequences are non-empty and hold digits alone.
pub proof fn lemma_dec_digits(n: int)
    requires
        0 <= n,
    ensures
        all_digits(spec_dec(n)),
        spec_dec(n).len() >= 1,
    decreases n,
{
    if n < 10 {
        assert(is_digit(spec_digit(n)));
        assert(spec_dec(n) =~= seq![spec_digit(n)]);
    } else {
        lemma_dec_digits(n / 10);
        assert(is_digit(spec_digit(n % 10)));
    }
}

/// A digit-only sequence collapses to itself.
pub proof fn lemma_collapse_digits(s: Seq<char>)
    requires
        all_digits(s),
    ensures
        spec_collapse(s) == s,
    decreases s.len(),
{
    if s.len() == 0 {
        assert(spec_collapse(s) =~= s);
    } else {
        assert(is_digit(s.last()));
        assert(all_digits(s.drop_last()));
        lemma_collapse_digits(s.drop_last());
        assert(spec_lower(s.last()) == s.last());
        assert(spec_collapse(s) =~= s);
    }
}


pub open spec fn no_comma(s: Seq<char>) -> bool {
    forall|i: int| 0 <= i < s.len() ==> #[trigger] s[i] != ','
}

pub proof fn lemma_digits_no_comma(s: Seq<char>)
    requires
        all_digits(s),
    ensures
        no_comma(s),
{
    assert forall|i: int| 0 <= i < s.len() implies #[trigger] s[i] != ',' by {
        assert(is_digit(s[i]));
    }
}

/// The first comma after `i` is `j` when `s[j]` is a comma and nothing
/// before it from `i` on is.
pub proof fn lemma_find_comma_at(s: Seq<char>, i: int, j: int)
    requires
        0 <= i <= j < s.len(),
        s[j] == ',',
        forall|k: int| i <= k < j ==> #[trigger] s[k] != ',',
    ensures
        spec_find_comma(s, i) == j,
    decreases j - i,
{
    if i < j {
        lemma_find_comma_at(s, i + 1, j);
    }
}

/// No comma from `i` on means the search runs to the end.
pub proof fn lemma_find_comma_none(s: Seq<char>, i: int)
    requires
        0 <= i <= s.len(),
        forall|k: int| i <= k < s.len() ==> #[trigger] s[k] != ',',
    ensures
        spec_find_comma(s, i) == s.len(),
    decreases s.len() - i,
{
    if i < s.len() {
        lemma_find_comma_none(s, i + 1);
    }
}

/// Three comma-free fields joined by commas split back into themselves.
pub proof fn lemma_fields3(f1: Seq<char>, f2: Seq<char>, f3: Seq<char>)
    requires
        no_comma(f1),
        no_comma(f2),
        no_comma(f3),
    ensures
        spec_fields(f1 + seq![','] + f2 + seq![','] + f3, 0) == seq![f1, f2, f3],
{
    let s = f1 + seq![','] + f2 + seq![','] + f3;
    let n1 = f1.len() as int;
    let n2 = f2.len() as int;
    let n3 = f3.len() as int;
    assert(s.len() == n1 + n2 + n3 + 2);
    assert(s[n1] == ',');
    assert(forall|k: int| 0 <= k < n1 ==> #[trigger] s[k] == f1[k]);
    lemma_find_comma_at(s, 0, n1);
    assert(s.subrange(0, n1) =~= f1);
    assert(s[n1 + n2 + 1] == ',');
    assert(forall|k: int| n1 + 1 <= k < n1 + n2 + 1 ==> #[trigger] s[k] == f2[k - n1 - 1]);
    lemma_find_comma_at(s, n1 + 1, n1 + n2 + 1);
    assert(s.subrange(n1 + 1, n1 + n2 + 1) =~= f2);
    assert(forall|k: int| n1 + n2 + 2 <= k < s.len() ==> #[trigger] s[k] == f3[k - n1 - n2 - 2]);
    lemma_find_comma_none(s, n1 + n2 + 2);
    assert(s.subrange(n1 + n2 + 2, s.len() as int) =~= f3);
    assert(spec_fields(s, n1 + n2 + 2) =~= seq![f3]);
    assert(spec_fields(s, n1 + 1) =~= seq![f2] + seq![f3]);
    assert(spec_fields(s, 0) =~= seq![f1] + (seq![f2] + seq![f3]));
    assert(seq![f1] + (seq![f2] + seq![f3]) =~= seq![f1, f2, f3]);
}

/// Scanning one more digit extends a scan that consumed everything.
pub proof fn lemma_scan_push(s: Seq<char>, c: char, i: int, acc: int)
    requires
        is_digit(c),
        0 <= i,
    ensures
        ({
            let ja = spec_int_scan(s, i, acc);
            spec_int_scan(s.push(c), i, acc) == if ja.0 == s.len() {
                (
                    ja.0 + 1,
                    if ja.1 < 100_000_000_000 {
                        ja.1 * 10 + dval(c)
                    } else {
                        ja.1
                    },
                )
            } else {
                ja
            }
        }),
    decreases s.len() + 1 - i,
{
    if i < s.len() {
        if is_digit(s[i]) {
            assert(s.push(c)[i] == s[i]);
            let acc2: int = if acc < 100_000_000_000 {
                acc * 10 + dval(s[i])
            } else {
                acc
            };
            lemma_scan_push(s, c, i + 1, acc2);
        } else {
            assert(s.push(c)[i] == s[i]);
        }
    } else if i == s.len() {
        assert(s.push(c)[i] == c);
        assert(spec_int_scan(s, i, acc) == (i, acc));
        let acc2: int = if acc < 100_000_000_000 {
            acc * 10 + dval(c)
        } else {
            acc
        };
        assert(spec_int_scan(s.push(c), i + 1, acc2) == (i + 1, acc2));
        assert(spec_int_scan(s.push(c), i, acc) == (i + 1, acc2));
    } else {
        assert(spec_int_scan(s, i, acc) == (i, acc));
        assert(spec_int_scan(s.push(c), i, acc) == (i, acc));
    }
}

/// Scanning the decimal rendering of `n` reads `n` back.
pub proof fn lemma_scan_dec(n: int)
    requires
        0 <= n < 1_000_000_000,
    ensures
        spec_int_scan(spec_dec(n), 0, 0) == (spec_dec(n).len() as int, n),
    decreases n,
{
    lemma_dec_digits(n);
    if n < 10 {
        assert(spec_dec(n) =~= seq![spec_digit(n)]);
        assert(is_digit(spec_digit(n)));
        assert(dval(spec_digit(n)) == n);
        assert(spec_int_scan(spec_dec(n), 1, n) == (1int, n));
    } else {
        lemma_scan_dec(n / 10);
        lemma_dec_digits(n / 10);
        assert(dval(spec_digit(n % 10)) == n % 10);
        lemma_scan_push(spec_dec(n / 10), spec_digit(n % 10), 0, 0);
        assert((n / 10) * 10 + n % 10 == n) by (nonlinear_arith);
    }
}

/// The decimal rendering of a whole channel value parses back to the
/// `SCALE`-scaled channel.
pub proof fn lemma_parse_num_dec(n: int)
    requires
        0 <= n <= 255,
    ensures
        spec_parse_num(spec_dec(n), false) == Some(n * 1_000_000),
{
    lemma_dec_digits(n);
    lemma_scan_dec(n);
    let f = spec_dec(n);
    assert(is_digit(f[0]));
    assert(f[0] != '-');
    assert(spec_int_scan(f, 0, 0) == (f.len() as int, n));
    crate::num::lemma_rdiv_bounds(n, 1);
    assert(spec_parse_num(f, false) == Some(n * 1_000_000 + 0 * crate::num::pow10(6)));
    assert(n * 1_000_000 + 0 * crate::num::pow10(6) == n * 1_000_000);
}


/// A text without spaces or uppercase letters collapses to itself.
pub proof fn lemma_collapse_keep(s: Seq<char>)
    requires
        forall|i: int|
            0 <= i < s.len() ==> #[trigger] s[i] != ' ' && spec_lower(s[i]) == s[i],
    ensures
        spec_collapse(s) == s,
    decreases s.len(),
{
    if s.len() == 0 {
        assert(spec_collapse(s) =~= s);
    } else {
        assert(s.last() == s[s.len() - 1]);
        lemma_collapse_keep(s.drop_last());
        assert(spec_collapse(s) =~= s);
    }
}

/// Round trip through the `rgb()` form: parsing a rendered color yields
/// exactly the opaque color whose channels are the input's rounded to
/// the nearest whole value -- a reconstruction error of at most half a
/// channel unit, the form's rounding tolerance.
#[verifier::rlimit(80)]
pub proof fn lemma_rgb_round_trip(c: Color)
    requires
        valid(c),
    ensures
        ({
            let r8 = spec_r8(c);
            let g8 = spec_g8(c);
            let b8 = spec_b8(c);
            &&& spec_parse(spec_rgb_string(c)) == Ok::<Color, ParseError>(
                Color {
                    r: (r8 * 1_000_000) as u64,
                    g: (g8 * 1_000_000) as u64,
                    b: (b8 * 1_000_000) as u64,
                    alpha: SCALE,
                },
            )
            &&& -500_000 <= r8 * 1_000_000 - c.r <= 500_000
            &&& -500_000 <= g8 * 1_000_000 - c.g <= 500_000
            &&& -500_000 <= b8 * 1_000_000 - c.b <= 500_000
        }),
{
    reveal_strlit("rgb(");
    reveal_strlit("rgba(");
    reveal_strlit(", ");
    reveal_strlit(")");
    let r8 = spec_r8(c);
    let g8 = spec_g8(c);
    let b8 = spec_b8(c);
    crate::num::lemma_rdiv_mag(c.r as int, SCALE as int, 255);
    crate::num::lemma_rdiv_mag(c.g as int, SCALE as int, 255);
    crate::num::lemma_rdiv_mag(c.b as int, SCALE as int, 255);
    lemma_dec_digits(r8);
    lemma_dec_digits(g8);
    lemma_dec_digits(b8);
    lemma_collapse_digits(spec_dec(r8));
    lemma_collapse_digits(spec_dec(g8));
    lemma_collapse_digits(spec_dec(b8));
    let s = spec_rgb_string(c);
    // collapse the rendered text piecewise
    lemma_collapse_keep("rgb("@);
    lemma_collapse_keep(")"@);
    assert(spec_collapse(", "@) =~= seq![',']) by {
        assert(", "@.last() == ' ');
        assert(", "@.drop_last() =~= seq![',']);
        assert(spec_collapse(seq![',']) =~= seq![',']) by {
            assert(seq![','].drop_last() =~= Seq::<char>::empty());
            assert(spec_collapse(Seq::<char>::empty()) =~= Seq::<char>::empty());
        }
    }
    lemma_collapse_concat("rgb("@, spec_dec(r8));
    lemma_collapse_concat("rgb("@ + spec_dec(r8), ", "@);
    lemma_collapse_concat("rgb("@ + spec_dec(r8) + ", "@, spec_dec(g8));
    lemma_collapse_concat("rgb("@ + spec_dec(r8) + ", "@ + spec_dec(g8), ", "@);
    lemma_collapse_concat("rgb("@ + spec_dec(r8) + ", "@ + spec_dec(g8) + ", "@, spec_dec(b8));
    lemma_collapse_concat(
        "rgb("@ + spec_dec(r8) + ", "@ + spec_dec(g8) + ", "@ + spec_dec(b8),
        ")"@,
    );
    let t = spec_collapse(s);
    assert(t =~= "rgb("@ + spec_dec(r8) + seq![','] + spec_dec(g8) + seq![','] + spec_dec(b8)
        + seq![')']);
    let body = spec_dec(r8) + seq![','] + spec_dec(g8) + seq![','] + spec_dec(b8);
    assert(t.len() == 5 + body.len());
    // the rgba form does not match: the fourth character is the parenthesis
    assert(t[3] == '(');
    assert(!starts_with(t, "rgba("@)) by {
        if starts_with(t, "rgba("@) {
            assert(t.subrange(0, 5)[3] == t[3]);
            assert(t.subrange(0, 5) == "rgba("@);
            assert("rgba("@[3] == 'a');
            assert(t[3] == 'a');
        }
    }
    assert(starts_with(t, "rgb("@)) by {
        assert(t.subrange(0, 4) =~= "rgb("@);
    }
    assert(t.last() == ')');
    assert(t.subrange(4, t.len() - 1) =~= body);
    // split the body and read each channel back
    lemma_digits_no_comma(spec_dec(r8));
    lemma_digits_no_comma(spec_dec(g8));
    lemma_digits_no_comma(spec_dec(b8));
    lemma_fields3(spec_dec(r8), spec_dec(g8), spec_dec(b8));
    lemma_parse_num_dec(r8);
    lemma_parse_num_dec(g8);
    lemma_parse_num_dec(b8);
    // the rounded channel sits within half a unit of the input channel
    vstd::arithmetic::div_mod::lemma_fundamental_div_mod(c.r + 500_000, SCALE as int);
    vstd::arithmetic::div_mod::lemma_fundamental_div_mod(c.g + 500_000, SCALE as int);
    vstd::arithmetic::div_mod::lemma_fundamental_div_mod(c.b + 500_000, SCALE as int);
}

/// Rendering, parsing and rendering again in the `rgb()` form is a fixed
/// point: the reparsed color's channels are already whole, so the second
/// rendering reproduces the first text exactly.
pub proof fn lemma_rgb_render_fixed_point(c: Color)
    requires
        valid(c),
    ensures
        spec_parse(spec_rgb_string(c)) is Ok,
        valid(spec_parse(spec_rgb_string(c))->Ok_0),
        spec_rgb_string(spec_parse(spec_rgb_string(c))->Ok_0) == spec_rgb_string(c),
{
    lemma_rgb_round_trip(c);
    let r8 = spec_r8(c);
    let g8 = spec_g8(c);
    let b8 = spec_b8(c);
    crate::num::lemma_rdiv_mag(c.r as int, SCALE as int, 255);
    crate::num::lemma_rdiv_mag(c.g as int, SCALE as int, 255);
    crate::num::lemma_rdiv_mag(c.b as int, SCALE as int, 255);
    let c2 = spec_parse(spec_rgb_string(c))->Ok_0;
    vstd::arithmetic::div_mod::lemma_fundamental_div_mod_converse(
        r8 * 1_000_000 + 500_000,
        SCALE as int,
        r8,
        500_000,
    );
    vstd::arithmetic::div_mod::lemma_fundamental_div_mod_converse(
        g8 * 1_000_000 + 500_000,
        SCALE as int,
        g8,
        500_000,
    );
    vstd::arithmetic::div_mod::lemma_fundamental_div_mod_converse(
        b8 * 1_000_000 + 500_000,
        SCALE as int,
        b8,
        500_000,
    );
    assert(spec_r8(c2) == r8);
    assert(spec_g8(c2) == g8);
    assert(spec_b8(c2) == b8);
}


/// The hex length-minimization rule: the rendered hex string always opens
/// with `#`, carries alpha digits exactly when the color is translucent,
/// and takes the short form exactly when the digit condition allows.
pub proof fn lemma_hex_shape(c: Color)
    requires
        valid(c),
    ensures
        spec_hex_string(c)[0] == '#',
        c.alpha == SCALE ==> spec_hex_string(c).len() == (if spec_short(
            spec_r8(c),
            spec_g8(c),
            spec_b8(c),
        ) {
            4int
        } else {
            7int
        }),
        c.alpha != SCALE ==> spec_hex_string(c).len() == (if spec_short(
            spec_r8(c),
            spec_g8(c),
            spec_b8(c),
        ) && spec_dup(spec_a8(c)) {
            5int
        } else {
            9int
        }),
{
    assert(spec_hex_long(c).len() == 7);
    assert(spec_hex_long(c)[0] == '#');
    if c.alpha != SCALE && !(spec_short(spec_r8(c), spec_g8(c), spec_b8(c)) && spec_dup(
        spec_a8(c),
    )) {
        assert(spec_hex_string(c)[0] == '#');
    }
}


/// A hex digit is its own lowercase, is not a space, and reads back as
/// its value.
pub proof fn lemma_hexdigit_char(d: int)
    requires
        0 <= d < 16,
    ensures
        spec_hexdigit(d) != ' ',
        spec_lower(spec_hexdigit(d)) == spec_hexdigit(d),
        spec_hexval(spec_hexdigit(d)) == d,
{
}

/// Round trip through the hex form of an opaque color: parsing the
/// rendered hex text (short or long) yields exactly the opaque color
/// whose channels are the input's rounded to whole values.
#[verifier::rlimit(80)]
pub proof fn lemma_hex_round_trip(c: Color)
    requires
        valid(c),
        c.alpha == SCALE,
    ensures
        ({
            let r8 = spec_r8(c);
            let g8 = spec_g8(c);
            let b8 = spec_b8(c);
            spec_parse(spec_hex_string(c)) == Ok::<Color, ParseError>(
                Color {
                    r: (r8 * 1_000_000) as u64,
                    g: (g8 * 1_000_000) as u64,
                    b: (b8 * 1_000_000) as u64,
                    alpha: SCALE,
                },
            )
        }),
{
    reveal_strlit("rgba(");
    reveal_strlit("rgb(");
    reveal_strlit("hsla(");
    reveal_strlit("hsl(");
    reveal_strlit("hsi(");
    reveal_strlit("hsv(");
    reveal_strlit("hwb(");
    reveal_strlit("cmyk(");
    let r8 = spec_r8(c);
    let g8 = spec_g8(c);
    let b8 = spec_b8(c);
    crate::num::lemma_rdiv_mag(c.r as int, SCALE as int, 255);
    crate::num::lemma_rdiv_mag(c.g as int, SCALE as int, 255);
    crate::num::lemma_rdiv_mag(c.b as int, SCALE as int, 255);
    let s = spec_hex_string(c);
    lemma_hexdigit_char(r8 / 16);
    lemma_hexdigit_char(r8 % 16);
    lemma_hexdigit_char(g8 / 16);
    lemma_hexdigit_char(g8 % 16);
    lemma_hexdigit_char(b8 / 16);
    lemma_hexdigit_char(b8 % 16);
    vstd::arithmetic::div_mod::lemma_fundamental_div_mod(r8, 16);
    vstd::arithmetic::div_mod::lemma_fundamental_div_mod(g8, 16);
    vstd::arithmetic::div_mod::lemma_fundamental_div_mod(b8, 16);
    assert(s[0] == '#');
    assert(forall|i: int|
        0 <= i < s.len() ==> #[trigger] s[i] != ' ' && spec_lower(s[i]) == s[i]);
    lemma_collapse_keep(s);
    let t = spec_collapse(s);
    assert(t == s);
    // none of the functional wrappers matches a text opening with '#'
    assert(!starts_with(t, "rgba("@)) by {
        if starts_with(t, "rgba("@) {
            assert(t.subrange(0, 5)[0] == t[0]);
        }
    }
    assert(!starts_with(t, "rgb("@)) by {
        if starts_with(t, "rgb("@) {
            assert(t.subrange(0, 4)[0] == t[0]);
        }
    }
    assert(!starts_with(t, "hsla("@)) by {
        if starts_with(t, "hsla("@) {
            assert(t.subrange(0, 5)[0] == t[0]);
        }
    }
    assert(!starts_with(t, "hsl("@)) by {
        if starts_with(t, "hsl("@) {
            assert(t.subrange(0, 4)[0] == t[0]);
        }
    }
    assert(!starts_with(t, "hsi("@)) by {
        if starts_with(t, "hsi("@) {
            assert(t.subrange(0, 4)[0] == t[0]);
        }
    }
    assert(!starts_with(t, "hsv("@)) by {
        if starts_with(t, "hsv("@) {
            assert(t.subrange(0, 4)[0] == t[0]);
        }
    }
    assert(!starts_with(t, "hwb("@)) by {
        if starts_with(t, "hwb("@) {
            assert(t.subrange(0, 4)[0] == t[0]);
        }
    }
    assert(!starts_with(t, "cmyk("@)) by {
        if starts_with(t, "cmyk("@) {
            assert(t.subrange(0, 5)[0] == t[0]);
        }
    }
    let d = t.subrange(1, t.len() as int);
    if spec_short(r8, g8, b8) {
        assert(d =~= seq![spec_hexdigit(r8 / 16), spec_hexdigit(g8 / 16), spec_hexdigit(b8 / 16)]);
        assert(all_hex(d)) by {
            assert(spec_hexval(d[0]) == r8 / 16);
            assert(spec_hexval(d[1]) == g8 / 16);
            assert(spec_hexval(d[2]) == b8 / 16);
        }
        // a doubled digit scaled by 17 is the byte itself
        assert((r8 / 16) * 17 == r8);
        assert((g8 / 16) * 17 == g8);
        assert((b8 / 16) * 17 == b8);
    } else {
        assert(d =~= spec_hex_pair(r8) + spec_hex_pair(g8) + spec_hex_pair(b8));
        assert(d.len() == 6);
        assert(all_hex(d)) by {
            assert(spec_hexval(d[0]) == r8 / 16);
            assert(spec_hexval(d[1]) == r8 % 16);
            assert(spec_hexval(d[2]) == g8 / 16);
            assert(spec_hexval(d[3]) == g8 % 16);
            assert(spec_hexval(d[4]) == b8 / 16);
            assert(spec_hexval(d[5]) == b8 % 16);
        }
        assert((r8 / 16) * 16 + r8 % 16 == r8);
        assert((g8 / 16) * 16 + g8 % 16 == g8);
        assert((b8 / 16) * 16 + b8 % 16 == b8);
    }
}

/// Rendering, parsing and rendering again in the hex form of an opaque
/// color is a fixed point.
pub proof fn lemma_hex_render_fixed_point(c: Color)
    requires
        valid(c),
        c.alpha == SCALE,
    ensures
        spec_parse(spec_hex_string(c)) is Ok,
        valid(spec_parse(spec_hex_string(c))->Ok_0),
        spec_hex_string(spec_parse(spec_hex_string(c))->Ok_0) == spec_hex_string(c),
{
    lemma_hex_round_trip(c);
    let r8 = spec_r8(c);
    let g8 = spec_g8(c);
    let b8 = spec_b8(c);
    crate::num::lemma_rdiv_mag(c.r as int, SCALE as int, 255);
    crate::num::lemma_rdiv_mag(c.g as int, SCALE as int, 255);
    crate::num::lemma_rdiv_mag(c.b as int, SCALE as int, 255);
    let c2 = spec_parse(spec_hex_string(c))->Ok_0;
    vstd::arithmetic::div_mod::lemma_fundamental_div_mod_converse(
        r8 * 1_000_000 + 500_000,
        SCALE as int,
        r8,
        500_000,
    );
    vstd::arithmetic::div_mod::lemma_fundamental_div_mod_converse(
        g8 * 1_000_000 + 500_000,
        SCALE as int,
        g8,
        500_000,
    );
    vstd::arithmetic::div_mod::lemma_fundamental_div_mod_converse(
        b8 * 1_000_000 + 500_000,
        SCALE as int,
        b8,
        500_000,
    );
    assert(spec_r8(c2) == r8);
    assert(spec_g8(c2) == g8);
    assert(spec_b8(c2) == b8);
}

} // verus!
