//! The named-color table: a fixed read-only mapping between whole channel
//! triples and CSS color keywords. Each triple carries at most one name;
//! the two keyword aliases `aqua` and `fuchsia` are accepted on the way in
//! but never produced on the way out.
use vstd::prelude::*;

use crate::num::SCALE;

verus! {

/// The display name of a channel triple, when the table holds one.
pub open spec fn spec_name_of(r: int, g: int, b: int) -> Option<Seq<char>> {
    if r == 255 && g == 255 && b == 255 {
        Some("white"@)
    } else if r == 0 && g == 0 && b == 0 {
        Some("black"@)
    } else if r == 255 && g == 0 && b == 0 {
        Some("red"@)
    } else if r == 0 && g == 255 && b == 0 {
        Some("lime"@)
    } else if r == 0 && g == 128 && b == 0 {
        Some("green"@)
    } else if r == 0 && g == 0 && b == 255 {
        Some("blue"@)
    } else if r == 255 && g == 255 && b == 0 {
        Some("yellow"@)
    } else if r == 0 && g == 255 && b == 255 {
        Some("cyan"@)
    } else if r == 255 && g == 0 && b == 255 {
        Some("magenta"@)
    } else if r == 192 && g == 192 && b == 192 {
        Some("silver"@)
    } else if r == 128 && g == 128 && b == 128 {
        Some("gray"@)
    } else if r == 128 && g == 0 && b == 0 {
        Some("maroon"@)
    } else if r == 128 && g == 128 && b == 0 {
        Some("olive"@)
    } else if r == 0 && g == 0 && b == 128 {
        Some("navy"@)
    } else if r == 128 && g == 0 && b == 128 {
        Some("purple"@)
    } else if r == 0 && g == 128 && b == 128 {
        Some("teal"@)
    } else if r == 255 && g == 165 && b == 0 {
        Some("orange"@)
    } else {
        None
    }
}

/// The channel triple of a (lowercase) color keyword, when the table
/// holds one.
pub open spec fn spec_rgb_of_name(s: Seq<char>) -> Option<(int, int, int)> {
    if s == "white"@ {
        Some((255int, 255int, 255int))
    } else if s == "black"@ {
        Some((0int, 0int, 0int))
    } else if s == "red"@ {
        Some((255int, 0int, 0int))
    } else if s == "lime"@ {
        Some((0int, 255int, 0int))
    } else if s == "green"@ {
        Some((0int, 128int, 0int))
    } else if s == "blue"@ {
        Some((0int, 0int, 255int))
    } else if s == "yellow"@ {
        Some((255int, 255int, 0int))
    } else if s == "cyan"@ || s == "aqua"@ {
        Some((0int, 255int, 255int))
    } else if s == "magenta"@ || s == "fuchsia"@ {
        Some((255int, 0int, 255int))
    } else if s == "silver"@ {
        Some((192int, 192int, 192int))
    } else if s == "gray"@ {
        Some((128int, 128int, 128int))
    } else if s == "maroon"@ {
        Some((128int, 0int, 0int))
    } else if s == "olive"@ {
        Some((128int, 128int, 0int))
    } else if s == "navy"@ {
        Some((0int, 0int, 128int))
    } else if s == "purple"@ {
        Some((128int, 0int, 128int))
    } else if s == "teal"@ {
        Some((0int, 128int, 128int))
    } else if s == "orange"@ {
        Some((255int, 165int, 0int))
    } else {
        None
    }
}

/// Look a channel triple up in the name table.
pub fn name_of_rgb(r: u64, g: u64, b: u64) -> (res: Option<&'static str>)
    ensures
        res matches Some(s) ==> spec_name_of(r as int, g as int, b as int) == Some(s@),
        res is None ==> spec_name_of(r as int, g as int, b as int) is None,
{
    if r == 255 && g == 255 && b == 255 {
        Some("white")
    } else if r == 0 && g == 0 && b == 0 {
        Some("black")
    } else if r == 255 && g == 0 && b == 0 {
        Some("red")
    } else if r == 0 && g == 255 && b == 0 {
        Some("lime")
    } else if r == 0 && g == 128 && b == 0 {
        Some("green")
    } else if r == 0 && g == 0 && b == 255 {
        Some("blue")
    } else if r == 255 && g == 255 && b == 0 {
        Some("yellow")
    } else if r == 0 && g == 255 && b == 255 {
        Some("cyan")
    } else if r == 255 && g == 0 && b == 255 {
        Some("magenta")
    } else if r == 192 && g == 192 && b == 192 {
        Some("silver")
    } else if r == 128 && g == 128 && b == 128 {
        Some("gray")
    } else if r == 128 && g == 0 && b == 0 {
        Some("maroon")
    } else if r == 128 && g == 128 && b == 0 {
        Some("olive")
    } else if r == 0 && g == 0 && b == 128 {
        Some("navy")
    } else if r == 128 && g == 0 && b == 128 {
        Some("purple")
    } else if r == 0 && g == 128 && b == 128 {
        Some("teal")
    } else if r == 255 && g == 165 && b == 0 {
        Some("orange")
    } else {
        None
    }
}

/// Look a lowercase keyword up in the name table, yielding the `SCALE`d
/// channel triple.
pub fn rgb_of_name(s: &Vec<char>) -> (res: Option<(u64, u64, u64)>)
    ensures
        res matches Some(t) ==> spec_rgb_of_name(s@) == Some(
            ((t.0 / SCALE) as int, (t.1 / SCALE) as int, (t.2 / SCALE) as int),
        ) && t.0 <= 255 * SCALE && t.1 <= 255 * SCALE && t.2 <= 255 * SCALE && t.0 % SCALE == 0
            && t.1 % SCALE == 0 && t.2 % SCALE == 0,
        res is None ==> spec_rgb_of_name(s@) is None,
{
    if streq(s, "white") {
        Some((255 * SCALE, 255 * SCALE, 255 * SCALE))
    } else if streq(s, "black") {
        Some((0, 0, 0))
    } else if streq(s, "red") {
        Some((255 * SCALE, 0, 0))
    } else if streq(s, "lime") {
        Some((0, 255 * SCALE, 0))
    } else if streq(s, "green") {
        Some((0, 128 * SCALE, 0))
    } else if streq(s, "blue") {
        Some((0, 0, 255 * SCALE))
    } else if streq(s, "yellow") {
        Some((255 * SCALE, 255 * SCALE, 0))
    } else if streq(s, "cyan") || streq(s, "aqua") {
        Some((0, 255 * SCALE, 255 * SCALE))
    } else if streq(s, "magenta") || streq(s, "fuchsia") {
        Some((255 * SCALE, 0, 255 * SCALE))
    } else if streq(s, "silver") {
        Some((192 * SCALE, 192 * SCALE, 192 * SCALE))
    } else if streq(s, "gray") {
        Some((128 * SCALE, 128 * SCALE, 128 * SCALE))
    } else if streq(s, "maroon") {
        Some((128 * SCALE, 0, 0))
    } else if streq(s, "olive") {
        Some((128 * SCALE, 128 * SCALE, 0))
    } else if streq(s, "navy") {
        Some((0, 0, 128 * SCALE))
    } else if streq(s, "purple") {
        Some((128 * SCALE, 0, 128 * SCALE))
    } else if streq(s, "teal") {
        Some((0, 128 * SCALE, 128 * SCALE))
    } else if streq(s, "orange") {
        Some((255 * SCALE, 165 * SCALE, 0))
    } else {
        None
    }
}

/// Character-for-character equality of a char vector and a string slice.
fn streq(v: &Vec<char>, p: &str) -> (r: bool)
    ensures
        r == (v@ == p@),
{
    let n = p.unicode_len();
    if v.len() != n {
        proof {
            assert(v@ != p@);
        }
        return false;
    }
    let mut k: usize = 0;
    while k < n
        invariant
            n == p@.len() == v@.len(),
            0 <= k <= n,
            forall|t: int| 0 <= t < k ==> v@[t] == p@[t],
        decreases n - k,
    {
        if *v.get(k).unwrap() != p.get_char(k) {
            proof {
                assert(v@[k as int] != p@[k as int]);
            }
            return false;
        }
        k = k + 1;
    }
    proof {
        assert(v@ =~= p@);
    }
    true
}

} // verus!
