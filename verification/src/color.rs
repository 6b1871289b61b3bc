//! Sphere colors: `#rrggbb` parsing. Components are bytes; divided by 255
//! they are the shares of red, green, blue and opacity.

use vstd::prelude::*;

use crate::text;

verus! {

/// The value of a hexadecimal digit.
pub open spec fn hex_value(c: char) -> Option<int> {
    if '0' <= c <= '9' {
        Some((c as int) - 48)
    } else if 'a' <= c <= 'f' {
        Some((c as int) - 87)
    } else if 'A' <= c <= 'F' {
        Some((c as int) - 55)
    } else {
        None
    }
}

/// The value of two hexadecimal digits.
pub open spec fn hex_pair(a: char, b: char) -> Option<int> {
    match (hex_value(a), hex_value(b)) {
        (Some(x), Some(y)) => Some(16 * x + y),
        _ => None,
    }
}

/// Red, green and blue of `#rrggbb` or `rrggbb`.
pub open spec fn hex_color(s: Seq<char>) -> Option<(int, int, int)> {
    let h = if s.len() > 0 && s[0] == '#' {
        s.skip(1)
    } else {
        s
    };
    if h.len() != 6 {
        None
    } else {
        match (hex_pair(h[0], h[1]), hex_pair(h[2], h[3]), hex_pair(h[4], h[5])) {
            (Some(r), Some(g), Some(b)) => Some((r, g, b)),
            _ => None,
        }
    }
}

/// The value of a hexadecimal digit.
fn hex_digit(c: char) -> (v: Option<u8>)
    ensures
        match v {
            Some(x) => hex_value(c) == Some(x as int) && x < 16,
            None => hex_value(c) is None,
        },
{
    if '0' <= c && c <= '9' {
        Some((c as u8) - 48)
    } else if 'a' <= c && c <= 'f' {
        Some((c as u8) - 87)
    } else if 'A' <= c && c <= 'F' {
        Some((c as u8) - 55)
    } else {
        None
    }
}

/// The value of two hexadecimal digits.
fn hex_byte(a: char, b: char) -> (v: Option<u8>)
    ensures
        match v {
            Some(x) => hex_pair(a, b) == Some(x as int),
            None => hex_pair(a, b) is None,
        },
{
    match (hex_digit(a), hex_digit(b)) {
        (Some(x), Some(y)) => Some(16 * x + y),
        _ => None,
    }
}

/// Parse `#rrggbb` or `rrggbb` into RGBA, opaque.
pub fn hex_to_rgba(hex: &str) -> (out: Option<[u8; 4]>)
    ensures
        match out {
            Some(c) => hex_color(hex@) == Some((c@[0] as int, c@[1] as int, c@[2] as int)) && c@[3]
                == 255,
            None => hex_color(hex@) is None,
        },
{
    let cs = text::to_chars(hex);
    let start: usize = if cs.len() > 0 && cs[0] == '#' { 1 } else { 0 };
    if cs.len() - start != 6 {
        return None;
    }
    match (
        hex_byte(cs[start], cs[start + 1]),
        hex_byte(cs[start + 2], cs[start + 3]),
        hex_byte(cs[start + 4], cs[start + 5]),
    ) {
        (Some(r), Some(g), Some(b)) => Some([r, g, b, 255]),
        _ => None,
    }
}

/// The color `s` means: soft blue unless it is a valid color.
pub open spec fn color_or_default(s: Option<Seq<char>>) -> (int, int, int) {
    match s {
        Some(h) => match hex_color(h) {
            Some(c) => c,
            None => (51, 153, 255),
        },
        None => (51, 153, 255),
    }
}

/// [`hex_to_rgba`], falling back to soft blue for empty or invalid input (the
/// API never fails on a bad color).
pub fn safe_color_rgba(hex: Option<&str>) -> (out: [u8; 4])
    ensures
        (out@[0] as int, out@[1] as int, out@[2] as int) == color_or_default(
            match hex {
                Some(h) => Some(h@),
                None => None,
            },
        ),
        out@[3] == 255,
{
    match hex {
        Some(h) => match hex_to_rgba(h) {
            Some(c) => c,
            None => [51, 153, 255, 255],
        },
        None => [51, 153, 255, 255],
    }
}

/// The hexadecimal digit with the value `d`, in lower or upper case.
pub open spec fn hex_letter(d: int, upper: bool) -> char {
    if d < 10 {
        (48 + d) as char
    } else if upper {
        (55 + d) as char
    } else {
        (87 + d) as char
    }
}

/// The two digits of a component.
pub open spec fn hex_letters(n: int, upper: bool) -> Seq<char> {
    seq![hex_letter(n / 16, upper), hex_letter(n % 16, upper)]
}

/// A color is read component by component, in either case of the letters, with or without
/// the leading `#`.
pub proof fn colors_are_read_back(r: int, g: int, b: int, upper: bool)
    requires
        0 <= r < 256,
        0 <= g < 256,
        0 <= b < 256,
    ensures
        hex_color(
            seq!['#'] + hex_letters(r, upper) + hex_letters(g, upper) + hex_letters(b, upper),
        ) == Some((r, g, b)),
        hex_color(hex_letters(r, upper) + hex_letters(g, upper) + hex_letters(b, upper)) == Some(
            (r, g, b),
        ),
{
    let s = hex_letters(r, upper) + hex_letters(g, upper) + hex_letters(b, upper);
    let t = seq!['#'] + hex_letters(r, upper) + hex_letters(g, upper) + hex_letters(b, upper);
    assert(t.skip(1) =~= s);
    assert(t[0] == '#');
    assert(s[0] != '#');
}

/// What is not six digits is no color, and the soft blue stands in for it.
pub proof fn other_colors_are_soft_blue(s: Seq<char>, i: int)
    requires
        s.len() != 6 && s.len() != 7 || s.len() == 7 && s[0] != '#' || s.len() == 6 && s[0] == '#'
            || 1 <= i < s.len() && !('0' <= s[i] <= '9' || 'a' <= s[i] <= 'f' || 'A' <= s[i] <= 'F'),
    ensures
        hex_color(s) is None,
        color_or_default(Some(s)) == (51int, 153int, 255int),
        color_or_default(None) == (51int, 153int, 255int),
{
    if s.len() == 7 && s[0] == '#' {
        let h = s.skip(1);
        assert(h[i - 1] == s[i]);
        assert(hex_value(h[i - 1]) is None);
    }
}

} // verus!
