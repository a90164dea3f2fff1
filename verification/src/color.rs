//! Colours as text: from three decimal components to hexadecimal, and the normal form
//! under which a legend's colours and a grid's colours are compared.

use crate::pattern::{
    capture, captured, captures, group, group_of, regex_captures, BACKGROUND_PATTERN,
    TRIPLET_PATTERN,
};
use crate::text::{
    code, lowercased, parse_decimal, parse_unsigned, to_lowercase, trim, trimmed,
};
use vstd::prelude::*;

verus! {

/// The lowercase hexadecimal digit that stands for `d`, for `d` from 0 to 15.
pub open spec fn hex_char(d: int) -> char {
    if d == 0 {
        '0'
    } else if d == 1 {
        '1'
    } else if d == 2 {
        '2'
    } else if d == 3 {
        '3'
    } else if d == 4 {
        '4'
    } else if d == 5 {
        '5'
    } else if d == 6 {
        '6'
    } else if d == 7 {
        '7'
    } else if d == 8 {
        '8'
    } else if d == 9 {
        '9'
    } else if d == 10 {
        'a'
    } else if d == 11 {
        'b'
    } else if d == 12 {
        'c'
    } else if d == 13 {
        'd'
    } else if d == 14 {
        'e'
    } else {
        'f'
    }
}

/// The two hexadecimal digits of `v`, a zero first where `v` is under 16.
pub open spec fn hex_pair(v: int) -> Seq<char> {
    seq![hex_char(v / 16), hex_char(v % 16)]
}

/// The colour with components `r`, `g` and `b` in hexadecimal: a `#`, then two
/// lowercase digits for each component, in that order. The `#` belongs to it: a grid
/// writes its colours as `#ff0000`, and a legend's triplet is only found among them
/// where it comes out in the same form.
pub open spec fn hex_color(r: int, g: int, b: int) -> Seq<char> {
    seq!['#'] + hex_pair(r) + hex_pair(g) + hex_pair(b)
}

/// The value of a captured component: a decimal number of at most 255.
pub open spec fn component(text: Option<Seq<char>>) -> Option<int> {
    match text {
        Some(t) => parse_unsigned(t, 255),
        None => None,
    }
}

/// The hexadecimal colour that the capture groups 1, 2 and 3 of a match spell out, where
/// each of them is a component.
pub open spec fn triplet_hex(found: Option<Seq<Option<Seq<char>>>>) -> Option<Seq<char>> {
    match (
        component(group_of(found, 1)),
        component(group_of(found, 2)),
        component(group_of(found, 3)),
    ) {
        (Some(r), Some(g), Some(b)) => Some(hex_color(r, g, b)),
        _ => None,
    }
}

/// The hexadecimal form of a colour that is written as `rgb(r, g, b)` somewhere in
/// `color`; `None` where no such triplet is found, or a component is above 255.
pub open spec fn rgb_hex(color: Seq<char>) -> Option<Seq<char>> {
    triplet_hex(regex_captures(TRIPLET_PATTERN@, color))
}

/// The text of one hexadecimal digit.
fn hex_digit_text(d: u8) -> (r: &'static str)
    requires
        d < 16,
    ensures
        r@ == seq![hex_char(d as int)],
{
    proof {
        reveal_strlit("0");
        reveal_strlit("1");
        reveal_strlit("2");
        reveal_strlit("3");
        reveal_strlit("4");
        reveal_strlit("5");
        reveal_strlit("6");
        reveal_strlit("7");
        reveal_strlit("8");
        reveal_strlit("9");
        reveal_strlit("a");
        reveal_strlit("b");
        reveal_strlit("c");
        reveal_strlit("d");
        reveal_strlit("e");
        reveal_strlit("f");
    }
    let r = if d == 0 {
        "0"
    } else if d == 1 {
        "1"
    } else if d == 2 {
        "2"
    } else if d == 3 {
        "3"
    } else if d == 4 {
        "4"
    } else if d == 5 {
        "5"
    } else if d == 6 {
        "6"
    } else if d == 7 {
        "7"
    } else if d == 8 {
        "8"
    } else if d == 9 {
        "9"
    } else if d == 10 {
        "a"
    } else if d == 11 {
        "b"
    } else if d == 12 {
        "c"
    } else if d == 13 {
        "d"
    } else if d == 14 {
        "e"
    } else {
        "f"
    };
    assert(r@ =~= seq![hex_char(d as int)]);
    r
}

/// Appends the two hexadecimal digits of `v` to `out`.
fn push_hex_pair(v: u8, out: &mut String)
    ensures
        final(out)@ == old(out)@ + hex_pair(v as int),
{
    out.append(hex_digit_text(v / 16));
    out.append(hex_digit_text(v % 16));
    assert(out@ =~= old(out)@ + hex_pair(v as int));
}

/// Writes the colour with components `r`, `g` and `b` in hexadecimal.
pub fn hex_text(r: u8, g: u8, b: u8) -> (out: String)
    ensures
        out@ == hex_color(r as int, g as int, b as int),
{
    proof {
        reveal_strlit("#");
    }
    let mut out = String::new();
    out.append("#");
    push_hex_pair(r, &mut out);
    push_hex_pair(g, &mut out);
    push_hex_pair(b, &mut out);
    assert(out@ =~= hex_color(r as int, g as int, b as int));
    out
}

/// Reads one captured component.
fn component_of(text: Option<&str>) -> (r: Option<u8>)
    ensures
        match r {
            Some(v) => component(text.deep_view()) == Some(v as int),
            None => component(text.deep_view()) is None,
        },
{
    match text {
        Some(t) => match parse_decimal(t, 255) {
            Some(v) => Some(v as u8),
            None => None,
        },
        None => None,
    }
}

/// Turns the capture groups of a component triplet into a hexadecimal colour.
pub fn hex_from_groups(found: &Option<Vec<Option<String>>>) -> (r: Option<String>)
    ensures
        r.deep_view() == triplet_hex(found.deep_view()),
        r matches Some(hex) ==> is_hex_color(hex@),
{
    let red = component_of(group(found, 1));
    let green = component_of(group(found, 2));
    let blue = component_of(group(found, 3));
    match (red, green, blue) {
        (Some(r), Some(g), Some(b)) => {
            proof {
                lemma_hex_color_digits(r as int, g as int, b as int);
            }
            Some(hex_text(r, g, b))
        },
        _ => None,
    }
}

/// Converts a colour written as `rgb(r, g, b)` to hexadecimal: six digits, each
/// component padded to two, behind the `#` with which such a colour is written.
///
/// The triplet may stand anywhere in `color`. Text without one gives `None`, and so does
/// a triplet with a component above 255.
pub fn rgb_to_hex(color: &str) -> (r: Option<String>)
    ensures
        r.deep_view() == rgb_hex(color@),
        r matches Some(hex) ==> is_hex_color(hex@),
{
    let found = captures(TRIPLET_PATTERN, color);
    hex_from_groups(&found)
}

/// Whether `c` is a decimal digit or one of the letters `a` to `f`.
pub open spec fn is_lower_hex(c: char) -> bool {
    0x30 <= code(c) <= 0x39 || 0x61 <= code(c) <= 0x66
}

/// The number that the lowercase hexadecimal digit `c` stands for.
pub open spec fn hex_value(c: char) -> int {
    if code(c) <= 0x39 {
        code(c) - 0x30
    } else {
        code(c) - 0x61 + 10
    }
}

/// Whether `text` is a `#` and six lowercase hexadecimal digits.
pub open spec fn is_hex_color(text: Seq<char>) -> bool {
    &&& text.len() == 7
    &&& text[0] == '#'
    &&& forall|i: int| 1 <= i < 7 ==> is_lower_hex(#[trigger] text[i])
}

/// A hexadecimal colour is a `#` and six lowercase hexadecimal digits, and each pair
/// of digits reads back as the component that it was written from.
pub proof fn lemma_hex_color_digits(r: int, g: int, b: int)
    requires
        0 <= r <= 255,
        0 <= g <= 255,
        0 <= b <= 255,
    ensures
        is_hex_color(hex_color(r, g, b)),
        16 * hex_value(hex_color(r, g, b)[1]) + hex_value(hex_color(r, g, b)[2]) == r,
        16 * hex_value(hex_color(r, g, b)[3]) + hex_value(hex_color(r, g, b)[4]) == g,
        16 * hex_value(hex_color(r, g, b)[5]) + hex_value(hex_color(r, g, b)[6]) == b,
{
    let h = hex_color(r, g, b);
    lemma_hex_char(r / 16);
    lemma_hex_char(r % 16);
    lemma_hex_char(g / 16);
    lemma_hex_char(g % 16);
    lemma_hex_char(b / 16);
    lemma_hex_char(b % 16);
    assert(h[1] == hex_char(r / 16) && h[2] == hex_char(r % 16));
    assert(h[3] == hex_char(g / 16) && h[4] == hex_char(g % 16));
    assert(h[5] == hex_char(b / 16) && h[6] == hex_char(b % 16));
}

proof fn lemma_hex_char(d: int)
    requires
        0 <= d < 16,
    ensures
        is_lower_hex(hex_char(d)),
        hex_value(hex_char(d)) == d,
{
}

/// The colour codec on a triplet: where the search finds `rgb(r, g, b)` in `color`,
/// with the three components captured as the decimal numbers `r`, `g` and `b` of at
/// most 255, the result is their hexadecimal colour; where the search finds nothing,
/// there is no result.
pub proof fn lemma_rgb_hex_of_triplet(
    color: Seq<char>,
    red: Seq<char>,
    green: Seq<char>,
    blue: Seq<char>,
    r: int,
    g: int,
    b: int,
)
    requires
        captured(TRIPLET_PATTERN@, color, 1) == Some(red),
        captured(TRIPLET_PATTERN@, color, 2) == Some(green),
        captured(TRIPLET_PATTERN@, color, 3) == Some(blue),
        parse_unsigned(red, 255) == Some(r),
        parse_unsigned(green, 255) == Some(g),
        parse_unsigned(blue, 255) == Some(b),
    ensures
        rgb_hex(color) == Some(hex_color(r, g, b)),
        is_hex_color(hex_color(r, g, b)),
{
    crate::text::lemma_parse_unsigned_range(red, 255);
    crate::text::lemma_parse_unsigned_range(green, 255);
    crate::text::lemma_parse_unsigned_range(blue, 255);
    lemma_hex_color_digits(r, g, b);
}

/// Text in which the search for a triplet finds nothing has no hexadecimal form.
pub proof fn lemma_rgb_hex_without_triplet(color: Seq<char>)
    requires
        regex_captures(TRIPLET_PATTERN@, color) is None,
    ensures
        rgb_hex(color) is None,
{
}

/// The colour that a `style` attribute declares as its background.
pub open spec fn declared_color(style: Seq<char>) -> Option<Seq<char>> {
    captured(BACKGROUND_PATTERN@, style, 1)
}

/// A legend's colour as it is compared: a colour that starts with `r` and holds a
/// triplet is taken in hexadecimal, any other as it stands.
pub open spec fn swatch_color(css: Seq<char>) -> Seq<char> {
    if css.len() > 0 && css[0] == 'r' {
        match rgb_hex(css) {
            Some(hex) => hex,
            None => css,
        }
    } else {
        css
    }
}

/// The normal form of a colour: without the whitespace around it, in lowercase.
pub open spec fn color_key(css: Seq<char>) -> Seq<char> {
    lowercased(trimmed(css))
}

/// Whether a colour is settled in its normal form: neither trimming nor lowercasing
/// changes it.
pub open spec fn is_normal(key: Seq<char>) -> bool {
    trimmed(key) == key && lowercased(key) == key
}

/// Finds the background colour that a `style` attribute declares.
pub fn background_of(style: &str) -> (r: Option<String>)
    ensures
        r.deep_view() == declared_color(style@),
{
    capture(BACKGROUND_PATTERN, style, 1)
}

/// Gives a legend's colour as it is compared with a grid's colours.
pub fn swatch(css: &str) -> (r: String)
    ensures
        r@ == swatch_color(css@),
{
    if css.unicode_len() > 0 && css.get_char(0) == 'r' {
        match rgb_to_hex(css) {
            Some(hex) => hex,
            None => css.to_owned(),
        }
    } else {
        css.to_owned()
    }
}

/// Brings a colour into its normal form.
pub fn normalize(css: &str) -> (r: String)
    ensures
        r@ == color_key(css@),
{
    to_lowercase(trim(css))
}

/// Tells whether a colour is settled in its normal form. Lowercasing follows
/// Unicode's tables, of which nothing is known here, so that the normal form of a
/// colour is looked at, not taken for settled.
pub fn normal(key: &str) -> (r: bool)
    ensures
        r == is_normal(key@),
{
    let own = key.to_owned();
    if trim(key).to_owned() == own {
        to_lowercase(key) == own
    } else {
        false
    }
}

} // verus!
