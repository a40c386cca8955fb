//! Colour specifications and the default palette.

use vstd::prelude::*;

use crate::fields::hex_digit;
use crate::fields::hex_value;
use crate::fields::part;
use crate::fields::split;
use crate::fields::split_fields;
use crate::fields::starts_with;
use crate::fields::strip_prefix;
use crate::fields::texts;
use crate::reports::append_chars;
use crate::reports::append_hex4;
use crate::reports::hex4_text;

verus! {

/// An RGB colour.
pub type Rgb = (u8, u8, u8);

/// A colour as colour reports spell it: sixteen bits per component.
pub open spec fn rgb_text(color: Rgb) -> Seq<char> {
    "rgb:"@ + hex4_text(color.0 * 257) + "/"@ + hex4_text(color.1 * 257) + "/"@ + hex4_text(
        color.2 * 257,
    ) + "\x1b\\"@
}

/// Appends a colour as colour reports spell it.
pub fn append_rgb(text: &mut Vec<char>, color: Rgb)
    ensures
        final(text)@ == old(text)@ + rgb_text(color),
{
    append_chars(text, "rgb:");
    append_hex4(text, color.0 as u32 * 257);
    append_chars(text, "/");
    append_hex4(text, color.1 as u32 * 257);
    append_chars(text, "/");
    append_hex4(text, color.2 as u32 * 257);
    append_chars(text, "\x1b\\");
    assert(text@ =~= old(text)@ + rgb_text(color));
}

/// The value of a hexadecimal number with an optional plus sign.
pub open spec fn hex_number(text: Seq<char>) -> Option<int> {
    let digits = if text.len() > 0 && text[0] == '+' {
        text.drop_first()
    } else {
        text
    };
    if digits.len() > 0 && all_hex(digits) {
        Some(hex_digits_value(digits))
    } else {
        None
    }
}

/// Whether every character is a hexadecimal digit.
pub open spec fn all_hex(digits: Seq<char>) -> bool {
    forall|i: int| 0 <= i < digits.len() ==> hex_value(#[trigger] digits[i]) is Some
}

/// The value of hexadecimal digits.
pub open spec fn hex_digits_value(digits: Seq<char>) -> int
    decreases digits.len(),
{
    if digits.len() == 0 {
        0
    } else {
        16 * hex_digits_value(digits.drop_last()) + match hex_value(digits.last()) {
            Some(d) => d as int,
            None => 0,
        }
    }
}

/// `16` to the power of `n`.
pub open spec fn power16(n: int) -> int
    decreases n,
{
    if n <= 0 {
        1
    } else {
        16 * power16(n - 1)
    }
}

/// Reads a hexadecimal number of at most four characters.
fn parse_hex(text: &Vec<char>) -> (value: Option<u32>)
    requires
        text@.len() <= 4,
    ensures
        match (hex_number(text@), value) {
            (Some(v), Some(w)) => v == w && w < power16(text@.len() as int),
            (None, None) => true,
            _ => false,
        },
{
    let from: usize = if text.len() > 0 && text[0] == '+' {
        1
    } else {
        0
    };
    let ghost digits = text@.skip(from as int);
    assert(digits =~= if text@.len() > 0 && text@[0] == '+' {
        text@.drop_first()
    } else {
        text@
    });
    if from == text.len() {
        return None;
    }
    let mut value: u32 = 0;
    let mut i: usize = from;
    assert(digits.take(0) =~= Seq::<char>::empty());
    while i < text.len()
        invariant
            from <= i <= text@.len(),
            text@.len() <= 4,
            digits == text@.skip(from as int),
            digits == if text@.len() > 0 && text@[0] == '+' {
                text@.drop_first()
            } else {
                text@
            },
            forall|k: int| 0 <= k < i - from ==> hex_value(#[trigger] digits[k]) is Some,
            value == hex_digits_value(digits.take(i - from)),
            value < power16(i - from),
        decreases text.len() - i,
    {
        assert(digits[i - from] == text@[i as int]);
        assert(digits.take(i + 1 - from).drop_last() =~= digits.take(i - from));
        proof {
            reveal_with_fuel(power16, 6);
        }
        match hex_digit(text[i]) {
            Some(d) => {
                value = value * 16 + d as u32;
            },
            None => {
                assert(hex_value(digits[i - from]) is None);
                return None;
            },
        }
        i = i + 1;
    }
    assert(digits.take(i - from) =~= digits);
    proof {
        reveal_with_fuel(power16, 6);
    }
    Some(value)
}

/// A component of `n` hexadecimal digits scaled to eight bits, to the nearest.
pub open spec fn scaled(value: int, digits: int) -> int {
    let max = power16(digits) - 1;
    (value * 255 + max / 2) / max
}

/// A component of `n` hexadecimal digits scaled to eight bits, to the nearest.
fn scale_to_u8(value: u32, digits: usize) -> (component: u8)
    requires
        1 <= digits <= 4,
        value < power16(digits as int),
    ensures
        component == scaled(value as int, digits as int),
{
    proof {
        reveal_with_fuel(power16, 6);
    }
    let max: u32 = if digits == 1 {
        15
    } else if digits == 2 {
        255
    } else if digits == 3 {
        4095
    } else {
        65535
    };
    assert(max == power16(digits as int) - 1);
    let scaled_value: u32 = (value * 255 + max / 2) / max;
    assert(scaled_value <= 255) by (nonlinear_arith)
        requires
            value <= max,
            max >= 15,
            scaled_value == (value * 255 + max / 2) / (max as int),
    ;
    scaled_value as u8
}

/// The colour that `#RRGGBB` spells.
pub open spec fn hash_color(hex: Seq<char>) -> Option<Rgb> {
    if hex.len() != 6 {
        None
    } else {
        match (
            hex_number(hex.subrange(0, 2)),
            hex_number(hex.subrange(2, 4)),
            hex_number(hex.subrange(4, 6)),
        ) {
            (Some(r), Some(g), Some(b)) => Some((r as u8, g as u8, b as u8)),
            _ => None,
        }
    }
}

/// The colour that `rgb:R/G/B` spells, with one to four digits each.
pub open spec fn component_color(parts: Seq<Seq<char>>) -> Option<Rgb> {
    if parts.len() != 3 || !(1 <= parts[0].len() <= 4) || parts[1].len() != parts[0].len()
        || parts[2].len() != parts[0].len() {
        None
    } else {
        let n = parts[0].len() as int;
        match (hex_number(parts[0]), hex_number(parts[1]), hex_number(parts[2])) {
            (Some(r), Some(g), Some(b)) => Some(
                (scaled(r, n) as u8, scaled(g, n) as u8, scaled(b, n) as u8),
            ),
            _ => None,
        }
    }
}

/// The colour that a colour specification spells.
pub open spec fn color_spec(text: Seq<char>) -> Option<Rgb> {
    if text.len() > 0 && text[0] == '#' {
        hash_color(text.drop_first())
    } else if starts_with(text, "rgb:"@) {
        component_color(split_fields(text.skip("rgb:"@.len() as int), '/'))
    } else {
        None
    }
}

/// Reads a colour specification.
pub fn parse_color_spec(text: &Vec<char>) -> (color: Option<Rgb>)
    ensures
        color == color_spec(text@),
{
    if text.len() > 0 && text[0] == '#' {
        let hex = part(text, 1, text.len());
        assert(hex@ =~= text@.drop_first());
        if hex.len() != 6 {
            return None;
        }
        let r = part(&hex, 0, 2);
        let g = part(&hex, 2, 4);
        let b = part(&hex, 4, 6);
        proof {
            reveal_with_fuel(power16, 6);
        }
        match (parse_hex(&r), parse_hex(&g), parse_hex(&b)) {
            (Some(r), Some(g), Some(b)) => Some((r as u8, g as u8, b as u8)),
            _ => None,
        }
    } else if let Some(rest) = strip_prefix(text, "rgb:") {
        let parts = split(&rest, '/');
        let ghost fields = split_fields(rest@, '/');
        assert(texts(parts@) == fields);
        if parts.len() != 3 {
            return None;
        }
        assert(fields[0] == parts@[0]@ && fields[1] == parts@[1]@ && fields[2] == parts@[2]@);
        let n: usize = parts[0].len();
        if n < 1 || n > 4 || parts[1].len() != n || parts[2].len() != n {
            return None;
        }
        match (parse_hex(&parts[0]), parse_hex(&parts[1]), parse_hex(&parts[2])) {
            (Some(r), Some(g), Some(b)) => Some(
                (scale_to_u8(r, n), scale_to_u8(g, n), scale_to_u8(b, n)),
            ),
            _ => None,
        }
    } else {
        None
    }
}

/// Step of the colour cube.
pub open spec fn cube_step(v: int) -> int {
    if v == 0 {
        0
    } else {
        55 + v * 40
    }
}

/// The sixteen base colours.
pub open spec fn base_color(index: u8) -> Rgb {
    if index == 0 {
        (0, 0, 0)
    } else if index == 1 {
        (205, 0, 0)
    } else if index == 2 {
        (0, 205, 0)
    } else if index == 3 {
        (205, 205, 0)
    } else if index == 4 {
        (0, 0, 238)
    } else if index == 5 {
        (205, 0, 205)
    } else if index == 6 {
        (0, 205, 205)
    } else if index == 7 {
        (229, 229, 229)
    } else if index == 8 {
        (127, 127, 127)
    } else if index == 9 {
        (255, 0, 0)
    } else if index == 10 {
        (0, 255, 0)
    } else if index == 11 {
        (255, 255, 0)
    } else if index == 12 {
        (92, 92, 255)
    } else if index == 13 {
        (255, 0, 255)
    } else if index == 14 {
        (0, 255, 255)
    } else {
        (255, 255, 255)
    }
}

/// The default palette: base colours, a colour cube and a grey ramp.
pub open spec fn default_color(index: u8) -> Rgb {
    if index < 16 {
        base_color(index)
    } else if index < 232 {
        let i = index - 16;
        (cube_step(i / 36) as u8, cube_step(i % 36 / 6) as u8, cube_step(i % 6) as u8)
    } else {
        let gray = (8 + (index - 232) * 10) as u8;
        (gray, gray, gray)
    }
}

/// Step of the colour cube.
fn cube_component(v: u8) -> (c: u8)
    requires
        v < 6,
    ensures
        c == cube_step(v as int),
{
    if v == 0 {
        0
    } else {
        55 + v * 40
    }
}

/// The default palette colour of an index.
pub fn default_256_color(index: u8) -> (color: Rgb)
    ensures
        color == default_color(index),
{
    match index {
        0 => (0, 0, 0),
        1 => (205, 0, 0),
        2 => (0, 205, 0),
        3 => (205, 205, 0),
        4 => (0, 0, 238),
        5 => (205, 0, 205),
        6 => (0, 205, 205),
        7 => (229, 229, 229),
        8 => (127, 127, 127),
        9 => (255, 0, 0),
        10 => (0, 255, 0),
        11 => (255, 255, 0),
        12 => (92, 92, 255),
        13 => (255, 0, 255),
        14 => (0, 255, 255),
        15 => (255, 255, 255),
        _ => {
            if index < 232 {
                let i: u8 = index - 16;
                (cube_component(i / 36), cube_component(i % 36 / 6), cube_component(i % 6))
            } else {
                let gray: u8 = 8 + (index - 232) * 10;
                (gray, gray, gray)
            }
        },
    }
}

} // verus!
