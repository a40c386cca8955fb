//! How characters look: their widths, glyphs, colours and attributes.

use vstd::prelude::*;

use crate::cell::char_width;
use crate::cell::Color;
use crate::cell::StyleFlags;
use crate::cell::UnderlineStyle;
use crate::colors::default_256_color;
use crate::colors::Rgb;
use crate::control::csi_performed;
use crate::control_laws::is_sequence;
use crate::csi::CsiModel;
use crate::csi::CsiParam;
use crate::lifecycle::ClockReading;
use crate::pen::joined_end;
use crate::pen::pen_after;
use crate::pen::pen_of;
use crate::pen::pen_run;
use crate::pen::pen_selected;
use crate::pen::Pen;
use crate::state::Charset;
use crate::state::TerminalState;

verus! {

/// Combining marks, joiners, marks of direction and variation selectors take no
/// column; Hangul, kana, ideographs, full-width forms and the pictures of the
/// supplementary plane take two; every other character takes one.
pub proof fn widths_follow_the_script(c: char, width: usize)
    requires
        call_ensures(char_width, (c,), width),
    ensures
        width <= 2,
        ' ' <= c <= '\u{2ff}' ==> width == 1,
        '\u{370}' <= c <= '\u{482}' ==> width == 1,
        '\u{300}' <= c <= '\u{36f}' ==> width == 0,
        '\u{483}' <= c <= '\u{489}' || '\u{591}' <= c <= '\u{5bd}' || '\u{610}' <= c <= '\u{61a}'
            || '\u{64b}' <= c <= '\u{65f}' ==> width == 0,
        '\u{1ab0}' <= c <= '\u{1aff}' || '\u{1dc0}' <= c <= '\u{1dff}' || '\u{20d0}' <= c
            <= '\u{20ff}' || '\u{fe20}' <= c <= '\u{fe2f}' ==> width == 0,
        '\u{200b}' <= c <= '\u{200f}' || '\u{202a}' <= c <= '\u{202e}' || '\u{2060}' <= c
            <= '\u{2064}' || c == '\u{feff}' ==> width == 0,
        '\u{fe00}' <= c <= '\u{fe0f}' || '\u{e0100}' <= c <= '\u{e01ef}' ==> width == 0,
        '\u{302a}' <= c <= '\u{302d}' || '\u{3099}' <= c <= '\u{309a}' ==> width == 0,
        '\u{1100}' <= c <= '\u{115f}' || '\u{ac00}' <= c <= '\u{d7a3}' ==> width == 2,
        '\u{2e80}' <= c <= '\u{3029}' || '\u{302e}' <= c <= '\u{303e}' ==> width == 2,
        '\u{3041}' <= c <= '\u{3098}' || '\u{309b}' <= c <= '\u{33ff}' ==> width == 2,
        '\u{3400}' <= c <= '\u{4dbf}' || '\u{4e00}' <= c <= '\u{9fff}' || '\u{f900}' <= c
            <= '\u{faff}' || '\u{20000}' <= c <= '\u{3fffd}' ==> width == 2,
        '\u{a000}' <= c <= '\u{a4cf}' || '\u{fe30}' <= c <= '\u{fe4f}' ==> width == 2,
        '\u{ff00}' <= c <= '\u{ff60}' || '\u{ffe0}' <= c <= '\u{ffe6}' ==> width == 2,
        '\u{1f300}' <= c <= '\u{1f64f}' || '\u{1f900}' <= c <= '\u{1f9ff}' ==> width == 2,
        '\u{1160}' <= c <= '\u{1aaf}' || '\u{1b00}' <= c <= '\u{1dbf}' || '\u{1e00}' <= c
            <= '\u{200a}' || '\u{2010}' <= c <= '\u{2029}' || '\u{2100}' <= c <= '\u{2e7f}'
            ==> width == 1,
        '\u{a4d0}' <= c <= '\u{abff}' || '\u{e000}' <= c <= '\u{f8ff}' || '\u{ff61}' <= c
            <= '\u{ffdf}' || '\u{10000}' <= c <= '\u{1f2ff}' || '\u{1f650}' <= c <= '\u{1f8ff}'
            ==> width == 1,
{
}

/// The ASCII set shows every character as it is. The graphics set shows lines,
/// corners and signs in place of the characters from the backquote to the tilde
/// and every other character as it is.
pub proof fn character_sets_show_lines(state: TerminalState, ch: char, shown: char)
    requires
        call_ensures(TerminalState::translate_char, (&state, ch), shown),
    ensures
        state.active_charset == Charset::Ascii ==> shown == ch,
        state.active_charset == Charset::DecSpecialGraphics ==> {
            &&& ch < '`' || ch > '~' || 'b' <= ch <= 'e' || 'h' <= ch <= 'i' ==> shown == ch
            &&& ch == 'j' ==> shown == '┘'
            &&& ch == 'k' ==> shown == '┐'
            &&& ch == 'l' ==> shown == '┌'
            &&& ch == 'm' ==> shown == '└'
            &&& ch == 'n' ==> shown == '┼'
            &&& ch == 'q' ==> shown == '─'
            &&& ch == 'x' ==> shown == '│'
            &&& ch == 't' ==> shown == '├'
            &&& ch == 'u' ==> shown == '┤'
            &&& ch == 'v' ==> shown == '┴'
            &&& ch == 'w' ==> shown == '┬'
            &&& ch == 'o' ==> shown == '⎺'
            &&& ch == 'p' ==> shown == '⎻'
            &&& ch == 'r' ==> shown == '⎼'
            &&& ch == 's' ==> shown == '⎽'
            &&& ch == '`' ==> shown == '◆'
            &&& ch == 'a' ==> shown == '▒'
            &&& ch == 'f' ==> shown == '°'
            &&& ch == 'g' ==> shown == '±'
            &&& ch == 'y' ==> shown == '≤'
            &&& ch == 'z' ==> shown == '≥'
            &&& ch == '{' ==> shown == 'π'
            &&& ch == '|' ==> shown == '≠'
            &&& ch == '}' ==> shown == '£'
            &&& ch == '~' ==> shown == '·'
        },
{
}

/// The palette has its sixteen named colours first, then a cube of six steps of
/// red, green and blue, and last a ramp of greys that grows by ten.
pub proof fn palette_is_a_cube_and_a_ramp(index: u8, color: Rgb)
    requires
        call_ensures(default_256_color, (index,), color),
    ensures
        forall|r: int, g: int, b: int|
            0 <= r < 6 && 0 <= g < 6 && 0 <= b < 6 && index == 16 + 36 * r + 6 * g + b ==> (
            #[trigger] steps(r, g, b)) == (color.0 as int, color.1 as int, color.2 as int),
        index >= 232 ==> color.0 == 8 + 10 * (index - 232) && color.1 == color.0 && color.2
            == color.0,
        index == 0 ==> color == (0u8, 0u8, 0u8),
        index == 1 ==> color == (205u8, 0u8, 0u8),
        index == 2 ==> color == (0u8, 205u8, 0u8),
        index == 3 ==> color == (205u8, 205u8, 0u8),
        index == 4 ==> color == (0u8, 0u8, 238u8),
        index == 5 ==> color == (205u8, 0u8, 205u8),
        index == 6 ==> color == (0u8, 205u8, 205u8),
        index == 7 ==> color == (229u8, 229u8, 229u8),
        index == 8 ==> color == (127u8, 127u8, 127u8),
        index == 9 ==> color == (255u8, 0u8, 0u8),
        index == 10 ==> color == (0u8, 255u8, 0u8),
        index == 11 ==> color == (255u8, 255u8, 0u8),
        index == 12 ==> color == (92u8, 92u8, 255u8),
        index == 13 ==> color == (255u8, 0u8, 255u8),
        index == 14 ==> color == (0u8, 255u8, 255u8),
        index == 15 ==> color == (255u8, 255u8, 255u8),
{
    assert forall|r: int, g: int, b: int|
        0 <= r < 6 && 0 <= g < 6 && 0 <= b < 6 && index == 16 + 36 * r + 6 * g + b implies (
    #[trigger] steps(r, g, b)) == (color.0 as int, color.1 as int, color.2 as int) by {
        let i = index - 16;
        assert(i / 36 == r && i % 36 / 6 == g && i % 6 == b);
    }
}

/// The levels of the six steps of the colour cube, for three components.
pub open spec fn steps(r: int, g: int, b: int) -> (int, int, int) {
    let levels = |v: int|
        if v == 0 {
            0int
        } else {
            95 + 40 * (v - 1)
        };
    (levels(r), levels(g), levels(b))
}

/// The attributes that rendition codes switch, by their bits.
pub open spec fn attribute(flags: StyleFlags, bit: u8) -> bool {
    flags.attrs & bit != 0
}

/// Switching an attribute switches no other.
proof fn lemma_attribute(flags: StyleFlags, bit: u8, on: bool, other: u8)
    requires
        bit == 1 || bit == 2 || bit == 4 || bit == 8 || bit == 16 || bit == 32 || bit == 64,
        other == 1 || other == 2 || other == 4 || other == 8 || other == 16 || other == 32 || other
            == 64,
    ensures
        attribute(flags.spec_with_attr(bit, on), other) == if other == bit {
            on
        } else {
            attribute(flags, other)
        },
{
    let x = flags.attrs;
    assert((x | bit) & bit != 0 && (x & !bit) & bit == 0) by (bit_vector)
        requires
            bit == 1 || bit == 2 || bit == 4 || bit == 8 || bit == 16 || bit == 32 || bit == 64,
    ;
    if bit != other {
        assert((x | bit) & other == x & other && (x & !bit) & other == x & other) by (bit_vector)
            requires
                bit == 1 || bit == 2 || bit == 4 || bit == 8 || bit == 16 || bit == 32 || bit == 64,
                other == 1 || other == 2 || other == 4 || other == 8 || other == 16 || other == 32
                    || other == 64,
                bit != other,
        ;
    }
}

/// The attribute that a code switches on, and the one that its counterpart
/// switches off: bold, dim, italic, blinking, inverse, hidden and struck out.
pub open spec fn attribute_of(code: int) -> u8 {
    if code == 1 {
        1
    } else if code == 2 {
        2
    } else if code == 3 || code == 23 {
        4
    } else if code == 5 || code == 6 || code == 25 {
        8
    } else if code == 7 || code == 27 {
        16
    } else if code == 8 || code == 28 {
        32
    } else if code == 9 || code == 29 {
        64
    } else {
        0
    }
}

/// Whether a rendition command has the one code `n`.
pub open spec fn is_rendition(command: CsiModel, n: int) -> bool {
    &&& is_sequence(command, 'm')
    &&& command.params.len() == 1
    &&& command.params[0].number == n
}

/// The codes 1 to 9 switch an attribute on and 23 to 29 switch it off again, 22
/// bold and dim; none of them touches another attribute or a colour.
pub proof fn codes_switch_attributes(
    pre: TerminalState,
    command: CsiModel,
    n: int,
    now: ClockReading,
    post: TerminalState,
    other: u8,
)
    requires
        is_rendition(command, n),
        1 <= n <= 29,
        other == 1 || other == 2 || other == 4 || other == 8 || other == 16 || other == 32 || other
            == 64,
        csi_performed(pre, command, now, post),
    ensures
        post.current_fg == pre.current_fg && post.current_bg == pre.current_bg,
        attribute(post.current_flags, other) == if attribute_of(n) == other {
            n < 10
        } else if n == 22 && (other == 1 || other == 2) {
            false
        } else {
            attribute(pre.current_flags, other)
        },
        post.current_flags.underline_style == if n == 4 {
            UnderlineStyle::Single
        } else if n == 21 {
            UnderlineStyle::Double
        } else if n == 24 {
            UnderlineStyle::Off
        } else {
            pre.current_flags.underline_style
        },
        post.grid == pre.grid && post.cursor_col == pre.cursor_col && post.cursor_row
            == pre.cursor_row,
{
    lemma_single(pre, command, now, post);
    let flags = pre.current_flags;
    let bit = attribute_of(n);
    if bit != 0 {
        lemma_attribute(flags, bit, n < 10, other);
    } else if n == 22 {
        lemma_attribute(flags, 1, false, other);
        lemma_attribute(flags.spec_with_attr(1, false), 2, false, other);
    }
}

/// A command with one code does what the code does.
proof fn lemma_single(
    pre: TerminalState,
    command: CsiModel,
    now: ClockReading,
    post: TerminalState,
)
    requires
        is_sequence(command, 'm'),
        command.params.len() == 1,
        command.params[0].number != 38,
        command.params[0].number != 48,
        command.params[0].number != 58,
        csi_performed(pre, command, now, post),
    ensures
        pen_of(post) == pen_after(pen_of(pre), command.params[0].number),
        post == (TerminalState {
            current_fg: post.current_fg,
            current_bg: post.current_bg,
            current_flags: post.current_flags,
            ..pre
        }),
{
    let params = command.params;
    assert(joined_end(params, 1) == 1);
    reveal_with_fuel(pen_run, 3);
}

/// The codes 30 to 37 choose the foreground among the eight base colours, 90 to
/// 97 among the bright ones, 40 to 47 and 100 to 107 the background; 39 and 49
/// bring the default back, and 0 and no code at all everything.
pub proof fn codes_choose_colours(
    pre: TerminalState,
    command: CsiModel,
    n: int,
    now: ClockReading,
    post: TerminalState,
)
    requires
        is_rendition(command, n) || (is_sequence(command, 'm') && command.params.len() == 0 && n
            == 0),
        n == 0 || 30 <= n <= 37 || n == 39 || 40 <= n <= 47 || n == 49 || 90 <= n <= 107,
        csi_performed(pre, command, now, post),
    ensures
        ({
            let front = 30 <= n <= 39 || 90 <= n <= 97;
            let back = 40 <= n <= 49 || 100 <= n <= 107;
            let color = if front {
                post.current_fg
            } else {
                post.current_bg
            };
            &&& n == 0 ==> post.current_fg == Color::Default && post.current_bg == Color::Default
                && post.current_flags.attrs == 0 && post.current_flags.underline_style
                == UnderlineStyle::Off
            &&& n != 0 ==> post.current_flags == pre.current_flags
            &&& front ==> post.current_bg == pre.current_bg
            &&& back ==> post.current_fg == pre.current_fg
            &&& 98 <= n <= 99 ==> post == pre
            &&& n == 39 || n == 49 ==> color == Color::Default
            &&& n == 30 || n == 40 ==> color == Color::Black
            &&& n == 31 || n == 41 ==> color == Color::Red
            &&& n == 32 || n == 42 ==> color == Color::Green
            &&& n == 33 || n == 43 ==> color == Color::Yellow
            &&& n == 34 || n == 44 ==> color == Color::Blue
            &&& n == 35 || n == 45 ==> color == Color::Magenta
            &&& n == 36 || n == 46 ==> color == Color::Cyan
            &&& n == 37 || n == 47 ==> color == Color::White
            &&& n == 90 || n == 100 ==> color == Color::BrightBlack
            &&& n == 91 || n == 101 ==> color == Color::BrightRed
            &&& n == 92 || n == 102 ==> color == Color::BrightGreen
            &&& n == 93 || n == 103 ==> color == Color::BrightYellow
            &&& n == 94 || n == 104 ==> color == Color::BrightBlue
            &&& n == 95 || n == 105 ==> color == Color::BrightMagenta
            &&& n == 96 || n == 106 ==> color == Color::BrightCyan
            &&& n == 97 || n == 107 ==> color == Color::BrightWhite
        }),
{
    if command.params.len() == 1 {
        lemma_single(pre, command, now, post);
    }
}

/// The codes `38;5;i` and `38;2;r;g;b`, with semicolons or with colons, choose the
/// foreground by its number or by its components, and those with 48 the
/// background. Components beyond 255 count as 255.
pub proof fn codes_choose_extended_colours(
    pre: TerminalState,
    command: CsiModel,
    now: ClockReading,
    post: TerminalState,
)
    requires
        is_sequence(command, 'm'),
        csi_performed(pre, command, now, post),
        ({
            let p = command.params;
            &&& p.len() == 3 && p[1].number == 5 || p.len() == 5 && p[1].number == 2
            &&& p[0].number == 38 || p[0].number == 48
            &&& forall|i: int| 1 < i < p.len() ==> (#[trigger] p[i]).colon == p[1].colon
        }),
    ensures
        ({
            let p = command.params;
            let color = if p[0].number == 38 {
                post.current_fg
            } else {
                post.current_bg
            };
            let limited = |n: int|
                if n > 255 {
                    255int
                } else {
                    n
                };
            &&& p[0].number == 38 ==> post.current_bg == pre.current_bg
            &&& p[0].number == 48 ==> post.current_fg == pre.current_fg
            &&& post.current_flags == pre.current_flags
            &&& p.len() == 3 ==> color == Color::Indexed(limited(p[2].number as int) as u8)
            &&& p.len() == 5 ==> color == Color::Rgb(
                limited(p[2].number as int) as u8,
                limited(p[3].number as int) as u8,
                limited(p[4].number as int) as u8,
            )
        }),
{
    let p = command.params;
    if p[1].colon {
        assert(p[2].colon);
        if p.len() == 5 {
            assert(p[3].colon && p[4].colon);
        }
        reveal_with_fuel(joined_end, 6);
    }
    reveal_with_fuel(pen_run, 3);
}

/// Whether a code stands for itself: nothing behind it belongs to it.
pub open spec fn stands_alone(p: CsiParam) -> bool {
    !p.colon && p.number != 38 && p.number != 48 && p.number != 58
}

/// Running codes that stand alone goes code by code.
proof fn lemma_run_joins(pen: Pen, a: Seq<CsiParam>, b: Seq<CsiParam>, i: int)
    requires
        0 <= i <= a.len(),
        forall|k: int| 0 <= k < a.len() ==> stands_alone(#[trigger] a[k]),
        forall|k: int| 0 <= k < b.len() ==> stands_alone(#[trigger] b[k]),
    ensures
        pen_run(pen, a + b, i) == pen_run(pen_run(pen, a, i), b, 0),
    decreases a.len() - i,
{
    let all = a + b;
    if i < a.len() {
        assert(all[i] == a[i]);
        if i + 1 < all.len() {
            assert(!all[i + 1].colon) by {
                if i + 1 < a.len() {
                    assert(all[i + 1] == a[i + 1]);
                } else {
                    assert(all[i + 1] == b[i + 1 - a.len()]);
                }
            }
        }
        assert(joined_end(all, i + 1) == i + 1);
        if i + 1 < a.len() {
            assert(stands_alone(a[i + 1]));
        }
        assert(joined_end(a, i + 1) == i + 1);
        let next = pen_after(pen, a[i].number);
        lemma_run_joins(next, a, b, i + 1);
        assert(pen_run(pen, all, i) == pen_run(next, all, i + 1));
        assert(pen_run(pen, a, i) == pen_run(next, a, i + 1));
    } else {
        lemma_run_shifted(pen, a, b, 0);
    }
}

/// Running codes behind others is running them alone.
proof fn lemma_run_shifted(pen: Pen, a: Seq<CsiParam>, b: Seq<CsiParam>, i: int)
    requires
        0 <= i <= b.len(),
        forall|k: int| 0 <= k < b.len() ==> stands_alone(#[trigger] b[k]),
    ensures
        pen_run(pen, a + b, a.len() + i) == pen_run(pen, b, i),
    decreases b.len() - i,
{
    let all = a + b;
    let n = a.len() as int;
    if i < b.len() {
        assert(all[n + i] == b[i]);
        if i + 1 < b.len() {
            assert(all[n + i + 1] == b[i + 1]);
            assert(stands_alone(b[i + 1]));
        }
        assert(joined_end(all, n + i + 1) == n + i + 1);
        assert(joined_end(b, i + 1) == i + 1);
        let next = pen_after(pen, b[i].number);
        lemma_run_shifted(next, a, b, i + 1);
        assert(pen_run(pen, all, n + i) == pen_run(next, all, n + i + 1));
        assert(pen_run(pen, b, i) == pen_run(next, b, i + 1));
    }
}

/// A command with several codes does what commands with one part of them and
/// then the other do.
pub proof fn codes_work_one_after_the_other(pen: Pen, a: Seq<CsiParam>, b: Seq<CsiParam>)
    requires
        a.len() > 0,
        b.len() > 0,
        forall|k: int| 0 <= k < a.len() ==> stands_alone(#[trigger] a[k]),
        forall|k: int| 0 <= k < b.len() ==> stands_alone(#[trigger] b[k]),
    ensures
        pen_selected(pen, a + b) == pen_selected(pen_selected(pen, a), b),
{
    lemma_run_joins(pen, a, b, 0);
}

} // verus!
