//! Select Graphic Rendition: the colours and attributes of what is written
//! next.

use vstd::prelude::*;

use crate::cell::plain_flags;
use crate::cell::Color;
use crate::cell::StyleFlags;
use crate::cell::UnderlineStyle;
use crate::cell::ATTR_BLINK;
use crate::cell::ATTR_BOLD;
use crate::cell::ATTR_DIM;
use crate::cell::ATTR_HIDDEN;
use crate::cell::ATTR_INVERSE;
use crate::cell::ATTR_ITALIC;
use crate::cell::ATTR_STRIKETHROUGH;
use crate::csi::CsiParam;
use crate::csi::CsiParams;
use crate::state::TerminalState;

verus! {

/// Colours and attributes in force.
#[derive(Clone, Copy, Debug, PartialEq, Eq, Structural)]
pub struct Pen {
    pub fg: Color,
    pub bg: Color,
    pub flags: StyleFlags,
}

/// The pen that a reset selects.
pub open spec fn plain_pen() -> Pen {
    Pen { fg: Color::Default, bg: Color::Default, flags: plain_flags() }
}

/// One of the eight base colours.
pub open spec fn base_named(n: int) -> Color {
    if n == 0 {
        Color::Black
    } else if n == 1 {
        Color::Red
    } else if n == 2 {
        Color::Green
    } else if n == 3 {
        Color::Yellow
    } else if n == 4 {
        Color::Blue
    } else if n == 5 {
        Color::Magenta
    } else if n == 6 {
        Color::Cyan
    } else {
        Color::White
    }
}

/// One of the eight bright colours.
pub open spec fn bright_named(n: int) -> Color {
    if n == 0 {
        Color::BrightBlack
    } else if n == 1 {
        Color::BrightRed
    } else if n == 2 {
        Color::BrightGreen
    } else if n == 3 {
        Color::BrightYellow
    } else if n == 4 {
        Color::BrightBlue
    } else if n == 5 {
        Color::BrightMagenta
    } else if n == 6 {
        Color::BrightCyan
    } else {
        Color::BrightWhite
    }
}

/// One of the eight base colours.
fn base_color_named(n: u16) -> (color: Color)
    ensures
        color == base_named(n as int),
{
    match n {
        0 => Color::Black,
        1 => Color::Red,
        2 => Color::Green,
        3 => Color::Yellow,
        4 => Color::Blue,
        5 => Color::Magenta,
        6 => Color::Cyan,
        _ => Color::White,
    }
}

/// One of the eight bright colours.
fn bright_color_named(n: u16) -> (color: Color)
    ensures
        color == bright_named(n as int),
{
    match n {
        0 => Color::BrightBlack,
        1 => Color::BrightRed,
        2 => Color::BrightGreen,
        3 => Color::BrightYellow,
        4 => Color::BrightBlue,
        5 => Color::BrightMagenta,
        6 => Color::BrightCyan,
        _ => Color::BrightWhite,
    }
}

/// The flags with another underline style.
pub open spec fn underlined(flags: StyleFlags, style: UnderlineStyle) -> StyleFlags {
    StyleFlags { underline_style: style, ..flags }
}

/// The flags without bold and dim.
pub open spec fn normal_weight(flags: StyleFlags) -> StyleFlags {
    flags.spec_with_attr(ATTR_BOLD, false).spec_with_attr(ATTR_DIM, false)
}

/// The flags after a code that concerns attributes; other codes leave them.
pub open spec fn flags_after(flags: StyleFlags, n: u16) -> StyleFlags {
    if n == 1 {
        flags.spec_with_attr(ATTR_BOLD, true)
    } else if n == 2 {
        flags.spec_with_attr(ATTR_DIM, true)
    } else if n == 3 {
        flags.spec_with_attr(ATTR_ITALIC, true)
    } else if n == 4 {
        underlined(flags, UnderlineStyle::Single)
    } else if n == 5 || n == 6 {
        flags.spec_with_attr(ATTR_BLINK, true)
    } else if n == 7 {
        flags.spec_with_attr(ATTR_INVERSE, true)
    } else if n == 8 {
        flags.spec_with_attr(ATTR_HIDDEN, true)
    } else if n == 9 {
        flags.spec_with_attr(ATTR_STRIKETHROUGH, true)
    } else if n == 21 {
        underlined(flags, UnderlineStyle::Double)
    } else if n == 22 {
        normal_weight(flags)
    } else if n == 23 {
        flags.spec_with_attr(ATTR_ITALIC, false)
    } else if n == 24 {
        underlined(flags, UnderlineStyle::Off)
    } else if n == 25 {
        flags.spec_with_attr(ATTR_BLINK, false)
    } else if n == 27 {
        flags.spec_with_attr(ATTR_INVERSE, false)
    } else if n == 28 {
        flags.spec_with_attr(ATTR_HIDDEN, false)
    } else if n == 29 {
        flags.spec_with_attr(ATTR_STRIKETHROUGH, false)
    } else {
        flags
    }
}

/// The pen after a code without arguments.
pub open spec fn pen_after(pen: Pen, n: u16) -> Pen {
    if n == 0 {
        plain_pen()
    } else if 30 <= n <= 37 {
        Pen { fg: base_named(n - 30), ..pen }
    } else if n == 39 {
        Pen { fg: Color::Default, ..pen }
    } else if 40 <= n <= 47 {
        Pen { bg: base_named(n - 40), ..pen }
    } else if n == 49 {
        Pen { bg: Color::Default, ..pen }
    } else if 90 <= n <= 97 {
        Pen { fg: bright_named(n - 90), ..pen }
    } else if 100 <= n <= 107 {
        Pen { bg: bright_named(n - 100), ..pen }
    } else {
        Pen { flags: flags_after(pen.flags, n), ..pen }
    }
}

/// The flags after a code that concerns attributes.
fn style_after(flags: StyleFlags, n: u16) -> (out: StyleFlags)
    ensures
        out == flags_after(flags, n),
{
    let mut out = flags;
    match n {
        1 => out.set_attr(ATTR_BOLD, true),
        2 => out.set_attr(ATTR_DIM, true),
        3 => out.set_attr(ATTR_ITALIC, true),
        4 => out.underline_style = UnderlineStyle::Single,
        5 => out.set_attr(ATTR_BLINK, true),
        6 => out.set_attr(ATTR_BLINK, true),
        7 => out.set_attr(ATTR_INVERSE, true),
        8 => out.set_attr(ATTR_HIDDEN, true),
        9 => out.set_attr(ATTR_STRIKETHROUGH, true),
        21 => out.underline_style = UnderlineStyle::Double,
        22 => {
            out.set_attr(ATTR_BOLD, false);
            out.set_attr(ATTR_DIM, false);
        },
        23 => out.set_attr(ATTR_ITALIC, false),
        24 => out.underline_style = UnderlineStyle::Off,
        25 => out.set_attr(ATTR_BLINK, false),
        27 => out.set_attr(ATTR_INVERSE, false),
        28 => out.set_attr(ATTR_HIDDEN, false),
        29 => out.set_attr(ATTR_STRIKETHROUGH, false),
        _ => {},
    }
    out
}

/// The pen after a code without arguments.
fn plain_code(pen: Pen, n: u16) -> (out: Pen)
    ensures
        out == pen_after(pen, n),
{
    if n == 0 {
        Pen { fg: Color::Default, bg: Color::Default, flags: StyleFlags::plain() }
    } else if 30 <= n && n <= 37 {
        Pen { fg: base_color_named(n - 30), ..pen }
    } else if n == 39 {
        Pen { fg: Color::Default, ..pen }
    } else if 40 <= n && n <= 47 {
        Pen { bg: base_color_named(n - 40), ..pen }
    } else if n == 49 {
        Pen { bg: Color::Default, ..pen }
    } else if 90 <= n && n <= 97 {
        Pen { fg: bright_color_named(n - 90), ..pen }
    } else if 100 <= n && n <= 107 {
        Pen { bg: bright_color_named(n - 100), ..pen }
    } else {
        Pen { flags: style_after(pen.flags, n), ..pen }
    }
}

/// Where the parameters that colons join to the one before `i` end.
pub open spec fn joined_end(params: Seq<CsiParam>, i: int) -> int
    decreases params.len() - i,
{
    if i < params.len() && params[i].colon {
        joined_end(params, i + 1)
    } else {
        i
    }
}

/// Joined parameters do not go beyond the list.
proof fn lemma_joined_end(params: Seq<CsiParam>, i: int)
    requires
        0 <= i <= params.len(),
    ensures
        i <= joined_end(params, i) <= params.len(),
    decreases params.len() - i,
{
    if i < params.len() && params[i].colon {
        lemma_joined_end(params, i + 1);
    }
}

/// A colour component; what does not fit is the largest.
pub open spec fn component(n: u16) -> u8 {
    if n > 255 {
        255
    } else {
        n as u8
    }
}

/// What an extended colour code gives: the colour, where it names one, and
/// where the codes go on.
pub open spec fn extended_color(params: Seq<CsiParam>, i: int) -> (Option<Color>, int) {
    if i + 1 >= params.len() {
        (None, params.len() as int)
    } else if params[i + 1].colon {
        let end = joined_end(params, i + 1);
        let color = if params[i + 1].number == 5 && end >= i + 3 {
            Some(Color::Indexed(component(params[i + 2].number)))
        } else if params[i + 1].number == 2 && end >= i + 6 {
            Some(
                Color::Rgb(
                    component(params[i + 3].number),
                    component(params[i + 4].number),
                    component(params[i + 5].number),
                ),
            )
        } else if params[i + 1].number == 2 && end == i + 5 {
            Some(
                Color::Rgb(
                    component(params[i + 2].number),
                    component(params[i + 3].number),
                    component(params[i + 4].number),
                ),
            )
        } else {
            None
        };
        (color, end)
    } else if params[i + 1].number == 5 {
        if i + 2 < params.len() {
            (Some(Color::Indexed(component(params[i + 2].number))), i + 3)
        } else {
            (None, params.len() as int)
        }
    } else if params[i + 1].number == 2 {
        if i + 4 < params.len() {
            (
                Some(
                    Color::Rgb(
                        component(params[i + 2].number),
                        component(params[i + 3].number),
                        component(params[i + 4].number),
                    ),
                ),
                i + 5,
            )
        } else {
            (None, params.len() as int)
        }
    } else {
        (None, i + 2)
    }
}

/// The underline style of a colon sub-parameter.
pub open spec fn underline_of(n: u16) -> Option<UnderlineStyle> {
    if n == 0 {
        Some(UnderlineStyle::Off)
    } else if n == 1 {
        Some(UnderlineStyle::Single)
    } else if n == 2 {
        Some(UnderlineStyle::Double)
    } else if n == 3 {
        Some(UnderlineStyle::Curly)
    } else if n == 4 {
        Some(UnderlineStyle::Dotted)
    } else if n == 5 {
        Some(UnderlineStyle::Dashed)
    } else {
        None
    }
}

/// The pen after the code at `i`, and where the codes go on.
pub open spec fn pen_step(pen: Pen, params: Seq<CsiParam>, i: int) -> (Pen, int) {
    let n = params[i].number;
    if n == 4 && i + 1 < params.len() && params[i + 1].colon {
        (
            match underline_of(params[i + 1].number) {
                Some(style) => Pen { flags: underlined(pen.flags, style), ..pen },
                None => pen,
            },
            joined_end(params, i + 1),
        )
    } else if n == 38 || n == 48 || n == 58 {
        let found = extended_color(params, i);
        (
            match found.0 {
                Some(color) => if n == 38 {
                    Pen { fg: color, ..pen }
                } else if n == 48 {
                    Pen { bg: color, ..pen }
                } else {
                    pen
                },
                None => pen,
            },
            found.1,
        )
    } else {
        (pen_after(pen, n), joined_end(params, i + 1))
    }
}

/// The pen after the codes from `i` on.
pub open spec fn pen_run(pen: Pen, params: Seq<CsiParam>, i: int) -> Pen
    decreases params.len() - i,
{
    if i < 0 || i >= params.len() {
        pen
    } else {
        let next = pen_step(pen, params, i);
        if next.1 <= i || next.1 > params.len() {
            next.0
        } else {
            pen_run(next.0, params, next.1)
        }
    }
}

/// The pen after a rendition command; one without parameters resets it.
pub open spec fn pen_selected(pen: Pen, params: Seq<CsiParam>) -> Pen {
    if params.len() == 0 {
        plain_pen()
    } else {
        pen_run(pen, params, 0)
    }
}

/// Where joined parameters end.
fn skip_joined(params: &CsiParams, from: usize) -> (end: usize)
    requires
        params.wf(),
        from <= params@.len(),
    ensures
        end == joined_end(params@, from as int),
        from <= end <= params@.len(),
{
    let total: usize = params.len();
    let mut i: usize = from;
    while i < total && params.colon(i)
        invariant
            from <= i <= total,
            total == params@.len(),
            params.wf(),
            joined_end(params@, from as int) == joined_end(params@, i as int),
        decreases total - i,
    {
        i = i + 1;
    }
    i
}

/// A colour component.
fn color_component(n: u16) -> (c: u8)
    ensures
        c == component(n),
{
    if n > 255 {
        255
    } else {
        n as u8
    }
}

/// The colour of three parameters.
fn rgb_at(params: &CsiParams, i: usize) -> (color: Color)
    requires
        i + 2 < params@.len(),
    ensures
        color == Color::Rgb(
            component(params@[i as int].number),
            component(params@[i + 1].number),
            component(params@[i + 2].number),
        ),
{
    let total: usize = params.len();
    assert(i + 2 < total);
    Color::Rgb(
        color_component(params.number(i)),
        color_component(params.number(i + 1)),
        color_component(params.number(i + 2)),
    )
}

/// Reads an extended colour code.
fn read_extended_color(params: &CsiParams, i: usize) -> (found: (Option<Color>, usize))
    requires
        params.wf(),
        i < params@.len(),
    ensures
        found.0 == extended_color(params@, i as int).0,
        found.1 == extended_color(params@, i as int).1,
        i < found.1 <= params@.len(),
{
    let total: usize = params.len();
    if total - i <= 1 {
        return (None, total);
    }
    let kind: u16 = params.number(i + 1);
    if params.colon(i + 1) {
        let end: usize = skip_joined(params, i + 1);
        let color = if kind == 5 && end - i >= 3 {
            Some(Color::Indexed(color_component(params.number(i + 2))))
        } else if kind == 2 && end - i >= 6 {
            Some(rgb_at(params, i + 3))
        } else if kind == 2 && end - i == 5 {
            Some(rgb_at(params, i + 2))
        } else {
            None
        };
        proof {
            lemma_joined_end(params@, i + 2);
        }
        return (color, end);
    }
    if kind == 5 {
        if total - i > 2 {
            (Some(Color::Indexed(color_component(params.number(i + 2)))), i + 3)
        } else {
            (None, total)
        }
    } else if kind == 2 {
        if total - i > 4 {
            (Some(rgb_at(params, i + 2)), i + 5)
        } else {
            (None, total)
        }
    } else {
        (None, i + 2)
    }
}

/// The underline style of a colon sub-parameter.
fn underline_style_of(n: u16) -> (style: Option<UnderlineStyle>)
    ensures
        style == underline_of(n),
{
    match n {
        0 => Some(UnderlineStyle::Off),
        1 => Some(UnderlineStyle::Single),
        2 => Some(UnderlineStyle::Double),
        3 => Some(UnderlineStyle::Curly),
        4 => Some(UnderlineStyle::Dotted),
        5 => Some(UnderlineStyle::Dashed),
        _ => None,
    }
}

/// The pen after the code at `i`.
fn step_pen(pen: Pen, params: &CsiParams, i: usize) -> (next: (Pen, usize))
    requires
        params.wf(),
        i < params@.len(),
    ensures
        next.0 == pen_step(pen, params@, i as int).0,
        next.1 == pen_step(pen, params@, i as int).1,
        i < next.1 <= params@.len(),
{
    let total: usize = params.len();
    let n: u16 = params.number(i);
    if n == 4 && total - i > 1 && params.colon(i + 1) {
        let out = match underline_style_of(params.number(i + 1)) {
            Some(style) => Pen {
                flags: StyleFlags { underline_style: style, ..pen.flags },
                ..pen
            },
            None => pen,
        };
        (out, skip_joined(params, i + 1))
    } else if n == 38 || n == 48 || n == 58 {
        let (color, end) = read_extended_color(params, i);
        let out = match color {
            Some(color) => if n == 38 {
                Pen { fg: color, ..pen }
            } else if n == 48 {
                Pen { bg: color, ..pen }
            } else {
                pen
            },
            None => pen,
        };
        (out, end)
    } else {
        (plain_code(pen, n), skip_joined(params, i + 1))
    }
}

/// The pen after a rendition command.
pub fn select_pen(pen: Pen, params: &CsiParams) -> (out: Pen)
    requires
        params.wf(),
    ensures
        out == pen_selected(pen, params@),
{
    let total: usize = params.len();
    if total == 0 {
        return Pen { fg: Color::Default, bg: Color::Default, flags: StyleFlags::plain() };
    }
    let mut out = pen;
    let mut i: usize = 0;
    while i < total
        invariant
            i <= total,
            total == params@.len(),
            params.wf(),
            pen_run(pen, params@, 0) == pen_run(out, params@, i as int),
        decreases total - i,
    {
        let (next, end) = step_pen(out, params, i);
        out = next;
        i = end;
    }
    out
}

/// The pen in force.
pub open spec fn pen_of(state: TerminalState) -> Pen {
    Pen { fg: state.current_fg, bg: state.current_bg, flags: state.current_flags }
}

/// `post` is `pre` with another pen in force.
pub open spec fn pen_changed(pre: TerminalState, pen: Pen, post: TerminalState) -> bool {
    &&& pen_of(post) == pen
    &&& post == TerminalState {
        current_fg: post.current_fg,
        current_bg: post.current_bg,
        current_flags: post.current_flags,
        ..pre
    }
}

impl TerminalState {
    /// Carries out a rendition command.
    pub fn apply_sgr(&mut self, params: &CsiParams)
        requires
            old(self).core_wf(),
            params.wf(),
        ensures
            final(self).core_wf(),
            pen_changed(*old(self), pen_selected(pen_of(*old(self)), params@), *final(self)),
    {
        let pen = select_pen(
            Pen { fg: self.current_fg, bg: self.current_bg, flags: self.current_flags },
            params,
        );
        self.current_fg = pen.fg;
        self.current_bg = pen.bg;
        self.current_flags = pen.flags;
    }
}

} // verus!
