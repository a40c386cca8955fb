//! Cells: colours, style flags, hyperlink references and display widths.

use vstd::prelude::*;

verus! {

/// A cell colour: the terminal default, one of the sixteen named ANSI
/// colours, a palette index or a direct RGB value.
#[derive(Clone, Copy, Debug, PartialEq, Eq, Structural)]
pub enum Color {
    Default,
    Black,
    Red,
    Green,
    Yellow,
    Blue,
    Magenta,
    Cyan,
    White,
    BrightBlack,
    BrightRed,
    BrightGreen,
    BrightYellow,
    BrightBlue,
    BrightMagenta,
    BrightCyan,
    BrightWhite,
    Indexed(u8),
    Rgb(u8, u8, u8),
}

/// Underline styles selectable by SGR 4 and its colon sub-parameters.
#[derive(Clone, Copy, Debug, PartialEq, Eq, Structural)]
pub enum UnderlineStyle {
    Off,
    Single,
    Double,
    Curly,
    Dotted,
    Dashed,
}

/// Part of a cell in the width of its character.
#[derive(Clone, Copy, Debug, PartialEq, Eq, Structural)]
pub enum CellRole {
    /// A character of one column.
    Single,
    /// The left half of a double-width character, which holds it.
    Wide,
    /// The right half of a double-width character.
    Continuation,
}

/// SGR 1.
pub const ATTR_BOLD: u8 = 1;

/// SGR 2.
pub const ATTR_DIM: u8 = 2;

/// SGR 3.
pub const ATTR_ITALIC: u8 = 4;

/// SGR 5.
pub const ATTR_BLINK: u8 = 8;

/// SGR 7.
pub const ATTR_INVERSE: u8 = 16;

/// SGR 8.
pub const ATTR_HIDDEN: u8 = 32;

/// SGR 9.
pub const ATTR_STRIKETHROUGH: u8 = 64;

/// Rendering attributes of a cell, one bit each, its underline style and its
/// part in a double-width pair.
#[derive(Clone, Copy, Debug, PartialEq, Eq, Structural)]
pub struct StyleFlags {
    pub attrs: u8,
    pub underline_style: UnderlineStyle,
    pub role: CellRole,
}

/// Flags of a plain, single-width cell.
pub open spec fn plain_flags() -> StyleFlags {
    StyleFlags { attrs: 0, underline_style: UnderlineStyle::Off, role: CellRole::Single }
}

impl StyleFlags {
    /// No attribute set.
    pub fn plain() -> (flags: StyleFlags)
        ensures
            flags == plain_flags(),
    {
        StyleFlags { attrs: 0, underline_style: UnderlineStyle::Off, role: CellRole::Single }
    }

    /// Whether an attribute bit is set.
    pub open spec fn spec_has(self, attr: u8) -> bool {
        self.attrs & attr != 0
    }

    /// Whether an attribute bit is set.
    pub fn has(&self, attr: u8) -> (set: bool)
        ensures
            set == self.spec_has(attr),
    {
        self.attrs & attr != 0
    }

    /// The flags with an attribute switched.
    pub open spec fn spec_with_attr(self, attr: u8, on: bool) -> StyleFlags {
        StyleFlags {
            attrs: if on {
                self.attrs | attr
            } else {
                self.attrs & !attr
            },
            ..self
        }
    }

    /// Switches an attribute.
    pub fn set_attr(&mut self, attr: u8, on: bool)
        ensures
            *final(self) == old(self).spec_with_attr(attr, on),
    {
        self.attrs = if on {
            self.attrs | attr
        } else {
            self.attrs & !attr
        };
    }

    /// The same attributes in another width role.
    pub open spec fn spec_with_role(self, role: CellRole) -> StyleFlags {
        StyleFlags { role, ..self }
    }

    /// The same attributes in another width role.
    pub fn with_role(self, role: CellRole) -> (flags: StyleFlags)
        ensures
            flags == self.spec_with_role(role),
    {
        StyleFlags { role, ..self }
    }

    /// Whether the cell is the left half of a double-width character.
    pub open spec fn spec_wide(self) -> bool {
        self.role == CellRole::Wide
    }

    /// Whether the cell is the left half of a double-width character.
    pub fn wide(&self) -> (yes: bool)
        ensures
            yes == self.spec_wide(),
    {
        self.role == CellRole::Wide
    }

    /// Whether the cell is the right half of a double-width character.
    pub open spec fn spec_continuation(self) -> bool {
        self.role == CellRole::Continuation
    }

    /// Whether the cell is the right half of a double-width character.
    pub fn wide_continuation(&self) -> (yes: bool)
        ensures
            yes == self.spec_continuation(),
    {
        self.role == CellRole::Continuation
    }

    /// How the cell is underlined.
    pub fn underline(&self) -> (style: UnderlineStyle)
        ensures
            style == self.underline_style,
    {
        self.underline_style
    }

    /// Whether the cell is bold.
    pub fn bold(&self) -> (yes: bool)
        ensures
            yes == self.spec_has(ATTR_BOLD),
    {
        self.has(ATTR_BOLD)
    }

    /// Whether the cell is dim.
    pub fn dim(&self) -> (yes: bool)
        ensures
            yes == self.spec_has(ATTR_DIM),
    {
        self.has(ATTR_DIM)
    }

    /// Whether the cell is shown with its colours exchanged.
    pub fn inverse(&self) -> (yes: bool)
        ensures
            yes == self.spec_has(ATTR_INVERSE),
    {
        self.has(ATTR_INVERSE)
    }
}

/// Compact reference to an interned hyperlink target; zero means no link.
#[derive(Clone, Copy, Debug, PartialEq, Eq, Structural)]
pub struct HyperlinkId {
    pub raw: u32,
}

/// The reference carried by cells without a link.
pub open spec fn no_hyperlink() -> HyperlinkId {
    HyperlinkId { raw: 0 }
}

impl HyperlinkId {
    /// The reference carried by cells without a link.
    pub fn none() -> (id: HyperlinkId)
        ensures
            id == no_hyperlink(),
    {
        HyperlinkId { raw: 0 }
    }

    /// The reference with a given number.
    pub fn from_raw(raw: u32) -> (id: HyperlinkId)
        ensures
            id == (HyperlinkId { raw }),
    {
        HyperlinkId { raw }
    }

    /// Whether there is no link.
    pub fn is_none(&self) -> (yes: bool)
        ensures
            yes == (*self == no_hyperlink()),
    {
        self.raw == 0
    }
}

/// One character cell of the screen.
#[derive(Clone, Copy, Debug, PartialEq, Eq, Structural)]
pub struct TerminalCell {
    pub character: char,
    pub foreground: Color,
    pub background: Color,
    pub flags: StyleFlags,
    pub hyperlink_id: HyperlinkId,
}

/// A space on background `bg`, with every other attribute at its default.
pub open spec fn blank_cell(bg: Color) -> TerminalCell {
    TerminalCell {
        character: ' ',
        foreground: Color::Default,
        background: bg,
        flags: plain_flags(),
        hyperlink_id: no_hyperlink(),
    }
}

impl Default for TerminalCell {
    /// A space on the default background.
    fn default() -> (cell: TerminalCell)
        ensures
            cell == blank_cell(Color::Default),
    {
        TerminalCell::blank(Color::Default)
    }
}

impl TerminalCell {
    /// A space on background `bg`.
    pub fn blank(bg: Color) -> (cell: TerminalCell)
        ensures
            cell == blank_cell(bg),
    {
        TerminalCell {
            character: ' ',
            foreground: Color::Default,
            background: bg,
            flags: StyleFlags::plain(),
            hyperlink_id: HyperlinkId::none(),
        }
    }

    /// A trailing cell that carries nothing worth keeping when lines reflow.
    pub open spec fn spec_is_reflow_trimmable_blank(self) -> bool {
        &&& self.character == ' '
        &&& self.background == Color::Default
        &&& self.hyperlink_id == no_hyperlink()
        &&& self.flags.role == CellRole::Single
    }

    /// A trailing cell that carries nothing worth keeping when lines reflow.
    pub fn is_reflow_trimmable_blank(&self) -> (yes: bool)
        ensures
            yes == self.spec_is_reflow_trimmable_blank(),
    {
        self.character == ' ' && self.background == Color::Default && self.hyperlink_id
            == HyperlinkId::none() && self.flags.role == CellRole::Single
    }
}

/// Zero-width code points: combining marks, joiners and variation selectors.
pub open spec fn is_zero_width(c: char) -> bool {
    let v = c as u32;
    ||| 0x0300 <= v <= 0x036f
    ||| 0x0483 <= v <= 0x0489
    ||| 0x0591 <= v <= 0x05bd
    ||| 0x0610 <= v <= 0x061a
    ||| 0x064b <= v <= 0x065f
    ||| 0x1ab0 <= v <= 0x1aff
    ||| 0x1dc0 <= v <= 0x1dff
    ||| 0x200b <= v <= 0x200f
    ||| 0x202a <= v <= 0x202e
    ||| 0x2060 <= v <= 0x2064
    ||| 0x20d0 <= v <= 0x20ff
    ||| 0x302a <= v <= 0x302d
    ||| 0x3099 <= v <= 0x309a
    ||| 0xfe00 <= v <= 0xfe0f
    ||| 0xfe20 <= v <= 0xfe2f
    ||| v == 0xfeff
    ||| 0xe0100 <= v <= 0xe01ef
}

/// Code points drawn two columns wide.
pub open spec fn is_double_width(c: char) -> bool {
    let v = c as u32;
    ||| 0x1100 <= v <= 0x115f
    ||| 0x2e80 <= v <= 0x303e
    ||| 0x3041 <= v <= 0x33ff
    ||| 0x3400 <= v <= 0x4dbf
    ||| 0x4e00 <= v <= 0x9fff
    ||| 0xa000 <= v <= 0xa4cf
    ||| 0xac00 <= v <= 0xd7a3
    ||| 0xf900 <= v <= 0xfaff
    ||| 0xfe30 <= v <= 0xfe4f
    ||| 0xff00 <= v <= 0xff60
    ||| 0xffe0 <= v <= 0xffe6
    ||| 0x1f300 <= v <= 0x1f64f
    ||| 0x1f900 <= v <= 0x1f9ff
    ||| 0x20000 <= v <= 0x3fffd
}

/// Number of columns a printed character occupies.
pub open spec fn spec_char_width(c: char) -> int {
    if is_zero_width(c) {
        0
    } else if is_double_width(c) {
        2
    } else {
        1
    }
}

/// Number of columns a printed character occupies.
pub fn char_width(c: char) -> (width: usize)
    ensures
        width == spec_char_width(c),
        width <= 2,
{
    let v: u32 = c as u32;
    if (0x0300 <= v && v <= 0x036f) || (0x0483 <= v && v <= 0x0489) || (0x0591 <= v && v <= 0x05bd)
        || (0x0610 <= v && v <= 0x061a) || (0x064b <= v && v <= 0x065f) || (0x1ab0 <= v && v
        <= 0x1aff) || (0x1dc0 <= v && v <= 0x1dff) || (0x200b <= v && v <= 0x200f) || (0x202a <= v
        && v <= 0x202e) || (0x2060 <= v && v <= 0x2064) || (0x20d0 <= v && v <= 0x20ff) || (0x302a
        <= v && v <= 0x302d) || (0x3099 <= v && v <= 0x309a) || (0xfe00 <= v && v <= 0xfe0f) || (
    0xfe20 <= v && v <= 0xfe2f) || v == 0xfeff || (0xe0100 <= v && v <= 0xe01ef) {
        0
    } else if (0x1100 <= v && v <= 0x115f) || (0x2e80 <= v && v <= 0x303e) || (0x3041 <= v && v
        <= 0x33ff) || (0x3400 <= v && v <= 0x4dbf) || (0x4e00 <= v && v <= 0x9fff) || (0xa000 <= v
        && v <= 0xa4cf) || (0xac00 <= v && v <= 0xd7a3) || (0xf900 <= v && v <= 0xfaff) || (0xfe30
        <= v && v <= 0xfe4f) || (0xff00 <= v && v <= 0xff60) || (0xffe0 <= v && v <= 0xffe6) || (
    0x1f300 <= v && v <= 0x1f64f) || (0x1f900 <= v && v <= 0x1f9ff) || (0x20000 <= v && v
        <= 0x3fffd) {
        2
    } else {
        1
    }
}

/// Whether each right half of a double-width character stands directly behind
/// a left half, and a left half neither before another one nor, where there is
/// room for both halves, at the right edge.
pub open spec fn paired(cells: Seq<TerminalCell>) -> bool {
    &&& forall|i: int, j: int|
        #![trigger cells[i], cells[j]]
        0 <= i && j == i + 1 && j < cells.len() ==> halves_fit(cells[i], cells[j])
    &&& cells.len() > 0 ==> !cells[0].flags.spec_continuation()
    &&& cells.len() > 1 ==> !cells[cells.len() - 1].flags.spec_wide()
}

/// Whether two cells may stand side by side: a right half needs its left half,
/// and two left halves do not fit.
pub open spec fn halves_fit(left: TerminalCell, right: TerminalCell) -> bool {
    &&& right.flags.spec_continuation() ==> left.flags.spec_wide()
    &&& left.flags.spec_wide() ==> !right.flags.spec_wide()
}

} // verus!
