//! What the terminal keeps for its host: titles, colours, hyperlinks,
//! notifications, and replies on their way back to the application.

use vstd::prelude::*;
use vstd::utf8::decode_utf8;
use vstd::utf8::encode_utf8;
use vstd::utf8::valid_utf8;

use crate::bounded_text::lemma_utf8_len_add;
use crate::bounded_text::lemma_utf8_len_bounds;
use crate::bounded_text::len_utf8;
use crate::bounded_text::utf8_len;
use crate::cell::no_hyperlink;
use crate::cell::HyperlinkId;
use crate::clipboard::ClipboardReadRequest;
use crate::clipboard::PendingPasteGrant;
use crate::colors::append_rgb;
use crate::colors::color_spec;
use crate::colors::default_256_color;
use crate::colors::default_color;
use crate::colors::parse_color_spec;
use crate::colors::rgb_text;
use crate::colors::Rgb;
use crate::commands::decimal;
use crate::commands::decimal_text;
use crate::fields::equals;
use crate::fields::equals_ignoring_case;
use crate::fields::find_char;
use crate::fields::first_position;
use crate::fields::hex_digit;
use crate::fields::hex_value;
use crate::fields::parse_u64;
use crate::fields::part;
use crate::fields::same_ignoring_case;
use crate::fields::split;
use crate::fields::split_fields;
use crate::fields::split_first;
use crate::fields::split_once;
use crate::fields::starts_with;
use crate::fields::strip_prefix;
use crate::fields::texts;
use crate::fields::trim;
use crate::fields::trimmed;
use crate::fields::unsigned_value;
use crate::osc133::all_displayable;
use crate::osc133::displayable;
use crate::osc133::is_control;
use crate::osc133::is_displayable;
use crate::osc133::is_presentable;
use crate::osc133::is_session_id;
use crate::osc133::string_from_utf8;
use crate::osc133::text_of;
use crate::osc133::valid_session_id;
use crate::osc133::MAX_OSC_133_CWD_BYTES;
use crate::reports::append_ascii;
use crate::reports::append_chars;
use crate::reports::ascii_bytes;
use crate::text::chars_of;
use crate::text::string_of;

verus! {

/// Longest window title, in characters.
pub const MAX_WINDOW_TITLE_CHARS: usize = 200;

/// Most entries on the title stack.
pub const MAX_TITLE_STACK_DEPTH: usize = 16;

/// Longest field of a desktop notification, in characters.
pub const MAX_NOTIFICATION_CHARS: usize = 512;

/// A working-directory announcement longer than this is not decoded.
pub const MAX_OSC7_URI_BYTES: usize = 16384;

/// Longest parameter field of a hyperlink, in bytes.
pub const MAX_OSC8_PARAMS_BYTES: usize = 1024;

/// Longest hyperlink target, in bytes.
pub const MAX_OSC8_URI_BYTES: usize = 2048;

/// Most hyperlink targets that are kept.
pub const MAX_HYPERLINKS: usize = 4096;

/// Overrides of the 256 palette colours.
pub type DynamicColorPalette = [Option<(u8, u8, u8)>; 256];

/// The colours that an application can set beside the palette.
#[derive(Clone, Copy, Debug, PartialEq, Eq, Structural)]
pub enum DynamicColor {
    Foreground,
    Background,
    Cursor,
}

/// Which of the two titles an operation concerns.
#[derive(Clone, Copy, Debug, PartialEq, Eq, Structural)]
pub enum TitleTarget {
    Both,
    Icon,
    Window,
}

/// The terminal's side of its dealings with the host.
pub struct HostState {
    pub window_title: String,
    pub icon_title: String,
    /// Saved (icon, window) titles, oldest first.
    pub title_stack: Vec<(Option<String>, Option<String>)>,
    pub announced_jsh_session_id: Option<String>,
    /// This machine's own name, as far as the host told it.
    pub local_hostname: Option<String>,
    /// The title of notifications that bring none.
    pub app_name: String,
    pub pending_notifications: Vec<(String, String)>,
    /// Replies on their way to the application.
    pub output_buffer: Vec<u8>,
    pub pending_osc52_clipboard_set: Option<String>,
    pub pending_osc52_clipboard_query: bool,
    pub dynamic_fg: Option<(u8, u8, u8)>,
    pub dynamic_bg: Option<(u8, u8, u8)>,
    pub dynamic_cursor_color: Option<(u8, u8, u8)>,
    pub dynamic_palette: DynamicColorPalette,
    pub pending_clipboard_requests: Vec<ClipboardReadRequest>,
    pub pending_paste_grant: Option<PendingPasteGrant>,
    /// Hyperlink targets; reference `n` is entry `n - 1`.
    pub hyperlinks: Vec<String>,
}

/// Whether a text takes at most `max` bytes.
pub fn fits_bytes(text: &Vec<char>, max: usize) -> (fits: bool)
    ensures
        fits == (utf8_len(text@) <= max),
{
    let mut used: usize = 0;
    let mut i: usize = 0;
    assert(text@.take(0) =~= Seq::<char>::empty());
    while i < text.len()
        invariant
            i <= text@.len(),
            used == utf8_len(text@.take(i as int)),
            used <= max,
        decreases text.len() - i,
    {
        let width: usize = len_utf8(text[i]);
        assert(text@.take(i + 1).drop_last() =~= text@.take(i as int));
        assert(text@.take(i + 1).last() == text@[i as int]);
        if width > max - used {
            proof {
                assert(text@ =~= text@.take(i + 1) + text@.skip(i + 1));
                lemma_utf8_len_add(text@.take(i + 1), text@.skip(i + 1));
                lemma_utf8_len_bounds(text@.skip(i + 1));
            }
            return false;
        }
        used = used + width;
        i = i + 1;
    }
    assert(text@.take(i as int) =~= text@);
    true
}

/// The first `n` characters of a text, or all of them where there are fewer.
pub open spec fn clipped(text: Seq<char>, n: int) -> Seq<char> {
    if text.len() <= n {
        text
    } else {
        text.take(n)
    }
}

/// The first `n` characters of a text, or all of them where there are fewer.
pub fn clip(text: &Vec<char>, n: usize) -> (out: Vec<char>)
    ensures
        out@ == clipped(text@, n as int),
{
    if text.len() <= n {
        let out = part(text, 0, text.len());
        assert(out@ =~= text@);
        out
    } else {
        let out = part(text, 0, n);
        assert(out@ =~= text@.take(n as int));
        out
    }
}

/// Whether an icon title is concerned.
pub open spec fn concerns_icon(target: TitleTarget) -> bool {
    target != TitleTarget::Window
}

/// Whether a window title is concerned.
pub open spec fn concerns_window(target: TitleTarget) -> bool {
    target != TitleTarget::Icon
}

/// A pair of saved titles.
pub open spec fn saved_titles(entry: (Option<String>, Option<String>)) -> (
    Option<Seq<char>>,
    Option<Seq<char>>,
) {
    (text_of(entry.0), text_of(entry.1))
}

/// `post` is `pre` with other titles, clipped to the longest title.
pub open spec fn titles_set(
    pre: HostState,
    target: TitleTarget,
    title: Seq<char>,
    post: HostState,
) -> bool {
    &&& post == (HostState {
        window_title: post.window_title,
        icon_title: post.icon_title,
        ..pre
    })
    &&& post.window_title@ == if concerns_window(target) {
        clipped(title, MAX_WINDOW_TITLE_CHARS as int)
    } else {
        pre.window_title@
    }
    &&& post.icon_title@ == if concerns_icon(target) {
        clipped(title, MAX_WINDOW_TITLE_CHARS as int)
    } else {
        pre.icon_title@
    }
}

/// `post` is `pre` after a shell announced its session; an unusable name
/// leaves the last one standing.
pub open spec fn session_announced(pre: HostState, value: Seq<char>, post: HostState) -> bool {
    &&& post == (HostState { announced_jsh_session_id: post.announced_jsh_session_id, ..pre })
    &&& text_of(post.announced_jsh_session_id) == if is_session_id(value) {
        Some(value)
    } else {
        text_of(pre.announced_jsh_session_id)
    }
}

/// `post` is `pre` with titles saved, unless the stack is full.
pub open spec fn titles_pushed(pre: HostState, target: TitleTarget, post: HostState) -> bool {
    &&& post == (HostState { title_stack: post.title_stack, ..pre })
    &&& if pre.title_stack@.len() >= MAX_TITLE_STACK_DEPTH {
        post.title_stack@ == pre.title_stack@
    } else {
        &&& post.title_stack@.len() == pre.title_stack@.len() + 1
        &&& post.title_stack@.drop_last() == pre.title_stack@
        &&& saved_titles(post.title_stack@.last()) == (
            if concerns_icon(target) {
                Some(pre.icon_title@)
            } else {
                None
            },
            if concerns_window(target) {
                Some(pre.window_title@)
            } else {
                None
            },
        )
    }
}

/// A title after one was taken off the stack.
pub open spec fn title_after(title: Seq<char>, saved: Option<Seq<char>>, concerned: bool) -> Seq<
    char,
> {
    match saved {
        Some(text) => if concerned {
            text
        } else {
            title
        },
        None => title,
    }
}

/// `post` is `pre` with the newest saved titles taken off and restored.
pub open spec fn titles_popped(pre: HostState, target: TitleTarget, post: HostState) -> bool {
    if pre.title_stack@.len() == 0 {
        post == pre
    } else {
        let entry = saved_titles(pre.title_stack@.last());
        &&& post == (HostState {
            title_stack: post.title_stack,
            window_title: post.window_title,
            icon_title: post.icon_title,
            ..pre
        })
        &&& post.title_stack@ == pre.title_stack@.drop_last()
        &&& post.icon_title@ == title_after(pre.icon_title@, entry.0, concerns_icon(target))
        &&& post.window_title@ == title_after(
            pre.window_title@,
            entry.1,
            concerns_window(target),
        )
    }
}

/// Restoring saved titles undoes what was set in between.
pub proof fn titles_round_trip(
    pre: HostState,
    target: TitleTarget,
    saved: HostState,
    mid: HostState,
    post: HostState,
)
    requires
        pre.title_stack@.len() < MAX_TITLE_STACK_DEPTH,
        titles_pushed(pre, target, saved),
        mid.title_stack@ == saved.title_stack@,
        titles_popped(mid, target, post),
    ensures
        concerns_icon(target) ==> post.icon_title@ == pre.icon_title@,
        concerns_window(target) ==> post.window_title@ == pre.window_title@,
        post.title_stack@ == pre.title_stack@,
{
}

impl HostState {
    /// Sets the titles that `target` names, clipped to the longest title.
    pub fn set_titles(&mut self, target: TitleTarget, title: &Vec<char>)
        ensures
            titles_set(*old(self), target, title@, *final(self)),
    {
        let text = clip(title, MAX_WINDOW_TITLE_CHARS);
        if target != TitleTarget::Icon {
            self.window_title = string_of(&text);
        }
        if target != TitleTarget::Window {
            self.icon_title = string_of(&text);
        }
    }

    /// Saves the titles that `target` names, unless the stack is full.
    pub fn push_titles(&mut self, target: TitleTarget)
        ensures
            titles_pushed(*old(self), target, *final(self)),
    {
        if self.title_stack.len() >= MAX_TITLE_STACK_DEPTH {
            return ;
        }
        let icon = if target != TitleTarget::Window {
            Some(self.icon_title.clone())
        } else {
            None
        };
        let window = if target != TitleTarget::Icon {
            Some(self.window_title.clone())
        } else {
            None
        };
        self.title_stack.push((icon, window));
        assert(self.title_stack@.drop_last() =~= old(self).title_stack@);
    }

    /// Takes the newest saved titles off the stack and restores those that
    /// `target` names and the entry holds.
    pub fn pop_titles(&mut self, target: TitleTarget)
        ensures
            titles_popped(*old(self), target, *final(self)),
    {
        if self.title_stack.len() == 0 {
            return ;
        }
        match self.title_stack.pop() {
            Some((icon, window)) => {
                if target != TitleTarget::Window {
                    if let Some(title) = icon {
                        self.icon_title = title;
                    }
                }
                if target != TitleTarget::Icon {
                    if let Some(title) = window {
                        self.window_title = title;
                    }
                }
            },
            None => {},
        }
    }

    /// Records the session that a shell announces, where it is a usable one.
    pub fn announce_session(&mut self, value: &Vec<char>)
        ensures
            session_announced(*old(self), value@, *final(self)),
    {
        if valid_session_id(value) {
            self.announced_jsh_session_id = Some(string_of(value));
        }
    }

    /// Appends an ASCII reply.
    pub fn reply(&mut self, text: &Vec<char>)
        ensures
            *final(self) == (HostState { output_buffer: final(self).output_buffer, ..*old(self) }),
            final(self).output_buffer@ == old(self).output_buffer@ + ascii_bytes(text@),
    {
        append_ascii(&mut self.output_buffer, text);
    }

    /// Appends an ASCII reply.
    pub fn reply_literal(&mut self, text: &str)
        ensures
            *final(self) == (HostState { output_buffer: final(self).output_buffer, ..*old(self) }),
            final(self).output_buffer@ == old(self).output_buffer@ + ascii_bytes(text@),
    {
        let chars = chars_of(text);
        append_ascii(&mut self.output_buffer, &chars);
    }
}

/// The dynamic colour that a command number names.
pub open spec fn dynamic_color_of(command: Seq<char>) -> Option<DynamicColor> {
    if command == "10"@ {
        Some(DynamicColor::Foreground)
    } else if command == "11"@ {
        Some(DynamicColor::Background)
    } else if command == "12"@ {
        Some(DynamicColor::Cursor)
    } else {
        None
    }
}

/// The dynamic colour that a reset command names.
pub open spec fn reset_color_of(command: Seq<char>) -> Option<DynamicColor> {
    if command == "110"@ {
        Some(DynamicColor::Foreground)
    } else if command == "111"@ {
        Some(DynamicColor::Background)
    } else if command == "112"@ {
        Some(DynamicColor::Cursor)
    } else {
        None
    }
}

/// What a colour query reports where nothing was set.
pub open spec fn unset_color(which: DynamicColor) -> Rgb {
    match which {
        DynamicColor::Background => (0, 0, 0),
        _ => (255, 255, 255),
    }
}

impl HostState {
    /// The value of a dynamic colour.
    pub open spec fn dynamic_color(self, which: DynamicColor) -> Option<Rgb> {
        match which {
            DynamicColor::Foreground => self.dynamic_fg,
            DynamicColor::Background => self.dynamic_bg,
            DynamicColor::Cursor => self.dynamic_cursor_color,
        }
    }

    /// The state with one dynamic colour replaced.
    pub open spec fn with_dynamic_color(self, which: DynamicColor, color: Option<Rgb>) -> HostState {
        match which {
            DynamicColor::Foreground => HostState { dynamic_fg: color, ..self },
            DynamicColor::Background => HostState { dynamic_bg: color, ..self },
            DynamicColor::Cursor => HostState { dynamic_cursor_color: color, ..self },
        }
    }

    /// Replaces one dynamic colour.
    fn put_dynamic_color(&mut self, which: DynamicColor, color: Option<Rgb>)
        ensures
            *final(self) == old(self).with_dynamic_color(which, color),
    {
        match which {
            DynamicColor::Foreground => self.dynamic_fg = color,
            DynamicColor::Background => self.dynamic_bg = color,
            DynamicColor::Cursor => self.dynamic_cursor_color = color,
        }
    }

    /// Reads one dynamic colour.
    fn read_dynamic_color(&self, which: DynamicColor) -> (color: Option<Rgb>)
        ensures
            color == self.dynamic_color(which),
    {
        match which {
            DynamicColor::Foreground => self.dynamic_fg,
            DynamicColor::Background => self.dynamic_bg,
            DynamicColor::Cursor => self.dynamic_cursor_color,
        }
    }

    /// Sets or reports the foreground, background or cursor colour.
    pub fn handle_osc_color(&mut self, command: &Vec<char>, value: &Vec<char>)
        ensures
            color_commanded(*old(self), command@, value@, *final(self)),
    {
        let which = if equals(command, "10") {
            DynamicColor::Foreground
        } else if equals(command, "11") {
            DynamicColor::Background
        } else if equals(command, "12") {
            DynamicColor::Cursor
        } else {
            return ;
        };
        assert(dynamic_color_of(command@) == Some(which));
        if equals(value, "?") {
            let color = match self.read_dynamic_color(which) {
                Some(color) => color,
                None => match which {
                    DynamicColor::Background => (0, 0, 0),
                    _ => (255, 255, 255),
                },
            };
            let mut text: Vec<char> = Vec::new();
            append_chars(&mut text, "\x1b]");
            let mut number = part(command, 0, command.len());
            text.append(&mut number);
            append_chars(&mut text, ";");
            append_rgb(&mut text, color);
            assert(text@ =~= "\x1b]"@ + command@ + ";"@ + rgb_text(color));
            self.reply(&text);
        } else if let Some(color) = parse_color_spec(value) {
            self.put_dynamic_color(which, Some(color));
        }
    }

    /// Drops the foreground, background or cursor colour.
    pub fn reset_osc_color(&mut self, command: &Vec<char>)
        ensures
            *final(self) == color_dropped(*old(self), command@),
    {
        if equals(command, "110") {
            self.put_dynamic_color(DynamicColor::Foreground, None);
        } else if equals(command, "111") {
            self.put_dynamic_color(DynamicColor::Background, None);
        } else if equals(command, "112") {
            self.put_dynamic_color(DynamicColor::Cursor, None);
        }
    }
}

/// `post` is `pre` after a dynamic colour was set or reported.
pub open spec fn color_commanded(
    pre: HostState,
    command: Seq<char>,
    value: Seq<char>,
    post: HostState,
) -> bool {
    match dynamic_color_of(command) {
        None => post == pre,
        Some(which) => if value == "?"@ {
            let color = match pre.dynamic_color(which) {
                Some(color) => color,
                None => unset_color(which),
            };
            &&& post == (HostState { output_buffer: post.output_buffer, ..pre })
            &&& post.output_buffer@ == pre.output_buffer@ + ascii_bytes(
                "\x1b]"@ + command + ";"@ + rgb_text(color),
            )
        } else {
            match color_spec(value) {
                Some(color) => post == pre.with_dynamic_color(which, Some(color)),
                None => post == pre,
            }
        },
    }
}

/// The state after a dynamic colour was dropped.
pub open spec fn color_dropped(pre: HostState, command: Seq<char>) -> HostState {
    match reset_color_of(command) {
        Some(which) => pre.with_dynamic_color(which, None),
        None => pre,
    }
}

/// The reply to a palette query.
pub open spec fn palette_reply(index: int, color: Rgb) -> Seq<u8> {
    ascii_bytes("\x1b]4;"@ + decimal_text(index as nat) + ";"@ + rgb_text(color))
}

/// The palette and the replies after one `index;specification` pair.
pub open spec fn palette_step(
    palette: Seq<Option<Rgb>>,
    replies: Seq<u8>,
    index: Seq<char>,
    spec_text: Seq<char>,
) -> (Seq<Option<Rgb>>, Seq<u8>) {
    match unsigned_value(index, 255) {
        None => (palette, replies),
        Some(i) => if spec_text == "?"@ {
            let color = match palette[i] {
                Some(color) => color,
                None => default_color(i as u8),
            };
            (palette, replies + palette_reply(i, color))
        } else {
            match color_spec(spec_text) {
                Some(color) => (palette.update(i, Some(color)), replies),
                None => (palette, replies),
            }
        },
    }
}

/// The palette and the replies after the pairs that start at field `i`.
pub open spec fn palette_run(
    palette: Seq<Option<Rgb>>,
    replies: Seq<u8>,
    fields: Seq<Seq<char>>,
    i: int,
) -> (Seq<Option<Rgb>>, Seq<u8>)
    decreases fields.len() - i,
{
    if i + 1 >= fields.len() {
        (palette, replies)
    } else {
        let next = palette_step(palette, replies, fields[i], fields[i + 1]);
        palette_run(next.0, next.1, fields, i + 2)
    }
}

/// The palette without the listed entries, from field `i` on.
pub open spec fn palette_cleared(palette: Seq<Option<Rgb>>, fields: Seq<Seq<char>>, i: int) -> Seq<
    Option<Rgb>,
>
    decreases fields.len() - i,
{
    if i >= fields.len() {
        palette
    } else {
        match unsigned_value(fields[i], 255) {
            Some(index) => palette_cleared(palette.update(index, None), fields, i + 1),
            None => palette_cleared(palette, fields, i + 1),
        }
    }
}

/// `post` is `pre` after palette entries were set and reported.
pub open spec fn palette_commanded(pre: HostState, value: Seq<char>, post: HostState) -> bool {
    &&& post == (HostState {
        output_buffer: post.output_buffer,
        dynamic_palette: post.dynamic_palette,
        ..pre
    })
    &&& (post.dynamic_palette@, post.output_buffer@) == palette_run(
        pre.dynamic_palette@,
        pre.output_buffer@,
        split_fields(value, ';'),
        0,
    )
}

/// `post` is `pre` after the listed palette entries, or all, were dropped.
pub open spec fn palette_reset(pre: HostState, value: Seq<char>, post: HostState) -> bool {
    &&& post == (HostState { dynamic_palette: post.dynamic_palette, ..pre })
    &&& post.dynamic_palette@ == if value.len() == 0 {
        Seq::new(256, |i: int| None::<Rgb>)
    } else {
        palette_cleared(pre.dynamic_palette@, split_fields(value, ';'), 0)
    }
}

/// Reads a palette index.
fn parse_index(text: &Vec<char>) -> (index: Option<u8>)
    ensures
        match (unsigned_value(text@, 255), index) {
            (Some(v), Some(w)) => v == w && 0 <= v < 256,
            (None, None) => true,
            _ => false,
        },
{
    match parse_u64(text) {
        Some(v) => if v <= 255 {
            Some(v as u8)
        } else {
            None
        },
        None => None,
    }
}

impl HostState {
    /// Sets and reports palette entries.
    pub fn handle_osc_palette(&mut self, value: &Vec<char>)
        ensures
            palette_commanded(*old(self), value@, *final(self)),
    {
        let fields = split(value, ';');
        let ghost list = split_fields(value@, ';');
        assert(texts(fields@) == list);
        let mut i: usize = 0;
        while fields.len() - i >= 2
            invariant
                i <= fields@.len(),
                list == texts(fields@),
                *self == (HostState {
                    output_buffer: self.output_buffer,
                    dynamic_palette: self.dynamic_palette,
                    ..*old(self)
                }),
                palette_run(old(self).dynamic_palette@, old(self).output_buffer@, list, 0)
                    == palette_run(self.dynamic_palette@, self.output_buffer@, list, i as int),
            decreases fields.len() - i,
        {
            assert(list[i as int] == fields@[i as int]@ && list[i + 1] == fields@[i + 1]@);
            let ghost before = *self;
            if let Some(index) = parse_index(&fields[i]) {
                let slot: usize = index as usize;
                if equals(&fields[i + 1], "?") {
                    let color = match self.dynamic_palette[slot] {
                        Some(color) => color,
                        None => default_256_color(index),
                    };
                    let mut text: Vec<char> = Vec::new();
                    append_chars(&mut text, "\x1b]4;");
                    let mut digits = decimal(index as u64);
                    text.append(&mut digits);
                    append_chars(&mut text, ";");
                    append_rgb(&mut text, color);
                    assert(text@ =~= "\x1b]4;"@ + decimal_text(index as nat) + ";"@ + rgb_text(
                        color,
                    ));
                    self.reply(&text);
                } else if let Some(color) = parse_color_spec(&fields[i + 1]) {
                    self.dynamic_palette[slot] = Some(color);
                }
            }
            assert((self.dynamic_palette@, self.output_buffer@) == palette_step(
                before.dynamic_palette@,
                before.output_buffer@,
                list[i as int],
                list[i + 1],
            ));
            i = i + 2;
        }
    }

    /// Drops the listed palette entries, or all of them.
    pub fn reset_osc_palette(&mut self, value: &Vec<char>)
        ensures
            palette_reset(*old(self), value@, *final(self)),
    {
        if value.len() == 0 {
            self.dynamic_palette = [None;256];
            assert(self.dynamic_palette@ =~= Seq::new(256, |i: int| None::<Rgb>));
            return ;
        }
        let fields = split(value, ';');
        let ghost list = split_fields(value@, ';');
        assert(texts(fields@) == list);
        let mut i: usize = 0;
        while i < fields.len()
            invariant
                i <= fields@.len(),
                list == texts(fields@),
                *self == (HostState { dynamic_palette: self.dynamic_palette, ..*old(self) }),
                palette_cleared(old(self).dynamic_palette@, list, 0) == palette_cleared(
                    self.dynamic_palette@,
                    list,
                    i as int,
                ),
            decreases fields.len() - i,
        {
            assert(list[i as int] == fields@[i as int]@);
            if let Some(index) = parse_index(&fields[i]) {
                let slot: usize = index as usize;
                self.dynamic_palette[slot] = None;
            }
            i = i + 1;
        }
    }
}


/// Whether a host name means this machine.
pub open spec fn is_local_host(host: Seq<char>, local: Option<Seq<char>>) -> bool {
    ||| host.len() == 0
    ||| same_ignoring_case(host, "localhost"@)
    ||| match local {
        Some(name) => same_ignoring_case(host, name),
        None => false,
    }
}

/// The path part of a working-directory announcement on this machine.
pub open spec fn announced_path(value: Seq<char>, local: Option<Seq<char>>) -> Option<Seq<char>> {
    if starts_with(value, "file://"@) {
        let rest = value.skip("file://"@.len() as int);
        match first_position(rest, '/') {
            Some(slash) => if is_local_host(rest.take(slash), local) {
                Some(rest.skip(slash))
            } else {
                None
            },
            None => None,
        }
    } else if value.len() > 0 && value[0] == '/' {
        Some(value)
    } else {
        None
    }
}

/// The bytes that a path encodes from `i` on, behind those already decoded;
/// nothing where a percent sign is not followed by two hexadecimal digits.
pub open spec fn path_bytes(bytes: Seq<u8>, i: int, decoded: Seq<u8>) -> Option<Seq<u8>>
    decreases bytes.len() - i,
{
    if i >= bytes.len() {
        Some(decoded)
    } else if bytes[i] != 0x25 {
        path_bytes(bytes, i + 1, decoded.push(bytes[i]))
    } else if i + 2 >= bytes.len() {
        None
    } else {
        match (hex_value(bytes[i + 1] as char), hex_value(bytes[i + 2] as char)) {
            (Some(high), Some(low)) => path_bytes(
                bytes,
                i + 3,
                decoded.push((high * 16 + low) as u8),
            ),
            _ => None,
        }
    }
}

/// Whether a directory may be recorded: not empty, at most 4 KiB, and free of
/// controls and look-alike characters.
pub open spec fn recordable_cwd(cwd: Seq<char>) -> bool {
    cwd.len() > 0 && utf8_len(cwd) <= MAX_OSC_133_CWD_BYTES && all_displayable(cwd)
}

/// The directory that an announcement names.
pub open spec fn announced_cwd(value: Seq<char>, local: Option<Seq<char>>) -> Option<Seq<char>> {
    if utf8_len(value) > MAX_OSC7_URI_BYTES {
        None
    } else {
        match announced_path(value, local) {
            None => None,
            Some(path) => match path_bytes(encode_utf8(path), 0, Seq::empty()) {
                None => None,
                Some(bytes) => if valid_utf8(bytes) && recordable_cwd(decode_utf8(bytes)) {
                    Some(decode_utf8(bytes))
                } else {
                    None
                },
            },
        }
    }
}

/// Compares two texts, ignoring ASCII case.
fn matches_ignoring_case(text: &Vec<char>, other: &String) -> (same: bool)
    ensures
        same == same_ignoring_case(text@, other@),
{
    equals_ignoring_case(text, other.as_str())
}

/// Whether a host name means this machine.
fn osc7_host_is_local(host: &Vec<char>, local: &Option<String>) -> (yes: bool)
    ensures
        yes == is_local_host(host@, text_of(*local)),
{
    if host.len() == 0 || equals_ignoring_case(host, "localhost") {
        return true;
    }
    match local {
        Some(name) => matches_ignoring_case(host, name),
        None => false,
    }
}

/// Decodes the path part of an announcement.
fn decode_path(path: &Vec<char>) -> (cwd: Option<String>)
    requires
        utf8_len(path@) <= MAX_OSC7_URI_BYTES,
    ensures
        text_of(cwd) == match path_bytes(encode_utf8(path@), 0, Seq::empty()) {
            None => None::<Seq<char>>,
            Some(bytes) => if valid_utf8(bytes) && recordable_cwd(decode_utf8(bytes)) {
                Some(decode_utf8(bytes))
            } else {
                None
            },
        },
{
    let text = string_of(path);
    let bytes = text.as_str().as_bytes();
    let total: usize = bytes.len();
    let mut out: Vec<u8> = Vec::new();
    let mut i: usize = 0;
    while i < total
        invariant
            i <= total,
            total == bytes@.len(),
            bytes@ == encode_utf8(path@),
            path_bytes(bytes@, 0, Seq::empty()) == path_bytes(bytes@, i as int, out@),
        decreases total - i,
    {
        if bytes[i] != 0x25 {
            out.push(bytes[i]);
            i = i + 1;
        } else if total - i <= 2 {
            return None;
        } else {
            match (hex_digit(bytes[i + 1] as char), hex_digit(bytes[i + 2] as char)) {
                (Some(high), Some(low)) => {
                    out.push(high * 16 + low);
                },
                _ => {
                    return None;
                },
            }
            i = i + 3;
        }
    }
    match string_from_utf8(out) {
        Some(cwd) => {
            proof {
                vstd::utf8::encode_utf8_valid_utf8(cwd@);
                vstd::utf8::encode_utf8_decode_utf8(cwd@);
            }
            let chars = chars_of(cwd.as_str());
            if is_presentable(cwd.as_str()) && fits_bytes(&chars, MAX_OSC_133_CWD_BYTES) {
                Some(cwd)
            } else {
                None
            }
        },
        None => None,
    }
}

/// The directory that an announcement names, where it is one on this machine
/// that may be recorded.
pub fn decode_osc7_cwd(value: &Vec<char>, local: &Option<String>) -> (cwd: Option<String>)
    ensures
        text_of(cwd) == announced_cwd(value@, text_of(*local)),
{
    if !fits_bytes(value, MAX_OSC7_URI_BYTES) {
        return None;
    }
    if let Some(rest) = strip_prefix(value, "file://") {
        match find_char(&rest, '/') {
            Some(slash) => {
                let host = part(&rest, 0, slash);
                assert(host@ =~= rest@.take(slash as int));
                if !osc7_host_is_local(&host, local) {
                    return None;
                }
                let path = part(&rest, slash, rest.len());
                assert(path@ =~= rest@.skip(slash as int));
                proof {
                    let prefix = value@.take(value@.len() - path@.len());
                    assert(value@ =~= prefix + path@);
                    lemma_utf8_len_add(prefix, path@);
                    lemma_utf8_len_bounds(prefix);
                }
                decode_path(&path)
            },
            None => None,
        }
    } else if value.len() > 0 && value[0] == '/' {
        decode_path(value)
    } else {
        None
    }
}

/// Whether a text holds a control character.
pub open spec fn has_control(text: Seq<char>) -> bool {
    exists|i: int| 0 <= i < text.len() && is_control(#[trigger] text[i])
}

/// Whether a target's scheme is one that may be opened.
pub open spec fn is_supported_scheme(scheme: Seq<char>) -> bool {
    ||| same_ignoring_case(scheme, "http"@)
    ||| same_ignoring_case(scheme, "https"@)
    ||| same_ignoring_case(scheme, "ftp"@)
    ||| same_ignoring_case(scheme, "file"@)
    ||| same_ignoring_case(scheme, "mailto"@)
}

/// Whether a hyperlink target may be opened.
pub open spec fn is_supported_uri(uri: Seq<char>) -> bool {
    match split_first(uri, ':') {
        Some((scheme, rest)) => is_supported_scheme(scheme) && rest.len() > 0,
        None => false,
    }
}

/// The target that a hyperlink command opens: nothing where the command
/// closes the link or is refused.
pub open spec fn link_target(value: Seq<char>) -> Option<Seq<char>> {
    match split_first(value, ';') {
        Some((params, uri)) => if uri.len() > 0 && utf8_len(params) <= MAX_OSC8_PARAMS_BYTES
            && utf8_len(uri) <= MAX_OSC8_URI_BYTES && !has_control(params) && !has_control(uri)
            && is_supported_uri(uri) {
            Some(uri)
        } else {
            None
        },
        None => None,
    }
}

/// Whether a text holds a control character.
fn contains_control(text: &Vec<char>) -> (yes: bool)
    ensures
        yes == has_control(text@),
{
    let mut i: usize = 0;
    while i < text.len()
        invariant
            i <= text@.len(),
            forall|k: int| 0 <= k < i ==> !is_control(#[trigger] text@[k]),
        decreases text.len() - i,
    {
        let v: u32 = text[i] as u32;
        if v <= 0x1f || (0x7f <= v && v <= 0x9f) {
            assert(is_control(text@[i as int]));
            return true;
        }
        assert(!is_control(text@[i as int]));
        i = i + 1;
    }
    false
}

/// Whether a hyperlink target may be opened.
pub fn is_supported_hyperlink_uri(uri: &Vec<char>) -> (yes: bool)
    ensures
        yes == is_supported_uri(uri@),
{
    match split_once(uri, ':') {
        Some((scheme, rest)) => rest.len() > 0 && (equals_ignoring_case(&scheme, "http")
            || equals_ignoring_case(&scheme, "https") || equals_ignoring_case(&scheme, "ftp")
            || equals_ignoring_case(&scheme, "file") || equals_ignoring_case(&scheme, "mailto")),
        None => false,
    }
}

/// The target that a hyperlink command opens.
fn parse_link(value: &Vec<char>) -> (uri: Option<Vec<char>>)
    ensures
        match (link_target(value@), uri) {
            (Some(target), Some(uri)) => target == uri@,
            (None, None) => true,
            _ => false,
        },
{
    match split_once(value, ';') {
        Some((params, uri)) => {
            if uri.len() > 0 && fits_bytes(&params, MAX_OSC8_PARAMS_BYTES) && fits_bytes(
                &uri,
                MAX_OSC8_URI_BYTES,
            ) && !contains_control(&params) && !contains_control(&uri)
                && is_supported_hyperlink_uri(&uri) {
                Some(uri)
            } else {
                None
            }
        },
        None => None,
    }
}

/// The position of a target in a list of targets.
pub open spec fn target_position(targets: Seq<String>, uri: Seq<char>) -> Option<int>
    decreases targets.len(),
{
    if targets.len() == 0 {
        None
    } else {
        match target_position(targets.drop_last(), uri) {
            Some(i) => Some(i),
            None => if targets.last()@ == uri {
                Some(targets.len() - 1)
            } else {
                None
            },
        }
    }
}

/// The position of a target in a list of targets.
fn find_target(targets: &Vec<String>, uri: &Vec<char>) -> (position: Option<usize>)
    ensures
        match (target_position(targets@, uri@), position) {
            (Some(i), Some(j)) => i == j && j < targets@.len(),
            (None, None) => true,
            _ => false,
        },
{
    let mut found: Option<usize> = None;
    let mut i: usize = 0;
    assert(targets@.take(0) =~= Seq::<String>::empty());
    while i < targets.len()
        invariant
            i <= targets@.len(),
            match (target_position(targets@.take(i as int), uri@), found) {
                (Some(a), Some(b)) => a == b && b < i,
                (None, None) => true,
                _ => false,
            },
        decreases targets.len() - i,
    {
        assert(targets@.take(i + 1).drop_last() =~= targets@.take(i as int));
        assert(targets@.take(i + 1).last() == targets@[i as int]);
        if found.is_none() && equals(uri, targets[i].as_str()) {
            found = Some(i);
        }
        i = i + 1;
    }
    assert(targets@.take(i as int) =~= targets@);
    found
}

/// `post` is `pre` after a hyperlink command, which puts `id` in force: the
/// reference of its target, which is added where it is new and there is room,
/// or no link.
pub open spec fn link_opened(
    pre: HostState,
    value: Seq<char>,
    id: HyperlinkId,
    post: HostState,
) -> bool {
    &&& post == (HostState { hyperlinks: post.hyperlinks, ..pre })
    &&& match link_target(value) {
        None => id == no_hyperlink() && post.hyperlinks@ == pre.hyperlinks@,
        Some(uri) => match target_position(pre.hyperlinks@, uri) {
            Some(i) => id.raw == i + 1 && post.hyperlinks@ == pre.hyperlinks@,
            None => if pre.hyperlinks@.len() == MAX_HYPERLINKS {
                id == no_hyperlink() && post.hyperlinks@ == pre.hyperlinks@
            } else {
                &&& id.raw == post.hyperlinks@.len()
                &&& post.hyperlinks@.len() == pre.hyperlinks@.len() + 1
                &&& post.hyperlinks@.drop_last() == pre.hyperlinks@
                &&& post.hyperlinks@.last()@ == uri
            },
        },
    }
}

impl HostState {
    /// The target that a reference names.
    pub open spec fn link_of(self, id: HyperlinkId) -> Option<Seq<char>> {
        if 1 <= id.raw <= self.hyperlinks@.len() {
            Some(self.hyperlinks@[id.raw - 1]@)
        } else {
            None
        }
    }

    /// The reference for a hyperlink command: that of its target, which is
    /// added where it is new and there is room, or no link.
    pub fn open_hyperlink(&mut self, value: &Vec<char>) -> (id: HyperlinkId)
        requires
            old(self).hyperlinks@.len() <= MAX_HYPERLINKS,
        ensures
            link_opened(*old(self), value@, id, *final(self)),
            final(self).hyperlinks@.len() <= MAX_HYPERLINKS,
    {
        match parse_link(value) {
            None => HyperlinkId::none(),
            Some(uri) => match find_target(&self.hyperlinks, &uri) {
                Some(i) => HyperlinkId { raw: i as u32 + 1 },
                None => {
                    if self.hyperlinks.len() >= MAX_HYPERLINKS {
                        return HyperlinkId::none();
                    }
                    self.hyperlinks.push(string_of(&uri));
                    assert(self.hyperlinks@.drop_last() =~= old(self).hyperlinks@);
                    HyperlinkId { raw: self.hyperlinks.len() as u32 }
                },
            },
        }
    }
}

/// A text in which every character that may not be shown is replaced.
pub open spec fn replaced(text: Seq<char>) -> Seq<char> {
    Seq::new(
        text.len(),
        |i: int|
            if is_displayable(text[i]) {
                text[i]
            } else {
                '\u{fffd}'
            },
    )
}

/// A field of a notification as the host may show it.
pub open spec fn notification_field(text: Seq<char>) -> Seq<char> {
    clipped(trimmed(replaced(text)), MAX_NOTIFICATION_CHARS as int)
}

/// A field of a notification as the host may show it.
fn sanitize_field(text: &Vec<char>) -> (out: Vec<char>)
    ensures
        out@ == notification_field(text@),
{
    let mut chars: Vec<char> = Vec::new();
    let mut i: usize = 0;
    while i < text.len()
        invariant
            i <= text@.len(),
            chars@ == replaced(text@).take(i as int),
        decreases text.len() - i,
    {
        chars.push(
            if displayable(text[i]) {
                text[i]
            } else {
                '\u{fffd}'
            },
        );
        assert(chars@ =~= replaced(text@).take(i + 1));
        i = i + 1;
    }
    assert(replaced(text@).take(i as int) =~= replaced(text@));
    let kept = trim(&chars);
    clip(&kept, MAX_NOTIFICATION_CHARS)
}

/// `post` is `pre` with a notification queued. One without a title is
/// attributed to this application; one without a body is dropped.
pub open spec fn notification_queued(
    pre: HostState,
    title: Seq<char>,
    body: Seq<char>,
    post: HostState,
) -> bool {
    let list = post.pending_notifications@;
    &&& post == (HostState { pending_notifications: post.pending_notifications, ..pre })
    &&& if notification_field(body).len() == 0 {
        list == pre.pending_notifications@
    } else {
        &&& list.len() == pre.pending_notifications@.len() + 1
        &&& list.drop_last() == pre.pending_notifications@
        &&& list.last().0@ == if notification_field(title).len() == 0 {
            pre.app_name@
        } else {
            notification_field(title)
        }
        &&& list.last().1@ == notification_field(body)
    }
}

impl HostState {
    /// Queues a notification. One without a title is attributed to this
    /// application; one without a body is dropped.
    pub fn queue_notification(&mut self, title: &Vec<char>, body: &Vec<char>)
        ensures
            notification_queued(*old(self), title@, body@, *final(self)),
    {
        let text = sanitize_field(body);
        if text.len() == 0 {
            return ;
        }
        let heading = sanitize_field(title);
        let name = if heading.len() == 0 {
            self.app_name.clone()
        } else {
            string_of(&heading)
        };
        self.pending_notifications.push((name, string_of(&text)));
        assert(self.pending_notifications@.drop_last() =~= old(self).pending_notifications@);
    }
}

} // verus!
