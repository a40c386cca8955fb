//! The input stream: from bytes to printed characters, control characters,
//! escape sequences and operating-system commands.

use std::time::SystemTime;
use vstd::prelude::*;

use crate::clipboard::base64_text;
use crate::clipboard::bytes_text;
use crate::clipboard::clipboard_command;
use crate::clipboard::clipboard_commanded;
use crate::clipboard::clipboard_data;
use crate::clipboard::read_answered;
use crate::clipboard::read_decided;
use crate::clipboard::read_model;
use crate::clipboard::text_of_bytes;
use crate::clipboard::ReadDecision;
use crate::control::col_left;
use crate::control::csi_performed;
use crate::control::cursor_restored;
use crate::control::cursor_saved;
use crate::control::stop_set;
use crate::control::stops_changed;
use crate::control::tabbed;
use crate::csi::csi_model;
use crate::csi::parse_csi;
use crate::cursor::cursor_moved;
use crate::cursor::line_fed;
use crate::cursor::reverse_indexed;
use crate::fields::equals;
use crate::fields::part;
use crate::fields::split_first;
use crate::fields::split_once;
use crate::host::announced_cwd;
use crate::host::color_commanded;
use crate::host::color_dropped;
use crate::host::decode_osc7_cwd;
use crate::host::link_opened;
use crate::host::notification_queued;
use crate::host::palette_commanded;
use crate::host::palette_reset;
use crate::host::session_announced;
use crate::host::titles_set;
use crate::host::HostState;
use crate::host::TitleTarget;
use crate::lifecycle::ClockReading;
use crate::marks::osc_133_handled;
use crate::osc133::text_of;
use crate::setup::terminal_reset;
use crate::state::wrapping_next;
use crate::state::Charset;
use crate::state::ParserMode;
use crate::state::TerminalState;
use crate::text::chars_of;
use crate::writing::ascii_run_printed;
use crate::writing::char_printed;

verus! {

/// Most bytes of an unfinished escape sequence that are kept from one batch of
/// input to the next.
pub const MAX_PENDING_ESCAPE: usize = 4194304;

/// `SystemTime::now` of std: a reading of the wall clock.
pub assume_specification[ SystemTime::now ]() -> SystemTime;

/// `Instant::elapsed` of std: the time since an earlier reading of the
/// monotonic clock.
pub assume_specification[ std::time::Instant::elapsed ](instant: &std::time::Instant) -> std::time::Duration;

/// `Duration::as_nanos` of std: the length of a span of time in nanoseconds.
pub assume_specification[ std::time::Duration::as_nanos ](span: &std::time::Duration) -> u128;

/// A command and its value: the text in front of the first semicolon, and what
/// follows it.
pub open spec fn osc_parts(text: Seq<char>) -> (Seq<char>, Seq<char>) {
    match split_first(text, ';') {
        Some(parts) => parts,
        None => (text, Seq::empty()),
    }
}

/// A message for the clipboard reader: its fields, and its payload where it
/// has one.
pub open spec fn read_parts(value: Seq<char>) -> (Seq<char>, Option<Seq<char>>) {
    match split_first(value, ';') {
        Some((metadata, payload)) => (metadata, Some(payload)),
        None => (value, None),
    }
}

/// `post` is `pre` after a notification command of the form
/// `notify;title;body`.
pub open spec fn notify_commanded(pre: HostState, value: Seq<char>, post: HostState) -> bool {
    match split_first(value, ';') {
        Some((kind, rest)) => if kind == "notify"@ {
            match split_first(rest, ';') {
                Some((title, body)) => notification_queued(pre, title, body, post),
                None => notification_queued(pre, rest, Seq::empty(), post),
            }
        } else {
            post == pre
        },
        None => post == pre,
    }
}

/// `post` is `pre` after a clipboard read was decided and answered.
pub open spec fn read_requested(
    pre: HostState,
    value: Seq<char>,
    enabled: bool,
    now_ns: u64,
    post: HostState,
) -> bool {
    let parts = read_parts(value);
    exists|decision: ReadDecision| #[trigger]
        read_decided(
            read_model(parts.0, parts.1),
            enabled,
            pre.pending_paste_grant,
            now_ns,
            decision,
        ) && read_answered(pre, decision, post)
}

/// `post` is `pre` after a command that concerns titles, colours, the
/// clipboard or notifications. Other commands do nothing.
pub open spec fn host_commanded(
    pre: HostState,
    command: Seq<char>,
    value: Seq<char>,
    enabled: bool,
    now_ns: u64,
    post: HostState,
) -> bool {
    if command == "0"@ {
        titles_set(pre, TitleTarget::Both, value, post)
    } else if command == "1"@ {
        titles_set(pre, TitleTarget::Icon, value, post)
    } else if command == "2"@ {
        titles_set(pre, TitleTarget::Window, value, post)
    } else if command == "4"@ {
        palette_commanded(pre, value, post)
    } else if command == "104"@ {
        palette_reset(pre, value, post)
    } else if command == "9"@ {
        notification_queued(pre, Seq::empty(), value, post)
    } else if command == "777"@ {
        notify_commanded(pre, value, post)
    } else if command == "52"@ {
        clipboard_commanded(
            pre,
            clipboard_command(
                clipboard_data(value),
                match clipboard_data(value) {
                    Some(data) => base64_text(data),
                    None => None,
                },
            ),
            post,
        )
    } else if command == "5522"@ {
        read_requested(pre, value, enabled, now_ns, post)
    } else if command == "7770"@ {
        session_announced(pre, value, post)
    } else if command == "10"@ || command == "11"@ || command == "12"@ {
        color_commanded(pre, command, value, post)
    } else {
        post == color_dropped(pre, command)
    }
}

/// `post` is `pre` after a working directory was announced; a refused
/// announcement leaves none.
pub open spec fn directory_announced(
    pre: TerminalState,
    value: Seq<char>,
    post: TerminalState,
) -> bool {
    &&& text_of(post.current_working_dir) == announced_cwd(
        value,
        text_of(pre.host.local_hostname),
    )
    &&& post == TerminalState { current_working_dir: post.current_working_dir, ..pre }
}

/// `post` is `pre` after a hyperlink command.
pub open spec fn hyperlink_commanded(
    pre: TerminalState,
    value: Seq<char>,
    post: TerminalState,
) -> bool {
    &&& link_opened(pre.host, value, post.current_hyperlink, post.host)
    &&& post == TerminalState {
        host: post.host,
        current_hyperlink: post.current_hyperlink,
        ..pre
    }
}

/// `post` is `pre` after an operating-system command.
pub open spec fn osc_performed(
    pre: TerminalState,
    text: Seq<char>,
    now: ClockReading,
    post: TerminalState,
) -> bool {
    let command = osc_parts(text).0;
    let value = osc_parts(text).1;
    if command == "7"@ {
        directory_announced(pre, value, post)
    } else if command == "8"@ {
        hyperlink_commanded(pre, value, post)
    } else if command == "133"@ {
        osc_133_handled(pre, value, now, post)
    } else {
        &&& host_commanded(
            pre.host,
            command,
            value,
            pre.modes.has(5522),
            now.monotonic_ns,
            post.host,
        )
        &&& post == TerminalState { host: post.host, ..pre }
    }
}

/// `post` is `pre` after the bytes of an operating-system command; bytes that
/// are not text are ignored.
pub open spec fn osc_bytes_performed(
    pre: TerminalState,
    bytes: Seq<u8>,
    now: ClockReading,
    post: TerminalState,
) -> bool {
    match bytes_text(bytes) {
        Some(text) => osc_performed(pre, text, now, post),
        None => post == pre,
    }
}

impl HostState {
    /// Carries out a notification command.
    fn notify(&mut self, value: &Vec<char>)
        ensures
            notify_commanded(*old(self), value@, *final(self)),
    {
        if let Some((kind, rest)) = split_once(value, ';') {
            if equals(&kind, "notify") {
                match split_once(&rest, ';') {
                    Some((title, body)) => self.queue_notification(&title, &body),
                    None => {
                        let body: Vec<char> = Vec::new();
                        self.queue_notification(&rest, &body);
                    },
                }
            }
        }
    }

    /// Carries out a clipboard read.
    fn request_read(&mut self, value: &Vec<char>, enabled: bool, now_ns: u64)
        ensures
            read_requested(*old(self), value@, enabled, now_ns, *final(self)),
    {
        match split_once(value, ';') {
            Some((metadata, payload)) => {
                self.handle_osc_5522(&metadata, &Some(payload), enabled, now_ns);
            },
            None => {
                self.handle_osc_5522(value, &None, enabled, now_ns);
            },
        }
    }

    /// Carries out a command that concerns titles, colours, the clipboard or
    /// notifications.
    fn perform_command(
        &mut self,
        command: &Vec<char>,
        value: &Vec<char>,
        enabled: bool,
        now_ns: u64,
    )
        ensures
            host_commanded(*old(self), command@, value@, enabled, now_ns, *final(self)),
            final(self).hyperlinks == old(self).hyperlinks,
    {
        if equals(command, "0") {
            self.set_titles(TitleTarget::Both, value);
        } else if equals(command, "1") {
            self.set_titles(TitleTarget::Icon, value);
        } else if equals(command, "2") {
            self.set_titles(TitleTarget::Window, value);
        } else if equals(command, "4") {
            self.handle_osc_palette(value);
        } else if equals(command, "104") {
            self.reset_osc_palette(value);
        } else if equals(command, "9") {
            let title: Vec<char> = Vec::new();
            assert(title@ =~= Seq::<char>::empty());
            self.queue_notification(&title, value);
        } else if equals(command, "777") {
            self.notify(value);
        } else if equals(command, "52") {
            self.handle_osc_52(value);
        } else if equals(command, "5522") {
            self.request_read(value, enabled, now_ns);
        } else if equals(command, "7770") {
            self.announce_session(value);
        } else if equals(command, "10") || equals(command, "11") || equals(command, "12") {
            self.handle_osc_color(command, value);
        } else {
            self.reset_osc_color(command);
        }
    }
}

/// Splits a command from its value.
fn split_osc(text: &Vec<char>) -> (parts: (Vec<char>, Vec<char>))
    ensures
        parts.0@ == osc_parts(text@).0,
        parts.1@ == osc_parts(text@).1,
{
    match split_once(text, ';') {
        Some(parts) => parts,
        None => {
            let command = part(text, 0, text.len());
            assert(command@ =~= text@);
            let value: Vec<char> = Vec::new();
            assert(value@ =~= Seq::<char>::empty());
            (command, value)
        },
    }
}

impl TerminalState {
    /// Carries out a command for the host side.
    fn perform_host_command(&mut self, command: &Vec<char>, value: &Vec<char>, now: &ClockReading)
        requires
            old(self).core_wf(),
        ensures
            final(self).core_wf(),
            host_commanded(
                old(self).host,
                command@,
                value@,
                old(self).modes.has(5522),
                now.monotonic_ns,
                final(self).host,
            ),
            *final(self) == (TerminalState { host: final(self).host, ..*old(self) }),
    {
        let enabled = self.modes.contains(5522);
        self.host.perform_command(command, value, enabled, now.monotonic_ns);
    }

    /// Carries out an operating-system command.
    pub fn perform_osc(&mut self, text: &Vec<char>, now: &ClockReading)
        requires
            old(self).core_wf(),
        ensures
            final(self).core_wf(),
            osc_performed(*old(self), text@, *now, *final(self)),
    {
        let (command, value) = split_osc(text);
        if equals(&command, "7") {
            self.current_working_dir = decode_osc7_cwd(&value, &self.host.local_hostname);
        } else if equals(&command, "8") {
            let id = self.host.open_hyperlink(&value);
            self.current_hyperlink = id;
        } else if equals(&command, "133") {
            self.handle_osc_133(&value, now);
        } else {
            self.perform_host_command(&command, &value, now);
        }
    }

    /// Carries out the bytes of an operating-system command.
    fn perform_osc_bytes(&mut self, bytes: Vec<u8>, now: &ClockReading)
        requires
            old(self).core_wf(),
        ensures
            final(self).core_wf(),
            osc_bytes_performed(*old(self), bytes@, *now, *final(self)),
    {
        if let Some(text) = text_of_bytes(bytes) {
            let chars = chars_of(text.as_str());
            self.perform_osc(&chars, now);
        }
    }
}

/// `post` is `pre` with the parser in another state.
pub open spec fn parsing(
    pre: TerminalState,
    mode: ParserMode,
    pending: Seq<u8>,
    post: TerminalState,
) -> bool {
    &&& post.parser.mode == mode
    &&& post.parser.pending@ == pending
    &&& post.parser.utf8 == pre.parser.utf8
    &&& post == TerminalState { parser: post.parser, ..pre }
}

/// `post` is `pre` after a control character.
pub open spec fn control_executed(pre: TerminalState, byte: u8, post: TerminalState) -> bool {
    if byte == 0x08 {
        cursor_moved(pre, pre.cursor_row as int, col_left(pre, 1), false, post)
    } else if byte == 0x09 {
        tabbed(pre, 1, post)
    } else if byte == 0x0a || byte == 0x0b || byte == 0x0c {
        line_fed(pre, post)
    } else if byte == 0x0d {
        cursor_moved(pre, pre.cursor_row as int, 0, false, post)
    } else if byte == 0x0e {
        post == TerminalState { active_charset: pre.g1_charset, ..pre }
    } else if byte == 0x0f {
        post == TerminalState { active_charset: pre.g0_charset, ..pre }
    } else {
        post == pre
    }
}

/// Whether a byte prints as itself.
pub open spec fn is_printable(byte: u8) -> bool {
    0x20 <= byte <= 0x7e
}

/// Where the run of printable bytes at `i` ends.
pub open spec fn run_end(data: Seq<u8>, i: int) -> int
    decreases data.len() - i,
{
    if i < data.len() && is_printable(data[i]) {
        run_end(data, i + 1)
    } else {
        i
    }
}

/// How many bytes the character that starts with `byte` has; none where no
/// character starts with it.
pub open spec fn utf8_length(byte: u8) -> Option<int> {
    if 0xc0 <= byte <= 0xdf {
        Some(2)
    } else if 0xe0 <= byte <= 0xef {
        Some(3)
    } else if 0xf0 <= byte <= 0xf7 {
        Some(4)
    } else {
        None
    }
}

/// Whether a byte continues a multi-byte character.
pub open spec fn is_continuation(byte: u8) -> bool {
    0x80 <= byte <= 0xbf
}

/// Whether the bytes `from..to` all continue a multi-byte character.
pub open spec fn all_continue(data: Seq<u8>, from: int, to: int) -> bool {
    forall|k: int| from <= k < to ==> is_continuation(#[trigger] data[k])
}

/// The character that bytes encode, or the replacement character.
pub open spec fn decoded_char(bytes: Seq<u8>) -> char {
    match bytes_text(bytes) {
        Some(text) => if text.len() > 0 {
            text[0]
        } else {
            '\u{fffd}'
        },
        None => '\u{fffd}',
    }
}

/// `post` is `pre` after the multi-byte character at `i`, and `next` is where
/// the input goes on. A character that the batch cuts off waits for the rest;
/// where a byte does not continue it, only its first byte is used up.
pub open spec fn utf8_consumed(
    pre: TerminalState,
    data: Seq<u8>,
    i: int,
    length: int,
    post: TerminalState,
    next: int,
) -> bool {
    let end = if i + length <= data.len() {
        i + length
    } else {
        data.len() as int
    };
    if !all_continue(data, i + 1, end) {
        char_printed(pre, '\u{fffd}', post) && next == i + 1
    } else if i + length > data.len() {
        &&& next == data.len()
        &&& post.parser.utf8@ == data.skip(i)
        &&& post.parser.mode == pre.parser.mode
        &&& post.parser.pending == pre.parser.pending
        &&& post == TerminalState { parser: post.parser, ..pre }
    } else {
        char_printed(pre, decoded_char(data.subrange(i, i + length)), post) && next == i + length
    }
}

/// `post` is `pre` after the plain input at `i`, and `next` is where it goes
/// on. A run of printable bytes is used up at once, unless the character set
/// in force is another one than ASCII.
pub open spec fn ground_step(
    pre: TerminalState,
    data: Seq<u8>,
    i: int,
    post: TerminalState,
    next: int,
) -> bool {
    let byte = data[i];
    if is_printable(byte) && pre.active_charset != Charset::Ascii {
        next == i + 1 && char_printed(pre, byte as char, post)
    } else if is_printable(byte) {
        next == run_end(data, i) && ascii_run_printed(pre, data.subrange(i, next), post)
    } else if byte == 0x1b {
        next == i + 1 && parsing(pre, ParserMode::Escape, seq![0x1bu8], post)
    } else if byte <= 0x7f {
        next == i + 1 && control_executed(pre, byte, post)
    } else {
        match utf8_length(byte) {
            Some(length) => utf8_consumed(pre, data, i, length, post, next),
            None => next == i + 1 && char_printed(pre, '\u{fffd}', post),
        }
    }
}

/// Whether an escape sequence ends with the byte behind its escape character.
pub open spec fn is_short_escape(byte: u8) -> bool {
    byte == 0x37 || byte == 0x38 || byte == 0x3d || byte == 0x3e || byte == 0x44 || byte == 0x45
        || byte == 0x48 || byte == 0x4d || byte == 0x63
}

/// `post` is `pre` after a short escape sequence.
pub open spec fn escape_performed(pre: TerminalState, byte: u8, post: TerminalState) -> bool {
    if byte == 0x37 {
        cursor_saved(pre, post)
    } else if byte == 0x38 {
        cursor_restored(pre, post)
    } else if byte == 0x44 {
        line_fed(pre, post)
    } else if byte == 0x45 {
        exists|mid: TerminalState| #[trigger]
            cursor_moved(pre, pre.cursor_row as int, 0, false, mid) && line_fed(mid, post)
    } else if byte == 0x48 {
        stops_changed(pre, stop_set(pre.tab_stops@, pre.cursor_col as int, true), post)
    } else if byte == 0x4d {
        reverse_indexed(pre, post)
    } else if byte == 0x63 {
        terminal_reset(pre, post)
    } else {
        post == pre
    }
}

/// What the byte behind an escape character begins.
pub open spec fn mode_begun(byte: u8) -> Option<ParserMode> {
    if byte == 0x5b {
        Some(ParserMode::Csi)
    } else if byte == 0x5d {
        Some(ParserMode::Osc)
    } else if byte == 0x50 || byte == 0x58 || byte == 0x5e || byte == 0x5f {
        Some(ParserMode::Opaque)
    } else if byte == 0x28 || byte == 0x29 {
        Some(ParserMode::Charset)
    } else {
        None
    }
}

/// `post` is `pre` after the byte behind an escape character. One that no
/// sequence begins with counts as plain input.
pub open spec fn escape_step(
    pre: TerminalState,
    data: Seq<u8>,
    i: int,
    post: TerminalState,
    next: int,
) -> bool {
    let byte = data[i];
    match mode_begun(byte) {
        Some(mode) => next == i + 1 && parsing(pre, mode, seq![0x1bu8, byte], post),
        None => exists|mid: TerminalState|
            {
                &&& #[trigger] parsing(pre, ParserMode::Ground, Seq::empty(), mid)
                &&& if is_short_escape(byte) {
                    next == i + 1 && escape_performed(mid, byte, post)
                } else {
                    ground_step(mid, data, i, post, next)
                }
            },
    }
}

/// The character set that a designation names.
pub open spec fn charset_of(byte: u8) -> Charset {
    if byte == 0x30 {
        Charset::DecSpecialGraphics
    } else {
        Charset::Ascii
    }
}

/// `post` is `pre` after a character set was designated: that of G0 is in
/// force at once.
pub open spec fn charset_designated(pre: TerminalState, byte: u8, post: TerminalState) -> bool {
    if pre.parser.pending@.last() == 0x28 {
        post == TerminalState {
            g0_charset: charset_of(byte),
            active_charset: charset_of(byte),
            ..pre
        }
    } else {
        post == TerminalState { g1_charset: charset_of(byte), ..pre }
    }
}

/// `post` is `pre` after a byte of a character-set designation.
pub open spec fn charset_step(pre: TerminalState, byte: u8, post: TerminalState) -> bool {
    exists|mid: TerminalState|
        {
            &&& #[trigger] charset_designated(pre, byte, mid)
            &&& parsing(mid, ParserMode::Ground, Seq::empty(), post)
        }
}

/// `post` is `pre` after a byte of a control sequence. Control characters
/// inside it are carried out at once.
pub open spec fn csi_step(
    pre: TerminalState,
    byte: u8,
    now: ClockReading,
    post: TerminalState,
) -> bool {
    if 0x20 <= byte <= 0x3f {
        parsing(pre, ParserMode::Csi, pre.parser.pending@.push(byte), post)
    } else if 0x40 <= byte <= 0x7e {
        exists|mid: TerminalState|
            {
                &&& #[trigger] parsing(pre, ParserMode::Ground, Seq::empty(), mid)
                &&& csi_performed(
                    mid,
                    csi_model(pre.parser.pending@.skip(2), byte),
                    now,
                    post,
                )
            }
    } else if byte == 0x1b {
        parsing(pre, ParserMode::Escape, seq![0x1bu8], post)
    } else if byte == 0x18 || byte == 0x1a {
        parsing(pre, ParserMode::Ground, Seq::empty(), post)
    } else if byte < 0x20 {
        control_executed(pre, byte, post)
    } else {
        post == pre
    }
}

/// Whether a backslash ends a string: an escape character stands before it.
pub open spec fn ends_string(pending: Seq<u8>, byte: u8) -> bool {
    byte == 0x5c && pending.len() > 2 && pending.last() == 0x1b
}

/// `post` is `pre` after a byte of an operating-system command, which a bell
/// or a string terminator ends.
pub open spec fn osc_step(
    pre: TerminalState,
    byte: u8,
    now: ClockReading,
    post: TerminalState,
) -> bool {
    let pending = pre.parser.pending@;
    if byte == 0x07 || ends_string(pending, byte) {
        exists|mid: TerminalState|
            {
                &&& #[trigger] parsing(pre, ParserMode::Ground, Seq::empty(), mid)
                &&& osc_bytes_performed(
                    mid,
                    if byte == 0x07 {
                        pending.skip(2)
                    } else {
                        pending.subrange(2, pending.len() - 1)
                    },
                    now,
                    post,
                )
            }
    } else {
        parsing(pre, ParserMode::Osc, pending.push(byte), post)
    }
}

/// `post` is `pre` after a byte of a string whose contents count for nothing.
pub open spec fn opaque_step(pre: TerminalState, byte: u8, post: TerminalState) -> bool {
    if ends_string(pre.parser.pending@, byte) {
        parsing(pre, ParserMode::Ground, Seq::empty(), post)
    } else {
        parsing(pre, ParserMode::Opaque, pre.parser.pending@.push(byte), post)
    }
}

/// `post` is `pre` after the input at `i`, and `next` is where it goes on.
#[verifier::opaque]
pub open spec fn input_step(
    pre: TerminalState,
    data: Seq<u8>,
    i: int,
    now: ClockReading,
    post: TerminalState,
    next: int,
) -> bool {
    match pre.parser.mode {
        ParserMode::Ground => ground_step(pre, data, i, post, next),
        ParserMode::Escape => escape_step(pre, data, i, post, next),
        ParserMode::Charset => next == i + 1 && charset_step(pre, data[i], post),
        ParserMode::Csi => next == i + 1 && csi_step(pre, data[i], now, post),
        ParserMode::Osc => next == i + 1 && osc_step(pre, data[i], now, post),
        ParserMode::Opaque => next == i + 1 && opaque_step(pre, data[i], post),
    }
}

/// `post` is `pre` after the input from `i` on.
pub open spec fn input_run(
    pre: TerminalState,
    data: Seq<u8>,
    i: int,
    now: ClockReading,
    post: TerminalState,
) -> bool
    decreases data.len() - i,
{
    if i >= data.len() {
        post == pre
    } else {
        exists|mid: TerminalState, next: int|
            {
                &&& i < next <= data.len()
                &&& #[trigger] input_step(pre, data, i, now, mid, next)
                &&& input_run(mid, data, next, now, post)
            }
    }
}

/// `post` is `pre` at the beginning of a batch of input: the screen gets a new
/// version, and a character that waited is taken up again.
pub open spec fn batch_begun(pre: TerminalState, post: TerminalState) -> bool {
    &&& post.grid_version == wrapping_next(pre.grid_version)
    &&& post.parser.utf8@.len() == 0
    &&& post.parser.mode == pre.parser.mode
    &&& post.parser.pending == pre.parser.pending
    &&& post == TerminalState { grid_version: post.grid_version, parser: post.parser, ..pre }
}

/// `post` is `pre` at the end of a batch of input: an unfinished sequence that
/// has grown too long is dropped, and views are out of date.
pub open spec fn batch_ended(pre: TerminalState, post: TerminalState) -> bool {
    &&& post.caches == pre.caches.views_dropped()
    &&& if pre.parser.pending@.len() > MAX_PENDING_ESCAPE {
        &&& post.parser.mode == ParserMode::Ground
        &&& post.parser.pending@ == Seq::<u8>::empty()
        &&& post.parser.utf8 == pre.parser.utf8
    } else {
        post.parser == pre.parser
    }
    &&& post == TerminalState { parser: post.parser, caches: post.caches, ..pre }
}

/// `post` is `pre` after a batch of input.
pub open spec fn input_processed(
    pre: TerminalState,
    data: Seq<u8>,
    now: ClockReading,
    post: TerminalState,
) -> bool {
    exists|begun: TerminalState, done: TerminalState|
        {
            &&& #[trigger] batch_begun(pre, begun)
            &&& #[trigger] input_run(begun, pre.parser.utf8@ + data, 0, now, done)
            &&& batch_ended(done, post)
        }
}

impl TerminalState {
    /// Puts the parser in another state.
    fn set_parsing(&mut self, mode: ParserMode, pending: Vec<u8>)
        requires
            old(self).core_wf(),
            mode == ParserMode::Ground || mode == ParserMode::Escape || pending@.len() >= 2,
        ensures
            final(self).core_wf(),
            parsing(*old(self), mode, pending@, *final(self)),
    {
        self.parser.mode = mode;
        self.parser.pending = pending;
    }

    /// Goes back to plain input.
    fn set_ground(&mut self)
        requires
            old(self).core_wf(),
        ensures
            final(self).core_wf(),
            parsing(*old(self), ParserMode::Ground, Seq::empty(), *final(self)),
    {
        let none: Vec<u8> = Vec::new();
        assert(none@ =~= Seq::<u8>::empty());
        self.set_parsing(ParserMode::Ground, none);
    }

    /// Begins an escape sequence.
    fn set_escape(&mut self)
        requires
            old(self).core_wf(),
        ensures
            final(self).core_wf(),
            parsing(*old(self), ParserMode::Escape, seq![0x1bu8], *final(self)),
    {
        let mut pending: Vec<u8> = Vec::new();
        pending.push(0x1b);
        assert(pending@ =~= seq![0x1bu8]);
        self.set_parsing(ParserMode::Escape, pending);
    }

    /// Keeps a byte of an unfinished sequence.
    fn keep_pending(&mut self, byte: u8)
        requires
            old(self).core_wf(),
            old(self).parser.mode != ParserMode::Ground,
            old(self).parser.mode != ParserMode::Escape,
        ensures
            final(self).core_wf(),
            parsing(
                *old(self),
                old(self).parser.mode,
                old(self).parser.pending@.push(byte),
                *final(self),
            ),
    {
        self.parser.pending.push(byte);
    }

    /// Carries out a control character.
    fn execute_control(&mut self, byte: u8)
        requires
            old(self).core_wf(),
        ensures
            final(self).core_wf(),
            control_executed(*old(self), byte, *final(self)),
    {
        match byte {
            0x08 => {
                let col: usize = if self.cursor_col < 1 {
                    0
                } else {
                    self.cursor_col - 1
                };
                self.move_cursor(self.cursor_row, col, false);
            },
            0x09 => self.tab_forward(1),
            0x0a => self.linefeed(),
            0x0b => self.linefeed(),
            0x0c => self.linefeed(),
            0x0d => self.move_cursor(self.cursor_row, 0, false),
            0x0e => self.active_charset = self.g1_charset,
            0x0f => self.active_charset = self.g0_charset,
            _ => {},
        }
    }
}

/// Where the run of printable bytes at `i` ends.
fn find_run_end(data: &Vec<u8>, i: usize) -> (end: usize)
    requires
        i < data.len(),
        is_printable(data@[i as int]),
    ensures
        end == run_end(data@, i as int),
        i < end <= data@.len(),
{
    let mut end: usize = i + 1;
    while end < data.len() && 0x20 <= data[end] && data[end] <= 0x7e
        invariant
            i < end <= data@.len(),
            run_end(data@, i as int) == run_end(data@, end as int),
        decreases data.len() - end,
    {
        end = end + 1;
    }
    end
}

/// The bytes `from..to`.
fn byte_range(data: &Vec<u8>, from: usize, to: usize) -> (out: Vec<u8>)
    requires
        from <= to <= data@.len(),
    ensures
        out@ == data@.subrange(from as int, to as int),
{
    let mut out: Vec<u8> = Vec::new();
    let mut i: usize = from;
    while i < to
        invariant
            from <= i <= to <= data@.len(),
            out@ == data@.subrange(from as int, i as int),
        decreases to - i,
    {
        out.push(data[i]);
        i = i + 1;
        assert(out@ =~= data@.subrange(from as int, i as int));
    }
    out
}

/// The character that bytes encode, or the replacement character.
fn decode_char(bytes: Vec<u8>) -> (ch: char)
    ensures
        ch == decoded_char(bytes@),
{
    match text_of_bytes(bytes) {
        Some(text) => {
            let chars = chars_of(text.as_str());
            if chars.len() > 0 {
                chars[0]
            } else {
                '\u{fffd}'
            }
        },
        None => '\u{fffd}',
    }
}

/// Whether bytes all continue a multi-byte character.
fn bytes_continue(data: &Vec<u8>, from: usize, to: usize) -> (yes: bool)
    requires
        to <= data@.len(),
    ensures
        yes == all_continue(data@, from as int, to as int),
{
    let mut k: usize = from;
    while k < to
        invariant
            from <= k,
            to <= data@.len(),
            forall|n: int| from <= n < k ==> is_continuation(#[trigger] data@[n]),
        decreases to - k,
    {
        if data[k] < 0x80 || data[k] > 0xbf {
            assert(!is_continuation(data@[k as int]));
            return false;
        }
        assert(is_continuation(data@[k as int]));
        k = k + 1;
    }
    true
}

impl TerminalState {
    /// Consumes a multi-byte character whose first byte is at `i`. The result
    /// is where the input goes on.
    pub fn consume_utf8_lead(&mut self, expected: usize, data: &Vec<u8>, i: usize) -> (next: usize)
        requires
            old(self).core_wf(),
            i < data.len(),
            2 <= expected <= 4,
        ensures
            final(self).core_wf(),
            utf8_consumed(
                *old(self),
                data@,
                i as int,
                expected as int,
                *final(self),
                next as int,
            ),
            i < next <= data@.len(),
    {
        let total: usize = data.len();
        let whole = expected <= total - i;
        let end: usize = if whole {
            i + expected
        } else {
            total
        };
        if !bytes_continue(data, i + 1, end) {
            self.put_char('\u{fffd}');
            return i + 1;
        }
        if !whole {
            self.parser.utf8 = byte_range(data, i, total);
            assert(self.parser.utf8@ =~= data@.skip(i as int));
            return total;
        }
        let ch = decode_char(byte_range(data, i, end));
        self.put_char(ch);
        end
    }

    /// Consumes plain input.
    fn step_ground(&mut self, data: &Vec<u8>, i: usize) -> (next: usize)
        requires
            old(self).core_wf(),
            i < data.len(),
        ensures
            final(self).core_wf(),
            ground_step(*old(self), data@, i as int, *final(self), next as int),
            i < next <= data@.len(),
    {
        let byte: u8 = data[i];
        if 0x20 <= byte && byte <= 0x7e {
            if self.active_charset != Charset::Ascii {
                self.put_char(byte as char);
                return i + 1;
            }
            let end: usize = find_run_end(data, i);
            let run = byte_range(data, i, end);
            self.put_ascii_run(run.as_slice());
            return end;
        }
        if byte == 0x1b {
            self.set_escape();
            return i + 1;
        }
        if byte <= 0x7f {
            self.execute_control(byte);
            return i + 1;
        }
        if 0xc0 <= byte && byte <= 0xdf {
            return self.consume_utf8_lead(2, data, i);
        }
        if 0xe0 <= byte && byte <= 0xef {
            return self.consume_utf8_lead(3, data, i);
        }
        if 0xf0 <= byte && byte <= 0xf7 {
            return self.consume_utf8_lead(4, data, i);
        }
        self.put_char('\u{fffd}');
        i + 1
    }

    /// Carries out a short escape sequence.
    fn perform_escape(&mut self, byte: u8)
        requires
            old(self).core_wf(),
        ensures
            final(self).core_wf(),
            escape_performed(*old(self), byte, *final(self)),
    {
        match byte {
            0x37 => self.save_cursor_state(),
            0x38 => self.restore_cursor(),
            0x44 => self.linefeed(),
            0x45 => {
                self.move_cursor(self.cursor_row, 0, false);
                let ghost mid = *self;
                self.linefeed();
                assert(cursor_moved(*old(self), old(self).cursor_row as int, 0, false, mid));
            },
            0x48 => self.set_tab_stop(true),
            0x4d => self.reverse_index(),
            0x63 => self.hard_reset(),
            _ => {},
        }
    }

    /// Consumes the byte behind an escape character.
    fn step_escape(&mut self, data: &Vec<u8>, i: usize) -> (next: usize)
        requires
            old(self).core_wf(),
            i < data.len(),
        ensures
            final(self).core_wf(),
            escape_step(*old(self), data@, i as int, *final(self), next as int),
            i < next <= data@.len(),
    {
        let byte: u8 = data[i];
        let begun = match byte {
            0x5b => Some(ParserMode::Csi),
            0x5d => Some(ParserMode::Osc),
            0x50 => Some(ParserMode::Opaque),
            0x58 => Some(ParserMode::Opaque),
            0x5e => Some(ParserMode::Opaque),
            0x5f => Some(ParserMode::Opaque),
            0x28 => Some(ParserMode::Charset),
            0x29 => Some(ParserMode::Charset),
            _ => None,
        };
        assert(begun == mode_begun(byte));
        if let Some(mode) = begun {
            let mut pending: Vec<u8> = Vec::new();
            pending.push(0x1b);
            pending.push(byte);
            assert(pending@ =~= seq![0x1bu8, byte]);
            self.set_parsing(mode, pending);
            return i + 1;
        }
        self.set_ground();
        let ghost mid = *self;
        assert(parsing(*old(self), ParserMode::Ground, Seq::empty(), mid));
        if byte == 0x37 || byte == 0x38 || byte == 0x3d || byte == 0x3e || byte == 0x44 || byte
            == 0x45 || byte == 0x48 || byte == 0x4d || byte == 0x63 {
            self.perform_escape(byte);
            i + 1
        } else {
            self.step_ground(data, i)
        }
    }

    /// Consumes a byte of a character-set designation.
    fn step_charset(&mut self, byte: u8)
        requires
            old(self).core_wf(),
            old(self).parser.mode == ParserMode::Charset,
        ensures
            final(self).core_wf(),
            charset_step(*old(self), byte, *final(self)),
    {
        let set = if byte == 0x30 {
            Charset::DecSpecialGraphics
        } else {
            Charset::Ascii
        };
        let n: usize = self.parser.pending.len();
        if self.parser.pending[n - 1] == 0x28 {
            self.g0_charset = set;
            self.active_charset = set;
        } else {
            self.g1_charset = set;
        }
        let ghost mid = *self;
        assert(charset_designated(*old(self), byte, mid));
        self.set_ground();
    }

    /// Consumes a byte of a control sequence.
    fn step_csi(&mut self, byte: u8, now: &ClockReading)
        requires
            old(self).core_wf(),
            old(self).parser.mode == ParserMode::Csi,
        ensures
            final(self).core_wf(),
            csi_step(*old(self), byte, *now, *final(self)),
    {
        if 0x20 <= byte && byte <= 0x3f {
            self.keep_pending(byte);
        } else if 0x40 <= byte && byte <= 0x7e {
            let n: usize = self.parser.pending.len();
            let body = byte_range(&self.parser.pending, 2, n);
            assert(body@ =~= self.parser.pending@.skip(2));
            self.set_ground();
            let ghost mid = *self;
            assert(parsing(*old(self), ParserMode::Ground, Seq::empty(), mid));
            let command = parse_csi(&body, byte);
            self.perform_csi(&command, now);
        } else if byte == 0x1b {
            self.set_escape();
        } else if byte == 0x18 || byte == 0x1a {
            self.set_ground();
        } else if byte < 0x20 {
            self.execute_control(byte);
        }
    }

    /// Consumes a byte of an operating-system command.
    fn step_osc(&mut self, byte: u8, now: &ClockReading)
        requires
            old(self).core_wf(),
            old(self).parser.mode == ParserMode::Osc,
        ensures
            final(self).core_wf(),
            osc_step(*old(self), byte, *now, *final(self)),
    {
        let n: usize = self.parser.pending.len();
        let terminated = byte == 0x5c && n > 2 && self.parser.pending[n - 1] == 0x1b;
        if byte == 0x07 || terminated {
            let end: usize = if byte == 0x07 {
                n
            } else {
                n - 1
            };
            let payload = byte_range(&self.parser.pending, 2, end);
            assert(byte == 0x07 ==> payload@ =~= self.parser.pending@.skip(2));
            self.set_ground();
            let ghost mid = *self;
            assert(parsing(*old(self), ParserMode::Ground, Seq::empty(), mid));
            self.perform_osc_bytes(payload, now);
        } else {
            self.keep_pending(byte);
        }
    }

    /// Consumes a byte of a string whose contents count for nothing.
    fn step_opaque(&mut self, byte: u8)
        requires
            old(self).core_wf(),
            old(self).parser.mode == ParserMode::Opaque,
        ensures
            final(self).core_wf(),
            opaque_step(*old(self), byte, *final(self)),
    {
        let n: usize = self.parser.pending.len();
        if byte == 0x5c && n > 2 && self.parser.pending[n - 1] == 0x1b {
            self.set_ground();
        } else {
            self.keep_pending(byte);
        }
    }

    /// Consumes the input at `i`. The result is where it goes on.
    fn step_input(&mut self, data: &Vec<u8>, i: usize, now: &ClockReading) -> (next: usize)
        requires
            old(self).core_wf(),
            i < data.len(),
        ensures
            final(self).core_wf(),
            input_step(*old(self), data@, i as int, *now, *final(self), next as int),
            i < next <= data@.len(),
    {
        proof {
            reveal(input_step);
        }
        match self.parser.mode {
            ParserMode::Ground => self.step_ground(data, i),
            ParserMode::Escape => self.step_escape(data, i),
            ParserMode::Charset => {
                self.step_charset(data[i]);
                i + 1
            },
            ParserMode::Csi => {
                self.step_csi(data[i], now);
                i + 1
            },
            ParserMode::Osc => {
                self.step_osc(data[i], now);
                i + 1
            },
            ParserMode::Opaque => {
                self.step_opaque(data[i]);
                i + 1
            },
        }
    }

    /// Consumes a run of input.
    fn run_input(&mut self, data: &Vec<u8>, now: &ClockReading)
        requires
            old(self).core_wf(),
        ensures
            final(self).core_wf(),
            input_run(*old(self), data@, 0, *now, *final(self)),
    {
        let ghost start = *self;
        let mut i: usize = 0;
        while i < data.len()
            invariant
                i <= data@.len(),
                self.core_wf(),
                forall|post: TerminalState|
                    #[trigger] input_run(*self, data@, i as int, *now, post) ==> input_run(
                        start,
                        data@,
                        0,
                        *now,
                        post,
                    ),
            decreases data.len() - i,
        {
            let ghost before = *self;
            let ghost from = i as int;
            i = self.step_input(data, i, now);
            assert forall|post: TerminalState| #[trigger]
                input_run(*self, data@, i as int, *now, post) implies input_run(
                start,
                data@,
                0,
                *now,
                post,
            ) by {
                assert(input_step(before, data@, from, *now, *self, i as int));
                assert(input_run(before, data@, from, *now, post));
            }
        }
        assert(input_run(*self, data@, data@.len() as int, *now, *self));
    }

    /// Takes in a batch of input at a given time.
    pub fn process_input_at(&mut self, data: &[u8], now: &ClockReading)
        requires
            old(self).core_wf(),
        ensures
            final(self).core_wf(),
            input_processed(*old(self), data@, *now, *final(self)),
            final(self).caches.visible_cells is None,
    {
        let total: usize = data.len();
        let mut all: Vec<u8> = Vec::new();
        std::mem::swap(&mut all, &mut self.parser.utf8);
        let ghost waiting = all@;
        self.grid_version = self.grid_version.wrapping_add(1);
        let mut i: usize = 0;
        while i < total
            invariant
                i <= total,
                total == data@.len(),
                all@ == waiting + data@.take(i as int),
            decreases total - i,
        {
            all.push(data[i]);
            i = i + 1;
            assert(all@ =~= waiting + data@.take(i as int));
        }
        assert(data@.take(i as int) =~= data@);
        let ghost begun = *self;
        self.run_input(&all, now);
        let ghost done = *self;
        if self.parser.pending.len() > MAX_PENDING_ESCAPE {
            self.set_ground();
        }
        self.caches.drop_views();
        assert(batch_begun(*old(self), begun));
        assert(input_run(begun, old(self).parser.utf8@ + data@, 0, *now, done));
        assert(batch_ended(done, *self));
    }

    /// The time now.
    pub fn read_clock(&self) -> (now: ClockReading) {
        let elapsed: u128 = self.epoch.elapsed().as_nanos();
        let monotonic_ns: u64 = if elapsed > u64::MAX as u128 {
            u64::MAX
        } else {
            elapsed as u64
        };
        ClockReading { monotonic_ns, wall: SystemTime::now() }
    }

    /// Takes in a batch of input.
    pub fn process_input(&mut self, data: &[u8])
        requires
            old(self).core_wf(),
        ensures
            final(self).core_wf(),
            exists|now: ClockReading| #[trigger]
                input_processed(*old(self), data@, now, *final(self)),
            final(self).caches.visible_cells is None,
    {
        let now = self.read_clock();
        self.process_input_at(data, &now);
    }

    /// Takes in a batch of input as one more version of the screen, however
    /// many rows it touches.
    pub fn process_batch(&mut self, input: &[u8])
        requires
            old(self).core_wf(),
        ensures
            final(self).core_wf(),
            exists|now: ClockReading| #[trigger]
                input_processed(*old(self), input@, now, *final(self)),
            final(self).caches.visible_cells is None,
    {
        self.process_input(input);
    }
}

} // verus!
