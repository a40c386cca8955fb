//! What the application asks of the terminal and takes from it.

use vstd::prelude::*;

use crate::cell::HyperlinkId;
use crate::clipboard::new_token;
use crate::clipboard::paste_offered;
use crate::clipboard::string_texts;
use crate::clipboard::ClipboardReadRequest;
use crate::clipboard::MAX_OSC_5522_MIME_LEN;
use crate::commands::decimal;
use crate::commands::decimal_text;
use crate::host::HostState;
use crate::reports::append_ascii;
use crate::reports::append_chars;
use crate::reports::ascii_bytes;
use crate::screens::sync_ended;
use crate::screens::sync_overdue;
use crate::state::ImeState;
use crate::state::TerminalState;

verus! {

/// The rows that changed after a version, in order.
pub open spec fn changed_rows(versions: Seq<u64>, since: u64) -> Seq<usize>
    decreases versions.len(),
{
    if versions.len() == 0 {
        Seq::empty()
    } else if versions.last() > since {
        changed_rows(versions.drop_last(), since).push((versions.len() - 1) as usize)
    } else {
        changed_rows(versions.drop_last(), since)
    }
}

/// Whether the mouse is reported at all.
pub open spec fn reports_mouse(state: TerminalState) -> bool {
    state.modes.has(1000) || state.modes.has(1002) || state.modes.has(1003)
}

/// A coordinate as mouse reports count it, from one.
pub open spec fn one_based(n: usize) -> int {
    if n == usize::MAX {
        usize::MAX as int
    } else {
        n + 1
    }
}

/// A coordinate in the one-byte encoding, which ends at 223.
pub open spec fn byte_coordinate(n: usize) -> u8 {
    if one_based(n) > 223 {
        255
    } else {
        (32 + one_based(n)) as u8
    }
}

/// A mouse report in decimal encoding.
pub open spec fn decimal_report(button: u8, col: usize, row: usize, last: Seq<char>) -> Seq<u8> {
    ascii_bytes(
        "\x1b[<"@ + decimal_text(button as nat) + ";"@ + decimal_text(one_based(col) as nat)
            + ";"@ + decimal_text(one_based(row) as nat) + last,
    )
}

/// A mouse report in one-byte encoding.
pub open spec fn byte_report(button: u8, col: usize, row: usize) -> Seq<u8> {
    seq![0x1bu8, 0x5bu8, 0x4du8, button, byte_coordinate(col), byte_coordinate(row)]
}

/// A button as the one-byte encoding writes it.
pub open spec fn byte_button(button: u8) -> u8 {
    if button > 223 {
        255
    } else {
        (button + 32) as u8
    }
}

/// A mouse report in decimal encoding.
fn make_decimal_report(button: u8, col: usize, row: usize, last: &str) -> (report: Vec<u8>)
    ensures
        report@ == decimal_report(button, col, row, last@),
{
    let mut text: Vec<char> = Vec::new();
    append_chars(&mut text, "\x1b[<");
    let mut number = decimal(button as u64);
    text.append(&mut number);
    append_chars(&mut text, ";");
    let mut x = decimal(col.saturating_add(1) as u64);
    text.append(&mut x);
    append_chars(&mut text, ";");
    let mut y = decimal(row.saturating_add(1) as u64);
    text.append(&mut y);
    append_chars(&mut text, last);
    assert(text@ =~= "\x1b[<"@ + decimal_text(button as nat) + ";"@ + decimal_text(
        one_based(col) as nat,
    ) + ";"@ + decimal_text(one_based(row) as nat) + last@);
    let mut report: Vec<u8> = Vec::new();
    append_ascii(&mut report, &text);
    assert(report@ =~= decimal_report(button, col, row, last@));
    report
}

/// A coordinate in the one-byte encoding.
fn encode_coordinate(n: usize) -> (byte: u8)
    ensures
        byte == byte_coordinate(n),
{
    let counted: usize = n.saturating_add(1);
    if counted > 223 {
        255
    } else {
        32 + counted as u8
    }
}

/// A mouse report in one-byte encoding.
fn make_byte_report(button: u8, col: usize, row: usize) -> (report: Vec<u8>)
    ensures
        report@ == byte_report(button, col, row),
{
    let mut report: Vec<u8> = Vec::new();
    report.push(0x1b);
    report.push(0x5b);
    report.push(0x4d);
    report.push(button);
    report.push(encode_coordinate(col));
    report.push(encode_coordinate(row));
    assert(report@ =~= byte_report(button, col, row));
    report
}

/// The bytes of an optional report.
pub open spec fn report_bytes(report: Option<Vec<u8>>) -> Option<Seq<u8>> {
    match report {
        Some(bytes) => Some(bytes@),
        None => None,
    }
}

impl TerminalState {
    /// Lists the rows that changed after a version.
    pub fn get_dirty_rows(&self, last_rendered_version: u64, out: &mut Vec<usize>)
        ensures
            final(out)@ == changed_rows(self.row_versions@, last_rendered_version),
    {
        out.clear();
        let ghost versions = self.row_versions@;
        let mut i: usize = 0;
        assert(versions.take(0) =~= Seq::<u64>::empty());
        while i < self.row_versions.len()
            invariant
                i <= versions.len(),
                versions == self.row_versions@,
                out@ == changed_rows(versions.take(i as int), last_rendered_version),
            decreases self.row_versions.len() - i,
        {
            assert(versions.take(i + 1).drop_last() =~= versions.take(i as int));
            if self.row_versions[i] > last_rendered_version {
                out.push(i);
            }
            i = i + 1;
        }
        assert(versions.take(i as int) =~= versions);
    }

    /// The version of the screen.
    pub fn get_grid_version(&self) -> (version: u64)
        ensures
            version == self.grid_version,
    {
        self.grid_version
    }

    /// The target that a cell's reference names.
    pub fn hyperlink_uri(&self, id: HyperlinkId) -> (uri: Option<&str>)
        ensures
            match (self.host.link_of(id), uri) {
                (Some(expected), Some(uri)) => expected == uri@,
                (None, None) => true,
                _ => false,
            },
    {
        let raw: usize = id.raw as usize;
        if 1 <= raw && raw <= self.host.hyperlinks.len() {
            Some(self.host.hyperlinks[raw - 1].as_str())
        } else {
            None
        }
    }

    /// Hands out what an application put into the clipboard.
    pub fn take_osc52_clipboard_set(&mut self) -> (text: Option<String>)
        requires
            old(self).core_wf(),
        ensures
            final(self).core_wf(),
            text == old(self).host.pending_osc52_clipboard_set,
            *final(self) == (TerminalState {
                host: HostState { pending_osc52_clipboard_set: None, ..old(self).host },
                ..*old(self)
            }),
    {
        let mut text: Option<String> = None;
        std::mem::swap(&mut text, &mut self.host.pending_osc52_clipboard_set);
        text
    }

    /// Whether an application asked what the clipboard holds, since the last
    /// call.
    pub fn take_osc52_clipboard_query(&mut self) -> (asked: bool)
        requires
            old(self).core_wf(),
        ensures
            final(self).core_wf(),
            asked == old(self).host.pending_osc52_clipboard_query,
            *final(self) == (TerminalState {
                host: HostState { pending_osc52_clipboard_query: false, ..old(self).host },
                ..*old(self)
            }),
    {
        let asked = self.host.pending_osc52_clipboard_query;
        self.host.pending_osc52_clipboard_query = false;
        asked
    }

    /// Ends synchronized output that has lasted too long.
    pub fn check_sync_output_timeout(&mut self)
        requires
            old(self).core_wf(),
        ensures
            final(self).core_wf(),
            *final(self) == *old(self) || (exists|now_ns: u64| #[trigger]
                sync_overdue(*old(self), now_ns)) && sync_ended(*old(self), *final(self)),
    {
        let now = self.read_clock();
        self.check_sync_output_timeout_at(now.monotonic_ns);
    }

    /// Rows of history that are kept at most.
    pub fn max_scrollback(&self) -> (rows: usize)
        ensures
            rows == self.max_scrollback,
    {
        self.max_scrollback
    }

    /// Rows of history that are kept now.
    pub fn scrollback_len(&self) -> (rows: usize)
        ensures
            rows == self.history().len(),
    {
        self.scrollback.len()
    }

    /// Whether the alternate screen is shown.
    pub fn is_alt_buffer(&self) -> (yes: bool)
        ensures
            yes == self.use_alt_buffer,
    {
        self.use_alt_buffer
    }

    /// Whether the alternate screen is shown.
    pub fn is_alt_buffer_active(&self) -> (yes: bool)
        ensures
            yes == self.use_alt_buffer,
    {
        self.use_alt_buffer
    }

    /// Whether the cursor is shown: not while the view is scrolled back.
    pub fn is_cursor_visible(&self) -> (yes: bool)
        ensures
            yes == (self.modes.has(25) && self.scroll_offset == 0),
    {
        self.modes.contains(25) && self.scroll_offset == 0
    }

    /// Whether pasted text is to be bracketed.
    pub fn is_bracketed_paste_enabled(&self) -> (yes: bool)
        ensures
            yes == self.modes.has(2004),
    {
        self.modes.contains(2004)
    }

    /// Whether cursor keys send application codes.
    pub fn is_application_cursor_keys(&self) -> (yes: bool)
        ensures
            yes == self.modes.has(1),
    {
        self.modes.contains(1)
    }

    /// Whether pastes are announced instead of typed.
    pub fn is_paste_events_enabled(&self) -> (yes: bool)
        ensures
            yes == self.modes.has(5522),
    {
        self.modes.contains(5522)
    }

    /// Whether the mouse is reported at all.
    pub fn is_mouse_enabled(&self) -> (yes: bool)
        ensures
            yes == reports_mouse(*self),
    {
        self.modes.contains(1000) || self.modes.contains(1002) || self.modes.contains(1003)
    }

    /// Whether pointer motion is reported.
    pub fn should_report_mouse_motion(&self, button_down: bool) -> (yes: bool)
        ensures
            yes == (self.modes.has(1003) || (button_down && self.modes.has(1002))),
    {
        self.modes.contains(1003) || (button_down && self.modes.contains(1002))
    }

    /// The report of a mouse button that goes down.
    pub fn get_mouse_report(&self, button: u8, col: usize, row: usize) -> (report: Option<Vec<u8>>)
        ensures
            report_bytes(report) == if !reports_mouse(*self) {
                None
            } else if self.modes.has(1006) {
                Some(decimal_report(button, col, row, "M"@))
            } else {
                Some(byte_report(byte_button(button), col, row))
            },
    {
        if !self.is_mouse_enabled() {
            return None;
        }
        if self.modes.contains(1006) {
            Some(make_decimal_report(button, col, row, "M"))
        } else {
            Some(make_byte_report(button.saturating_add(32), col, row))
        }
    }

    /// The report of a mouse button that goes up.
    pub fn get_mouse_release_report(&self, button: u8, col: usize, row: usize) -> (report: Option<
        Vec<u8>,
    >)
        ensures
            report_bytes(report) == if !reports_mouse(*self) {
                None
            } else if self.modes.has(1006) {
                Some(decimal_report(button, col, row, "m"@))
            } else {
                Some(byte_report(35, col, row))
            },
    {
        if !self.is_mouse_enabled() {
            return None;
        }
        if self.modes.contains(1006) {
            Some(make_decimal_report(button, col, row, "m"))
        } else {
            Some(make_byte_report(35, col, row))
        }
    }

    /// Announces a paste at a given time under a given token.
    pub fn build_paste_event_at(&mut self, mime_types: &[String], token: String, now_ns: u64) -> (
    event: Vec<u8>)
        requires
            old(self).core_wf(),
            token@.len() <= MAX_OSC_5522_MIME_LEN,
            forall|i: int| 0 <= i < token@.len() ==> (#[trigger] token@[i] as u32) < 128,
        ensures
            final(self).core_wf(),
            paste_announced(
                *old(self),
                string_texts(mime_types@),
                token@,
                now_ns,
                *final(self),
                event@,
            ),
    {
        if !self.modes.contains(5522) {
            self.host.pending_paste_grant = None;
            return Vec::new();
        }
        self.host.offer_paste(mime_types, token, now_ns)
    }

    /// Announces a paste: what kinds of data it offers, and a password for one
    /// read of them. Where pastes are not announced, any grant ends.
    pub fn build_paste_event(&mut self, mime_types: &[String]) -> (event: Vec<u8>)
        requires
            old(self).core_wf(),
        ensures
            final(self).core_wf(),
            exists|token: Seq<char>, now_ns: u64| #[trigger]
                paste_announced(
                    *old(self),
                    string_texts(mime_types@),
                    token,
                    now_ns,
                    *final(self),
                    event@,
                ),
    {
        let now = self.read_clock();
        let token = new_token();
        self.build_paste_event_at(mime_types, token, now.monotonic_ns)
    }

    /// Hands out the clipboard reads that wait.
    pub fn take_clipboard_read_requests(&mut self) -> (requests: Vec<ClipboardReadRequest>)
        requires
            old(self).core_wf(),
        ensures
            final(self).core_wf(),
            requests == old(self).host.pending_clipboard_requests,
            final(self).host.pending_clipboard_requests@.len() == 0,
            *final(self) == (TerminalState {
                host: HostState {
                    pending_clipboard_requests: final(self).host.pending_clipboard_requests,
                    ..old(self).host
                },
                ..*old(self)
            }),
    {
        let mut requests: Vec<ClipboardReadRequest> = Vec::new();
        std::mem::swap(&mut requests, &mut self.host.pending_clipboard_requests);
        requests
    }

    /// Where the cursor is.
    pub fn get_cursor_pos(&self) -> (pos: (usize, usize))
        ensures
            pos == (self.cursor_row, self.cursor_col),
    {
        (self.cursor_row, self.cursor_col)
    }

    /// Hands out the replies for the application.
    pub fn get_output(&mut self) -> (output: Vec<u8>)
        requires
            old(self).core_wf(),
        ensures
            final(self).core_wf(),
            output == old(self).host.output_buffer,
            final(self).host.output_buffer@.len() == 0,
            *final(self) == (TerminalState {
                host: HostState {
                    output_buffer: final(self).host.output_buffer,
                    ..old(self).host
                },
                ..*old(self)
            }),
    {
        let mut output: Vec<u8> = Vec::new();
        std::mem::swap(&mut output, &mut self.host.output_buffer);
        output
    }

    /// How often the selection changed.
    pub fn selection_revision(&self) -> (revision: u64)
        ensures
            revision == self.selection_revision,
    {
        self.selection_revision
    }

    /// Width and height of the screen.
    pub fn get_dimensions(&self) -> (size: (usize, usize))
        ensures
            size.0 == self.cols(),
            size.1 == self.rows(),
    {
        (self.grid.cols, self.grid.rows.len())
    }

    /// Sets the text that an input method is composing.
    pub fn set_preedit(&mut self, text: String, cursor: usize)
        requires
            old(self).core_wf(),
        ensures
            final(self).core_wf(),
            *final(self) == (TerminalState {
                ime: ImeState { preedit_text: text, preedit_cursor: cursor },
                ..*old(self)
            }),
    {
        self.ime.preedit_text = text;
        self.ime.preedit_cursor = cursor;
    }

    /// Drops the text that an input method was composing.
    pub fn clear_preedit(&mut self)
        requires
            old(self).core_wf(),
        ensures
            final(self).core_wf(),
            final(self).ime.preedit_text@ == Seq::<char>::empty(),
            final(self).ime.preedit_cursor == 0,
            *final(self) == (TerminalState { ime: final(self).ime, ..*old(self) }),
    {
        self.ime.preedit_text = String::new();
        self.ime.preedit_cursor = 0;
    }

    /// Tells the terminal the name of the machine it runs on.
    pub fn set_local_hostname(&mut self, name: Option<String>)
        requires
            old(self).core_wf(),
        ensures
            final(self).core_wf(),
            *final(self) == (TerminalState {
                host: HostState { local_hostname: name, ..old(self).host },
                ..*old(self)
            }),
    {
        self.host.local_hostname = name;
    }
}

/// `post` is `pre` after a paste was announced with `event`.
pub open spec fn paste_announced(
    pre: TerminalState,
    mimes: Seq<Seq<char>>,
    token: Seq<char>,
    now_ns: u64,
    post: TerminalState,
    event: Seq<u8>,
) -> bool {
    if !pre.modes.has(5522) {
        &&& event.len() == 0
        &&& post == TerminalState {
            host: HostState { pending_paste_grant: None, ..pre.host },
            ..pre
        }
    } else {
        &&& paste_offered(pre.host, mimes, token, now_ns, post.host, event)
        &&& post == TerminalState { host: post.host, ..pre }
    }
}

} // verus!
