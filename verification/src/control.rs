//! What control characters and control sequences do.

use vstd::prelude::*;

use crate::commands::decimal;
use crate::commands::decimal_text;
use crate::csi::given_or;
use crate::csi::param_or;
use crate::csi::CsiCommand;
use crate::csi::CsiModel;
use crate::csi::CsiParam;
use crate::csi::CsiParams;
use crate::cursor::addressed_col;
use crate::cursor::addressed_row;
use crate::cursor::captured_cursor;
use crate::cursor::cursor_at;
use crate::cursor::cursor_moved;
use crate::cursor::cursor_put_back;
use crate::cursor::tabs_back_to;
use crate::cursor::tabs_to;
use crate::editing::blanks_inserted;
use crate::editing::cells_deleted;
use crate::editing::cells_erased;
use crate::editing::display_erased;
use crate::editing::line_erased;
use crate::editing::lines_deleted;
use crate::editing::lines_inserted;
use crate::editing::region_scrolled_down_by;
use crate::editing::region_scrolled_up_by;
use crate::grid::CursorShape;
use crate::host::titles_popped;
use crate::host::titles_pushed;
use crate::host::HostState;
use crate::host::TitleTarget;
use crate::keyboard::flags_changed;
use crate::keyboard::flags_popped;
use crate::keyboard::flags_pushed;
use crate::keyboard::flags_set;
use crate::lifecycle::ClockReading;
use crate::modes::bit_index;
use crate::modes::mode_bit;
use crate::output::noted_reposition;
use crate::output::only_active_changed;
use crate::pen::pen_changed;
use crate::pen::pen_of;
use crate::pen::pen_selected;
use crate::reports::append_chars;
use crate::reports::ascii_bytes;
use crate::screens::alternate_entered;
use crate::screens::alternate_left;
use crate::screens::sync_begun;
use crate::screens::sync_ended;
use crate::setup::history_cleared;
use crate::state::KeyboardState;
use crate::state::SavedCursors;
use crate::state::TerminalState;
use crate::writing::char_printed;
use crate::writing::chars_printed;

verus! {

/// Row that an upward movement by `n` reaches: it stops at the top of the
/// scroll region unless it starts above.
pub open spec fn row_up(state: TerminalState, n: int) -> int {
    let limit = if state.cursor_row >= state.scroll_region_top {
        state.scroll_region_top as int
    } else {
        0
    };
    if state.cursor_row - n < limit {
        limit
    } else {
        state.cursor_row - n
    }
}

/// Row that a downward movement by `n` reaches: it stops at the bottom of the
/// scroll region unless it starts below.
pub open spec fn row_down(state: TerminalState, n: int) -> int {
    let limit = if state.cursor_row <= state.scroll_region_bottom {
        state.scroll_region_bottom as int
    } else {
        state.rows() - 1
    };
    if state.cursor_row + n > limit {
        limit
    } else {
        state.cursor_row + n
    }
}

/// Column that a movement to the right by `n` reaches.
pub open spec fn col_right(state: TerminalState, n: int) -> int {
    if state.cursor_col + n < state.cols() {
        state.cursor_col + n
    } else {
        state.cols() - 1
    }
}

/// Column that a movement to the left by `n` reaches.
pub open spec fn col_left(state: TerminalState, n: int) -> int {
    if state.cursor_col < n {
        0
    } else {
        state.cursor_col - n
    }
}

/// `post` is `pre` after the cursor went `n` tab stops to the right.
pub open spec fn tabbed(pre: TerminalState, n: int, post: TerminalState) -> bool
    decreases n,
{
    if n <= 0 {
        post == pre
    } else {
        exists|col: int, mid: TerminalState|
            {
                &&& tabs_to(pre.tab_stops@, pre.cols(), pre.cursor_col as int, col)
                &&& #[trigger] cursor_moved(pre, pre.cursor_row as int, col, false, mid)
                &&& tabbed(mid, n - 1, post)
            }
    }
}

/// `post` is `pre` after the cursor went `n` tab stops to the left.
pub open spec fn tabbed_back(pre: TerminalState, n: int, post: TerminalState) -> bool
    decreases n,
{
    if n <= 0 {
        post == pre
    } else {
        exists|col: int, mid: TerminalState|
            {
                &&& tabs_back_to(pre.tab_stops@, pre.cursor_col as int, col)
                &&& #[trigger] cursor_moved(pre, pre.cursor_row as int, col, false, mid)
                &&& tabbed_back(mid, n - 1, post)
            }
    }
}

/// Tab stops with one set or cleared.
pub open spec fn stop_set(stops: Seq<bool>, col: int, on: bool) -> Seq<bool> {
    if 0 <= col < stops.len() {
        stops.update(col, on)
    } else {
        stops
    }
}

/// `post` is `pre` with other tab stops.
pub open spec fn stops_changed(pre: TerminalState, stops: Seq<bool>, post: TerminalState) -> bool {
    &&& post.tab_stops@ == stops
    &&& post == TerminalState { tab_stops: post.tab_stops, ..pre }
}

/// `post` is `pre` after tab stops were cleared: that at the cursor, or all.
pub open spec fn stops_cleared(pre: TerminalState, mode: u16, post: TerminalState) -> bool {
    if mode == 0 {
        stops_changed(pre, stop_set(pre.tab_stops@, pre.cursor_col as int, false), post)
    } else if mode == 3 {
        stops_changed(pre, Seq::new(pre.tab_stops@.len(), |c: int| false), post)
    } else {
        post == pre
    }
}

/// `post` is `pre` after the scroll region was set and the cursor went home;
/// a region of fewer than two rows is refused.
pub open spec fn region_set(
    pre: TerminalState,
    params: Seq<CsiParam>,
    post: TerminalState,
) -> bool {
    let top = param_or(params, 0, 1) as int;
    let given = param_or(params, 1, u16::MAX) as int;
    let bottom = if given < pre.rows() {
        given
    } else {
        pre.rows()
    };
    if top >= bottom {
        post == pre
    } else {
        let set = TerminalState {
            scroll_region_top: (top - 1) as usize,
            scroll_region_bottom: (bottom - 1) as usize,
            ..pre
        };
        cursor_moved(set, addressed_row(set, 1), addressed_col(set, 1), true, post)
    }
}

/// `post` is `pre` after a saved cursor was brought back.
pub open spec fn cursor_restored(pre: TerminalState, post: TerminalState) -> bool {
    exists|mid: TerminalState|
        {
            &&& #[trigger] restored_at(pre, mid)
            &&& only_active_changed(mid, noted_reposition(mid, true), post)
        }
}

/// `post` is `pre` with the cursor where it was saved, or at the origin.
pub open spec fn restored_at(pre: TerminalState, post: TerminalState) -> bool {
    match pre.saved.requested {
        Some(saved) => cursor_put_back(pre, saved, post),
        None => cursor_at(pre, 0, 0, post),
    }
}

/// `post` is `pre` with the cursor saved.
pub open spec fn cursor_saved(pre: TerminalState, post: TerminalState) -> bool {
    post == TerminalState {
        saved: SavedCursors { requested: Some(captured_cursor(pre)), ..pre.saved },
        ..pre
    }
}

/// `post` is `pre` after the last printed character was printed `n` times
/// more.
pub open spec fn last_repeated(pre: TerminalState, n: int, post: TerminalState) -> bool {
    match pre.last_printed_char {
        Some(ch) => chars_printed(pre, Seq::new(n as nat, |i: int| ch), post),
        None => post == pre,
    }
}

/// `post` is `pre` after a reply was sent.
pub open spec fn replied(pre: TerminalState, text: Seq<char>, post: TerminalState) -> bool {
    &&& post.host.output_buffer@ == pre.host.output_buffer@ + ascii_bytes(text)
    &&& post == TerminalState {
        host: HostState { output_buffer: post.host.output_buffer, ..pre.host },
        ..pre
    }
}

/// The reply to a question for the cursor position.
pub open spec fn position_text(state: TerminalState) -> Seq<char> {
    let row = if state.origin_mode && state.cursor_row >= state.scroll_region_top {
        state.cursor_row - state.scroll_region_top + 1
    } else {
        state.cursor_row + 1
    };
    "\x1b["@ + decimal_text(row as nat) + ";"@ + decimal_text((state.cursor_col + 1) as nat) + "R"@
}

/// `post` is `pre` after a status question was answered.
pub open spec fn status_reported(pre: TerminalState, what: u16, post: TerminalState) -> bool {
    if what == 5 {
        replied(pre, "\x1b[0n"@, post)
    } else if what == 6 {
        replied(pre, position_text(pre), post)
    } else {
        post == pre
    }
}

/// Which titles a window operation concerns.
pub open spec fn title_target(which: u16) -> TitleTarget {
    if which == 1 {
        TitleTarget::Icon
    } else if which == 2 {
        TitleTarget::Window
    } else {
        TitleTarget::Both
    }
}

impl TerminalState {
    /// Row that an upward movement reaches.
    fn up_from_cursor(&self, n: usize) -> (row: usize)
        requires
            self.core_wf(),
        ensures
            row == row_up(*self, n as int),
            row < self.rows(),
    {
        let limit: usize = if self.cursor_row >= self.scroll_region_top {
            self.scroll_region_top
        } else {
            0
        };
        if self.cursor_row - limit < n {
            limit
        } else {
            self.cursor_row - n
        }
    }

    /// Row that a downward movement reaches.
    fn down_from_cursor(&self, n: usize) -> (row: usize)
        requires
            self.core_wf(),
        ensures
            row == row_down(*self, n as int),
            row < self.rows(),
    {
        let limit: usize = if self.cursor_row <= self.scroll_region_bottom {
            self.scroll_region_bottom
        } else {
            self.grid.rows.len() - 1
        };
        if limit - self.cursor_row < n {
            limit
        } else {
            self.cursor_row + n
        }
    }

    /// Column that a movement to the right reaches.
    fn right_from_cursor(&self, n: usize) -> (col: usize)
        requires
            self.core_wf(),
        ensures
            col == col_right(*self, n as int),
            col < self.cols(),
    {
        if n < self.grid.cols - self.cursor_col {
            self.cursor_col + n
        } else {
            self.grid.cols - 1
        }
    }

    /// Column that a movement to the left reaches.
    fn left_from_cursor(&self, n: usize) -> (col: usize)
        requires
            self.core_wf(),
        ensures
            col == col_left(*self, n as int),
            col < self.cols(),
    {
        if self.cursor_col < n {
            0
        } else {
            self.cursor_col - n
        }
    }

    /// Moves the cursor to the right by tab stops.
    pub fn tab_forward(&mut self, n: usize)
        requires
            old(self).core_wf(),
        ensures
            final(self).core_wf(),
            tabbed(*old(self), n as int, *final(self)),
    {
        let ghost start = *self;
        let mut left: usize = n;
        while left > 0
            invariant
                left <= n,
                self.core_wf(),
                forall|post: TerminalState|
                    #[trigger] tabbed(*self, left as int, post) ==> tabbed(start, n as int, post),
            decreases left,
        {
            let ghost before = *self;
            let col: usize = self.next_tab_stop(self.cursor_col);
            self.move_cursor(self.cursor_row, col, false);
            left = left - 1;
            assert forall|post: TerminalState| #[trigger]
                tabbed(*self, left as int, post) implies tabbed(start, n as int, post) by {
                assert(cursor_moved(before, before.cursor_row as int, col as int, false, *self));
                assert(tabbed(before, left + 1, post));
            }
        }
        assert(tabbed(*self, 0, *self));
    }

    /// Moves the cursor to the left by tab stops.
    pub fn tab_backward(&mut self, n: usize)
        requires
            old(self).core_wf(),
        ensures
            final(self).core_wf(),
            tabbed_back(*old(self), n as int, *final(self)),
    {
        let ghost start = *self;
        let mut left: usize = n;
        while left > 0
            invariant
                left <= n,
                self.core_wf(),
                forall|post: TerminalState|
                    #[trigger] tabbed_back(*self, left as int, post) ==> tabbed_back(
                        start,
                        n as int,
                        post,
                    ),
            decreases left,
        {
            let ghost before = *self;
            let col: usize = self.prev_tab_stop(self.cursor_col);
            self.move_cursor(self.cursor_row, col, false);
            left = left - 1;
            assert forall|post: TerminalState| #[trigger]
                tabbed_back(*self, left as int, post) implies tabbed_back(
                start,
                n as int,
                post,
            ) by {
                assert(cursor_moved(before, before.cursor_row as int, col as int, false, *self));
                assert(tabbed_back(before, left + 1, post));
            }
        }
        assert(tabbed_back(*self, 0, *self));
    }

    /// Sets or clears the tab stop at the cursor.
    pub fn set_tab_stop(&mut self, on: bool)
        requires
            old(self).core_wf(),
        ensures
            final(self).core_wf(),
            stops_changed(
                *old(self),
                stop_set(old(self).tab_stops@, old(self).cursor_col as int, on),
                *final(self),
            ),
    {
        if self.cursor_col < self.tab_stops.len() {
            self.tab_stops[self.cursor_col] = on;
        }
    }

    /// Clears tab stops.
    pub fn clear_tab_stops(&mut self, mode: u16)
        requires
            old(self).core_wf(),
        ensures
            final(self).core_wf(),
            stops_cleared(*old(self), mode, *final(self)),
    {
        if mode == 0 {
            self.set_tab_stop(false);
        } else if mode == 3 {
            let n: usize = self.tab_stops.len();
            self.tab_stops = vec![false; n];
            assert(self.tab_stops@ =~= Seq::new(n as nat, |c: int| false));
        }
    }

    /// Sets the scroll region.
    pub fn set_scroll_region(&mut self, params: &CsiParams)
        requires
            old(self).core_wf(),
        ensures
            final(self).core_wf(),
            region_set(*old(self), params@, *final(self)),
    {
        let rows: usize = self.grid.rows.len();
        let top: usize = params.number_or(0, 1) as usize;
        let given: usize = params.number_or(1, 65535) as usize;
        let bottom: usize = if given < rows {
            given
        } else {
            rows
        };
        if top >= bottom {
            return ;
        }
        self.scroll_region_top = top - 1;
        self.scroll_region_bottom = bottom - 1;
        let ghost set = *self;
        self.address_cursor(1, 1);
        assert(set == TerminalState {
            scroll_region_top: (top - 1) as usize,
            scroll_region_bottom: (bottom - 1) as usize,
            ..*old(self)
        });
    }

    /// Moves the cursor to an addressed cell.
    pub fn address_cursor(&mut self, row_param: usize, col_param: usize)
        requires
            old(self).core_wf(),
        ensures
            final(self).core_wf(),
            cursor_moved(
                *old(self),
                addressed_row(*old(self), row_param as int),
                addressed_col(*old(self), col_param as int),
                true,
                *final(self),
            ),
    {
        self.set_cursor_position(row_param, col_param);
        let ghost mid = *self;
        self.note_output_cursor_reposition(true);
        assert(cursor_at(
            *old(self),
            addressed_row(*old(self), row_param as int),
            addressed_col(*old(self), col_param as int),
            mid,
        ));
    }

    /// Brings a saved cursor back.
    pub fn restore_cursor(&mut self)
        requires
            old(self).core_wf(),
        ensures
            final(self).core_wf(),
            cursor_restored(*old(self), *final(self)),
    {
        self.restore_cursor_state();
        let ghost mid = *self;
        self.note_output_cursor_reposition(true);
        assert(restored_at(*old(self), mid));
    }

    /// Prints the last character again.
    pub fn repeat_last(&mut self, n: usize)
        requires
            old(self).core_wf(),
        ensures
            final(self).core_wf(),
            last_repeated(*old(self), n as int, *final(self)),
    {
        if let Some(ch) = self.last_printed_char {
            let ghost start = *self;
            let ghost all = Seq::new(n as nat, |i: int| ch);
            let mut i: usize = 0;
            assert(all.skip(0) =~= all);
            while i < n
                invariant
                    i <= n,
                    self.core_wf(),
                    all == Seq::new(n as nat, |i: int| ch),
                    forall|post: TerminalState|
                        #[trigger] chars_printed(*self, all.skip(i as int), post) ==> chars_printed(
                            start,
                            all,
                            post,
                        ),
                decreases n - i,
            {
                let ghost before = *self;
                self.put_char(ch);
                assert(all.skip(i as int).drop_first() =~= all.skip(i + 1));
                assert forall|post: TerminalState| #[trigger]
                    chars_printed(*self, all.skip(i + 1), post) implies chars_printed(
                    start,
                    all,
                    post,
                ) by {
                    assert(char_printed(before, all.skip(i as int)[0], *self));
                    assert(chars_printed(before, all.skip(i as int), post));
                }
                i = i + 1;
            }
            assert(all.skip(n as int) =~= Seq::<char>::empty());
            assert(chars_printed(*self, all.skip(n as int), *self));
        }
    }

    /// Sends a reply.
    pub fn send_reply(&mut self, text: &Vec<char>)
        requires
            old(self).core_wf(),
        ensures
            final(self).core_wf(),
            replied(*old(self), text@, *final(self)),
    {
        self.host.reply(text);
    }

    /// Sends a fixed reply.
    pub fn send_literal(&mut self, text: &str)
        requires
            old(self).core_wf(),
        ensures
            final(self).core_wf(),
            replied(*old(self), text@, *final(self)),
    {
        self.host.reply_literal(text);
    }

    /// Answers a status question.
    pub fn report_status(&mut self, what: u16)
        requires
            old(self).core_wf(),
        ensures
            final(self).core_wf(),
            status_reported(*old(self), what, *final(self)),
    {
        if what == 5 {
            self.send_literal("\x1b[0n");
        } else if what == 6 {
            let row: usize = if self.origin_mode && self.cursor_row
                >= self.scroll_region_top {
                self.cursor_row - self.scroll_region_top + 1
            } else {
                self.cursor_row + 1
            };
            let mut text: Vec<char> = Vec::new();
            append_chars(&mut text, "\x1b[");
            let mut number = decimal(row as u64);
            text.append(&mut number);
            append_chars(&mut text, ";");
            let mut other = decimal(self.cursor_col as u64 + 1);
            text.append(&mut other);
            append_chars(&mut text, "R");
            assert(text@ =~= position_text(*self));
            self.send_reply(&text);
        }
    }
}

/// `post` is `pre` with a mode switched.
pub open spec fn mode_assigned(pre: TerminalState, mode: u16, on: bool, post: TerminalState) -> bool {
    post == TerminalState { modes: pre.modes.with(mode, on), ..pre }
}

/// `post` is `pre` with origin mode switched.
pub open spec fn origin_assigned(pre: TerminalState, on: bool, post: TerminalState) -> bool {
    post == TerminalState { origin_mode: on, ..pre }
}

/// `post` is `pre` after a private mode was switched. Numbers that are not
/// tracked change nothing.
pub open spec fn private_mode_set(
    pre: TerminalState,
    mode: u16,
    on: bool,
    now: ClockReading,
    post: TerminalState,
) -> bool {
    if mode == 47 || mode == 1047 || mode == 1049 {
        if on {
            alternate_entered(pre, mode != 47, post)
        } else {
            alternate_left(pre, post)
        }
    } else if mode == 2026 {
        if on {
            sync_begun(pre, now.monotonic_ns, post)
        } else {
            sync_ended(pre, post)
        }
    } else if mode == 6 {
        exists|mid: TerminalState|
            {
                &&& #[trigger] origin_assigned(pre, on, mid)
                &&& cursor_moved(mid, addressed_row(mid, 1), addressed_col(mid, 1), true, post)
            }
    } else {
        mode_assigned(pre, mode, on, post)
    }
}

/// `post` is `pre` after the private modes from `i` on were switched.
pub open spec fn private_modes_set(
    pre: TerminalState,
    params: Seq<CsiParam>,
    i: int,
    on: bool,
    now: ClockReading,
    post: TerminalState,
) -> bool
    decreases params.len() - i,
{
    if i >= params.len() {
        post == pre
    } else {
        exists|mid: TerminalState|
            {
                &&& #[trigger] private_mode_set(pre, params[i].number, on, now, mid)
                &&& private_modes_set(mid, params, i + 1, on, now, post)
            }
    }
}

/// `post` is `pre` after modes were switched: only insert mode counts.
pub open spec fn modes_set(
    pre: TerminalState,
    params: Seq<CsiParam>,
    on: bool,
    post: TerminalState,
) -> bool {
    if exists|i: int| 0 <= i < params.len() && (#[trigger] params[i]).number == 4 {
        post == TerminalState { insert_mode: on, ..pre }
    } else {
        post == pre
    }
}

/// The answer to a question for a private mode.
pub open spec fn mode_text(state: TerminalState, mode: u16) -> Seq<char> {
    let value = if mode_bit(mode) is None && mode != 6 {
        "0"@
    } else if state.modes.has(mode) || (mode == 6 && state.origin_mode) {
        "1"@
    } else {
        "2"@
    };
    "\x1b[?"@ + decimal_text(mode as nat) + ";"@ + value + "$y"@
}

/// The answer to a question for the keyboard flags.
pub open spec fn keyboard_text(flags: u16) -> Seq<char> {
    "\x1b[?"@ + decimal_text(flags as nat) + "u"@
}

/// `post` is `pre` with other keyboard flags in force.
pub open spec fn keyboard_changed(
    pre: TerminalState,
    flags: u16,
    stack: Seq<u16>,
    post: TerminalState,
) -> bool {
    &&& flags_changed(pre.keyboard, flags, stack, post.keyboard)
    &&& post == TerminalState { keyboard: post.keyboard, ..pre }
}

/// The cursor shape of a parameter.
pub open spec fn shape_of(n: u16) -> CursorShape {
    if n == 3 || n == 4 {
        CursorShape::Underline
    } else if n == 5 || n == 6 {
        CursorShape::Bar
    } else {
        CursorShape::Block
    }
}

impl TerminalState {
    /// Switches a mode.
    fn assign_mode(&mut self, mode: u16, on: bool)
        requires
            old(self).core_wf(),
        ensures
            final(self).core_wf(),
            mode_assigned(*old(self), mode, on, *final(self)),
    {
        self.modes.assign(mode, on);
    }

    /// Switches a private mode.
    pub fn set_private_mode(&mut self, mode: u16, on: bool, now: &ClockReading)
        requires
            old(self).core_wf(),
        ensures
            final(self).core_wf(),
            private_mode_set(*old(self), mode, on, *now, *final(self)),
    {
        if mode == 47 || mode == 1047 || mode == 1049 {
            if on {
                self.enter_alternate_screen(mode != 47);
            } else {
                self.leave_alternate_screen();
            }
        } else if mode == 2026 {
            if on {
                self.begin_sync(now.monotonic_ns);
            } else {
                self.end_sync();
            }
        } else if mode == 6 {
            self.origin_mode = on;
            let ghost mid = *self;
            self.address_cursor(1, 1);
            assert(origin_assigned(*old(self), on, mid));
        } else {
            self.assign_mode(mode, on);
        }
    }

    /// Switches private modes.
    pub fn set_private_modes(&mut self, params: &CsiParams, on: bool, now: &ClockReading)
        requires
            old(self).core_wf(),
        ensures
            final(self).core_wf(),
            private_modes_set(*old(self), params@, 0, on, *now, *final(self)),
    {
        let total: usize = params.len();
        let ghost start = *self;
        let mut i: usize = 0;
        while i < total
            invariant
                i <= total,
                total == params@.len(),
                self.core_wf(),
                forall|post: TerminalState|
                    #[trigger] private_modes_set(*self, params@, i as int, on, *now, post)
                        ==> private_modes_set(start, params@, 0, on, *now, post),
            decreases total - i,
        {
            let ghost before = *self;
            self.set_private_mode(params.number(i), on, now);
            i = i + 1;
            assert forall|post: TerminalState| #[trigger]
                private_modes_set(*self, params@, i as int, on, *now, post) implies private_modes_set(
                start,
                params@,
                0,
                on,
                *now,
                post,
            ) by {
                assert(private_mode_set(before, params@[i - 1].number, on, *now, *self));
                assert(private_modes_set(before, params@, i - 1, on, *now, post));
            }
        }
        assert(private_modes_set(*self, params@, total as int, on, *now, *self));
    }

    /// Switches modes.
    pub fn set_modes(&mut self, params: &CsiParams, on: bool)
        requires
            old(self).core_wf(),
        ensures
            final(self).core_wf(),
            modes_set(*old(self), params@, on, *final(self)),
    {
        let total: usize = params.len();
        let mut i: usize = 0;
        while i < total
            invariant
                i <= total,
                total == params@.len(),
                *self == *old(self),
                self.core_wf(),
                forall|k: int| 0 <= k < i ==> (#[trigger] params@[k]).number != 4,
            decreases total - i,
        {
            if params.number(i) == 4 {
                assert(params@[i as int].number == 4);
                self.insert_mode = on;
                return ;
            }
            i = i + 1;
        }
    }

    /// Answers a question for a private mode.
    fn report_private_mode(&mut self, mode: u16)
        requires
            old(self).core_wf(),
        ensures
            final(self).core_wf(),
            replied(*old(self), mode_text(*old(self), mode), *final(self)),
    {
        let value = if bit_index(mode).is_none() && mode != 6 {
            "0"
        } else if self.modes.contains(mode) || (mode == 6 && self.origin_mode) {
            "1"
        } else {
            "2"
        };
        let mut text: Vec<char> = Vec::new();
        append_chars(&mut text, "\x1b[?");
        let mut number = decimal(mode as u64);
        text.append(&mut number);
        append_chars(&mut text, ";");
        append_chars(&mut text, value);
        append_chars(&mut text, "$y");
        assert(text@ =~= mode_text(*self, mode));
        self.send_reply(&text);
    }

    /// Answers a question for the keyboard flags.
    fn report_keyboard(&mut self)
        requires
            old(self).core_wf(),
        ensures
            final(self).core_wf(),
            replied(
                *old(self),
                keyboard_text(old(self).keyboard.enhancement_flags),
                *final(self),
            ),
    {
        let mut text: Vec<char> = Vec::new();
        append_chars(&mut text, "\x1b[?");
        let mut number = decimal(self.keyboard.enhancement_flags as u64);
        text.append(&mut number);
        append_chars(&mut text, "u");
        assert(text@ =~= keyboard_text(self.keyboard.enhancement_flags));
        self.send_reply(&text);
    }
}

/// `post` is `pre` after the cursor was moved by a control sequence. Other
/// sequences are not concerned.
pub open spec fn cursor_commanded(
    pre: TerminalState,
    last: u8,
    params: Seq<CsiParam>,
    post: TerminalState,
) -> bool {
    let n = param_or(params, 0, 1) as int;
    let row = pre.cursor_row as int;
    let col = pre.cursor_col as int;
    if last == 0x41 {
        cursor_moved(pre, row_up(pre, n), col, true, post)
    } else if last == 0x42 || last == 0x65 {
        cursor_moved(pre, row_down(pre, n), col, true, post)
    } else if last == 0x43 || last == 0x61 {
        cursor_moved(pre, row, col_right(pre, n), false, post)
    } else if last == 0x44 {
        cursor_moved(pre, row, col_left(pre, n), false, post)
    } else if last == 0x45 {
        cursor_moved(pre, row_down(pre, n), 0, true, post)
    } else if last == 0x46 {
        cursor_moved(pre, row_up(pre, n), 0, true, post)
    } else if last == 0x47 || last == 0x60 {
        cursor_moved(pre, row, addressed_col(pre, n), false, post)
    } else if last == 0x48 || last == 0x66 {
        cursor_moved(
            pre,
            addressed_row(pre, n),
            addressed_col(pre, param_or(params, 1, 1) as int),
            true,
            post,
        )
    } else if last == 0x49 {
        tabbed(pre, n, post)
    } else if last == 0x5a {
        tabbed_back(pre, n, post)
    } else if last == 0x64 {
        cursor_moved(pre, addressed_row(pre, n), col, true, post)
    } else {
        post == pre
    }
}

/// Whether a control sequence moves the cursor.
pub open spec fn moves_cursor(last: u8) -> bool {
    ||| 0x41 <= last <= 0x49
    ||| last == 0x5a
    ||| last == 0x60
    ||| last == 0x61
    ||| last == 0x64
    ||| last == 0x65
    ||| last == 0x66
}

/// `post` is `pre` after a control sequence changed what the screen shows.
/// Other sequences are not concerned.
pub open spec fn screen_commanded(
    pre: TerminalState,
    last: u8,
    params: Seq<CsiParam>,
    post: TerminalState,
) -> bool {
    let n = param_or(params, 0, 1) as int;
    let count = given_or(params, 0, 1) as int;
    let mode = given_or(params, 0, 0);
    if last == 0x40 {
        blanks_inserted(pre, count, post)
    } else if last == 0x4a {
        if mode == 3 {
            history_cleared(pre, post)
        } else {
            display_erased(pre, mode, post)
        }
    } else if last == 0x4b {
        line_erased(pre, mode, post)
    } else if last == 0x4c {
        lines_inserted(pre, count, post)
    } else if last == 0x4d {
        lines_deleted(pre, count, post)
    } else if last == 0x50 {
        cells_deleted(pre, count, post)
    } else if last == 0x53 {
        region_scrolled_up_by(
            pre,
            pre.scroll_region_top as int,
            pre.scroll_region_bottom as int,
            n,
            post,
        )
    } else if last == 0x54 {
        region_scrolled_down_by(
            pre,
            pre.scroll_region_top as int,
            pre.scroll_region_bottom as int,
            n,
            post,
        )
    } else if last == 0x58 {
        cells_erased(
            pre,
            pre.cursor_row as int,
            pre.cursor_col as int,
            if pre.cursor_col + n < pre.cols() {
                pre.cursor_col + n
            } else {
                pre.cols()
            },
            false,
            post,
        )
    } else if last == 0x62 {
        last_repeated(pre, n, post)
    } else {
        post == pre
    }
}

/// Whether a control sequence changes what the screen shows.
pub open spec fn changes_screen(last: u8) -> bool {
    ||| last == 0x40
    ||| 0x4a <= last <= 0x4d
    ||| last == 0x50
    ||| last == 0x53
    ||| last == 0x54
    ||| last == 0x58
    ||| last == 0x62
}

/// `post` is `pre` after a window operation: only titles are saved and
/// restored.
pub open spec fn window_commanded(
    pre: TerminalState,
    params: Seq<CsiParam>,
    post: TerminalState,
) -> bool {
    let op = given_or(params, 0, 0);
    let target = title_target(given_or(params, 1, 0));
    &&& post == TerminalState { host: post.host, ..pre }
    &&& if op == 22 {
        titles_pushed(pre.host, target, post.host)
    } else if op == 23 {
        titles_popped(pre.host, target, post.host)
    } else {
        post.host == pre.host
    }
}

/// `post` is `pre` after a control sequence changed a setting or asked a
/// question. Other sequences do nothing.
pub open spec fn setting_commanded(
    pre: TerminalState,
    last: u8,
    params: Seq<CsiParam>,
    post: TerminalState,
) -> bool {
    if last == 0x63 {
        if given_or(params, 0, 0) == 0 {
            replied(pre, "\x1b[?65;1;9c"@, post)
        } else {
            post == pre
        }
    } else if last == 0x67 {
        stops_cleared(pre, given_or(params, 0, 0), post)
    } else if last == 0x68 {
        modes_set(pre, params, true, post)
    } else if last == 0x6c {
        modes_set(pre, params, false, post)
    } else if last == 0x6d {
        pen_changed(pre, pen_selected(pen_of(pre), params), post)
    } else if last == 0x6e {
        status_reported(pre, given_or(params, 0, 0), post)
    } else if last == 0x72 {
        region_set(pre, params, post)
    } else if last == 0x73 {
        cursor_saved(pre, post)
    } else if last == 0x74 {
        window_commanded(pre, params, post)
    } else if last == 0x75 {
        cursor_restored(pre, post)
    } else {
        post == pre
    }
}

/// `post` is `pre` after a control sequence with a private marker.
pub open spec fn private_commanded(
    pre: TerminalState,
    marker: u8,
    last: u8,
    params: Seq<CsiParam>,
    now: ClockReading,
    post: TerminalState,
) -> bool {
    let flags = given_or(params, 0, 0);
    if marker == 0x3f && last == 0x68 {
        private_modes_set(pre, params, 0, true, now, post)
    } else if marker == 0x3f && last == 0x6c {
        private_modes_set(pre, params, 0, false, now, post)
    } else if marker == 0x3f && last == 0x75 {
        replied(pre, keyboard_text(pre.keyboard.enhancement_flags), post)
    } else if marker == 0x3e && last == 0x63 {
        replied(pre, "\x1b[>1;7802;0c"@, post)
    } else if marker == 0x3e && last == 0x71 {
        replied(pre, "\x1bP>|VTE(7802)\x1b\\"@, post)
    } else if marker == 0x3e && last == 0x75 {
        keyboard_changed(
            pre,
            flags,
            flags_pushed(pre.keyboard.enhancement_stack@, pre.keyboard.enhancement_flags),
            post,
        )
    } else if marker == 0x3d && last == 0x75 {
        keyboard_changed(
            pre,
            flags_set(pre.keyboard.enhancement_flags, flags, param_or(params, 1, 1)),
            pre.keyboard.enhancement_stack@,
            post,
        )
    } else if marker == 0x3c && last == 0x75 {
        let popped = flags_popped(
            pre.keyboard.enhancement_flags,
            pre.keyboard.enhancement_stack@,
            param_or(params, 0, 1) as int,
        );
        keyboard_changed(pre, popped.0, popped.1, post)
    } else if marker == 0x3e && last == 0x6d {
        other_keys_set(pre, true, params, post)
    } else if marker == 0x3e && last == 0x66 {
        other_keys_set(pre, false, params, post)
    } else {
        post == pre
    }
}

/// `post` is `pre` after the encoding of modified keys was chosen; without a
/// value it is the initial one.
pub open spec fn other_keys_set(
    pre: TerminalState,
    modify: bool,
    params: Seq<CsiParam>,
    post: TerminalState,
) -> bool {
    if params.len() > 0 && params[0].number != 4 {
        post == pre
    } else {
        let value = given_or(params, 1, 0);
        post == TerminalState {
            keyboard: if modify {
                KeyboardState { modify_other_keys: value, ..pre.keyboard }
            } else {
                KeyboardState { format_other_keys: value, ..pre.keyboard }
            },
            ..pre
        }
    }
}

/// `post` is `pre` after a control sequence.
pub open spec fn csi_performed(
    pre: TerminalState,
    command: CsiModel,
    now: ClockReading,
    post: TerminalState,
) -> bool {
    match (command.marker, command.intermediate) {
        (None, None) => if moves_cursor(command.last) {
            cursor_commanded(pre, command.last, command.params, post)
        } else if changes_screen(command.last) {
            screen_commanded(pre, command.last, command.params, post)
        } else {
            setting_commanded(pre, command.last, command.params, post)
        },
        (Some(marker), None) => private_commanded(
            pre,
            marker,
            command.last,
            command.params,
            now,
            post,
        ),
        (None, Some(between)) => if between == 0x20 && command.last == 0x71 {
            post == TerminalState {
                cursor_shape: shape_of(given_or(command.params, 0, 0)),
                ..pre
            }
        } else {
            post == pre
        },
        (Some(marker), Some(between)) => if marker == 0x3f && between == 0x24 && command.last
            == 0x70 {
            replied(pre, mode_text(pre, given_or(command.params, 0, 0)), post)
        } else {
            post == pre
        },
    }
}

impl TerminalState {
    /// Moves the cursor.
    fn move_by_csi(&mut self, last: u8, params: &CsiParams)
        requires
            old(self).core_wf(),
        ensures
            final(self).core_wf(),
            cursor_commanded(*old(self), last, params@, *final(self)),
    {
        let n: usize = params.number_or(0, 1) as usize;
        let row: usize = self.cursor_row;
        let col: usize = self.cursor_col;
        match last {
            0x41 => self.move_cursor(self.up_from_cursor(n), col, true),
            0x42 => self.move_cursor(self.down_from_cursor(n), col, true),
            0x65 => self.move_cursor(self.down_from_cursor(n), col, true),
            0x43 => self.move_cursor(row, self.right_from_cursor(n), false),
            0x61 => self.move_cursor(row, self.right_from_cursor(n), false),
            0x44 => self.move_cursor(row, self.left_from_cursor(n), false),
            0x45 => self.move_cursor(self.down_from_cursor(n), 0, true),
            0x46 => self.move_cursor(self.up_from_cursor(n), 0, true),
            0x47 => self.move_cursor(row, self.column_addressed(n), false),
            0x60 => self.move_cursor(row, self.column_addressed(n), false),
            0x48 => self.address_cursor(n, params.number_or(1, 1) as usize),
            0x66 => self.address_cursor(n, params.number_or(1, 1) as usize),
            0x49 => self.tab_forward(n),
            0x5a => self.tab_backward(n),
            0x64 => self.move_cursor(self.row_addressed(n), col, true),
            _ => {},
        }
    }

    /// Column that a parameter addresses.
    fn column_addressed(&self, n: usize) -> (col: usize)
        requires
            self.core_wf(),
        ensures
            col == addressed_col(*self, n as int),
            col < self.cols(),
    {
        if n < 1 {
            0
        } else if n <= self.grid.cols {
            n - 1
        } else {
            self.grid.cols - 1
        }
    }

    /// Row that a parameter addresses.
    fn row_addressed(&self, n: usize) -> (row: usize)
        requires
            self.core_wf(),
        ensures
            row == addressed_row(*self, n as int),
            row < self.rows(),
    {
        let row: usize = if n > 0 {
            n - 1
        } else {
            0
        };
        if self.origin_mode {
            if row < self.scroll_region_bottom - self.scroll_region_top {
                self.scroll_region_top + row
            } else {
                self.scroll_region_bottom
            }
        } else if row < self.grid.rows.len() {
            row
        } else {
            self.grid.rows.len() - 1
        }
    }

    /// Changes what the screen shows.
    fn change_by_csi(&mut self, last: u8, params: &CsiParams)
        requires
            old(self).core_wf(),
        ensures
            final(self).core_wf(),
            screen_commanded(*old(self), last, params@, *final(self)),
    {
        let n: usize = params.number_or(0, 1) as usize;
        let count: usize = params.given(0, 1) as usize;
        let mode: u16 = params.given(0, 0);
        match last {
            0x40 => self.insert_blanks(count),
            0x4a => {
                if mode == 3 {
                    self.clear_scrollback_with_projection_provenance();
                } else {
                    self.erase_in_display(mode);
                }
            },
            0x4b => self.erase_in_line(mode),
            0x4c => self.insert_lines(count),
            0x4d => self.delete_lines(count),
            0x50 => self.delete_chars(count),
            0x53 => self.scroll_region_up_by(
                self.scroll_region_top,
                self.scroll_region_bottom,
                n,
            ),
            0x54 => self.scroll_region_down_by(
                self.scroll_region_top,
                self.scroll_region_bottom,
                n,
            ),
            0x58 => {
                let end: usize = if n < self.grid.cols - self.cursor_col {
                    self.cursor_col + n
                } else {
                    self.grid.cols
                };
                self.erase_cells(self.cursor_row, self.cursor_col, end, false);
            },
            0x62 => self.repeat_last(n),
            _ => {},
        }
    }

    /// Saves or restores titles.
    fn window_by_csi(&mut self, params: &CsiParams)
        requires
            old(self).core_wf(),
        ensures
            final(self).core_wf(),
            window_commanded(*old(self), params@, *final(self)),
    {
        let target = match params.given(1, 0) {
            1 => TitleTarget::Icon,
            2 => TitleTarget::Window,
            _ => TitleTarget::Both,
        };
        match params.given(0, 0) {
            22 => self.host.push_titles(target),
            23 => self.host.pop_titles(target),
            _ => {},
        }
    }

    /// Changes a setting or answers a question.
    fn configure_by_csi(&mut self, last: u8, params: &CsiParams)
        requires
            old(self).core_wf(),
            params.wf(),
        ensures
            final(self).core_wf(),
            setting_commanded(*old(self), last, params@, *final(self)),
    {
        match last {
            0x63 => {
                if params.given(0, 0) == 0 {
                    self.send_literal("\x1b[?65;1;9c");
                }
            },
            0x67 => self.clear_tab_stops(params.given(0, 0)),
            0x68 => self.set_modes(params, true),
            0x6c => self.set_modes(params, false),
            0x6d => self.apply_sgr(params),
            0x6e => self.report_status(params.given(0, 0)),
            0x72 => self.set_scroll_region(params),
            0x73 => self.save_cursor_state(),
            0x74 => self.window_by_csi(params),
            0x75 => self.restore_cursor(),
            _ => {},
        }
    }

    /// Chooses the encoding of modified keys.
    fn set_other_keys(&mut self, modify: bool, params: &CsiParams)
        requires
            old(self).core_wf(),
        ensures
            final(self).core_wf(),
            other_keys_set(*old(self), modify, params@, *final(self)),
    {
        if params.len() > 0 && params.number(0) != 4 {
            return ;
        }
        let value: u16 = params.given(1, 0);
        if modify {
            self.keyboard.modify_other_keys = value;
        } else {
            self.keyboard.format_other_keys = value;
        }
    }

    /// Performs a control sequence with a private marker.
    fn perform_private(&mut self, marker: u8, last: u8, params: &CsiParams, now: &ClockReading)
        requires
            old(self).core_wf(),
        ensures
            final(self).core_wf(),
            private_commanded(*old(self), marker, last, params@, *now, *final(self)),
    {
        let flags: u16 = params.given(0, 0);
        match (marker, last) {
            (0x3f, 0x68) => self.set_private_modes(params, true, now),
            (0x3f, 0x6c) => self.set_private_modes(params, false, now),
            (0x3f, 0x75) => self.report_keyboard(),
            (0x3e, 0x63) => self.send_literal("\x1b[>1;7802;0c"),
            (0x3e, 0x71) => self.send_literal("\x1bP>|VTE(7802)\x1b\\"),
            (0x3e, 0x75) => self.keyboard.push_keyboard_enhancement_flags(flags),
            (0x3d, 0x75) => self.keyboard.set_keyboard_enhancement_flags(
                flags,
                params.number_or(1, 1),
            ),
            (0x3c, 0x75) => self.keyboard.pop_keyboard_enhancement_flags(
                params.number_or(0, 1) as usize,
            ),
            (0x3e, 0x6d) => self.set_other_keys(true, params),
            (0x3e, 0x66) => self.set_other_keys(false, params),
            _ => {},
        }
    }

    /// Performs a control sequence.
    pub fn perform_csi(&mut self, command: &CsiCommand, now: &ClockReading)
        requires
            old(self).core_wf(),
            command.params.wf(),
        ensures
            final(self).core_wf(),
            csi_performed(*old(self), command@, *now, *final(self)),
    {
        let last: u8 = command.last;
        match (command.marker, command.intermediate) {
            (None, None) => {
                if (0x41 <= last && last <= 0x49) || last == 0x5a || last == 0x60 || last == 0x61
                    || last == 0x64 || last == 0x65 || last == 0x66 {
                    self.move_by_csi(last, &command.params);
                } else if last == 0x40 || (0x4a <= last && last <= 0x4d) || last == 0x50 || last
                    == 0x53 || last == 0x54 || last == 0x58 || last == 0x62 {
                    self.change_by_csi(last, &command.params);
                } else {
                    self.configure_by_csi(last, &command.params);
                }
            },
            (Some(marker), None) => self.perform_private(marker, last, &command.params, now),
            (None, Some(between)) => {
                if between == 0x20 && last == 0x71 {
                    self.cursor_shape = match command.params.given(0, 0) {
                        3 => CursorShape::Underline,
                        4 => CursorShape::Underline,
                        5 => CursorShape::Bar,
                        6 => CursorShape::Bar,
                        _ => CursorShape::Block,
                    };
                }
            },
            (Some(marker), Some(between)) => {
                if marker == 0x3f && between == 0x24 && last == 0x70 {
                    self.report_private_mode(command.params.given(0, 0));
                }
            },
        }
    }
}

} // verus!
