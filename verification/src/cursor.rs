//! Cursor movement, tab stops and saved cursors.

use vstd::prelude::*;

use crate::output::noted_advance;
use crate::output::noted_reposition;
use crate::output::only_active_changed;
use crate::scrolling::region_scrolled_down;
use crate::state::SavedCursorState;
use crate::state::SavedCursors;
use crate::state::TerminalState;
use crate::writing::moved_to_next_row;

verus! {

/// Default tab stops: every eighth column.
pub open spec fn every_eighth(cols: int) -> Seq<bool> {
    Seq::new(cols as nat, |c: int| c % 8 == 0)
}

/// Default tab stops: every eighth column.
pub fn default_tab_stops(cols: usize) -> (stops: Vec<bool>)
    ensures
        stops@ == every_eighth(cols as int),
{
    let mut stops: Vec<bool> = Vec::new();
    let mut c: usize = 0;
    while c < cols
        invariant
            c <= cols,
            stops@ == every_eighth(c as int),
        decreases cols - c,
    {
        stops.push(c % 8 == 0);
        c = c + 1;
        assert(stops@ =~= every_eighth(c as int));
    }
    stops
}

/// Whether a tab stop is set at a column.
pub open spec fn is_stop(stops: Seq<bool>, col: int) -> bool {
    0 <= col < stops.len() && stops[col]
}

/// `next` is where a tab at `col` leads: the nearest stop to the right, or
/// the last column.
pub open spec fn tabs_to(stops: Seq<bool>, cols: int, col: int, next: int) -> bool {
    ||| {
        &&& col < next < cols
        &&& is_stop(stops, next)
        &&& forall|c: int| col < c < next ==> !is_stop(stops, c)
    }
    ||| {
        &&& next == cols - 1
        &&& forall|c: int| col < c < cols ==> !is_stop(stops, c)
    }
}

/// `prev` is where a back tab at `col` leads: the nearest stop to the left, or
/// the first column.
pub open spec fn tabs_back_to(stops: Seq<bool>, col: int, prev: int) -> bool {
    ||| {
        &&& 0 <= prev < col
        &&& is_stop(stops, prev)
        &&& forall|c: int| prev < c < col ==> !is_stop(stops, c)
    }
    ||| {
        &&& prev == 0
        &&& forall|c: int| 0 <= c < col ==> !is_stop(stops, c)
    }
}

/// The cursor of `state` with everything that goes with it.
pub open spec fn captured_cursor(state: TerminalState) -> SavedCursorState {
    SavedCursorState {
        row: state.cursor_row,
        col: state.cursor_col,
        fg: state.current_fg,
        bg: state.current_bg,
        flags: state.current_flags,
        g0: state.g0_charset,
        g1: state.g1_charset,
        active: state.active_charset,
        origin_mode: state.origin_mode,
        autowrap: state.modes.has(7),
        pending_wrap: state.pending_wrap,
    }
}

/// `n` brought below `limit`.
pub open spec fn below(n: usize, limit: int) -> int {
    if n < limit {
        n as int
    } else {
        limit - 1
    }
}

/// `n` brought below `limit`.
pub fn clamp_below(n: usize, limit: usize) -> (m: usize)
    requires
        limit > 0,
    ensures
        m == below(n, limit as int),
        m < limit,
{
    if n < limit {
        n
    } else {
        limit - 1
    }
}

/// `post` is `pre` with a saved cursor put back, within the screen.
pub open spec fn cursor_put_back(
    pre: TerminalState,
    saved: SavedCursorState,
    post: TerminalState,
) -> bool {
    &&& post.cursor_row == below(saved.row, pre.rows())
    &&& post.cursor_col == below(saved.col, pre.cols())
    &&& post.current_fg == saved.fg
    &&& post.current_bg == saved.bg
    &&& post.current_flags == saved.flags
    &&& post.g0_charset == saved.g0
    &&& post.g1_charset == saved.g1
    &&& post.active_charset == saved.active
    &&& post.origin_mode == saved.origin_mode
    &&& post.modes == pre.modes.with(7, saved.autowrap)
    &&& post.pending_wrap == saved.pending_wrap
    &&& post == TerminalState {
        cursor_row: post.cursor_row,
        cursor_col: post.cursor_col,
        current_fg: post.current_fg,
        current_bg: post.current_bg,
        current_flags: post.current_flags,
        g0_charset: post.g0_charset,
        g1_charset: post.g1_charset,
        active_charset: post.active_charset,
        origin_mode: post.origin_mode,
        modes: post.modes,
        pending_wrap: post.pending_wrap,
        ..pre
    }
}

/// `post` is `pre` with the cursor at another place and no wrap pending.
pub open spec fn cursor_at(pre: TerminalState, row: int, col: int, post: TerminalState) -> bool {
    &&& post.cursor_row == row
    &&& post.cursor_col == col
    &&& !post.pending_wrap
    &&& post == TerminalState {
        cursor_row: post.cursor_row,
        cursor_col: post.cursor_col,
        pending_wrap: post.pending_wrap,
        ..pre
    }
}

/// `post` is `pre` after the cursor was moved without output.
pub open spec fn cursor_moved(
    pre: TerminalState,
    row: int,
    col: int,
    non_linear: bool,
    post: TerminalState,
) -> bool {
    exists|mid: TerminalState|
        {
            &&& #[trigger] cursor_at(pre, row, col, mid)
            &&& only_active_changed(mid, noted_reposition(mid, non_linear), post)
        }
}

/// Row that a one-based row parameter addresses: relative to the scroll region
/// in origin mode.
pub open spec fn addressed_row(state: TerminalState, row_param: int) -> int {
    let row = if row_param > 0 {
        row_param - 1
    } else {
        0
    };
    if state.origin_mode {
        if state.scroll_region_top + row < state.scroll_region_bottom {
            state.scroll_region_top + row
        } else {
            state.scroll_region_bottom as int
        }
    } else if row < state.rows() {
        row
    } else {
        state.rows() - 1
    }
}

/// Column that a one-based column parameter addresses.
pub open spec fn addressed_col(state: TerminalState, col_param: int) -> int {
    if col_param < 1 {
        0
    } else if col_param <= state.cols() {
        col_param - 1
    } else {
        state.cols() - 1
    }
}

/// `post` is `pre` after a line feed: the cursor goes to the next row, the
/// region scrolling where it must, and a running output advances.
pub open spec fn line_fed(pre: TerminalState, post: TerminalState) -> bool {
    let settled = TerminalState { pending_wrap: false, ..pre };
    exists|moved: TerminalState|
        {
            &&& #[trigger] moved_to_next_row(settled, moved)
            &&& only_active_changed(
                moved,
                noted_advance(
                    moved,
                    pre.grid@[pre.cursor_row as int].id,
                    pre.cursor_anchor(),
                    moved.cursor_anchor(),
                ),
                post,
            )
        }
}

/// `post` is `pre` after a reverse index: the cursor goes to the previous row,
/// the region scrolling down at its top.
pub open spec fn reverse_indexed(pre: TerminalState, post: TerminalState) -> bool {
    let settled = TerminalState { pending_wrap: false, ..pre };
    exists|moved: TerminalState|
        {
            &&& #[trigger] moved_to_previous_row(settled, moved)
            &&& only_active_changed(moved, noted_reposition(moved, true), post)
        }
}

/// `post` is `pre` after the cursor moved to the previous row.
pub open spec fn moved_to_previous_row(pre: TerminalState, post: TerminalState) -> bool {
    if pre.cursor_row == pre.scroll_region_top {
        region_scrolled_down(
            pre,
            pre.scroll_region_top as int,
            pre.scroll_region_bottom as int,
            post,
        )
    } else if pre.cursor_row > 0 {
        &&& post.cursor_row == pre.cursor_row - 1
        &&& post == TerminalState { cursor_row: post.cursor_row, ..pre }
    } else {
        post == pre
    }
}

impl TerminalState {
    /// Where a tab at `col` leads.
    pub fn next_tab_stop(&self, col: usize) -> (next: usize)
        requires
            self.core_wf(),
            col < self.cols(),
        ensures
            tabs_to(self.tab_stops@, self.cols(), col as int, next as int),
            next < self.cols(),
    {
        let cols: usize = self.grid.row_len();
        let mut c: usize = col + 1;
        while c < cols
            invariant
                col < c <= cols,
                cols == self.cols(),
                forall|k: int| col < k < c ==> !is_stop(self.tab_stops@, k),
            decreases cols - c,
        {
            if c < self.tab_stops.len() && self.tab_stops[c] {
                assert(is_stop(self.tab_stops@, c as int));
                return c;
            }
            assert(!is_stop(self.tab_stops@, c as int));
            c = c + 1;
        }
        cols - 1
    }

    /// Where a back tab at `col` leads.
    pub fn prev_tab_stop(&self, col: usize) -> (prev: usize)
        ensures
            tabs_back_to(self.tab_stops@, col as int, prev as int),
            prev <= col,
    {
        let mut c: usize = col;
        while c > 0
            invariant
                c <= col,
                forall|k: int| c <= k < col ==> !is_stop(self.tab_stops@, k),
            decreases c,
        {
            c = c - 1;
            if c < self.tab_stops.len() && self.tab_stops[c] {
                assert(is_stop(self.tab_stops@, c as int));
                return c;
            }
            assert(!is_stop(self.tab_stops@, c as int));
        }
        0
    }

    /// The cursor with everything that goes with it.
    pub fn capture_cursor(&self) -> (saved: SavedCursorState)
        ensures
            saved == captured_cursor(*self),
    {
        SavedCursorState {
            row: self.cursor_row,
            col: self.cursor_col,
            fg: self.current_fg,
            bg: self.current_bg,
            flags: self.current_flags,
            g0: self.g0_charset,
            g1: self.g1_charset,
            active: self.active_charset,
            origin_mode: self.origin_mode,
            autowrap: self.modes.contains(7),
            pending_wrap: self.pending_wrap,
        }
    }

    /// Puts a saved cursor back, within the screen.
    pub fn put_cursor_back(&mut self, saved: &SavedCursorState)
        requires
            old(self).core_wf(),
        ensures
            final(self).core_wf(),
            cursor_put_back(*old(self), *saved, *final(self)),
    {
        let mut modes = self.modes;
        modes.assign(7, saved.autowrap);
        let row: usize = clamp_below(saved.row, self.grid.rows());
        let col: usize = clamp_below(saved.col, self.grid.row_len());
        self.cursor_row = row;
        self.cursor_col = col;
        self.current_fg = saved.fg;
        self.current_bg = saved.bg;
        self.current_flags = saved.flags;
        self.g0_charset = saved.g0;
        self.g1_charset = saved.g1;
        self.active_charset = saved.active;
        self.origin_mode = saved.origin_mode;
        self.modes = modes;
        self.pending_wrap = saved.pending_wrap;
    }

    /// Saves the cursor (DECSC).
    pub fn save_cursor_state(&mut self)
        requires
            old(self).core_wf(),
        ensures
            final(self).core_wf(),
            *final(self) == (TerminalState {
                saved: SavedCursors {
                    requested: Some(captured_cursor(*old(self))),
                    ..old(self).saved
                },
                ..*old(self)
            }),
    {
        self.saved.requested = Some(self.capture_cursor());
    }

    /// Puts the saved cursor back (DECRC). Without one the cursor goes to the
    /// origin.
    pub fn restore_cursor_state(&mut self)
        requires
            old(self).core_wf(),
        ensures
            final(self).core_wf(),
            match old(self).saved.requested {
                Some(saved) => cursor_put_back(*old(self), saved, *final(self)),
                None => cursor_at(*old(self), 0, 0, *final(self)),
            },
    {
        match self.saved.requested {
            Some(saved) => self.put_cursor_back(&saved),
            None => {
                self.cursor_row = 0;
                self.cursor_col = 0;
                self.pending_wrap = false;
            },
        }
    }

    /// Places the cursor (CUP); the parameters count from one.
    pub fn set_cursor_position(&mut self, row_param: usize, col_param: usize)
        requires
            old(self).core_wf(),
        ensures
            final(self).core_wf(),
            cursor_at(
                *old(self),
                addressed_row(*old(self), row_param as int),
                addressed_col(*old(self), col_param as int),
                *final(self),
            ),
    {
        self.pending_wrap = false;
        let cols: usize = self.grid.row_len();
        let rows: usize = self.grid.rows();
        let row: usize = row_param.saturating_sub(1);
        let col: usize = col_param.saturating_sub(1);
        self.cursor_row = if self.origin_mode {
            if row < self.scroll_region_bottom - self.scroll_region_top {
                self.scroll_region_top + row
            } else {
                self.scroll_region_bottom
            }
        } else if row < rows {
            row
        } else {
            rows - 1
        };
        self.cursor_col = if col < cols {
            col
        } else {
            cols - 1
        };
    }

    /// Moves the cursor without output.
    pub fn move_cursor(&mut self, row: usize, col: usize, non_linear: bool)
        requires
            old(self).core_wf(),
            row < old(self).rows(),
            col < old(self).cols(),
        ensures
            final(self).core_wf(),
            cursor_moved(*old(self), row as int, col as int, non_linear, *final(self)),
    {
        self.cursor_row = row;
        self.cursor_col = col;
        self.pending_wrap = false;
        let ghost mid = *self;
        assert(cursor_at(*old(self), row as int, col as int, mid));
        self.note_output_cursor_reposition(non_linear);
    }

    /// Feeds a line.
    pub fn linefeed(&mut self)
        requires
            old(self).core_wf(),
        ensures
            final(self).core_wf(),
            line_fed(*old(self), *final(self)),
    {
        let departed_id = self.grid.row_id(self.cursor_row);
        let departed = self.current_buffer_anchor();
        self.pending_wrap = false;
        let ghost settled = *self;
        if self.cursor_row == self.scroll_region_bottom {
            self.scroll_region_up(self.scroll_region_top, self.scroll_region_bottom);
        } else if self.cursor_row + 1 < self.grid.rows() {
            self.cursor_row = self.cursor_row + 1;
        }
        assert(moved_to_next_row(settled, *self));
        let next = self.current_buffer_anchor();
        self.note_output_hard_line_advance(departed_id, departed, next);
    }

    /// Moves to the previous row (RI).
    pub fn reverse_index(&mut self)
        requires
            old(self).core_wf(),
        ensures
            final(self).core_wf(),
            reverse_indexed(*old(self), *final(self)),
    {
        self.pending_wrap = false;
        let ghost settled = *self;
        if self.cursor_row == self.scroll_region_top {
            self.scroll_region_down(self.scroll_region_top, self.scroll_region_bottom);
        } else if self.cursor_row > 0 {
            self.cursor_row = self.cursor_row - 1;
        }
        assert(moved_to_previous_row(settled, *self));
        self.note_output_cursor_reposition(true);
    }
}

/// Saving the cursor and putting it back leaves the cursor, its attributes and
/// its modes as they were.
pub proof fn saved_cursor_round_trip(pre: TerminalState, post: TerminalState)
    requires
        pre.core_wf(),
        cursor_put_back(pre, captured_cursor(pre), post),
    ensures
        post == pre,
{
    let bits = pre.modes.bits;
    assert((bits | (1u32 << 0u32)) == bits || bits & (1u32 << 0u32) == 0) by (bit_vector);
    assert((bits & !(1u32 << 0u32)) == bits || bits & (1u32 << 0u32) != 0) by (bit_vector);
}

} // verus!
