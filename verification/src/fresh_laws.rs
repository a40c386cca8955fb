//! What a new terminal is like.

use vstd::prelude::*;

use crate::cell::Color;
use crate::setup::terminal_reset;
use crate::state::Charset;
use crate::state::TerminalState;

verus! {

/// Whether the screen is blank, the cursor at home, the scroll region the whole screen,
/// wrapping and the cursor on and everything else off, with a tab stop every eight
/// columns.
pub open spec fn is_like_new(state: TerminalState) -> bool {
    &&& forall|r: int, c: int|
        0 <= r < state.rows() && 0 <= c < state.cols() ==> (
        #[trigger] state.grid@[r].cells[c]).character == ' ' && state.grid@[r].cells[c].background
            == Color::Default
    &&& state.cursor_row == 0 && state.cursor_col == 0 && !state.pending_wrap
    &&& state.scroll_region_top == 0 && state.scroll_region_bottom == state.rows() - 1
    &&& state.history().len() == 0 && state.scroll_offset == 0 && state.total_lines_scrolled == 0
    &&& !state.use_alt_buffer && !state.insert_mode && !state.origin_mode
    &&& state.modes.has(7) && state.modes.has(25)
    &&& !state.modes.has(1) && !state.modes.has(1000) && !state.modes.has(1002)
        && !state.modes.has(1003) && !state.modes.has(1006) && !state.modes.has(2004)
        && !state.modes.has(5522)
    &&& state.current_fg == Color::Default && state.current_bg == Color::Default
    &&& state.current_flags.attrs == 0 && state.current_hyperlink.raw == 0
    &&& state.active_charset == Charset::Ascii
    &&& state.tab_stops@.len() == state.cols()
    &&& forall|c: int|
        0 <= c < state.cols() ==> #[trigger] state.tab_stops@[c] == (c % 8 == 0)
    &&& state.selection is None
    &&& state.log@.records.len() == 0
    &&& state.host.window_title@.len() == 0
}

/// A new terminal has the size that was asked for, within what is supported, and is
/// like new.
pub proof fn new_terminals_are_blank(cols: usize, rows: usize, state: TerminalState)
    requires
        call_ensures(TerminalState::new, (cols, rows), state),
    ensures
        is_like_new(state),
        1 <= cols <= 1024 ==> state.cols() == cols,
        1 <= rows <= 512 ==> state.rows() == rows,
        state.max_scrollback == 10000,
{
}

/// A full reset makes the terminal like new, and keeps its size and the limit of its
/// history.
pub proof fn a_reset_makes_the_terminal_like_new(pre: TerminalState, post: TerminalState)
    requires
        pre.core_wf(),
        terminal_reset(pre, post),
    ensures
        is_like_new(post),
        post.cols() == pre.cols() && post.rows() == pre.rows(),
        post.max_scrollback == pre.max_scrollback,
{
}

} // verus!
