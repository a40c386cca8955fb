//! What short escape sequences do, and how printing goes on at the edge.

use vstd::prelude::*;

use crate::control::csi_performed;
use crate::control_laws::chooses;
use crate::control_laws::is_sequence;
use crate::csi::CsiModel;
use crate::cursor::cursor_at;
use crate::cursor::cursor_moved;
use crate::cursor::line_fed;
use crate::fresh_laws::a_reset_makes_the_terminal_like_new;
use crate::fresh_laws::is_like_new;
use crate::lifecycle::ClockReading;
use crate::output::noted_reposition;
use crate::output::only_active_changed;
use crate::parser::charset_designated;
use crate::parser::control_executed;
use crate::parser::escape_performed;
use crate::print_laws::shows_char;
use crate::scrolling::spans_invalidated;
use crate::shift_laws::line_feeds_go_down;
use crate::shift_laws::narrow_row;
use crate::shift_laws::reverse_indexes_go_up;
use crate::shift_laws::rows_shifted;
use crate::state::Charset;
use crate::state::TerminalState;
use crate::writing::char_printed;
use crate::writing::deferred_wrap_settled;
use crate::writing::glyph_drawn;
use crate::writing::glyph_span;
use crate::writing::glyph_written;
use crate::writing::moved_to_next_row;
use crate::writing::room_made;
use crate::writing::wrap_marked;
use crate::writing::wrapped;

verus! {

/// `ESC 7` saves the cursor and `ESC 8` brings it back: where it was, with its colours,
/// attributes, character set, origin mode and wrapping, whatever was done in between.
pub proof fn saved_cursors_come_back(
    pre: TerminalState,
    saved: TerminalState,
    later: TerminalState,
    post: TerminalState,
)
    requires
        pre.core_wf(),
        escape_performed(pre, '7' as u8, saved),
        later.saved.requested == saved.saved.requested,
        later.rows() == pre.rows(),
        later.cols() == pre.cols(),
        escape_performed(later, '8' as u8, post),
    ensures
        saved == (TerminalState { saved: saved.saved, ..pre }),
        post.cursor_row == pre.cursor_row && post.cursor_col == pre.cursor_col,
        post.current_fg == pre.current_fg && post.current_bg == pre.current_bg,
        post.current_flags == pre.current_flags,
        post.active_charset == pre.active_charset,
        post.origin_mode == pre.origin_mode,
        post.pending_wrap == pre.pending_wrap,
        post.modes.has(7) == pre.modes.has(7),
        post.grid == later.grid && post.scrollback == later.scrollback,
{
    let mid = choose|mid: TerminalState|
        {
            &&& #[trigger] crate::control::restored_at(later, mid)
            &&& only_active_changed(mid, noted_reposition(mid, true), post)
        };
    assert(crate::control::restored_at(later, mid));
    crate::modes::modes_are_independent(later.modes, 7, pre.modes.has(7), 7);
}

/// `ESC D` goes down a row, `ESC M` up, `ESC E` to the beginning of the next row and
/// `ESC c` makes the terminal like new. `ESC H` sets a tab stop at the cursor, and no
/// other.
pub proof fn short_sequences_do_what_they_stand_for(
    pre: TerminalState,
    last: char,
    post: TerminalState,
)
    requires
        pre.core_wf(),
        last == 'D' || last == 'M' || last == 'E' || last == 'c' || last == 'H',
        escape_performed(pre, last as u8, post),
    ensures
        last == 'D' || last == 'E' ==> post.cursor_row == if pre.cursor_row + 1 < pre.rows()
            && pre.cursor_row != pre.scroll_region_bottom {
            pre.cursor_row + 1
        } else {
            pre.cursor_row as int
        },
        last == 'D' || last == 'M' ==> post.cursor_col == pre.cursor_col,
        last == 'E' ==> post.cursor_col == 0,
        (last == 'D' || last == 'E') && pre.cursor_row == pre.scroll_region_bottom ==> rows_shifted(
            pre,
            pre.scroll_region_top as int,
            pre.scroll_region_bottom as int,
            -1,
            post,
        ),
        last == 'M' ==> post.cursor_row == if pre.cursor_row > 0 && pre.cursor_row
            != pre.scroll_region_top {
            pre.cursor_row - 1
        } else {
            pre.cursor_row as int
        },
        last == 'M' && pre.cursor_row == pre.scroll_region_top ==> rows_shifted(
            pre,
            pre.scroll_region_top as int,
            pre.scroll_region_bottom as int,
            1,
            post,
        ),
        last == 'c' ==> is_like_new(post) && post.cols() == pre.cols() && post.rows() == pre.rows(),
        last == 'H' ==> post == (TerminalState { tab_stops: post.tab_stops, ..pre })
            && post.tab_stops@.len() == pre.tab_stops@.len() && forall|c: int|
            0 <= c < pre.tab_stops@.len() ==> #[trigger] post.tab_stops@[c] == (c == pre.cursor_col
                || pre.tab_stops@[c]),
{
    if last == 'D' {
        line_feeds_go_down(pre, post);
    } else if last == 'M' {
        reverse_indexes_go_up(pre, post);
    } else if last == 'E' {
        let mid = choose|mid: TerminalState| #[trigger]
            cursor_moved(pre, pre.cursor_row as int, 0, false, mid) && line_fed(mid, post);
        let at = choose|at: TerminalState|
            {
                &&& #[trigger] cursor_at(pre, pre.cursor_row as int, 0, at)
                &&& only_active_changed(at, noted_reposition(at, false), mid)
            };
        assert(cursor_at(pre, pre.cursor_row as int, 0, at));
        lemma_next_line(mid, post);
        assert(mid.grid == pre.grid && mid.current_bg == pre.current_bg);
        if pre.cursor_row == pre.scroll_region_bottom {
            assert(rows_shifted(
                pre,
                pre.scroll_region_top as int,
                pre.scroll_region_bottom as int,
                -1,
                post,
            )) by {
                assert(rows_shifted(
                    mid,
                    mid.scroll_region_top as int,
                    mid.scroll_region_bottom as int,
                    -1,
                    post,
                ));
            }
        }
    } else if last == 'c' {
        a_reset_makes_the_terminal_like_new(pre, post);
    }
}

/// A line feed from a state that may have moved.
proof fn lemma_next_line(pre: TerminalState, post: TerminalState)
    requires
        pre.cursor_row < pre.grid@.len(),
        pre.scroll_region_top <= pre.scroll_region_bottom < pre.grid@.len(),
        pre.max_scrollback >= 1,
        line_fed(pre, post),
    ensures
        post.cursor_col == pre.cursor_col,
        pre.cursor_row != pre.scroll_region_bottom ==> post.cursor_row == if pre.cursor_row + 1
            < pre.rows() {
            pre.cursor_row + 1
        } else {
            pre.cursor_row as int
        },
        pre.cursor_row == pre.scroll_region_bottom ==> post.cursor_row == pre.cursor_row
            && rows_shifted(
            pre,
            pre.scroll_region_top as int,
            pre.scroll_region_bottom as int,
            -1,
            post,
        ),
{
    let settled = TerminalState { pending_wrap: false, ..pre };
    let moved = choose|moved: TerminalState|
        {
            &&& #[trigger] moved_to_next_row(settled, moved)
            &&& only_active_changed(
                moved,
                crate::output::noted_advance(
                    moved,
                    pre.grid@[pre.cursor_row as int].id,
                    pre.cursor_anchor(),
                    moved.cursor_anchor(),
                ),
                post,
            )
        };
    assert(moved_to_next_row(settled, moved));
    if pre.cursor_row == pre.scroll_region_bottom {
        let top = pre.scroll_region_top as int;
        let bottom = pre.scroll_region_bottom as int;
        crate::shift_laws::lemma_scrolled_up(settled, top, bottom, moved);
        assert(rows_shifted(pre, top, bottom, -1, post));
    }
}

/// `CSI g` clears the tab stop at the cursor and `CSI 3 g` all of them.
pub proof fn tab_stops_are_cleared(
    pre: TerminalState,
    command: CsiModel,
    mode: int,
    now: ClockReading,
    post: TerminalState,
)
    requires
        is_sequence(command, 'g'),
        chooses(command.params, 0, mode),
        csi_performed(pre, command, now, post),
    ensures
        post == (TerminalState { tab_stops: post.tab_stops, ..pre }),
        post.tab_stops@.len() == pre.tab_stops@.len(),
        forall|c: int|
            0 <= c < pre.tab_stops@.len() ==> #[trigger] post.tab_stops@[c] == (if mode == 3 {
                false
            } else if mode == 0 && c == pre.cursor_col {
                false
            } else {
                pre.tab_stops@[c]
            }),
{
}

/// `ESC ( 0` puts the graphics set in force and `ESC ( B` the ASCII set; `ESC ) 0` and
/// `ESC ) B` keep one for the control character that shifts out, and the one that
/// shifts in brings the first back.
pub proof fn character_sets_are_chosen(
    pre: TerminalState,
    byte: u8,
    post: TerminalState,
    shift: u8,
    shifted: TerminalState,
)
    requires
        charset_designated(pre, byte, post),
        shift == 0x0e || shift == 0x0f,
        control_executed(post, shift, shifted),
    ensures
        ({
            let chosen = if byte == '0' as u8 {
                Charset::DecSpecialGraphics
            } else {
                Charset::Ascii
            };
            let first = pre.parser.pending@.last() == '(' as u8;
            &&& first ==> post.active_charset == chosen && post.g0_charset == chosen
                && post.g1_charset == pre.g1_charset
            &&& !first ==> post.active_charset == pre.active_charset && post.g1_charset == chosen
                && post.g0_charset == pre.g0_charset
            &&& shift == 0x0e ==> shifted.active_charset == post.g1_charset
            &&& shift == 0x0f ==> shifted.active_charset == post.g0_charset
            &&& post.grid == pre.grid
        }),
{
}

/// A character that is printed when the row is full goes to the first column of the
/// next row, where wrapping is on: the full row is marked as going on, and the cursor
/// stands behind the character.
pub proof fn printing_goes_on_in_the_next_row(
    pre: TerminalState,
    typed: char,
    shown: char,
    post: TerminalState,
)
    requires
        pre.core_wf(),
        pre.pending_wrap,
        pre.modes.has(7),
        !pre.insert_mode,
        pre.cols() > 1,
        pre.cursor_row != pre.scroll_region_bottom,
        pre.cursor_row + 1 < pre.rows(),
        call_ensures(TerminalState::translate_char, (&pre, typed), shown),
        call_ensures(crate::cell::char_width, (shown,), 1usize),
        narrow_row(pre, pre.cursor_row + 1),
        char_printed(pre, typed, post),
    ensures
        ({
            let row = pre.cursor_row as int;
            &&& post.cursor_row == row + 1
            &&& post.cursor_col == 1
            &&& !post.pending_wrap
            &&& post.grid@[row].wrapped
            &&& post.grid@[row].cells == pre.grid@[row].cells
            &&& shows_char(pre, post.grid@[row + 1].cells[0], shown)
            &&& forall|c: int|
                0 < c < pre.cols() ==> #[trigger] post.grid@[row + 1].cells[c] == pre.grid@[row
                    + 1].cells[c]
            &&& post.scrollback == pre.scrollback
        }),
{
    let (settled, roomy) = choose|settled: TerminalState, roomy: TerminalState|
        {
            &&& #[trigger] deferred_wrap_settled(pre, settled)
            &&& #[trigger] room_made(settled, 1, roomy)
            &&& glyph_written(roomy, typed, shown, 1, post)
        };
    assert(deferred_wrap_settled(pre, settled));
    let begun = TerminalState { pending_wrap: false, ..pre };
    let (marked, moved) = choose|marked: TerminalState, moved: TerminalState|
        {
            &&& #[trigger] wrap_marked(begun, marked)
            &&& #[trigger] moved_to_next_row(marked, moved)
            &&& only_active_changed(
                moved,
                crate::output::noted_wrap(moved, begun.grid@[begun.cursor_row as int].id),
                settled,
            )
        };
    assert(wrapped(begun, settled));
    assert(wrap_marked(begun, marked));
    assert(moved_to_next_row(marked, moved));
    assert(settled.cursor_row == pre.cursor_row + 1 && settled.cursor_col == 0);
    assert(room_made(settled, 1, roomy));
    assert(roomy == settled);
    let (cleared, drawn) = choose|cleared: TerminalState, drawn: TerminalState|
        {
            &&& #[trigger] spans_invalidated(settled, seq![glyph_span(settled, 1)], cleared)
            &&& #[trigger] glyph_drawn(cleared, typed, shown, 1, drawn)
            &&& only_active_changed(
                drawn,
                crate::output::noted_write(
                    drawn,
                    settled.cursor_row as int,
                    settled.grid@[settled.cursor_row as int].id,
                    settled.cursor_col,
                    (settled.cursor_col + 1) as usize,
                ),
                post,
            )
        };
    assert(glyph_drawn(cleared, typed, shown, 1, drawn));
    let row = pre.cursor_row as int;
    assert(settled.grid@[row + 1] == pre.grid@[row + 1]);
    assert(settled.grid@[row].cells == pre.grid@[row].cells);
    assert(pre.grid@[row + 1].cells.len() == pre.cols());
}

} // verus!
