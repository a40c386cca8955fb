//! Which keys a click sends.

use vstd::prelude::*;

use crate::cell::Color;
use crate::cell::TerminalCell;
use crate::click::click_keys;
use crate::click::is_occupied;
use crate::click::is_preview;
use crate::click::keys_between;
use crate::click::occupied_end;
use crate::click::preview_start;
use crate::click::text_end;
use crate::commands::CommandState;
use crate::state::TerminalState;

verus! {

/// A click sends nothing unless it is enabled, and nothing while a program wants the
/// mouse, on the alternate screen, while the view is scrolled back or while a command
/// runs.
pub proof fn clicks_send_nothing_where_they_may_not(
    state: TerminalState,
    click: (int, int),
    enabled: bool,
)
    ensures
        !enabled ==> click_keys(state, click, enabled).len() == 0,
        state.modes.has(1000) || state.modes.has(1002) || state.modes.has(1003) ==> click_keys(
            state,
            click,
            enabled,
        ).len() == 0,
        state.use_alt_buffer ==> click_keys(state, click, enabled).len() == 0,
        state.scroll_offset > 0 ==> click_keys(state, click, enabled).len() == 0,
        state.log@.records.len() > 0 && !state.log@.records.last().complete
            && state.log@.records.last().state == CommandState::Running ==> click_keys(
            state,
            click,
            enabled,
        ).len() == 0,
{
}

/// A cell is taken for part of a preview where it is dim or grey, and for part of the
/// text where it shows anything but a space.
pub proof fn previews_are_dim_or_grey(cell: TerminalCell)
    ensures
        is_preview(cell) <==> cell.flags.attrs & 2 != 0 || cell.foreground == Color::Indexed(8)
            || cell.foreground == Color::BrightBlack,
        !cell.flags.spec_continuation() ==> (is_occupied(cell) <==> cell.character != ' '
            && cell.character != '\0' && cell.character != '\u{a0}'),
        cell.flags.spec_continuation() ==> is_occupied(cell),
{
}

/// Whether a row of the screen is a line of its own with the text `0..end` on it: its
/// cells are single, in no colour of a preview, and blank from `end` on.
pub open spec fn is_text_line(state: TerminalState, row: int, end: int) -> bool {
    let cells = state.grid@[row].cells;
    &&& 0 <= row < state.grid@.len()
    &&& 0 <= end
    &&& end + 1 < state.cols()
    &&& !state.grid@[row].wrapped
    &&& row > 0 ==> !state.grid@[row - 1].wrapped
    &&& forall|c: int|
        0 <= c < cells.len() ==> !(#[trigger] cells[c]).flags.spec_continuation()
            && !is_preview(cells[c])
    &&& forall|c: int| end <= c < cells.len() ==> (#[trigger] cells[c]).character == ' '
    &&& end > 0 ==> is_occupied(cells[end - 1])
}

/// The last occupied cell of a line of text ends it.
proof fn lemma_end(state: TerminalState, row: int, end: int, to: int)
    requires
        is_text_line(state, row, end),
        end <= to <= state.grid@[row].cells.len(),
    ensures
        occupied_end(state.grid@[row].cells, to) == end,
    decreases to - end,
{
    let cells = state.grid@[row].cells;
    if to > end {
        assert(cells[to - 1].character == ' ');
        assert(!is_occupied(cells[to - 1]));
        lemma_end(state, row, end, to - 1);
    }
}

/// A line of text has no preview.
proof fn lemma_no_preview(state: TerminalState, row: int, end: int, from: int, to: int)
    requires
        is_text_line(state, row, end),
        state.grid@[row].cells.len() == state.cols(),
        0 <= from <= to < state.cols(),
    ensures
        preview_start(state, (row, from), (row, to)) == (row, to),
    decreases to - from,
{
    if from < to {
        assert(!is_preview(state.grid@[row].cells[from]));
        lemma_no_preview(state, row, end, from + 1, to);
    }
}

/// One key for each column of a line of text.
proof fn lemma_keys(state: TerminalState, row: int, end: int, from: int, to: int, key: Seq<u8>)
    requires
        is_text_line(state, row, end),
        state.grid@[row].cells.len() == state.cols(),
        0 <= from <= to < state.cols(),
        key.len() == 3,
    ensures
        keys_between(state, (row, from), (row, to), key).len() == 3 * (to - from),
        forall|i: int|
            0 <= i < 3 * (to - from) ==> #[trigger] keys_between(
                state,
                (row, from),
                (row, to),
                key,
            )[i] == key[i % 3],
    decreases to - from,
{
    if from < to {
        assert(!state.grid@[row].cells[from].flags.spec_continuation());
        lemma_keys(state, row, end, from + 1, to, key);
        let all = keys_between(state, (row, from), (row, to), key);
        let rest = keys_between(state, (row, from + 1), (row, to), key);
        assert(all == key + rest);
        assert forall|i: int| 0 <= i < 3 * (to - from) implies #[trigger] all[i] == key[i % 3] by {
            if i >= 3 {
                assert(all[i] == rest[i - 3]);
                assert((i - 3) % 3 == i % 3);
            }
        }
    }
}

/// A click on the line that is edited sends one arrow key for each column between the
/// cursor and the clicked one, to the right or to the left; behind the text it goes
/// to the end of the text or the cursor, whichever is further. The keys are those of
/// the mode that the program chose for the arrow keys.
pub proof fn clicks_send_one_arrow_for_each_column(
    state: TerminalState,
    end: int,
    col: int,
    target: int,
)
    requires
        state.core_wf(),
        !state.modes.has(1000) && !state.modes.has(1002) && !state.modes.has(1003),
        !state.use_alt_buffer,
        state.scroll_offset == 0,
        state.log@.records.len() > 0 && !state.log@.records.last().complete ==> state.log@.records.last().state
            != CommandState::Running,
        is_text_line(state, state.cursor_row as int, end),
        state.cursor_col + 1 < state.cols(),
        0 <= col < state.cols(),
        target == ({
            let last = if end < state.cursor_col {
                state.cursor_col as int
            } else {
                end
            };
            if col < last {
                col
            } else {
                last
            }
        }),
    ensures
        ({
            let keys = click_keys(state, (state.cursor_row as int, col), true);
            let right = target > state.cursor_col;
            let n = if right {
                target - state.cursor_col
            } else {
                state.cursor_col - target
            };
            &&& keys.len() == 3 * n
            &&& forall|i: int|
                0 <= i < 3 * n ==> #[trigger] keys[i] == if i % 3 == 0 {
                    0x1b
                } else if i % 3 == 1 {
                    if state.modes.has(1) {
                        'O' as u8
                    } else {
                        '[' as u8
                    }
                } else if right {
                    'C' as u8
                } else {
                    'D' as u8
                }
        }),
{
    let row = state.cursor_row as int;
    let cells = state.grid@[row].cells;
    assert(cells.len() == state.cols());
    let wraps = crate::click::screen_wraps(state);
    assert(crate::words::first_joined(wraps, row) == row) by {
        if row > 0 {
            assert(!wraps[row - 1]);
        }
    }
    assert(crate::words::last_joined(wraps, row, state.rows()) == row) by {
        assert(!wraps[row]);
    }
    lemma_end(state, row, end, state.cols());
    let found = text_end(state, row, row, state.cols());
    assert(found == (row, end)) by {
        if end == 0 {
            assert(text_end(state, row, row - 1, state.cols()) == (row, 0int));
        }
    }
    assert(crate::click::undecorated_end(state, row, found) == found);
    let last = if end < state.cursor_col {
        state.cursor_col as int
    } else {
        end
    };
    lemma_no_preview(state, row, end, state.cursor_col as int, last);
    assert(crate::click::input_span(state) == ((row, 0int), (row, last)));
    let right = target > state.cursor_col;
    let key = crate::click::arrow_key(right, state.modes.has(1));
    if right {
        lemma_keys(state, row, end, state.cursor_col as int, target, key);
    } else {
        lemma_keys(state, row, end, target, state.cursor_col as int, key);
    }
}

} // verus!
