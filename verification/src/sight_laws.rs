//! What the view shows, and what the other screen shows.

use vstd::prelude::*;

use crate::cell::Color;
use crate::cell::TerminalCell;
use crate::control::private_mode_set;
use crate::grid::Line;
use crate::history::content_len;
use crate::lifecycle::ClockReading;
use crate::navigation::line_beginning;
use crate::navigation::view_beginning;
use crate::screens::alternate_prepared;
use crate::screens::screens_exchanged;
use crate::state::SavedCursors;
use crate::state::TerminalState;
use crate::view::chunk;
use crate::view::chunks;
use crate::view::content;
use crate::view::joined;
use crate::view::logical_end;
use crate::view::reflowed;
use crate::view::visible_rows;

verus! {

/// Whether the rows `from..` of a history fill one row of the view each: none goes on
/// in the next, and none is wider.
pub open spec fn fill_one_row_each(lines: Seq<Line>, from: int, cols: int) -> bool {
    forall|i: int|
        from <= i < lines.len() ==> !(#[trigger] lines[i]).wrapped && lines[i].cells.len() <= cols
}

/// Rows that fill one row each are reflowed to themselves.
proof fn lemma_reflowed(lines: Seq<Line>, from: int, cols: int, blank: TerminalCell)
    requires
        0 <= from <= lines.len(),
        cols > 0,
        fill_one_row_each(lines, from, cols),
    ensures
        ({
            let rows = reflowed(lines, from, lines.len() as int, cols, blank);
            &&& rows.len() == lines.len() - from
            &&& forall|k: int|
                0 <= k < rows.len() ==> #[trigger] rows[k] == chunk(
                    content(lines[from + k]),
                    0,
                    cols,
                    blank,
                )
        }),
    decreases lines.len() - from,
{
    let end = lines.len() as int;
    if from < end {
        lemma_reflowed(lines, from + 1, cols, blank);
        assert(!lines[from].wrapped);
        assert(logical_end(lines, from, end) == from + 1);
        assert(joined(lines, from, from) =~= Seq::<TerminalCell>::empty());
        assert(joined(lines, from, from + 1) =~= content(lines[from]));
        let cells = content(lines[from]);
        crate::history::lemma_content_len_bounds(lines[from].cells);
        assert(cells.len() <= cols);
        assert(crate::view::chunk_count(cells.len() as int, cols) == 1) by (nonlinear_arith)
            requires
                0 <= cells.len() <= cols,
                cols > 0,
                crate::view::chunk_count(cells.len() as int, cols) == if cells.len() <= 0 {
                    1
                } else {
                    (cells.len() + cols - 1) / cols
                },
        ;
        let rows = reflowed(lines, from, end, cols, blank);
        let rest = reflowed(lines, from + 1, end, cols, blank);
        assert(rows == chunks(cells, cols, blank) + rest);
        assert forall|k: int| 0 <= k < rows.len() implies #[trigger] rows[k] == chunk(
            content(lines[from + k]),
            0,
            cols,
            blank,
        ) by {
            if k > 0 {
                assert(rows[k] == rest[k - 1]);
            }
        }
    }
}

/// The live view shows the screen. A view that is scrolled back by a number of lines
/// shows, row by row, the document from that many lines before the screen on: each
/// column shows the character that the row has there, and spaces behind its end.
pub proof fn views_show_the_document_from_their_top(
    state: TerminalState,
    offset: int,
    r: int,
    c: int,
)
    requires
        state.core_wf(),
        0 <= offset <= state.history().len(),
        0 <= r < state.rows(),
        0 <= c < state.cols(),
        fill_one_row_each(state.history(), 0, state.cols()),
    ensures
        visible_rows(state, offset).len() == state.rows(),
        ({
            let line = state.document()[state.history().len() - offset + r];
            let cell = visible_rows(state, offset)[r][c];
            &&& c < line.cells.len() ==> cell.character == line.cells[c].character
            &&& c >= line.cells.len() ==> cell.character == ' '
        }),
        offset == 0 ==> visible_rows(state, offset)[r][c] == state.grid@[r].cells[c],
{
    let lines = state.history();
    let cols = state.cols();
    if offset > 0 {
        let scrolled = TerminalState { scroll_offset: offset as usize, ..state };
        let from = view_beginning(scrolled);
        let wanted = lines.len() - (offset + state.rows());
        lemma_beginning(
            lines,
            if wanted < 0 {
                0
            } else {
                wanted
            },
        );
        assert(fill_one_row_each(lines, from, cols));
        lemma_reflowed(lines, from, cols, state.blank());
        let rows = reflowed(lines, from, lines.len() as int, cols, state.blank());
        let shown = crate::view::window(rows, offset, state.rows());
        if r < shown.len() {
            let k = rows.len() - offset + r;
            assert(shown[r] == rows[k]);
            let line = lines[from + k];
            assert(from + k == lines.len() - offset + r);
            assert(state.document()[lines.len() - offset + r] == line);
            lemma_content(line.cells, c);
        } else {
            assert(state.document()[lines.len() - offset + r] == state.grid@[r - offset]);
        }
    } else {
        assert(state.document()[lines.len() + r] == state.grid@[r]);
    }
}

/// Where nothing goes on, a line begins where it is.
proof fn lemma_beginning(lines: Seq<Line>, start: int)
    requires
        0 <= start <= lines.len(),
        forall|i: int| 0 <= i < lines.len() ==> !(#[trigger] lines[i]).wrapped,
    ensures
        line_beginning(lines, start) == start,
{
    if start > 0 {
        assert(!lines[start - 1].wrapped);
    }
}

/// What is left out at the end of a row is blank.
proof fn lemma_content(cells: Seq<TerminalCell>, c: int)
    requires
        0 <= c,
    ensures
        content_len(cells) <= cells.len(),
        content_len(cells) <= c < cells.len() ==> cells[c].character == ' ',
        content_len(cells) >= 0,
    decreases cells.len(),
{
    if cells.len() > 0 {
        crate::history::lemma_content_len_bounds(cells);
        lemma_content(cells.drop_last(), c);
        if c < cells.len() - 1 {
            assert(cells.drop_last()[c] == cells[c]);
        }
    }
}

/// The alternate screen is shown empty by the modes 1047 and 1049 and as it was left
/// by 47. The scroll region is then the whole screen, the view is live and nothing is
/// selected; the primary screen is kept, and the history stays. Where it is shown
/// already, nothing changes.
pub proof fn the_alternate_screen_is_shown(
    pre: TerminalState,
    mode: u16,
    now: ClockReading,
    post: TerminalState,
)
    requires
        pre.core_wf(),
        mode == 47 || mode == 1047 || mode == 1049,
        private_mode_set(pre, mode, true, now, post),
    ensures
        post.use_alt_buffer,
        pre.use_alt_buffer ==> post == pre,
        !pre.use_alt_buffer ==> {
            &&& post.alt_grid == pre.grid
            &&& post.history() == pre.history()
            &&& post.scroll_offset == 0
            &&& post.selection is None
            &&& post.scroll_region_top == 0
            &&& post.scroll_region_bottom == pre.rows() - 1
            &&& post.grid@.len() == pre.rows()
            &&& mode == 47 ==> post.grid@ == pre.alt_grid@
            &&& mode != 47 ==> forall|r: int, c: int|
                0 <= r < pre.rows() && 0 <= c < pre.cols() ==> (
                #[trigger] post.grid@[r].cells[c]).character == ' '
                    && post.grid@[r].cells[c].background == Color::Default
        },
{
    if !pre.use_alt_buffer {
        let saved = SavedCursors { primary: Some(crate::cursor::captured_cursor(pre)), ..pre.saved };
        let mid = choose|mid: TerminalState|
            {
                &&& #[trigger] screens_exchanged(pre, mid)
                &&& alternate_prepared(mid, saved, mode != 47, post)
            };
        assert(screens_exchanged(pre, mid));
        assert(mid.grid@ == pre.alt_grid@);
    }
}

/// Leaving the alternate screen shows the primary one again, with the history as it
/// is, and keeps the alternate one. Where the primary one is shown already, nothing
/// changes.
pub proof fn the_primary_screen_is_shown_again(
    pre: TerminalState,
    mode: u16,
    now: ClockReading,
    post: TerminalState,
)
    requires
        pre.core_wf(),
        mode == 47 || mode == 1047 || mode == 1049,
        private_mode_set(pre, mode, false, now, post),
    ensures
        !post.use_alt_buffer,
        !pre.use_alt_buffer ==> post == pre,
        pre.use_alt_buffer ==> {
            &&& post.grid == pre.alt_grid
            &&& post.alt_grid == pre.grid
            &&& post.history() == pre.history()
            &&& post.scroll_region_top == 0
            &&& post.scroll_region_bottom == pre.rows() - 1
            &&& post.scroll_offset == 0
        },
{
    if pre.use_alt_buffer {
        let left = TerminalState {
            saved: SavedCursors {
                primary: None,
                alt_row: pre.cursor_row,
                alt_col: pre.cursor_col,
                ..pre.saved
            },
            ..pre
        };
        let mid = choose|mid: TerminalState|
            {
                &&& #[trigger] screens_exchanged(left, mid)
                &&& crate::screens::primary_cursor_back(mid, pre.saved, post)
            };
        assert(screens_exchanged(left, mid));
    }
}

} // verus!
