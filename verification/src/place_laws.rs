//! Where tab stops, saved cursors, scrolled views and matches in outputs are.

use vstd::prelude::*;

use crate::control::csi_performed;
use crate::control::tabbed_back;
use crate::control_laws::chooses;
use crate::control_laws::counts;
use crate::control_laws::is_sequence;
use crate::control_laws::only_cursor_moved;
use crate::csi::CsiModel;
use crate::cursor::cursor_at;
use crate::cursor::cursor_moved;
use crate::cursor::tabs_back_to;
use crate::grid::Line;
use crate::lifecycle::ClockReading;
use crate::navigation::left_of;
use crate::navigation::match_row;
use crate::navigation::row_chars_count;
use crate::output::noted_reposition;
use crate::output::only_active_changed;
use crate::parser::escape_performed;
use crate::state::TerminalState;

verus! {

/// `CSI g` takes away the tab stop at the cursor and no other, `CSI 3 g` takes all away.
pub proof fn tab_stops_are_taken_away(
    pre: TerminalState,
    command: CsiModel,
    what: int,
    now: ClockReading,
    post: TerminalState,
    c: int,
)
    requires
        pre.core_wf(),
        is_sequence(command, 'g'),
        chooses(command.params, 0, what),
        csi_performed(pre, command, now, post),
        0 <= c < pre.tab_stops@.len(),
    ensures
        post == (TerminalState { tab_stops: post.tab_stops, ..pre }),
        post.tab_stops@.len() == pre.tab_stops@.len(),
        post.tab_stops@[c] == (pre.tab_stops@[c] && what != 3 && (what != 0 || c
            != pre.cursor_col)),
{
}

/// `CSI Z` goes back to the nearest tab stop before the cursor, or to the first column.
pub proof fn back_tabs_go_to_the_stop_before(
    pre: TerminalState,
    command: CsiModel,
    now: ClockReading,
    post: TerminalState,
)
    requires
        pre.core_wf(),
        is_sequence(command, 'Z'),
        counts(command.params, 0, 1),
        csi_performed(pre, command, now, post),
    ensures
        only_cursor_moved(pre, post),
        post.cursor_row == pre.cursor_row,
        post.cursor_col < pre.cursor_col || post.cursor_col == 0,
        post.cursor_col > 0 ==> pre.tab_stops@[post.cursor_col as int],
        forall|c: int|
            post.cursor_col < c < pre.cursor_col && c < pre.tab_stops@.len()
                ==> !#[trigger] pre.tab_stops@[c],
{
    assert(tabbed_back(pre, 1, post));
    let (col, mid) = choose|col: int, mid: TerminalState|
        {
            &&& tabs_back_to(pre.tab_stops@, pre.cursor_col as int, col)
            &&& #[trigger] cursor_moved(pre, pre.cursor_row as int, col, false, mid)
            &&& tabbed_back(mid, 0, post)
        };
    assert(cursor_moved(pre, pre.cursor_row as int, col, false, mid));
    assert(post == mid);
    let at = choose|at: TerminalState|
        {
            &&& #[trigger] cursor_at(pre, pre.cursor_row as int, col, at)
            &&& only_active_changed(at, noted_reposition(at, false), post)
        };
    assert(cursor_at(pre, pre.cursor_row as int, col, at));
    assert forall|c: int|
        post.cursor_col < c < pre.cursor_col && c < pre.tab_stops@.len() implies
        !#[trigger] pre.tab_stops@[c] by {
        assert(!crate::cursor::is_stop(pre.tab_stops@, c));
    }
}

/// `CSI s` and `CSI u` save the cursor and bring it back as `ESC 7` and `ESC 8` do.
pub proof fn both_ways_of_saving_are_one(
    pre: TerminalState,
    command: CsiModel,
    now: ClockReading,
    post: TerminalState,
)
    requires
        pre.core_wf(),
    ensures
        is_sequence(command, 's') ==> csi_performed(pre, command, now, post) == escape_performed(
            pre,
            '7' as u8,
            post,
        ),
        is_sequence(command, 'u') ==> csi_performed(pre, command, now, post) == escape_performed(
            pre,
            '8' as u8,
            post,
        ),
{
}

/// The rows of a view stand for themselves in the document on the live screen; in a
/// scrolled view not where a history row that it may reach has another width.
pub proof fn live_views_are_exact(state: TerminalState, exact: bool, i: int)
    requires
        state.core_wf(),
        call_ensures(TerminalState::viewport_buffer_mapping_is_exact, (&state,), exact),
    ensures
        state.scroll_offset == 0 ==> exact,
        state.scroll_offset > 0 && state.history().len() - state.scroll_offset - state.rows() <= i
            < state.history().len() && 0 <= i && state.history()[i].cells.len() != state.cols()
            ==> !exact,
        state.scroll_offset > 0 && state.history().len() - state.scroll_offset - state.rows() <= i
            < state.history().len() && 0 <= i && state.history()[i].wrapped ==> !exact,
        (forall|k: int|
            0 <= k < state.history().len() ==> (#[trigger] state.history()[k]).cells.len()
                == state.cols() && !state.history()[k].wrapped) ==> exact,
{
    let wanted = state.history().len() - (state.scroll_offset + state.rows());
    let start = if wanted < 0 {
        0
    } else {
        wanted
    };
    lemma_beginning(state.history(), start);
}

/// A logical line begins at or before each of its rows.
proof fn lemma_beginning(lines: Seq<Line>, start: int)
    requires
        0 <= start,
    ensures
        0 <= crate::navigation::line_beginning(lines, start) <= start,
    decreases start,
{
    if start > 0 && lines[start - 1].wrapped {
        lemma_beginning(lines, start - 1);
    }
}

/// How many characters the rows `from..to` contribute to an output.
pub open spec fn chars_on_rows(
    lines: Seq<Line>,
    span: ((int, int), (int, int)),
    from: int,
    to: int,
) -> int
    decreases to - from,
{
    if from >= to {
        0
    } else {
        row_chars_count(lines, span, from) + chars_on_rows(lines, span, from + 1, to)
    }
}

/// Whether the rows `from..to` each go on in the next.
pub open spec fn go_on(lines: Seq<Line>, from: int, to: int) -> bool {
    forall|r: int| from <= r < to ==> (#[trigger] lines[r]).wrapped
}

/// A match is found on the row that its first character stands on: the rows before, from
/// where the line begins, have no more characters than stand before the match, and with
/// that row they have more. It is found exactly where the line has all of the match.
pub proof fn matches_are_found_on_their_rows(
    lines: Seq<Line>,
    span: ((int, int), (int, int)),
    row: int,
    last: int,
    start: int,
    end: int,
    e: int,
)
    requires
        0 <= row <= last < lines.len(),
        0 <= start < end,
    ensures
        match match_row(lines, span, row, last, start, end, None) {
            Some(r) => {
                &&& row <= r <= last
                &&& go_on(lines, row, r)
                &&& chars_on_rows(lines, span, row, r) <= start
                &&& start < chars_on_rows(lines, span, row, r) + row_chars_count(lines, span, r)
                &&& exists|to: int|
                    r <= to <= last && go_on(lines, row, to) && #[trigger] chars_on_rows(
                        lines,
                        span,
                        row,
                        to + 1,
                    ) >= end
            },
            None => row <= e <= last && go_on(lines, row, e) ==> chars_on_rows(
                lines,
                span,
                row,
                e + 1,
            ) < end,
        },
    decreases last - row,
{
    let chars = row_chars_count(lines, span, row);
    assert(chars >= 0);
    lemma_one_row(lines, span, row);
    assert(go_on(lines, row, row));
    assert(chars_on_rows(lines, span, row, row) == 0);
    if end <= chars {
        assert(chars_on_rows(lines, span, row, row + 1) >= end);
    } else if lines[row].wrapped && row < last {
        let next = match_row(lines, span, row, last, start, end, None);
        if start < chars {
            lemma_target_kept(lines, span, row + 1, last, end - chars, row, e);
            if next is Some {
                let to = choose|to: int|
                    row < to <= last && go_on(lines, row + 1, to) && #[trigger] chars_on_rows(
                        lines,
                        span,
                        row + 1,
                        to + 1,
                    ) >= end - chars;
                assert(chars_on_rows(lines, span, row, to + 1) >= end);
                assert(go_on(lines, row, to));
            }
        } else {
            matches_are_found_on_their_rows(
                lines,
                span,
                row + 1,
                last,
                start - chars,
                end - chars,
                e,
            );
            if let Some(r) = next {
                let to = choose|to: int|
                    r <= to <= last && go_on(lines, row + 1, to) && #[trigger] chars_on_rows(
                        lines,
                        span,
                        row + 1,
                        to + 1,
                    ) >= end - chars;
                assert(chars_on_rows(lines, span, row, to + 1) >= end);
                assert(go_on(lines, row, to));
                assert(go_on(lines, row, r));
            }
        }
        if next is None && row < e <= last && go_on(lines, row, e) {
            assert(go_on(lines, row + 1, e));
        }
    } else if row < e <= last && go_on(lines, row, e) {
        assert(lines[row].wrapped);
    } else if row == last && lines[row].wrapped {
        assert(match_row(
            lines,
            span,
            row + 1,
            last,
            left_of(start, chars),
            left_of(end, chars),
            if start < chars {
                Some(row)
            } else {
                None
            },
        ) is None);
    }
}

/// One row has its own characters.
proof fn lemma_one_row(lines: Seq<Line>, span: ((int, int), (int, int)), row: int)
    ensures
        chars_on_rows(lines, span, row, row + 1) == row_chars_count(lines, span, row),
{
    assert(chars_on_rows(lines, span, row + 1, row + 1) == 0);
}

/// A row that is known stays the answer, as long as the line has all of the match.
proof fn lemma_target_kept(
    lines: Seq<Line>,
    span: ((int, int), (int, int)),
    row: int,
    last: int,
    end: int,
    target: int,
    e: int,
)
    requires
        0 <= row <= last < lines.len(),
        end > 0,
    ensures
        match match_row(lines, span, row, last, 0, end, Some(target)) {
            Some(r) => {
                &&& r == target
                &&& exists|to: int|
                    row <= to <= last && go_on(lines, row, to) && #[trigger] chars_on_rows(
                        lines,
                        span,
                        row,
                        to + 1,
                    ) >= end
            },
            None => row <= e <= last && go_on(lines, row, e) ==> chars_on_rows(
                lines,
                span,
                row,
                e + 1,
            ) < end,
        },
    decreases last - row,
{
    let chars = row_chars_count(lines, span, row);
    lemma_one_row(lines, span, row);
    assert(go_on(lines, row, row));
    assert(left_of(0, chars) == 0);
    if end <= chars {
        assert(chars_on_rows(lines, span, row, row + 1) >= end);
    } else if lines[row].wrapped && row < last {
        lemma_target_kept(lines, span, row + 1, last, end - chars, target, e);
        if match_row(lines, span, row, last, 0, end, Some(target)) is Some {
            let to = choose|to: int|
                row < to <= last && go_on(lines, row + 1, to) && #[trigger] chars_on_rows(
                    lines,
                    span,
                    row + 1,
                    to + 1,
                ) >= end - chars;
            assert(chars_on_rows(lines, span, row, to + 1) >= end);
            assert(go_on(lines, row, to));
        } else if row < e <= last && go_on(lines, row, e) {
            assert(go_on(lines, row + 1, e));
        }
    } else if row < e <= last && go_on(lines, row, e) {
        assert(lines[row].wrapped);
    } else if row == last && lines[row].wrapped {
        assert(match_row(lines, span, row + 1, last, 0, left_of(end, chars), Some(target)) is None);
    }
}

} // verus!
