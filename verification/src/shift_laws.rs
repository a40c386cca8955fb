//! What inserting, deleting and scrolling do to cells and rows.

use vstd::prelude::*;

use crate::control::csi_performed;
use crate::control_laws::counts;
use crate::control_laws::is_erased;
use crate::control_laws::is_sequence;
use crate::control_laws::only_screen_changed;
use crate::csi::CsiModel;
use crate::cursor::line_fed;
use crate::cursor::reverse_indexed;
use crate::editing::region_scrolled_down_by;
use crate::editing::region_scrolled_up_by;
use crate::editing::row_deleted;
use crate::editing::row_edited;
use crate::editing::row_redrawn;
use crate::editing::rows_deleted;
use crate::grid::Line;
use crate::lifecycle::ClockReading;
use crate::output::only_active_changed;
use crate::scrolling::archived_and_counted;
use crate::scrolling::archives_rows;
use crate::scrolling::grid_moved_down;
use crate::scrolling::grid_moved_up;
use crate::scrolling::history_full;
use crate::scrolling::region_scrolled_down;
use crate::scrolling::region_scrolled_up;
use crate::scrolling::row_lost;
use crate::scrolling::spans_invalidated;
use crate::state::TerminalState;
use crate::writing::moved_to_next_row;

verus! {

/// Whether a row of the screen shows single-width characters alone.
pub open spec fn narrow_row(state: TerminalState, row: int) -> bool {
    forall|c: int|
        0 <= c < state.grid@[row].cells.len() ==> !(
        #[trigger] state.grid@[row].cells[c]).flags.spec_wide()
            && !state.grid@[row].cells[c].flags.spec_continuation()
}

/// Editing a row changes that row alone.
proof fn lemma_edited(
    pre: TerminalState,
    row: int,
    span: (int, int),
    cells: Seq<crate::cell::TerminalCell>,
    cut: bool,
    post: TerminalState,
)
    requires
        0 <= row < pre.grid@.len(),
        row_edited(pre, row, span, cells, cut, post),
    ensures
        only_screen_changed(pre, post),
        post.grid@[row].cells == cells,
        forall|r: int| 0 <= r < pre.grid@.len() && r != row ==> #[trigger] post.grid@[r]
            == pre.grid@[r],
{
    let mid = choose|mid: TerminalState|
        {
            &&& #[trigger] spans_invalidated(
                pre,
                seq![(pre.grid@[row].id, span.0 as usize, span.1 as usize)],
                mid,
            )
            &&& row_redrawn(mid, row, cells, cut, post)
        };
    assert(row_redrawn(mid, row, cells, cut, post));
}

/// `CSI n @` moves the cells from the cursor on to the right by `n` columns and
/// `CSI n P` brings those from `n` columns behind it to the cursor; blanks fill
/// the gap, and what is before the cursor and on other rows stays.
pub proof fn inserting_and_deleting_characters(
    pre: TerminalState,
    command: CsiModel,
    n: int,
    now: ClockReading,
    post: TerminalState,
    c: int,
)
    requires
        pre.core_wf(),
        is_sequence(command, '@') || is_sequence(command, 'P'),
        n >= 1,
        command.params.len() == 0 && n == 1 || command.params.len() > 0
            && command.params[0].number == n,
        narrow_row(pre, pre.cursor_row as int),
        csi_performed(pre, command, now, post),
        0 <= c < pre.cols(),
    ensures
        only_screen_changed(pre, post),
        forall|r: int| 0 <= r < pre.rows() && r != pre.cursor_row ==> #[trigger] post.grid@[r]
            == pre.grid@[r],
        ({
            let then = pre.grid@[pre.cursor_row as int].cells;
            let cell = post.grid@[pre.cursor_row as int].cells[c];
            let col = pre.cursor_col as int;
            &&& c < col ==> cell == then[c]
            &&& is_sequence(command, '@') && col <= c < col + n ==> is_erased(pre, cell)
            &&& is_sequence(command, '@') && c >= col + n ==> cell == then[c - n]
            &&& is_sequence(command, 'P') && c >= col && c + n < pre.cols() ==> cell == then[c + n]
            &&& is_sequence(command, 'P') && c >= col && c + n >= pre.cols() ==> is_erased(pre, cell)
        }),
{
    let row = pre.cursor_row as int;
    let col = pre.cursor_col as int;
    let cells = pre.row_cells(row);
    let k = if n < pre.cols() - col {
        n
    } else {
        pre.cols() - col
    };
    let span = crate::writing::whole_span(cells, col, pre.cols());
    assert(cells.len() == pre.cols());
    if is_sequence(command, '@') {
        lemma_edited(
            pre,
            row,
            span,
            crate::editing::chars_inserted(cells, col, k, pre.blank()),
            false,
            post,
        );
    } else {
        lemma_edited(
            pre,
            row,
            span,
            crate::editing::chars_deleted(cells, col, k, pre.blank()),
            false,
            post,
        );
    }
}

/// Whether the rows `top..=bottom` of the screen moved by `n` rows, down where
/// `n` is positive: each row that stays is found `n` rows further, those that
/// enter are blank, and rows outside stay.
pub open spec fn rows_shifted(
    pre: TerminalState,
    top: int,
    bottom: int,
    n: int,
    post: TerminalState,
) -> bool {
    &&& post.grid.cols == pre.grid.cols
    &&& post.grid@.len() == pre.grid@.len()
    &&& forall|r: int|
        0 <= r < pre.grid@.len() && !(top <= r <= bottom) ==> #[trigger] post.grid@[r]
            == pre.grid@[r]
    &&& forall|r: int|
        top <= r <= bottom && top <= r - n <= bottom ==> #[trigger] post.grid@[r] == pre.grid@[r
            - n]
    &&& forall|r: int, c: int|
        top <= r <= bottom && !(top <= r - n <= bottom) && 0 <= c < pre.cols() ==> is_erased(
            pre,
            #[trigger] post.grid@[r].cells[c],
        )
}

/// Whether all but rows, what is known of them and of the view stays.
pub open spec fn only_rows_moved(pre: TerminalState, post: TerminalState) -> bool {
    post == TerminalState {
        grid: post.grid,
        row_versions: post.row_versions,
        next_raw_row_id: post.next_raw_row_id,
        row_identity_revision: post.row_identity_revision,
        caches: post.caches,
        dirty_region: post.dirty_region,
        provenance: post.provenance,
        scrollback: post.scrollback,
        total_lines_scrolled: post.total_lines_scrolled,
        scroll_offset: post.scroll_offset,
        full_screen_scroll_revision: post.full_screen_scroll_revision,
        ..pre
    }
}

/// One step more up.
proof fn lemma_step_up(
    pre: TerminalState,
    top: int,
    bottom: int,
    n: int,
    mid: TerminalState,
    post: TerminalState,
)
    requires
        0 <= top <= bottom < pre.grid@.len(),
        rows_shifted(pre, top, bottom, -1, mid),
        rows_shifted(mid, top, bottom, -n, post),
        mid.current_bg == pre.current_bg,
        n >= 0,
    ensures
        rows_shifted(pre, top, bottom, -(n + 1), post),
{
    let k = -(n + 1);
    assert forall|r: int| top <= r <= bottom && top <= r - k <= bottom implies #[trigger]
        post.grid@[r] == pre.grid@[r - k] by {
        assert(post.grid@[r] == mid.grid@[r + n]);
        assert(mid.grid@[r + n] == pre.grid@[r + n + 1]);
    }
    assert forall|r: int, c: int|
        top <= r <= bottom && !(top <= r - k <= bottom) && 0 <= c < pre.cols() implies is_erased(
        pre,
        #[trigger] post.grid@[r].cells[c],
    ) by {
        if r + n <= bottom {
            assert(post.grid@[r] == mid.grid@[r + n]);
            assert(is_erased(pre, mid.grid@[r + n].cells[c]));
        } else {
            assert(is_erased(mid, post.grid@[r].cells[c]));
        }
    }
}

/// One step more down.
proof fn lemma_step_down(
    pre: TerminalState,
    top: int,
    bottom: int,
    n: int,
    mid: TerminalState,
    post: TerminalState,
)
    requires
        0 <= top <= bottom < pre.grid@.len(),
        rows_shifted(pre, top, bottom, 1, mid),
        rows_shifted(mid, top, bottom, n, post),
        mid.current_bg == pre.current_bg,
        n >= 0,
    ensures
        rows_shifted(pre, top, bottom, n + 1, post),
{
    let k = n + 1;
    assert forall|r: int| top <= r <= bottom && top <= r - k <= bottom implies #[trigger]
        post.grid@[r] == pre.grid@[r - k] by {
        assert(post.grid@[r] == mid.grid@[r - n]);
        assert(mid.grid@[r - n] == pre.grid@[r - n - 1]);
    }
    assert forall|r: int, c: int|
        top <= r <= bottom && !(top <= r - k <= bottom) && 0 <= c < pre.cols() implies is_erased(
        pre,
        #[trigger] post.grid@[r].cells[c],
    ) by {
        if r - n >= top {
            assert(post.grid@[r] == mid.grid@[r - n]);
            assert(is_erased(pre, mid.grid@[r - n].cells[c]));
        } else {
            assert(is_erased(mid, post.grid@[r].cells[c]));
        }
    }
}

/// Moving rows up by one.
proof fn lemma_up(pre: TerminalState, top: int, bottom: int, post: TerminalState)
    requires
        0 <= top <= bottom < pre.grid@.len(),
        grid_moved_up(pre, top, bottom, post),
    ensures
        rows_shifted(pre, top, bottom, -1, post),
{
    assert forall|r: int| 0 <= r < pre.grid@.len() implies #[trigger] post.grid@[r] == if r < top
        || r > bottom {
        pre.grid@[r]
    } else if r < bottom {
        pre.grid@[r + 1]
    } else {
        post.grid@[r]
    } by {}
}

/// Moving rows down by one.
proof fn lemma_down(pre: TerminalState, top: int, bottom: int, post: TerminalState)
    requires
        0 <= top <= bottom < pre.grid@.len(),
        grid_moved_down(pre, top, bottom, post),
    ensures
        rows_shifted(pre, top, bottom, 1, post),
{
    assert forall|r: int| 0 <= r < pre.grid@.len() implies #[trigger] post.grid@[r] == if r < top
        || r > bottom {
        pre.grid@[r]
    } else if r > top {
        pre.grid@[r - 1]
    } else {
        post.grid@[r]
    } by {}
}

/// Scrolling a region down.
proof fn lemma_scrolled_down(pre: TerminalState, top: int, bottom: int, post: TerminalState)
    requires
        0 <= top <= bottom < pre.grid@.len(),
        region_scrolled_down(pre, top, bottom, post),
    ensures
        rows_shifted(pre, top, bottom, 1, post),
        only_rows_moved(pre, post),
        post.scrollback == pre.scrollback,
{
    let lost = choose|lost: TerminalState|
        {
            &&& #[trigger] row_lost(pre, pre.grid@[bottom].id, lost)
            &&& grid_moved_down(lost, top, bottom, post)
        };
    assert(grid_moved_down(lost, top, bottom, post));
    lemma_down(lost, top, bottom, post);
}

/// Scrolling a region down `n` times.
proof fn lemma_scrolled_down_by(
    pre: TerminalState,
    top: int,
    bottom: int,
    n: int,
    post: TerminalState,
)
    requires
        0 <= top <= bottom < pre.grid@.len(),
        n >= 0,
        region_scrolled_down_by(pre, top, bottom, n, post),
    ensures
        rows_shifted(pre, top, bottom, n, post),
        only_rows_moved(pre, post),
        post.scrollback == pre.scrollback,
    decreases n,
{
    if n > 0 {
        let mid = choose|mid: TerminalState|
            {
                &&& #[trigger] region_scrolled_down(pre, top, bottom, mid)
                &&& region_scrolled_down_by(mid, top, bottom, n - 1, post)
            };
        lemma_scrolled_down(pre, top, bottom, mid);
        lemma_scrolled_down_by(mid, top, bottom, n - 1, post);
        lemma_step_down(pre, top, bottom, n - 1, mid, post);
    }
}

/// Deleting rows of a region `n` times.
proof fn lemma_rows_deleted(pre: TerminalState, top: int, bottom: int, n: int, post: TerminalState)
    requires
        0 <= top <= bottom < pre.grid@.len(),
        n >= 0,
        rows_deleted(pre, top, bottom, n, post),
    ensures
        rows_shifted(pre, top, bottom, -n, post),
        only_rows_moved(pre, post),
        post.scrollback == pre.scrollback,
    decreases n,
{
    if n > 0 {
        let mid = choose|mid: TerminalState|
            {
                &&& #[trigger] row_deleted(pre, top, bottom, mid)
                &&& rows_deleted(mid, top, bottom, n - 1, post)
            };
        let lost = choose|lost: TerminalState|
            {
                &&& #[trigger] row_lost(pre, pre.grid@[top].id, lost)
                &&& grid_moved_up(lost, top, bottom, mid)
            };
        assert(grid_moved_up(lost, top, bottom, mid));
        lemma_up(lost, top, bottom, mid);
        lemma_rows_deleted(mid, top, bottom, n - 1, post);
        lemma_step_up(pre, top, bottom, n - 1, mid, post);
    }
}

/// Whether `line` entered the history at its end, and rows were lost only from a
/// full history, at its front.
pub open spec fn row_archived(pre: TerminalState, line: Line, post: TerminalState) -> bool {
    let lost = pre.history().len() + 1 - post.history().len();
    &&& 0 <= lost <= 1
    &&& lost > 0 ==> post.history().len() >= post.max_scrollback || post.history().len()
        >= usize::MAX / 2
    &&& post.history() == (pre.history() + seq![line]).skip(lost)
}

/// Scrolling a region up by one: what leaves at the top of the primary screen
/// enters the history.
pub proof fn lemma_scrolled_up(pre: TerminalState, top: int, bottom: int, post: TerminalState)
    requires
        0 <= top <= bottom < pre.grid@.len(),
        pre.max_scrollback >= 1,
        region_scrolled_up(pre, top, bottom, post),
    ensures
        rows_shifted(pre, top, bottom, -1, post),
        only_rows_moved(pre, post),
        top == 0 && !pre.use_alt_buffer ==> row_archived(pre, pre.grid@[0], post),
        top > 0 ==> post.scrollback == pre.scrollback,
        pre.use_alt_buffer && !pre.sync_output_active ==> post.scrollback == pre.scrollback,
{
    if archives_rows(pre, top) {
        let mid = choose|mid: TerminalState|
            {
                &&& #[trigger] grid_moved_up(pre, top, bottom, mid)
                &&& archived_and_counted(mid, pre.grid@[top], bottom, post)
            };
        assert(archived_and_counted(mid, pre.grid@[top], bottom, post));
        lemma_up(pre, top, bottom, mid);
        let line = seq![pre.grid@[top]];
        assert(post.scrollback@.len() == post.history().len());
        assert(mid.scrollback@.len() == mid.history().len());
        if history_full(mid) {
            assert(post.history() =~= (pre.history() + line).skip(1));
        } else {
            assert(post.history() =~= (pre.history() + line).skip(0));
        }
    } else {
        let mid = choose|mid: TerminalState|
            {
                &&& #[trigger] row_lost(pre, pre.grid@[top].id, mid)
                &&& grid_moved_up(mid, top, bottom, post)
            };
        assert(grid_moved_up(mid, top, bottom, post));
        lemma_up(mid, top, bottom, post);
    }
}

/// Scrolling a region up `n` times.
proof fn lemma_scrolled_up_by(pre: TerminalState, top: int, bottom: int, n: int, post: TerminalState)
    requires
        0 <= top <= bottom < pre.grid@.len(),
        pre.max_scrollback >= 1,
        n >= 0,
        region_scrolled_up_by(pre, top, bottom, n, post),
    ensures
        rows_shifted(pre, top, bottom, -n, post),
        only_rows_moved(pre, post),
        top > 0 ==> post.scrollback == pre.scrollback,
    decreases n,
{
    if n > 0 {
        let mid = choose|mid: TerminalState|
            {
                &&& #[trigger] region_scrolled_up(pre, top, bottom, mid)
                &&& region_scrolled_up_by(mid, top, bottom, n - 1, post)
            };
        lemma_scrolled_up(pre, top, bottom, mid);
        lemma_scrolled_up_by(mid, top, bottom, n - 1, post);
        lemma_step_up(pre, top, bottom, n - 1, mid, post);
    }
}

/// `CSI n L` inserts `n` blank rows at the cursor and `CSI n M` deletes `n` rows
/// there: the rows from the cursor to the bottom of the scroll region move, and
/// nothing enters the history. Outside the region neither does anything.
pub proof fn inserting_and_deleting_rows(
    pre: TerminalState,
    command: CsiModel,
    n: int,
    now: ClockReading,
    post: TerminalState,
)
    requires
        pre.core_wf(),
        is_sequence(command, 'L') || is_sequence(command, 'M'),
        n >= 1,
        command.params.len() == 0 && n == 1 || command.params.len() > 0
            && command.params[0].number == n,
        csi_performed(pre, command, now, post),
    ensures
        pre.scroll_region_top <= pre.cursor_row <= pre.scroll_region_bottom ==> only_rows_moved(
            pre,
            post,
        ) && post.scrollback == pre.scrollback && rows_shifted(
            pre,
            pre.cursor_row as int,
            pre.scroll_region_bottom as int,
            if is_sequence(command, 'L') {
                n
            } else {
                -n
            },
            post,
        ),
        !(pre.scroll_region_top <= pre.cursor_row <= pre.scroll_region_bottom) ==> post == pre,
{
    let top = pre.cursor_row as int;
    let bottom = pre.scroll_region_bottom as int;
    if pre.scroll_region_top <= pre.cursor_row <= pre.scroll_region_bottom {
        let k = if n < bottom - top + 1 {
            n
        } else {
            bottom - top + 1
        };
        if is_sequence(command, 'L') {
            lemma_scrolled_down_by(pre, top, bottom, k, post);
        } else {
            lemma_rows_deleted(pre, top, bottom, k, post);
        }
    }
}

/// `CSI n S` scrolls the region up by `n` rows and `CSI n T` down; the cursor
/// stays.
pub proof fn scrolling_the_region(
    pre: TerminalState,
    command: CsiModel,
    n: int,
    now: ClockReading,
    post: TerminalState,
)
    requires
        pre.core_wf(),
        is_sequence(command, 'S') || is_sequence(command, 'T'),
        counts(command.params, 0, n),
        csi_performed(pre, command, now, post),
    ensures
        only_rows_moved(pre, post),
        rows_shifted(
            pre,
            pre.scroll_region_top as int,
            pre.scroll_region_bottom as int,
            if is_sequence(command, 'S') {
                -n
            } else {
                n
            },
            post,
        ),
        is_sequence(command, 'T') || pre.scroll_region_top > 0 ==> post.scrollback
            == pre.scrollback,
{
    let top = pre.scroll_region_top as int;
    let bottom = pre.scroll_region_bottom as int;
    if is_sequence(command, 'S') {
        lemma_scrolled_up_by(pre, top, bottom, n, post);
    } else {
        lemma_scrolled_down_by(pre, top, bottom, n, post);
    }
}

/// A line feed moves the cursor to the next row and leaves the rows alone. At the
/// bottom of the scroll region the region scrolls up instead, and the first row
/// of the primary screen enters the history. The column stays.
pub proof fn line_feeds_go_down(pre: TerminalState, post: TerminalState)
    requires
        pre.core_wf(),
        line_fed(pre, post),
    ensures
        post.cursor_col == pre.cursor_col,
        !post.pending_wrap,
        pre.cursor_row != pre.scroll_region_bottom ==> post.grid == pre.grid && post.scrollback
            == pre.scrollback && post.cursor_row == if pre.cursor_row + 1 < pre.rows() {
            pre.cursor_row + 1
        } else {
            pre.cursor_row as int
        },
        pre.cursor_row == pre.scroll_region_bottom ==> post.cursor_row == pre.cursor_row
            && rows_shifted(
            pre,
            pre.scroll_region_top as int,
            pre.scroll_region_bottom as int,
            -1,
            post,
        ) && (pre.scroll_region_top == 0 && !pre.use_alt_buffer ==> row_archived(
            pre,
            pre.grid@[0],
            post,
        )),
{
    let settled = TerminalState { pending_wrap: false, ..pre };
    let moved = choose|moved: TerminalState|
        {
            &&& #[trigger] moved_to_next_row(settled, moved)
            &&& only_active_changed(
                moved,
                crate::output::noted_advance(
                    moved,
                    pre.grid@[pre.cursor_row as int].id,
                    pre.cursor_anchor(),
                    moved.cursor_anchor(),
                ),
                post,
            )
        };
    assert(moved_to_next_row(settled, moved));
    if pre.cursor_row == pre.scroll_region_bottom {
        let top = pre.scroll_region_top as int;
        let bottom = pre.scroll_region_bottom as int;
        lemma_scrolled_up(settled, top, bottom, moved);
        assert(rows_shifted(pre, top, bottom, -1, post));
    }
}

/// A reverse index moves the cursor to the previous row; at the top of the scroll
/// region the region scrolls down instead.
pub proof fn reverse_indexes_go_up(pre: TerminalState, post: TerminalState)
    requires
        pre.core_wf(),
        reverse_indexed(pre, post),
    ensures
        post.cursor_col == pre.cursor_col,
        post.scrollback == pre.scrollback,
        pre.cursor_row != pre.scroll_region_top ==> post.grid == pre.grid && post.cursor_row
            == if pre.cursor_row > 0 {
            pre.cursor_row - 1
        } else {
            0
        },
        pre.cursor_row == pre.scroll_region_top ==> post.cursor_row == pre.cursor_row
            && rows_shifted(
            pre,
            pre.scroll_region_top as int,
            pre.scroll_region_bottom as int,
            1,
            post,
        ),
{
    let settled = TerminalState { pending_wrap: false, ..pre };
    let moved = choose|moved: TerminalState|
        {
            &&& #[trigger] crate::cursor::moved_to_previous_row(settled, moved)
            &&& only_active_changed(moved, crate::output::noted_reposition(moved, true), post)
        };
    assert(crate::cursor::moved_to_previous_row(settled, moved));
    if pre.cursor_row == pre.scroll_region_top {
        let top = pre.scroll_region_top as int;
        let bottom = pre.scroll_region_bottom as int;
        lemma_scrolled_down(settled, top, bottom, moved);
        assert(rows_shifted(pre, top, bottom, 1, post));
    }
}

} // verus!
