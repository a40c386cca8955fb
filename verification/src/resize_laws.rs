//! What a change of size does to the rows of the document.

use vstd::prelude::*;

use crate::cell::TerminalCell;
use crate::grid::Line;
use crate::resize::reshaped;
use crate::resize::reshaping_prepared;
use crate::resize::size_set;
use crate::resize::top_rows_archived;
use crate::scrolling::history_full;
use crate::scrolling::line_archived;
use crate::state::TerminalState;

verus! {

/// Whether `now` holds the cells of `then`, cut or extended to `cols` columns. A
/// double-width character that would be cut in half is blanked, and so are the
/// added columns.
pub open spec fn cells_carried(then: Seq<TerminalCell>, cols: int, now: Seq<TerminalCell>) -> bool {
    &&& now.len() == cols
    &&& forall|c: int|
        0 <= c < cols && c < then.len() ==> #[trigger] now[c] == then[c] || (c == cols - 1
            && then[c].flags.spec_wide() && now[c].character == ' ')
    &&& forall|c: int|
        then.len() <= c < cols ==> (#[trigger] now[c]).character == ' '
            && !now[c].flags.spec_wide() && !now[c].flags.spec_continuation()
}

/// Whether the document row `now` is the row `then` of before: as it was in the
/// history, or with its cells cut or extended to `cols` columns on the screen.
pub open spec fn row_carried(then: Line, cols: int, on_screen: bool, now: Line) -> bool {
    if on_screen {
        &&& cells_carried(then.cells, cols, now.cells)
        &&& now.wrapped == then.wrapped
        &&& then.id.raw != 0 ==> now.id == then.id
    } else {
        now == then
    }
}

/// Rows that enter the history are appended to it in order, and rows are lost
/// only from a full history.
proof fn lemma_archived_in_order(pre: TerminalState, i: int, n: int, post: TerminalState)
    requires
        top_rows_archived(pre, i, n, post),
        0 <= i <= n <= pre.grid@.len(),
        pre.max_scrollback >= 1,
    ensures
        ({
            let all = pre.history() + pre.grid@.subrange(i, n);
            let lost = all.len() - post.history().len();
            &&& 0 <= lost
            &&& post.history() == all.skip(lost)
            &&& lost > 0 ==> history_full(post)
        }),
        post == (TerminalState {
            scrollback: post.scrollback,
            provenance: post.provenance,
            total_lines_scrolled: post.total_lines_scrolled,
            scroll_offset: post.scroll_offset,
            row_identity_revision: post.row_identity_revision,
            caches: post.caches,
            ..pre
        }),
        history_full(pre) ==> history_full(post),
    decreases n - i,
{
    let all = pre.history() + pre.grid@.subrange(i, n);
    if i >= n {
        assert(all.skip(0) =~= pre.history());
    } else {
        let mid = choose|mid: TerminalState| #[trigger]
            line_archived(pre, pre.grid@[i], mid) && top_rows_archived(mid, i + 1, n, post);
        assert(line_archived(pre, pre.grid@[i], mid));
        lemma_archived_in_order(mid, i + 1, n, post);
        let rest = mid.history() + mid.grid@.subrange(i + 1, n);
        let line = seq![pre.grid@[i]];
        assert(mid.scrollback@.len() == mid.history().len());
        if history_full(pre) {
            assert(mid.history() =~= (pre.history() + line).skip(1));
            assert(rest =~= all.skip(1));
        } else {
            assert(mid.history() =~= pre.history() + line);
            assert(rest =~= all);
        }
        let lost = all.len() - post.history().len();
        assert(post.history() =~= all.skip(lost));
    }
}

/// A row that is cut or extended is carried over.
proof fn lemma_fitted_carried(
    pre: TerminalState,
    gone: int,
    cols: int,
    rows: int,
    post: TerminalState,
    r: int,
)
    requires
        reshaped(pre, gone, cols, rows, post),
        0 <= gone,
        gone + r < pre.grid@.len(),
        0 <= r < rows,
        cols >= 1,
    ensures
        row_carried(pre.grid@[gone + r], cols, true, post.grid@[r]),
{
    let kept = pre.grid@.skip(gone);
    assert(kept[r] == pre.grid@[gone + r]);
    let then = pre.grid@[gone + r].cells;
    let now = post.grid@[r].cells;
    assert(now.len() == cols);
}

/// A new size on the primary screen loses nothing up to the cursor: the row of
/// the cursor is still the row of the cursor, and the rows before it stand in
/// order before it, in the history as they were and on the screen with their
/// cells cut or extended. Only a full history lets its oldest rows go.
pub proof fn resizing_keeps_rows_to_the_cursor(
    pre: TerminalState,
    cols: usize,
    rows: usize,
    post: TerminalState,
) -> (lost: int)
    requires
        pre.core_wf(),
        !pre.use_alt_buffer,
        size_set(pre, cols, rows, post),
    ensures
        lost >= 0,
        lost > 0 ==> post.history().len() >= post.max_scrollback || post.history().len()
            >= usize::MAX / 2,
        post.history().len() + post.cursor_row + lost == pre.history().len() + pre.cursor_row,
        post.max_scrollback == pre.max_scrollback,
        forall|i: int|
            lost <= i <= pre.history().len() + pre.cursor_row ==> row_carried(
                #[trigger] pre.document()[i],
                post.cols(),
                i - lost >= post.history().len(),
                post.document()[i - lost],
            ),
{
    lemma_shape(pre, cols, rows, post);
    let gone = pre.cursor_row - post.cursor_row;
    let all = pre.history() + pre.grid@.take(gone);
    let lost = all.len() - post.history().len();
    assert forall|i: int| lost <= i <= pre.history().len() + pre.cursor_row implies row_carried(
        #[trigger] pre.document()[i],
        post.cols(),
        i - lost >= post.history().len(),
        post.document()[i - lost],
    ) by {
        if i - lost < post.history().len() {
            assert(post.document()[i - lost] == post.history()[i - lost]);
            assert(post.history()[i - lost] == all[i]);
            assert(all[i] == pre.document()[i]);
        } else {
            let r = i - lost - post.history().len();
            assert(pre.document()[i] == pre.grid@[gone + r]);
            assert(post.document()[i - lost] == post.grid@[r]);
            if post != pre {
                assert(row_carried(pre.grid@[gone + r], post.cols(), true, post.grid@[r]));
            } else {
                assert(cells_carried(
                    pre.grid@[r].cells,
                    pre.cols(),
                    pre.grid@[r].cells,
                ));
            }
        }
    }
    lost
}

/// What the size and the rows of the screen are after a change of size.
proof fn lemma_shape(pre: TerminalState, cols: usize, rows: usize, post: TerminalState)
    requires
        pre.core_wf(),
        !pre.use_alt_buffer,
        size_set(pre, cols, rows, post),
    ensures
        ({
            let gone = pre.cursor_row - post.cursor_row;
            let all = pre.history() + pre.grid@.take(gone);
            let lost = all.len() - post.history().len();
            &&& 0 <= gone
            &&& 0 <= lost
            &&& post.history() == all.skip(lost)
            &&& lost > 0 ==> history_full(post)
            &&& post.max_scrollback == pre.max_scrollback
            &&& post.cursor_row < post.grid@.len()
            &&& gone > 0 ==> post.grid@.len() + gone <= pre.grid@.len()
            &&& post.grid@.len() + gone < pre.grid@.len() ==> post.cursor_row == 0
            &&& post != pre ==> forall|r: int|
                0 <= r < post.grid@.len() && gone + r < pre.grid@.len() ==> row_carried(
                    pre.grid@[gone + r],
                    post.cols(),
                    true,
                    #[trigger] post.grid@[r],
                )
        }),
{
    let new_cols = if cols > 1024 {
        1024int
    } else {
        cols as int
    };
    let new_rows = if rows > 512 {
        512int
    } else {
        rows as int
    };
    if cols == 0 || rows == 0 || (new_cols == pre.cols() && new_rows == pre.rows()) {
        assert(pre.history() + pre.grid@.take(0) =~= pre.history());
        assert(pre.history().skip(0) =~= pre.history());
    } else {
        let gone = if new_rows >= pre.rows() {
            0int
        } else if pre.rows() - new_rows < pre.cursor_row {
            pre.rows() - new_rows
        } else {
            pre.cursor_row as int
        };
        let (ready, mid) = choose|ready: TerminalState, mid: TerminalState|
            {
                &&& #[trigger] reshaping_prepared(pre, ready)
                &&& #[trigger] top_rows_archived(ready, 0, gone, mid)
                &&& reshaped(mid, gone, new_cols, new_rows, post)
            };
        assert(top_rows_archived(ready, 0, gone, mid));
        lemma_archived_in_order(ready, 0, gone, mid);
        assert(pre.grid@.take(gone) =~= ready.grid@.subrange(0, gone));
        assert forall|r: int|
            0 <= r < post.grid@.len() && gone + r < pre.grid@.len() implies row_carried(
            pre.grid@[gone + r],
            post.cols(),
            true,
            #[trigger] post.grid@[r],
        ) by {
            lemma_fitted_carried(mid, gone, new_cols, new_rows, post, r);
        }
    }
}

/// Rows leave at the top of the primary screen only where the screen becomes
/// lower, no more of them than it has to lose, and rows are cut below the cursor
/// only once the cursor row is the first one. A screen that does not become
/// lower keeps every row in its place.
pub proof fn resizing_takes_no_more_rows_than_it_must(
    pre: TerminalState,
    cols: usize,
    rows: usize,
    post: TerminalState,
)
    requires
        pre.core_wf(),
        !pre.use_alt_buffer,
        size_set(pre, cols, rows, post),
    ensures
        post.cursor_row <= pre.cursor_row,
        post.cursor_row < pre.cursor_row ==> post.rows() + (pre.cursor_row - post.cursor_row)
            <= pre.rows(),
        post.rows() + (pre.cursor_row - post.cursor_row) < pre.rows() ==> post.cursor_row == 0,
        forall|r: int|
            0 <= r < post.rows() && r + (pre.cursor_row - post.cursor_row) < pre.rows() ==> {
                &&& cells_carried(
                    pre.grid@[r + (pre.cursor_row - post.cursor_row)].cells,
                    post.cols(),
                    (#[trigger] post.grid@[r]).cells,
                )
                &&& post.grid@[r].wrapped == pre.grid@[r + (pre.cursor_row
                    - post.cursor_row)].wrapped
            },
        forall|r: int, c: int|
            r + (pre.cursor_row - post.cursor_row) >= pre.rows() && 0 <= r < post.rows() && 0 <= c
                < post.cols() ==> (#[trigger] post.grid@[r].cells[c]).character == ' ',
{
    lemma_shape(pre, cols, rows, post);
    let gone = pre.cursor_row - post.cursor_row;
    if post == pre {
        assert forall|r: int| 0 <= r < post.rows() implies cells_carried(
            pre.grid@[r].cells,
            post.cols(),
            (#[trigger] post.grid@[r]).cells,
        ) by {}
    } else {
        assert forall|r: int| 0 <= r < post.rows() && r + gone < pre.rows() implies {
            &&& cells_carried(
                pre.grid@[r + gone].cells,
                post.cols(),
                (#[trigger] post.grid@[r]).cells,
            )
            &&& post.grid@[r].wrapped == pre.grid@[r + gone].wrapped
        } by {
            assert(row_carried(pre.grid@[gone + r], post.cols(), true, post.grid@[r]));
        }
    }
}

/// A new size keeps the cursor in its column where there is room, and gives the
/// screen as many columns and rows as were asked for, up to the largest
/// supported screen. A size without columns or rows changes nothing.
pub proof fn resizing_gives_the_size_asked_for(
    pre: TerminalState,
    cols: usize,
    rows: usize,
    post: TerminalState,
)
    requires
        pre.core_wf(),
        size_set(pre, cols, rows, post),
    ensures
        1 <= cols <= 1024 && 1 <= rows <= 512 ==> post.cols() == cols && post.rows() == rows,
        cols > 1024 && rows >= 1 ==> post.cols() == 1024,
        cols >= 1 && rows > 512 ==> post.rows() == 512,
        cols == 0 || rows == 0 ==> post == pre,
        post.cursor_col <= pre.cursor_col,
        post.cursor_col == pre.cursor_col || post.cursor_col == post.cols() - 1,
        post.cursor_row < post.rows() && post.cursor_col < post.cols(),
        post.alt_grid@.len() == post.rows(),
{
    if post != pre {
        let new_cols = if cols > 1024 {
            1024int
        } else {
            cols as int
        };
        let new_rows = if rows > 512 {
            512int
        } else {
            rows as int
        };
        let gone = crate::resize::leaving_rows(pre, new_rows);
        let (ready, mid) = choose|ready: TerminalState, mid: TerminalState|
            {
                &&& #[trigger] reshaping_prepared(pre, ready)
                &&& #[trigger] top_rows_archived(ready, 0, gone, mid)
                &&& reshaped(mid, gone, new_cols, new_rows, post)
            };
        assert(top_rows_archived(ready, 0, gone, mid));
        lemma_archived_in_order(ready, 0, gone, mid);
    }
}

/// While the alternate screen is shown a new size takes nothing into the
/// history: the rows of both screens stay in their places, as far as there is
/// room.
pub proof fn resizing_the_alternate_screen_feeds_nothing(
    pre: TerminalState,
    cols: usize,
    rows: usize,
    post: TerminalState,
    r: int,
)
    requires
        pre.core_wf(),
        pre.use_alt_buffer,
        size_set(pre, cols, rows, post),
        0 <= r < pre.rows(),
        r < post.rows(),
    ensures
        post.history() == pre.history(),
        post.total_lines_scrolled == pre.total_lines_scrolled,
        cells_carried(pre.grid@[r].cells, post.cols(), post.grid@[r].cells),
        cells_carried(pre.alt_grid@[r].cells, post.cols(), post.alt_grid@[r].cells),
        post.use_alt_buffer,
{
    if post != pre {
        let new_cols = if cols > 1024 {
            1024int
        } else {
            cols as int
        };
        let new_rows = if rows > 512 {
            512int
        } else {
            rows as int
        };
        let (ready, mid) = choose|ready: TerminalState, mid: TerminalState|
            {
                &&& #[trigger] reshaping_prepared(pre, ready)
                &&& #[trigger] top_rows_archived(ready, 0, 0, mid)
                &&& reshaped(mid, 0, new_cols, new_rows, post)
            };
        assert(top_rows_archived(ready, 0, 0, mid));
        assert(mid == ready);
        lemma_fitted_carried(mid, 0, new_cols, new_rows, post, r);
    }
}

/// What reshaping keeps.
proof fn lemma_reshaped(pre: TerminalState, gone: int, cols: int, rows: int, post: TerminalState)
    requires
        reshaped(pre, gone, cols, rows, post),
        cols >= 1,
        rows >= 1,
        pre.scroll_region_top <= pre.scroll_region_bottom < pre.grid@.len(),
    ensures
        post.tab_stops@.len() == post.cols(),
        forall|c: int|
            0 <= c < post.cols() && c < pre.tab_stops@.len() ==> #[trigger] post.tab_stops@[c]
                == pre.tab_stops@[c],
        forall|c: int|
            pre.tab_stops@.len() <= c < post.cols() ==> #[trigger] post.tab_stops@[c] == (c % 8
                == 0),
        pre.scroll_region_top == 0 && pre.scroll_region_bottom == pre.rows() - 1
            ==> post.scroll_region_top == 0 && post.scroll_region_bottom == post.rows() - 1,
        post.scroll_region_top <= post.scroll_region_bottom < post.rows(),
        pre.scroll_region_bottom < post.rows() && !(pre.scroll_region_top == 0
            && pre.scroll_region_bottom == pre.rows() - 1) ==> post.scroll_region_top
            == pre.scroll_region_top && post.scroll_region_bottom == pre.scroll_region_bottom,
        pre.saved.requested matches Some(before) ==> (post.saved.requested matches Some(after)
            && after.row < post.rows() && after.col < post.cols() && (after.row == before.row
            || after.row == post.rows() - 1) && (after.col == before.col || after.col == post.cols()
            - 1)),
        forall|r: int|
            0 <= r < post.rows() ==> #[trigger] post.row_versions@[r] == post.grid_version,
        post.grid_version == pre.grid_version,
        !post.pending_wrap,
{
    assert(post.cols() == cols);
    assert(post.grid@.len() == rows);
}

/// A new size keeps the tab stops of the columns that stay and sets one every eight in
/// those that are added. A scroll region that was the whole screen is the whole screen
/// again, and every other lies within it. The cursor that was saved lies within it too,
/// where it was as far as there is room. Every row counts as changed.
pub proof fn resizing_keeps_stops_and_region(
    pre: TerminalState,
    cols: usize,
    rows: usize,
    post: TerminalState,
)
    requires
        pre.core_wf(),
        size_set(pre, cols, rows, post),
        post != pre,
    ensures
        post.tab_stops@.len() == post.cols(),
        forall|c: int|
            0 <= c < post.cols() && c < pre.tab_stops@.len() ==> #[trigger] post.tab_stops@[c]
                == pre.tab_stops@[c],
        forall|c: int|
            pre.tab_stops@.len() <= c < post.cols() ==> #[trigger] post.tab_stops@[c] == (c % 8
                == 0),
        pre.scroll_region_top == 0 && pre.scroll_region_bottom == pre.rows() - 1
            ==> post.scroll_region_top == 0 && post.scroll_region_bottom == post.rows() - 1,
        post.scroll_region_top <= post.scroll_region_bottom < post.rows(),
        pre.scroll_region_bottom < post.rows() && !(pre.scroll_region_top == 0
            && pre.scroll_region_bottom == pre.rows() - 1) ==> post.scroll_region_top
            == pre.scroll_region_top && post.scroll_region_bottom == pre.scroll_region_bottom,
        pre.saved.requested matches Some(before) ==> (post.saved.requested matches Some(after)
            && after.row < post.rows() && after.col < post.cols() && (after.row == before.row
            || after.row == post.rows() - 1) && (after.col == before.col || after.col == post.cols()
            - 1)),
        forall|r: int|
            0 <= r < post.rows() ==> #[trigger] post.row_versions@[r] == post.grid_version,
        pre.grid_version < u64::MAX ==> post.grid_version == pre.grid_version + 1,
        !post.pending_wrap,
{
    let new_cols = if cols > 1024 {
        1024int
    } else {
        cols as int
    };
    let new_rows = if rows > 512 {
        512int
    } else {
        rows as int
    };
    let gone = crate::resize::leaving_rows(pre, new_rows);
    let (ready, mid) = choose|ready: TerminalState, mid: TerminalState|
        {
            &&& #[trigger] reshaping_prepared(pre, ready)
            &&& #[trigger] top_rows_archived(ready, 0, gone, mid)
            &&& reshaped(mid, gone, new_cols, new_rows, post)
        };
    assert(top_rows_archived(ready, 0, gone, mid));
    lemma_archived_in_order(ready, 0, gone, mid);
    lemma_reshaped(mid, gone, new_cols, new_rows, post);
}

} // verus!
