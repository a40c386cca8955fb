//! What the control sequences that move the cursor and change the screen do.

use vstd::prelude::*;

use crate::cell::Color;
use crate::cell::TerminalCell;
use crate::control::csi_performed;
use crate::csi::CsiModel;
use crate::csi::CsiParam;
use crate::cursor::cursor_at;
use crate::cursor::cursor_moved;
use crate::editing::cells_erased;
use crate::editing::line_erased;
use crate::editing::row_edited;
use crate::editing::row_redrawn;
use crate::editing::rows_erased;
use crate::lifecycle::ClockReading;
use crate::output::noted_reposition;
use crate::output::only_active_changed;
use crate::scrolling::spans_invalidated;
use crate::state::TerminalState;

verus! {

/// Whether a command is a control sequence without marker or intermediate that
/// ends with the character `last`.
pub open spec fn is_sequence(command: CsiModel, last: char) -> bool {
    command.marker is None && command.intermediate is None && command.last == last as u8
}

/// Whether parameter `i` counts `n`: absent and zero count one.
pub open spec fn counts(params: Seq<CsiParam>, i: int, n: int) -> bool {
    if i < params.len() && params[i].number != 0 {
        n == params[i].number
    } else {
        n == 1
    }
}

/// Whether parameter `i` chooses `n`: absent it chooses zero.
pub open spec fn chooses(params: Seq<CsiParam>, i: int, n: int) -> bool {
    if i < params.len() {
        n == params[i].number
    } else {
        n == 0
    }
}

/// Whether nothing but the cursor and what goes with it changed.
pub open spec fn only_cursor_moved(pre: TerminalState, post: TerminalState) -> bool {
    &&& !post.pending_wrap
    &&& post == TerminalState {
        cursor_row: post.cursor_row,
        cursor_col: post.cursor_col,
        pending_wrap: post.pending_wrap,
        provenance: post.provenance,
        ..pre
    }
}

/// A move of the cursor moves nothing else.
proof fn lemma_moved(
    pre: TerminalState,
    row: int,
    col: int,
    non_linear: bool,
    post: TerminalState,
)
    requires
        cursor_moved(pre, row, col, non_linear, post),
    ensures
        only_cursor_moved(pre, post),
        post.cursor_row == row,
        post.cursor_col == col,
{
    let mid = choose|mid: TerminalState|
        {
            &&& #[trigger] cursor_at(pre, row, col, mid)
            &&& only_active_changed(mid, noted_reposition(mid, non_linear), post)
        };
    assert(cursor_at(pre, row, col, mid));
}

/// `CSI n A` and `CSI n F` move the cursor up by `n` rows, `F` to the first
/// column too. The top of the screen stops it, and that of the scroll region
/// where the cursor starts inside or below.
pub proof fn cursor_moves_up(
    pre: TerminalState,
    command: CsiModel,
    n: int,
    now: ClockReading,
    post: TerminalState,
)
    requires
        pre.core_wf(),
        is_sequence(command, 'A') || is_sequence(command, 'F'),
        counts(command.params, 0, n),
        csi_performed(pre, command, now, post),
    ensures
        only_cursor_moved(pre, post),
        0 <= pre.cursor_row - post.cursor_row <= n,
        pre.cursor_row - post.cursor_row < n ==> post.cursor_row == 0 || (post.cursor_row
            == pre.scroll_region_top && pre.cursor_row >= pre.scroll_region_top),
        pre.cursor_row >= pre.scroll_region_top ==> post.cursor_row >= pre.scroll_region_top,
        is_sequence(command, 'A') ==> post.cursor_col == pre.cursor_col,
        is_sequence(command, 'F') ==> post.cursor_col == 0,
{
    lemma_moved(
        pre,
        crate::control::row_up(pre, n),
        if is_sequence(command, 'A') {
            pre.cursor_col as int
        } else {
            0
        },
        true,
        post,
    );
}

/// `CSI n B`, `CSI n e` and `CSI n E` move the cursor down by `n` rows, `E` to
/// the first column too. The bottom of the screen stops it, and that of the
/// scroll region where the cursor starts inside or above.
pub proof fn cursor_moves_down(
    pre: TerminalState,
    command: CsiModel,
    n: int,
    now: ClockReading,
    post: TerminalState,
)
    requires
        pre.core_wf(),
        is_sequence(command, 'B') || is_sequence(command, 'e') || is_sequence(command, 'E'),
        counts(command.params, 0, n),
        csi_performed(pre, command, now, post),
    ensures
        only_cursor_moved(pre, post),
        0 <= post.cursor_row - pre.cursor_row <= n,
        post.cursor_row - pre.cursor_row < n ==> post.cursor_row == pre.rows() - 1 || (
        post.cursor_row == pre.scroll_region_bottom && pre.cursor_row <= pre.scroll_region_bottom),
        pre.cursor_row <= pre.scroll_region_bottom ==> post.cursor_row <= pre.scroll_region_bottom,
        post.cursor_row < pre.rows(),
        !is_sequence(command, 'E') ==> post.cursor_col == pre.cursor_col,
        is_sequence(command, 'E') ==> post.cursor_col == 0,
{
    lemma_moved(
        pre,
        crate::control::row_down(pre, n),
        if is_sequence(command, 'E') {
            0
        } else {
            pre.cursor_col as int
        },
        true,
        post,
    );
}

/// `CSI n C` and `CSI n a` move the cursor right by `n` columns and `CSI n D`
/// left, as far as the row reaches.
pub proof fn cursor_moves_along_the_row(
    pre: TerminalState,
    command: CsiModel,
    n: int,
    now: ClockReading,
    post: TerminalState,
)
    requires
        pre.core_wf(),
        is_sequence(command, 'C') || is_sequence(command, 'a') || is_sequence(command, 'D'),
        counts(command.params, 0, n),
        csi_performed(pre, command, now, post),
    ensures
        only_cursor_moved(pre, post),
        post.cursor_row == pre.cursor_row,
        is_sequence(command, 'D') ==> post.cursor_col == pre.cursor_col - n || (pre.cursor_col < n
            && post.cursor_col == 0),
        !is_sequence(command, 'D') ==> post.cursor_col == pre.cursor_col + n || (pre.cursor_col + n
            >= pre.cols() && post.cursor_col == pre.cols() - 1),
        post.cursor_col < pre.cols(),
{
    lemma_moved(
        pre,
        pre.cursor_row as int,
        if is_sequence(command, 'D') {
            crate::control::col_left(pre, n)
        } else {
            crate::control::col_right(pre, n)
        },
        false,
        post,
    );
}

/// `CSI r ; c H` and `CSI r ; c f` put the cursor on row `r` and column `c`, both
/// counted from one, `CSI r d` on a row and `CSI c G` and CSI c &#96; on a column.
/// Beyond the screen the last row and column are meant. In origin mode rows
/// count from the top of the scroll region and end at its bottom.
pub proof fn cursor_goes_where_it_is_sent(
    pre: TerminalState,
    command: CsiModel,
    first: int,
    second: int,
    now: ClockReading,
    post: TerminalState,
)
    requires
        pre.core_wf(),
        is_sequence(command, 'H') || is_sequence(command, 'f') || is_sequence(command, 'd')
            || is_sequence(command, 'G') || is_sequence(command, '`'),
        counts(command.params, 0, first),
        counts(command.params, 1, second),
        csi_performed(pre, command, now, post),
    ensures
        only_cursor_moved(pre, post),
        ({
            let by_row = !is_sequence(command, 'G') && !is_sequence(command, '`');
            let by_both = is_sequence(command, 'H') || is_sequence(command, 'f');
            let col = if by_both {
                second
            } else {
                first
            };
            let base = if pre.origin_mode {
                pre.scroll_region_top as int
            } else {
                0
            };
            let end = if pre.origin_mode {
                pre.scroll_region_bottom as int
            } else {
                pre.rows() - 1
            };
            &&& !by_row ==> post.cursor_row == pre.cursor_row
            &&& by_row && base + first - 1 <= end ==> post.cursor_row == base + first - 1
            &&& by_row && base + first - 1 > end ==> post.cursor_row == end
            &&& by_row && !by_both ==> post.cursor_col == pre.cursor_col
            &&& (!by_row || by_both) && col <= pre.cols() ==> post.cursor_col == col - 1
            &&& (!by_row || by_both) && col > pre.cols() ==> post.cursor_col == pre.cols() - 1
        }),
{
    lemma_moved(
        pre,
        if is_sequence(command, 'G') || is_sequence(command, '`') {
            pre.cursor_row as int
        } else {
            crate::cursor::addressed_row(pre, first)
        },
        if is_sequence(command, 'd') {
            pre.cursor_col as int
        } else if is_sequence(command, 'H') || is_sequence(command, 'f') {
            crate::cursor::addressed_col(pre, second)
        } else {
            crate::cursor::addressed_col(pre, first)
        },
        is_sequence(command, 'H') || is_sequence(command, 'f') || is_sequence(command, 'd'),
        post,
    );
}

/// `CSI t ; b r` makes the rows `t` to `b`, counted from one, the scroll region
/// and sends the cursor home. A region of fewer than two rows is refused, and
/// without parameters it is the whole screen.
pub proof fn scroll_region_is_set(
    pre: TerminalState,
    command: CsiModel,
    top: int,
    bottom: int,
    now: ClockReading,
    post: TerminalState,
)
    requires
        pre.core_wf(),
        is_sequence(command, 'r'),
        counts(command.params, 0, top),
        bottom == if command.params.len() > 1 && 0 < command.params[1].number < pre.rows() {
            command.params[1].number as int
        } else {
            pre.rows()
        },
        csi_performed(pre, command, now, post),
    ensures
        top < bottom ==> post.scroll_region_top == top - 1 && post.scroll_region_bottom == bottom - 1
            && post.cursor_col == 0 && !post.pending_wrap,
        top < bottom ==> post.cursor_row == if pre.origin_mode {
            top - 1
        } else {
            0
        },
        top >= bottom ==> post == pre,
        post.grid == pre.grid && post.scrollback == pre.scrollback,
{
    if top < bottom {
        let set = TerminalState {
            scroll_region_top: (top - 1) as usize,
            scroll_region_bottom: (bottom - 1) as usize,
            ..pre
        };
        lemma_moved(
            set,
            crate::cursor::addressed_row(set, 1),
            crate::cursor::addressed_col(set, 1),
            true,
            post,
        );
    }
}

/// Whether a cell was erased: it holds a space on the current background.
pub open spec fn is_erased(state: TerminalState, cell: TerminalCell) -> bool {
    &&& cell.character == ' '
    &&& cell.background == state.current_bg
    &&& cell.foreground == Color::Default
    &&& !cell.flags.spec_wide()
    &&& !cell.flags.spec_continuation()
    &&& cell.hyperlink_id.raw == 0
}

/// Whether nothing but rows of the screen changed, and what is known of outputs.
pub open spec fn only_screen_changed(pre: TerminalState, post: TerminalState) -> bool {
    &&& post.grid.cols == pre.grid.cols
    &&& post.grid@.len() == pre.grid@.len()
    &&& post == TerminalState {
        grid: post.grid,
        provenance: post.provenance,
        caches: post.caches,
        dirty_region: post.dirty_region,
        row_versions: post.row_versions,
        ..pre
    }
}

/// Whether all rows of the screen have its width.
pub open spec fn rectangular(state: TerminalState) -> bool {
    forall|r: int| 0 <= r < state.grid@.len() ==> (#[trigger] state.grid@[r]).cells.len()
        == state.cols()
}

/// Editing a row changes that row alone.
proof fn lemma_edited(
    pre: TerminalState,
    row: int,
    span: (int, int),
    cells: Seq<TerminalCell>,
    cut: bool,
    post: TerminalState,
)
    requires
        0 <= row < pre.grid@.len(),
        row_edited(pre, row, span, cells, cut, post),
    ensures
        only_screen_changed(pre, post),
        post.grid@[row].cells == cells,
        post.grid@[row].id == pre.grid@[row].id,
        forall|r: int| 0 <= r < pre.grid@.len() && r != row ==> #[trigger] post.grid@[r]
            == pre.grid@[r],
{
    let mid = choose|mid: TerminalState|
        {
            &&& #[trigger] spans_invalidated(
                pre,
                seq![(pre.grid@[row].id, span.0 as usize, span.1 as usize)],
                mid,
            )
            &&& row_redrawn(mid, row, cells, cut, post)
        };
    assert(row_redrawn(mid, row, cells, cut, post));
}

/// Whether the columns `from..to` of a row were erased, and no other column but
/// that of a half whose other half was.
pub open spec fn columns_erased(
    pre: TerminalState,
    row: int,
    from: int,
    to: int,
    post: TerminalState,
) -> bool {
    forall|c: int| 0 <= c < pre.cols() ==> {
        let then = pre.grid@[row].cells[c];
        let now = #[trigger] post.grid@[row].cells[c];
        if from <= c < to {
            is_erased(pre, now)
        } else {
            now == then || (is_erased(pre, now) && ((c == from - 1 && then.flags.spec_wide()) || (c
                == to && then.flags.spec_continuation())))
        }
    }
}

/// Erasing columns of a row erases these.
proof fn lemma_erased(
    pre: TerminalState,
    row: int,
    from: int,
    to: int,
    cut: bool,
    post: TerminalState,
)
    requires
        0 <= row < pre.grid@.len(),
        rectangular(pre),
        0 <= from < to,
        to <= pre.cols(),
        cells_erased(pre, row, from, to, cut, post),
    ensures
        only_screen_changed(pre, post),
        columns_erased(pre, row, from, to, post),
        post.grid@[row].cells.len() == pre.cols(),
        post.grid@[row].id == pre.grid@[row].id,
        forall|r: int| 0 <= r < pre.grid@.len() && r != row ==> #[trigger] post.grid@[r]
            == pre.grid@[r],
{
    let cells = pre.row_cells(row);
    let span = crate::writing::whole_span(cells, from, to);
    lemma_edited(
        pre,
        row,
        span,
        crate::grid::filled(cells, span.0, span.1, pre.blank()),
        cut,
        post,
    );
    assert(cells.len() == pre.cols());
}

/// `CSI K` erases the cursor row from the cursor on, `CSI 1 K` up to and with the
/// cursor, `CSI 2 K` all of it; other rows stay, and so does the cursor.
pub proof fn erasing_in_the_row(
    pre: TerminalState,
    command: CsiModel,
    mode: int,
    now: ClockReading,
    post: TerminalState,
)
    requires
        pre.core_wf(),
        is_sequence(command, 'K'),
        chooses(command.params, 0, mode),
        csi_performed(pre, command, now, post),
    ensures
        only_screen_changed(pre, post),
        forall|r: int| 0 <= r < pre.rows() && r != pre.cursor_row ==> #[trigger] post.grid@[r]
            == pre.grid@[r],
        mode == 0 ==> columns_erased(
            pre,
            pre.cursor_row as int,
            pre.cursor_col as int,
            pre.cols(),
            post,
        ),
        mode == 1 ==> columns_erased(
            pre,
            pre.cursor_row as int,
            0,
            pre.cursor_col + 1,
            post,
        ),
        mode == 2 ==> columns_erased(pre, pre.cursor_row as int, 0, pre.cols(), post),
        mode > 2 ==> post == pre,
{
    let row = pre.cursor_row as int;
    if mode == 0 {
        lemma_erased(pre, row, pre.cursor_col as int, pre.cols(), true, post);
    } else if mode == 1 {
        lemma_erased(pre, row, 0, pre.cursor_col + 1, false, post);
    } else if mode == 2 {
        lemma_erased(pre, row, 0, pre.cols(), true, post);
    }
}

/// `CSI n X` erases `n` columns from the cursor on, as far as the row reaches.
pub proof fn erasing_characters(
    pre: TerminalState,
    command: CsiModel,
    n: int,
    now: ClockReading,
    post: TerminalState,
)
    requires
        pre.core_wf(),
        is_sequence(command, 'X'),
        counts(command.params, 0, n),
        csi_performed(pre, command, now, post),
    ensures
        only_screen_changed(pre, post),
        forall|r: int| 0 <= r < pre.rows() && r != pre.cursor_row ==> #[trigger] post.grid@[r]
            == pre.grid@[r],
        columns_erased(
            pre,
            pre.cursor_row as int,
            pre.cursor_col as int,
            if pre.cursor_col + n < pre.cols() {
                pre.cursor_col + n
            } else {
                pre.cols()
            },
            post,
        ),
{
    lemma_erased(
        pre,
        pre.cursor_row as int,
        pre.cursor_col as int,
        if pre.cursor_col + n < pre.cols() {
            pre.cursor_col + n
        } else {
            pre.cols()
        },
        false,
        post,
    );
}

/// Erasing rows erases these.
proof fn lemma_rows_erased(pre: TerminalState, first: int, last: int, post: TerminalState)
    requires
        rectangular(pre),
        pre.grid@.len() > 0,
        pre.cols() > 0,
        0 <= first,
        last <= pre.grid@.len(),
        rows_erased(pre, first, last, post),
    ensures
        only_screen_changed(pre, post),
        forall|r: int, c: int|
            first <= r < last && 0 <= c < pre.cols() ==> is_erased(
                pre,
                #[trigger] post.grid@[r].cells[c],
            ),
        forall|r: int|
            0 <= r < pre.grid@.len() && !(first <= r < last) ==> #[trigger] post.grid@[r]
                == pre.grid@[r],
    decreases last - first,
{
    if first < last {
        let mid = choose|mid: TerminalState|
            {
                &&& #[trigger] cells_erased(pre, first, 0, pre.cols(), true, mid)
                &&& rows_erased(mid, first + 1, last, post)
            };
        lemma_erased(pre, first, 0, pre.cols(), true, mid);
        assert(rectangular(mid)) by {
            assert(mid.grid@.len() == pre.grid@.len());
            assert forall|r: int| 0 <= r < mid.grid@.len() implies (
            #[trigger] mid.grid@[r]).cells.len() == mid.cols() by {
                if r != first {
                    assert(mid.grid@[r] == pre.grid@[r]);
                }
            }
        }
        lemma_rows_erased(mid, first + 1, last, post);
        assert forall|r: int, c: int|
            first <= r < last && 0 <= c < pre.cols() implies is_erased(
            pre,
            #[trigger] post.grid@[r].cells[c],
        ) by {
            if r == first {
                assert(post.grid@[r] == mid.grid@[r]);
            } else {
                assert(is_erased(mid, post.grid@[r].cells[c]));
            }
        }
    }
}

/// `CSI J` erases the screen from the cursor on, `CSI 1 J` up to and with the
/// cursor, `CSI 2 J` all of it. The cursor and the history stay.
pub proof fn erasing_on_the_screen(
    pre: TerminalState,
    command: CsiModel,
    mode: int,
    now: ClockReading,
    post: TerminalState,
)
    requires
        pre.core_wf(),
        is_sequence(command, 'J'),
        chooses(command.params, 0, mode),
        mode != 3,
        csi_performed(pre, command, now, post),
    ensures
        only_screen_changed(pre, post),
        mode > 3 ==> post == pre,
        mode == 0 ==> {
            &&& columns_erased(
                pre,
                pre.cursor_row as int,
                pre.cursor_col as int,
                pre.cols(),
                post,
            )
            &&& forall|r: int, c: int|
                pre.cursor_row < r < pre.rows() && 0 <= c < pre.cols() ==> is_erased(
                    pre,
                    #[trigger] post.grid@[r].cells[c],
                )
            &&& forall|r: int| 0 <= r < pre.cursor_row ==> #[trigger] post.grid@[r] == pre.grid@[r]
        },
        mode == 1 ==> {
            &&& columns_erased(pre, pre.cursor_row as int, 0, pre.cursor_col + 1, post)
            &&& forall|r: int, c: int|
                0 <= r < pre.cursor_row && 0 <= c < pre.cols() ==> is_erased(
                    pre,
                    #[trigger] post.grid@[r].cells[c],
                )
            &&& forall|r: int|
                pre.cursor_row < r < pre.rows() ==> #[trigger] post.grid@[r] == pre.grid@[r]
        },
        mode == 2 ==> forall|r: int, c: int|
            0 <= r < pre.rows() && 0 <= c < pre.cols() ==> is_erased(
                pre,
                #[trigger] post.grid@[r].cells[c],
            ),
{
    if mode == 0 || mode == 1 {
        let mid = choose|mid: TerminalState|
            {
                &&& #[trigger] line_erased(pre, mode as u16, mid)
                &&& if mode == 0 {
                    rows_erased(mid, mid.cursor_row + 1, mid.rows(), post)
                } else {
                    rows_erased(mid, 0, mid.cursor_row as int, post)
                }
            };
        assert(line_erased(pre, mode as u16, mid));
        let row = pre.cursor_row as int;
        if mode == 0 {
            lemma_erased(pre, row, pre.cursor_col as int, pre.cols(), true, mid);
        } else {
            lemma_erased(pre, row, 0, pre.cursor_col + 1, false, mid);
        }
        assert(rectangular(mid)) by {
            assert forall|r: int| 0 <= r < mid.grid@.len() implies (
            #[trigger] mid.grid@[r]).cells.len() == mid.cols() by {
                if r != row {
                    assert(mid.grid@[r] == pre.grid@[r]);
                }
            }
        }
        if mode == 0 {
            lemma_rows_erased(mid, mid.cursor_row + 1, mid.rows(), post);
        } else {
            lemma_rows_erased(mid, 0, mid.cursor_row as int, post);
        }
        assert(post.grid@[row] == mid.grid@[row]);
        assert forall|r: int, c: int|
            0 <= r < pre.rows() && 0 <= c < pre.cols() && is_erased(
                mid,
                #[trigger] post.grid@[r].cells[c],
            ) implies is_erased(pre, post.grid@[r].cells[c]) by {}
    } else if mode == 2 {
        lemma_rows_erased(pre, 0, pre.rows(), post);
    }
}

} // verus!
