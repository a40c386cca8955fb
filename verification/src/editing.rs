//! Erasing, inserting and deleting on the screen.

use vstd::prelude::*;

use crate::cell::halves_fit;
use crate::cell::paired;
use crate::cell::CellRole;
use crate::cell::TerminalCell;
use crate::grid::dangling_cleared;
use crate::grid::filled;
use crate::grid::with_cells;
use crate::grid::Line;
use crate::scrolling::grid_moved_up;
use crate::scrolling::region_scrolled_down;
use crate::scrolling::region_scrolled_up;
use crate::scrolling::row_lost;
use crate::scrolling::spans_invalidated;
use crate::state::ids_allocated;
use crate::state::lemma_names_kept;
use crate::state::lemma_with_cells;
use crate::state::rows_paired;
use crate::state::stamped;
use crate::state::TerminalState;
use crate::writing::pairs_split;
use crate::writing::shifted_right;
use crate::writing::whole_span;

verus! {

/// `post` is `pre` with the cells of one screen row replaced. A row that is
/// `cut` no longer continues on the next one.
pub open spec fn row_redrawn(
    pre: TerminalState,
    row: int,
    cells: Seq<TerminalCell>,
    cut: bool,
    post: TerminalState,
) -> bool {
    let line = pre.grid@[row];
    &&& post.grid.cols == pre.grid.cols
    &&& post.grid@ == pre.grid@.update(
        row,
        Line { cells, wrapped: line.wrapped && !cut, id: line.id },
    )
    &&& post.dirty_region == pre.dirty_region.marked(row as usize, row as usize)
    &&& post.row_versions@ == stamped(pre.row_versions@, row, row, pre.grid_version)
    &&& post == TerminalState {
        grid: post.grid,
        dirty_region: post.dirty_region,
        row_versions: post.row_versions,
        ..pre
    }
}

/// `post` is `pre` after `cells` replaced a row in which the columns of `span`
/// changed.
pub open spec fn row_edited(
    pre: TerminalState,
    row: int,
    span: (int, int),
    cells: Seq<TerminalCell>,
    cut: bool,
    post: TerminalState,
) -> bool {
    exists|mid: TerminalState|
        {
            &&& #[trigger] spans_invalidated(
                pre,
                seq![(pre.grid@[row].id, span.0 as usize, span.1 as usize)],
                mid,
            )
            &&& row_redrawn(mid, row, cells, cut, post)
        }
}

/// `post` is `pre` after columns `start..end` of a row were erased, together
/// with the other halves of double-width characters that they cut.
pub open spec fn cells_erased(
    pre: TerminalState,
    row: int,
    start: int,
    end: int,
    cut: bool,
    post: TerminalState,
) -> bool {
    let cells = pre.row_cells(row);
    let span = whole_span(cells, start, end);
    row_edited(pre, row, span, filled(cells, span.0, span.1, pre.blank()), cut, post)
}

/// Erasing whole characters leaves only whole characters.
pub proof fn lemma_erased_paired(
    cells: Seq<TerminalCell>,
    start: int,
    end: int,
    blank: TerminalCell,
)
    requires
        paired(cells),
        0 <= start,
        blank.flags.role == CellRole::Single,
    ensures
        ({
            let span = whole_span(cells, start, end);
            paired(filled(cells, span.0, span.1, blank))
        }),
{
    let span = whole_span(cells, start, end);
    let out = filled(cells, span.0, span.1, blank);
    assert forall|i: int, j: int|
        #![trigger out[i], out[j]]
        0 <= i && j == i + 1 && j < out.len() implies halves_fit(out[i], out[j]) by {
        assert(halves_fit(cells[i], cells[j]));
        if span.0 < span.1 {
            let len = cells.len() as int;
            let s = if start < len {
                start
            } else {
                len
            };
            let e = if end < len {
                end
            } else {
                len
            };
            if s < e {
                if j == span.0 && s > 0 {
                    assert(halves_fit(cells[s - 1], cells[s]));
                    if s > 1 {
                        assert(halves_fit(cells[s - 2], cells[s - 1]));
                    }
                }
                if i + 1 == span.1 && e < len {
                    assert(halves_fit(cells[e - 1], cells[e]));
                    if e + 1 < len {
                        assert(halves_fit(cells[e], cells[e + 1]));
                    }
                }
            }
        }
    }
}

/// A row after the cell at `col` was blanked, and with a half of a double-width
/// character the cell of the other half.
pub open spec fn cell_cleared(cells: Seq<TerminalCell>, col: int, blank: TerminalCell) -> Seq<
    TerminalCell,
> {
    Seq::new(
        cells.len(),
        |i: int|
            if i == col || (i == col - 1 && cells[col].flags.spec_continuation()) || (i == col + 1
                && cells[col].flags.spec_wide()) {
                blank
            } else {
                cells[i]
            },
    )
}

/// Blanking a character leaves no right half alone.
proof fn lemma_cleared_paired(cells: Seq<TerminalCell>, col: int, blank: TerminalCell)
    requires
        paired(cells),
        0 <= col < cells.len(),
        blank.flags.role == CellRole::Single,
    ensures
        paired(cell_cleared(cells, col, blank)),
{
    let out = cell_cleared(cells, col, blank);
    assert forall|i: int, j: int|
        #![trigger out[i], out[j]]
        0 <= i && j == i + 1 && j < out.len() implies halves_fit(out[i], out[j]) by {
        assert(halves_fit(cells[i], cells[j]));
        if i > 0 {
            assert(halves_fit(cells[i - 1], cells[i]));
        }
    }
}

/// A row after `n` blanks were inserted at `col`.
pub open spec fn chars_inserted(
    cells: Seq<TerminalCell>,
    col: int,
    n: int,
    blank: TerminalCell,
) -> Seq<TerminalCell> {
    dangling_cleared(
        pairs_split(shifted_right(cells, col, n, blank), col, col + n, blank),
        blank,
    )
}

/// A row after `n` cells at `col` were deleted; blanks enter at the right. A
/// character cut at either side of the gap goes as a whole.
pub open spec fn chars_deleted(
    cells: Seq<TerminalCell>,
    col: int,
    n: int,
    blank: TerminalCell,
) -> Seq<TerminalCell> {
    Seq::new(
        cells.len(),
        |i: int|
            if i < col {
                if i == col - 1 && cells[i].flags.spec_wide() {
                    blank
                } else {
                    cells[i]
                }
            } else if i + n < cells.len() {
                if i == col && cells[i + n].flags.spec_continuation() {
                    blank
                } else {
                    cells[i + n]
                }
            } else {
                blank
            },
    )
}

/// Inserting leaves only whole characters.
pub proof fn lemma_inserted_paired(
    cells: Seq<TerminalCell>,
    col: int,
    n: int,
    blank: TerminalCell,
)
    requires
        paired(cells),
        0 <= col < cells.len(),
        1 <= n <= cells.len() - col,
        blank.flags.role == CellRole::Single,
    ensures
        paired(chars_inserted(cells, col, n, blank)),
{
    let shifted = shifted_right(cells, col, n, blank);
    let out = chars_inserted(cells, col, n, blank);
    let len = cells.len() as int;
    assert forall|i: int, j: int|
        #![trigger out[i], out[j]]
        0 <= i && j == i + 1 && j < out.len() implies halves_fit(out[i], out[j]) by {
        if i >= col + n {
            assert(shifted[i] == cells[i - n]);
            assert(shifted[j] == cells[j - n]);
        } else if j < col {
            assert(shifted[i] == cells[i]);
            assert(shifted[j] == cells[j]);
        }
    }
    assert(!out[0].flags.spec_continuation()) by {
        assert(!cells[0].flags.spec_continuation());
    }
}

/// Deleting leaves only whole characters.
pub proof fn lemma_deleted_paired(cells: Seq<TerminalCell>, col: int, n: int, blank: TerminalCell)
    requires
        paired(cells),
        0 <= col < cells.len(),
        1 <= n <= cells.len() - col,
        blank.flags.role == CellRole::Single,
    ensures
        paired(chars_deleted(cells, col, n, blank)),
{
    let out = chars_deleted(cells, col, n, blank);
    let len = cells.len() as int;
    assert forall|i: int, j: int|
        #![trigger out[i], out[j]]
        0 <= i && j == i + 1 && j < out.len() implies halves_fit(out[i], out[j]) by {
        if i >= col && j + n < len {
            assert(halves_fit(cells[i + n], cells[j + n]));
        } else if i >= col && i + n < len {
            assert(!cells[len - 1].flags.spec_wide());
        } else if j < col {
            assert(halves_fit(cells[i], cells[j]));
            if j == col - 1 {
                assert(halves_fit(cells[j], cells[col]));
            }
        }
    }
    assert(!out[0].flags.spec_continuation());
    assert(len > 1 ==> !out[len - 1].flags.spec_wide());
}

/// `n` brought down to at most `limit`.
pub open spec fn at_most(n: int, limit: int) -> int {
    if n < limit {
        n
    } else {
        limit
    }
}

/// `post` is `pre` after blanks were inserted at the cursor.
pub open spec fn blanks_inserted(pre: TerminalState, count: int, post: TerminalState) -> bool {
    let row = pre.cursor_row as int;
    let col = pre.cursor_col as int;
    let cells = pre.row_cells(row);
    let n = at_most(count, pre.cols() - col);
    if n <= 0 {
        post == pre
    } else {
        row_edited(
            pre,
            row,
            whole_span(cells, col, pre.cols()),
            chars_inserted(cells, col, n, pre.blank()),
            false,
            post,
        )
    }
}

/// `post` is `pre` after cells at the cursor were deleted.
pub open spec fn cells_deleted(pre: TerminalState, count: int, post: TerminalState) -> bool {
    let row = pre.cursor_row as int;
    let col = pre.cursor_col as int;
    let cells = pre.row_cells(row);
    let n = at_most(count, pre.cols() - col);
    if n <= 0 {
        post == pre
    } else {
        row_edited(
            pre,
            row,
            whole_span(cells, col, pre.cols()),
            chars_deleted(cells, col, n, pre.blank()),
            false,
            post,
        )
    }
}

/// `post` is `pre` after rows `first..last` were erased.
pub open spec fn rows_erased(
    pre: TerminalState,
    first: int,
    last: int,
    post: TerminalState,
) -> bool
    decreases last - first,
{
    if first >= last {
        post == pre
    } else {
        exists|mid: TerminalState|
            {
                &&& #[trigger] cells_erased(pre, first, 0, pre.cols(), true, mid)
                &&& rows_erased(mid, first + 1, last, post)
            }
    }
}

/// `post` is `pre` after part of the cursor row was erased: from the cursor,
/// up to it, or all of it.
pub open spec fn line_erased(pre: TerminalState, mode: u16, post: TerminalState) -> bool {
    let row = pre.cursor_row as int;
    if mode == 0 {
        cells_erased(pre, row, pre.cursor_col as int, pre.cols(), true, post)
    } else if mode == 1 {
        cells_erased(pre, row, 0, pre.cursor_col + 1, false, post)
    } else if mode == 2 {
        cells_erased(pre, row, 0, pre.cols(), true, post)
    } else {
        post == pre
    }
}

/// `post` is `pre` after part of the screen was erased: below the cursor,
/// above it, or all of it.
pub open spec fn display_erased(pre: TerminalState, mode: u16, post: TerminalState) -> bool {
    if mode == 0 {
        exists|mid: TerminalState|
            {
                &&& #[trigger] line_erased(pre, 0, mid)
                &&& rows_erased(mid, mid.cursor_row + 1, mid.rows(), post)
            }
    } else if mode == 1 {
        exists|mid: TerminalState|
            {
                &&& #[trigger] line_erased(pre, 1, mid)
                &&& rows_erased(mid, 0, mid.cursor_row as int, post)
            }
    } else if mode == 2 {
        rows_erased(pre, 0, pre.rows(), post)
    } else {
        post == pre
    }
}

/// `post` is `pre` after one row of a region was deleted.
pub open spec fn row_deleted(pre: TerminalState, top: int, bottom: int, post: TerminalState) -> bool {
    exists|mid: TerminalState|
        {
            &&& #[trigger] row_lost(pre, pre.grid@[top].id, mid)
            &&& grid_moved_up(mid, top, bottom, post)
        }
}

/// `post` is `pre` after `n` rows of a region were deleted.
pub open spec fn rows_deleted(
    pre: TerminalState,
    top: int,
    bottom: int,
    n: int,
    post: TerminalState,
) -> bool
    decreases n,
{
    if n <= 0 {
        post == pre
    } else {
        exists|mid: TerminalState|
            {
                &&& #[trigger] row_deleted(pre, top, bottom, mid)
                &&& rows_deleted(mid, top, bottom, n - 1, post)
            }
    }
}

/// `post` is `pre` after a region scrolled up `n` times.
pub open spec fn region_scrolled_up_by(
    pre: TerminalState,
    top: int,
    bottom: int,
    n: int,
    post: TerminalState,
) -> bool
    decreases n,
{
    if n <= 0 {
        post == pre
    } else {
        exists|mid: TerminalState|
            {
                &&& #[trigger] region_scrolled_up(pre, top, bottom, mid)
                &&& region_scrolled_up_by(mid, top, bottom, n - 1, post)
            }
    }
}

/// `post` is `pre` after a region scrolled down `n` times.
pub open spec fn region_scrolled_down_by(
    pre: TerminalState,
    top: int,
    bottom: int,
    n: int,
    post: TerminalState,
) -> bool
    decreases n,
{
    if n <= 0 {
        post == pre
    } else {
        exists|mid: TerminalState|
            {
                &&& #[trigger] region_scrolled_down(pre, top, bottom, mid)
                &&& region_scrolled_down_by(mid, top, bottom, n - 1, post)
            }
    }
}

/// Whether the cursor is inside the scroll region.
pub open spec fn in_region(state: TerminalState) -> bool {
    state.scroll_region_top <= state.cursor_row <= state.scroll_region_bottom
}

/// `post` is `pre` after blank rows were inserted at the cursor.
pub open spec fn lines_inserted(pre: TerminalState, count: int, post: TerminalState) -> bool {
    let top = pre.cursor_row as int;
    let bottom = pre.scroll_region_bottom as int;
    if in_region(pre) {
        region_scrolled_down_by(pre, top, bottom, at_most(count, bottom - top + 1), post)
    } else {
        post == pre
    }
}

/// `post` is `pre` after rows at the cursor were deleted.
pub open spec fn lines_deleted(pre: TerminalState, count: int, post: TerminalState) -> bool {
    let top = pre.cursor_row as int;
    let bottom = pre.scroll_region_bottom as int;
    if in_region(pre) {
        rows_deleted(pre, top, bottom, at_most(count, bottom - top + 1), post)
    } else {
        post == pre
    }
}

impl TerminalState {
    /// Replaces the cells of a screen row.
    fn redraw_row(&mut self, row: usize, cells: Vec<TerminalCell>, cut: bool)
        requires
            old(self).core_wf(),
            row < old(self).rows(),
            cells@.len() == old(self).cols(),
            paired(cells@),
        ensures
            final(self).core_wf(),
            row_redrawn(*old(self), row as int, cells@, cut, *final(self)),
    {
        let ghost line = self.grid@[row as int];
        let ghost new_line = Line { cells: cells@, wrapped: line.wrapped && !cut, id: line.id };
        self.grid.rows[row].cells = cells;
        if cut {
            self.grid.rows[row].wrapped = false;
        }
        proof {
            assert(self.grid@ =~= old(self).grid@.update(row as int, new_line));
            reveal(ids_allocated);
            reveal(rows_paired);
            lemma_names_kept(self.history(), old(self).grid@, self.alt_grid@, self.grid@);
        }
        self.dirty_region.mark_row(row);
        self.mark_row_dirty(row);
    }

    /// Replaces the cells of a screen row in which the columns of `span`
    /// changed.
    fn edit_row(&mut self, row: usize, span: (usize, usize), cells: Vec<TerminalCell>, cut: bool)
        requires
            old(self).core_wf(),
            row < old(self).rows(),
            cells@.len() == old(self).cols(),
            paired(cells@),
        ensures
            final(self).core_wf(),
            row_edited(
                *old(self),
                row as int,
                (span.0 as int, span.1 as int),
                cells@,
                cut,
                *final(self),
            ),
    {
        self.invalidate_finished_output_span(row, span.0, span.1);
        let ghost mid = *self;
        assert(spans_invalidated(
            *old(self),
            seq![(old(self).grid@[row as int].id, span.0, span.1)],
            mid,
        ));
        self.redraw_row(row, cells, cut);
    }

    /// Erases columns `start..end` of a screen row.
    pub fn erase_cells(&mut self, row: usize, start: usize, end: usize, cut: bool)
        requires
            old(self).core_wf(),
            row < old(self).rows(),
        ensures
            final(self).core_wf(),
            cells_erased(*old(self), row as int, start as int, end as int, cut, *final(self)),
    {
        let span = self.expanded_cell_mutation_span(row, start, end);
        let blank = self.create_blank_cell();
        let ghost cells = self.row_cells(row as int);
        let mut out: Vec<TerminalCell> = Vec::with_capacity(self.grid.row_len());
        let mut i: usize = 0;
        while i < self.grid.row_len()
            invariant
                self.core_wf(),
                row < self.rows(),
                i <= self.cols(),
                cells == self.row_cells(row as int),
                cells.len() == self.cols(),
                out@.len() == i,
                forall|k: int|
                    0 <= k < i ==> #[trigger] out@[k] == (if span.0 <= k < span.1 {
                        blank
                    } else {
                        cells[k]
                    }),
            decreases self.cols() - i,
        {
            out.push(
                if span.0 <= i && i < span.1 {
                    blank
                } else {
                    self.grid.get(row, i)
                },
            );
            i = i + 1;
        }
        proof {
            assert(out@ =~= filled(cells, span.0 as int, span.1 as int, blank));
            reveal(rows_paired);
            lemma_erased_paired(cells, start as int, end as int, blank);
        }
        self.edit_row(row, span, out, cut);
    }

    /// Blanks one cell, and with a half of a double-width character the cell
    /// of the other half. Nothing else is told of the change.
    pub fn clear_cell_unchecked(&mut self, row: usize, col: usize)
        requires
            old(self).core_wf(),
            row < old(self).rows(),
            col < old(self).cols(),
        ensures
            final(self).core_wf(),
            final(self).grid.cols == old(self).grid.cols,
            final(self).grid@ == with_cells(
                old(self).grid@,
                row as int,
                cell_cleared(old(self).row_cells(row as int), col as int, old(self).blank()),
            ),
            *final(self) == (TerminalState { grid: final(self).grid, ..*old(self) }),
    {
        let cols: usize = self.grid.row_len();
        let blank = self.create_blank_cell();
        let ghost cells = self.row_cells(row as int);
        let cell = self.grid.get(row, col);
        if cell.flags.wide_continuation() && col > 0 {
            self.grid.set(row, col - 1, blank);
        }
        if cell.flags.wide() && col + 1 < cols {
            self.grid.set(row, col + 1, blank);
        }
        self.grid.set(row, col, blank);
        proof {
            let out = cell_cleared(cells, col as int, blank);
            assert(self.grid@ =~~= with_cells(old(self).grid@, row as int, out));
            reveal(rows_paired);
            lemma_cleared_paired(cells, col as int, blank);
            lemma_with_cells(old(self).grid@, row as int, out, self.next_raw_row_id);
            lemma_names_kept(
                self.history(),
                old(self).grid@,
                self.alt_grid@,
                with_cells(old(self).grid@, row as int, out),
            );
        }
    }

    /// Erases rows `first..last`.
    pub fn erase_rows(&mut self, first: usize, last: usize)
        requires
            old(self).core_wf(),
            first <= last <= old(self).rows(),
        ensures
            final(self).core_wf(),
            rows_erased(*old(self), first as int, last as int, *final(self)),
    {
        let mut row: usize = first;
        while row < last
            invariant
                self.core_wf(),
                first <= row <= last <= self.rows(),
                forall|post: TerminalState| #[trigger]
                    rows_erased(*self, row as int, last as int, post) ==> rows_erased(
                        *old(self),
                        first as int,
                        last as int,
                        post,
                    ),
            decreases last - row,
        {
            let ghost before = *self;
            self.erase_cells(row, 0, self.grid.row_len(), true);
            row = row + 1;
            proof {
                assert forall|post: TerminalState| #[trigger]
                    rows_erased(*self, row as int, last as int, post) implies rows_erased(
                    *old(self),
                    first as int,
                    last as int,
                    post,
                ) by {
                    assert(cells_erased(before, row - 1, 0, before.cols(), true, *self));
                    assert(rows_erased(before, row - 1, last as int, post));
                }
            }
        }
        assert(rows_erased(*self, row as int, last as int, *self));
    }

    /// Erases part of the cursor row (EL).
    pub fn erase_in_line(&mut self, mode: u16)
        requires
            old(self).core_wf(),
        ensures
            final(self).core_wf(),
            line_erased(*old(self), mode, *final(self)),
    {
        let cols: usize = self.grid.row_len();
        if mode == 0 {
            self.erase_cells(self.cursor_row, self.cursor_col, cols, true);
        } else if mode == 1 {
            self.erase_cells(self.cursor_row, 0, self.cursor_col + 1, false);
        } else if mode == 2 {
            self.erase_cells(self.cursor_row, 0, cols, true);
        }
    }

    /// Erases part of the screen (ED).
    pub fn erase_in_display(&mut self, mode: u16)
        requires
            old(self).core_wf(),
        ensures
            final(self).core_wf(),
            display_erased(*old(self), mode, *final(self)),
    {
        if mode == 0 {
            self.erase_in_line(0);
            let ghost mid = *self;
            assert(line_erased(*old(self), 0, mid));
            self.erase_rows(self.cursor_row + 1, self.grid.rows());
        } else if mode == 1 {
            self.erase_in_line(1);
            let ghost mid = *self;
            assert(line_erased(*old(self), 1, mid));
            self.erase_rows(0, self.cursor_row);
        } else if mode == 2 {
            self.erase_rows(0, self.grid.rows());
        }
    }

    /// Inserts blanks at the cursor (ICH).
    pub fn insert_blanks(&mut self, count: usize)
        requires
            old(self).core_wf(),
        ensures
            final(self).core_wf(),
            blanks_inserted(*old(self), count as int, *final(self)),
    {
        let cols: usize = self.grid.row_len();
        let row: usize = self.cursor_row;
        let col: usize = self.cursor_col;
        let n: usize = if count < cols - col {
            count
        } else {
            cols - col
        };
        if n == 0 {
            return;
        }
        let blank = self.create_blank_cell();
        let ghost cells = self.row_cells(row as int);
        let ghost shifted = shifted_right(cells, col as int, n as int, blank);
        let ghost split = pairs_split(shifted, col as int, col + n, blank);
        let ghost target = chars_inserted(cells, col as int, n as int, blank);
        let mut out: Vec<TerminalCell> = Vec::with_capacity(cols);
        let mut i: usize = 0;
        while i < cols
            invariant
                self.core_wf(),
                row < self.rows(),
                i <= cols,
                cols == self.cols(),
                n <= cols - col,
                cells == self.row_cells(row as int),
                cells.len() == cols,
                shifted == shifted_right(cells, col as int, n as int, blank),
                out@.len() == i,
                forall|k: int| 0 <= k < i ==> #[trigger] out@[k] == shifted[k],
            decreases cols - i,
        {
            out.push(
                if i < col {
                    self.grid.get(row, i)
                } else if i - col < n {
                    blank
                } else {
                    self.grid.get(row, i - n)
                },
            );
            i = i + 1;
        }
        assert(out@ =~= shifted);
        if col > 0 && out[col - 1].flags.wide() {
            out.set(col - 1, blank);
        }
        if n < cols - col && out[col + n].flags.wide_continuation() {
            out.set(col + n, blank);
        }
        assert(out@ =~= split);
        if out[cols - 1].flags.wide() {
            out.set(cols - 1, blank);
        }
        assert(out@ =~= target);
        proof {
            reveal(rows_paired);
            lemma_inserted_paired(cells, col as int, n as int, blank);
        }
        let span = self.expanded_cell_mutation_span(row, col, cols);
        self.edit_row(row, span, out, false);
    }

    /// Deletes cells at the cursor (DCH).
    pub fn delete_chars(&mut self, count: usize)
        requires
            old(self).core_wf(),
        ensures
            final(self).core_wf(),
            cells_deleted(*old(self), count as int, *final(self)),
    {
        let cols: usize = self.grid.row_len();
        let row: usize = self.cursor_row;
        let col: usize = self.cursor_col;
        let n: usize = if count < cols - col {
            count
        } else {
            cols - col
        };
        if n == 0 {
            return;
        }
        let blank = self.create_blank_cell();
        let ghost cells = self.row_cells(row as int);
        let ghost target = chars_deleted(cells, col as int, n as int, blank);
        let mut out: Vec<TerminalCell> = Vec::with_capacity(cols);
        let mut i: usize = 0;
        while i < cols
            invariant
                self.core_wf(),
                row < self.rows(),
                i <= cols,
                cols == self.cols(),
                n <= cols - col,
                cells == self.row_cells(row as int),
                cells.len() == cols,
                target == chars_deleted(cells, col as int, n as int, blank),
                out@.len() == i,
                forall|k: int| 0 <= k < i ==> #[trigger] out@[k] == target[k],
            decreases cols - i,
        {
            let source = if i < col {
                self.grid.get(row, i)
            } else if n < cols - i {
                self.grid.get(row, i + n)
            } else {
                blank
            };
            let cut = (i < col && i + 1 == col && source.flags.wide()) || (i == col
                && source.flags.wide_continuation());
            out.push(
                if cut {
                    blank
                } else {
                    source
                },
            );
            assert(out@[i as int] == target[i as int]);
            i = i + 1;
        }
        assert(out@ =~= target);
        proof {
            reveal(rows_paired);
            lemma_deleted_paired(cells, col as int, n as int, blank);
        }
        let span = self.expanded_cell_mutation_span(row, col, cols);
        self.edit_row(row, span, out, false);
    }

    /// Scrolls a region up `count` times.
    pub fn scroll_region_up_by(&mut self, top: usize, bottom: usize, count: usize)
        requires
            old(self).core_wf(),
        ensures
            final(self).core_wf(),
            region_scrolled_up_by(
                *old(self),
                top as int,
                bottom as int,
                count as int,
                *final(self),
            ),
    {
        let mut left: usize = count;
        while left > 0
            invariant
                self.core_wf(),
                forall|post: TerminalState| #[trigger]
                    region_scrolled_up_by(
                        *self,
                        top as int,
                        bottom as int,
                        left as int,
                        post,
                    ) ==> region_scrolled_up_by(
                        *old(self),
                        top as int,
                        bottom as int,
                        count as int,
                        post,
                    ),
            decreases left,
        {
            let ghost before = *self;
            self.scroll_region_up(top, bottom);
            left = left - 1;
            proof {
                assert forall|post: TerminalState| #[trigger]
                    region_scrolled_up_by(
                        *self,
                        top as int,
                        bottom as int,
                        left as int,
                        post,
                    ) implies region_scrolled_up_by(
                    *old(self),
                    top as int,
                    bottom as int,
                    count as int,
                    post,
                ) by {
                    assert(region_scrolled_up(before, top as int, bottom as int, *self));
                    assert(region_scrolled_up_by(
                        before,
                        top as int,
                        bottom as int,
                        left + 1,
                        post,
                    ));
                }
            }
        }
        assert(region_scrolled_up_by(*self, top as int, bottom as int, 0, *self));
    }

    /// Scrolls a region down `count` times.
    pub fn scroll_region_down_by(&mut self, top: usize, bottom: usize, count: usize)
        requires
            old(self).core_wf(),
        ensures
            final(self).core_wf(),
            region_scrolled_down_by(
                *old(self),
                top as int,
                bottom as int,
                count as int,
                *final(self),
            ),
    {
        let mut left: usize = count;
        while left > 0
            invariant
                self.core_wf(),
                forall|post: TerminalState| #[trigger]
                    region_scrolled_down_by(
                        *self,
                        top as int,
                        bottom as int,
                        left as int,
                        post,
                    ) ==> region_scrolled_down_by(
                        *old(self),
                        top as int,
                        bottom as int,
                        count as int,
                        post,
                    ),
            decreases left,
        {
            let ghost before = *self;
            self.scroll_region_down(top, bottom);
            left = left - 1;
            proof {
                assert forall|post: TerminalState| #[trigger]
                    region_scrolled_down_by(
                        *self,
                        top as int,
                        bottom as int,
                        left as int,
                        post,
                    ) implies region_scrolled_down_by(
                    *old(self),
                    top as int,
                    bottom as int,
                    count as int,
                    post,
                ) by {
                    assert(region_scrolled_down(before, top as int, bottom as int, *self));
                    assert(region_scrolled_down_by(
                        before,
                        top as int,
                        bottom as int,
                        left + 1,
                        post,
                    ));
                }
            }
        }
        assert(region_scrolled_down_by(*self, top as int, bottom as int, 0, *self));
    }

    /// Deletes one row of a region.
    fn delete_row(&mut self, top: usize, bottom: usize)
        requires
            old(self).core_wf(),
            top <= bottom < old(self).rows(),
        ensures
            final(self).core_wf(),
            final(self).rows() == old(self).rows(),
            row_deleted(*old(self), top as int, bottom as int, *final(self)),
    {
        let lost = self.grid.row_id(top);
        self.forget_output_provenance_for_raw_row(lost);
        let _ = self.move_rows_up(top, bottom);
    }

    /// Inserts blank rows at the cursor (IL).
    pub fn insert_lines(&mut self, count: usize)
        requires
            old(self).core_wf(),
        ensures
            final(self).core_wf(),
            lines_inserted(*old(self), count as int, *final(self)),
    {
        let top: usize = self.cursor_row;
        let bottom: usize = self.scroll_region_bottom;
        if self.scroll_region_top <= top && top <= bottom {
            let room: usize = bottom - top + 1;
            let n: usize = if count < room {
                count
            } else {
                room
            };
            self.scroll_region_down_by(top, bottom, n);
        }
    }

    /// Deletes rows at the cursor (DL).
    pub fn delete_lines(&mut self, count: usize)
        requires
            old(self).core_wf(),
        ensures
            final(self).core_wf(),
            lines_deleted(*old(self), count as int, *final(self)),
    {
        let top: usize = self.cursor_row;
        let bottom: usize = self.scroll_region_bottom;
        if self.scroll_region_top <= top && top <= bottom {
            let room: usize = bottom - top + 1;
            let n: usize = if count < room {
                count
            } else {
                room
            };
            let mut left: usize = n;
            while left > 0
                invariant
                    self.core_wf(),
                    top <= bottom < self.rows(),
                    forall|post: TerminalState| #[trigger]
                        rows_deleted(*self, top as int, bottom as int, left as int, post)
                            ==> rows_deleted(
                            *old(self),
                            top as int,
                            bottom as int,
                            n as int,
                            post,
                        ),
                decreases left,
            {
                let ghost before = *self;
                self.delete_row(top, bottom);
                left = left - 1;
                proof {
                    assert forall|post: TerminalState| #[trigger]
                        rows_deleted(
                            *self,
                            top as int,
                            bottom as int,
                            left as int,
                            post,
                        ) implies rows_deleted(
                        *old(self),
                        top as int,
                        bottom as int,
                        n as int,
                        post,
                    ) by {
                        assert(row_deleted(before, top as int, bottom as int, *self));
                        assert(rows_deleted(before, top as int, bottom as int, left + 1, post));
                    }
                }
            }
            assert(rows_deleted(*self, top as int, bottom as int, 0, *self));
        }
    }
}

} // verus!
