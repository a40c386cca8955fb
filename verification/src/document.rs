//! Absolute rows, stable line numbers and row identities.

use vstd::prelude::*;

use crate::cell::TerminalCell;
use crate::grid::copy_cells;
use crate::grid::Line;
use crate::grid::RawRowId;
use crate::provenance::BufferAnchor;
use crate::state::saturating_sum;
use crate::state::TerminalState;

verus! {

/// One cell of one physical row.
#[derive(Clone, Copy, Debug, PartialEq, Eq, Structural)]
pub struct RawCellAnchor {
    pub row_id: RawRowId,
    pub column: usize,
}

/// The first of `lines` with identity `id`.
pub open spec fn first_with_id(lines: Seq<Line>, id: RawRowId) -> Option<int>
    decreases lines.len(),
{
    if lines.len() == 0 {
        None
    } else if first_with_id(lines.drop_last(), id) is Some {
        first_with_id(lines.drop_last(), id)
    } else if lines.last().id == id {
        Some(lines.len() - 1)
    } else {
        None
    }
}

impl TerminalState {
    /// Stable number of the oldest retained row.
    pub open spec fn first_line_id(self) -> int {
        self.total_lines_scrolled - self.scrollback@.len()
    }

    /// Absolute row of a stable line number, while the row is retained.
    pub open spec fn absolute_of_line(self, line_id: u64) -> Option<int> {
        let row = line_id - self.first_line_id();
        if 0 <= row < self.document().len() {
            Some(row)
        } else {
            None
        }
    }

    /// Stable line number of a retained absolute row.
    pub open spec fn line_of_absolute(self, row: int) -> u64 {
        saturating_sum(self.first_line_id() as u64, row)
    }

    /// Where the logical cursor stands: behind the last column while a wrap is
    /// pending.
    pub open spec fn cursor_anchor(self) -> BufferAnchor {
        BufferAnchor {
            line_id: saturating_sum(self.total_lines_scrolled, self.cursor_row as int),
            column: if self.pending_wrap {
                self.grid.cols
            } else {
                self.cursor_col
            },
        }
    }

    /// The retained row of an identity: at its expected place, or else on the
    /// screen.
    pub open spec fn row_of_id(self, id: RawRowId, expected: Option<BufferAnchor>) -> Option<int> {
        if !id.spec_is_tracked() {
            None
        } else if expected is Some && self.absolute_of_line(expected->0.line_id) is Some
            && self.document()[self.absolute_of_line(expected->0.line_id)->0].id == id {
            self.absolute_of_line(expected->0.line_id)
        } else {
            match first_with_id(self.grid@, id) {
                Some(r) => Some(self.scrollback@.len() + r),
                None => None,
            }
        }
    }

    /// Resolves a stable position into the retained rows.
    pub fn buffer_anchor_to_absolute(&self, anchor: BufferAnchor) -> (absolute: Option<
        (usize, usize),
    >)
        requires
            self.core_wf(),
        ensures
            match (self.absolute_of_line(anchor.line_id), absolute) {
                (Some(row), Some((found, column))) => found == row && column == anchor.column,
                (None, None) => true,
                _ => false,
            },
    {
        let retained: u64 = self.scrollback.len() as u64;
        let first: u64 = self.total_lines_scrolled - retained;
        if anchor.line_id < first {
            return None;
        }
        let row: u64 = anchor.line_id - first;
        if row >= retained && row - retained >= self.grid.rows() as u64 {
            return None;
        }
        Some((row as usize, anchor.column))
    }

    /// The stable position of a retained cell boundary.
    pub fn absolute_to_buffer_anchor(&self, absolute: (usize, usize)) -> (anchor: Option<
        BufferAnchor,
    >)
        requires
            self.core_wf(),
        ensures
            anchor == if absolute.0 < self.document().len() {
                Some(
                    BufferAnchor {
                        line_id: self.line_of_absolute(absolute.0 as int),
                        column: absolute.1,
                    },
                )
            } else {
                None
            },
    {
        let row = absolute.0;
        let retained: usize = self.scrollback.len();
        if row >= retained && row - retained >= self.grid.rows() {
            return None;
        }
        let first: u64 = self.total_lines_scrolled - retained as u64;
        Some(BufferAnchor { line_id: first.saturating_add(row as u64), column: absolute.1 })
    }

    /// Identity and width of a retained row.
    pub fn retained_raw_row(&self, absolute_row: usize) -> (row: Option<(RawRowId, usize)>)
        requires
            self.core_wf(),
        ensures
            match row {
                Some((id, width)) => absolute_row < self.document().len() && id
                    == self.document()[absolute_row as int].id && width
                    == self.document()[absolute_row as int].cells.len(),
                None => absolute_row >= self.document().len(),
            },
    {
        let retained: usize = self.scrollback.len();
        if absolute_row < retained {
            let line = &self.scrollback[absolute_row];
            assert(self.document()[absolute_row as int] == line@);
            return Some((line.raw_row_id(), line.columns()));
        }
        let grid_row: usize = absolute_row - retained;
        if grid_row < self.grid.rows() {
            assert(self.document()[absolute_row as int] == self.grid@[grid_row as int]);
            Some((self.grid.row_id(grid_row), self.grid.row_len()))
        } else {
            None
        }
    }

    /// Identity of a retained row.
    pub fn raw_row_id_at_absolute(&self, absolute_row: usize) -> (id: Option<RawRowId>)
        requires
            self.core_wf(),
        ensures
            id == if absolute_row < self.document().len() {
                Some(self.document()[absolute_row as int].id)
            } else {
                None
            },
    {
        match self.retained_raw_row(absolute_row) {
            Some((id, _)) => Some(id),
            None => None,
        }
    }

    /// Finds a retained row by identity: at its expected place, or else on the
    /// screen.
    pub fn retained_raw_row_absolute(&self, row_id: RawRowId, expected: Option<BufferAnchor>) -> (
    found: Option<(usize, usize)>)
        requires
            self.core_wf(),
        ensures
            match (self.row_of_id(row_id, expected), found) {
                (Some(row), Some((absolute, width))) => absolute == row && width
                    == self.document()[row].cells.len() && 0 <= row < self.document().len(),
                (None, None) => true,
                _ => false,
            },
    {
        if !row_id.is_tracked() {
            return None;
        }
        if let Some(anchor) = expected {
            if let Some((absolute, _)) = self.buffer_anchor_to_absolute(anchor) {
                if let Some((candidate, width)) = self.retained_raw_row(absolute) {
                    if candidate == row_id {
                        return Some((absolute, width));
                    }
                }
            }
        }
        let mut row: usize = 0;
        let ghost lines = self.grid@;
        while row < self.grid.rows()
            invariant
                self.core_wf(),
                lines == self.grid@,
                row <= lines.len(),
                row_id.spec_is_tracked(),
                expected is Some && self.absolute_of_line(expected->0.line_id) is Some
                    ==> self.document()[self.absolute_of_line(expected->0.line_id)->0].id != row_id,
                first_with_id(lines.take(row as int), row_id) is None,
            decreases lines.len() - row,
        {
            proof {
                assert(lines.take(row + 1).drop_last() =~= lines.take(row as int));
            }
            if self.grid.row_id(row) == row_id {
                proof {
                    lemma_first_with_id_extends(lines, row + 1, row_id);
                    let absolute = self.scrollback@.len() + row;
                    assert(self.document()[absolute] == lines[row as int]);
                }
                return Some((self.scrollback.len() + row, self.grid.row_len()));
            }
            row = row + 1;
        }
        assert(lines.take(row as int) =~= lines);
        None
    }

    /// Whether a retained cell is the right half of a double-width character.
    pub fn retained_cell_is_wide_continuation(&self, absolute_row: usize, col: usize) -> (
    continuation: Option<bool>)
        requires
            self.core_wf(),
        ensures
            continuation == if absolute_row < self.document().len() && col
                < self.document()[absolute_row as int].cells.len() {
                Some(
                    self.document()[absolute_row as int].cells[col as int].flags.spec_continuation(),
                )
            } else {
                None
            },
    {
        let retained: usize = self.scrollback.len();
        if absolute_row < retained {
            let line = &self.scrollback[absolute_row];
            assert(self.document()[absolute_row as int] == line@);
            if col < line.cells.len() {
                return Some(line.cells[col].flags.wide_continuation());
            }
            return None;
        }
        let grid_row: usize = absolute_row - retained;
        if grid_row < self.grid.rows() {
            assert(self.document()[absolute_row as int] == self.grid@[grid_row as int]);
            if col < self.grid.row_len() {
                return Some(self.grid.get(grid_row, col).flags.wide_continuation());
            }
        }
        None
    }

    /// The cells of a retained row.
    pub fn absolute_row_cells(&self, absolute_row: usize) -> (cells: Option<Vec<TerminalCell>>)
        requires
            self.core_wf(),
        ensures
            match cells {
                Some(cells) => absolute_row < self.document().len() && cells@
                    == self.document()[absolute_row as int].cells,
                None => absolute_row >= self.document().len(),
            },
    {
        let retained: usize = self.scrollback.len();
        if absolute_row < retained {
            let line = &self.scrollback[absolute_row];
            assert(self.document()[absolute_row as int] == line@);
            return Some(line.decompress());
        }
        let grid_row: usize = absolute_row - retained;
        if grid_row < self.grid.rows() {
            assert(self.document()[absolute_row as int] == self.grid@[grid_row as int]);
            Some(copy_cells(&self.grid.rows[grid_row].cells))
        } else {
            None
        }
    }

    /// Whether a retained row continues on the next one.
    pub fn absolute_row_is_wrapped(&self, absolute_row: usize) -> (wrapped: Option<bool>)
        requires
            self.core_wf(),
        ensures
            wrapped == if absolute_row < self.document().len() {
                Some(self.document()[absolute_row as int].wrapped)
            } else {
                None
            },
    {
        let retained: usize = self.scrollback.len();
        if absolute_row < retained {
            let line = &self.scrollback[absolute_row];
            assert(self.document()[absolute_row as int] == line@);
            return Some(line.is_wrapped);
        }
        let grid_row: usize = absolute_row - retained;
        if grid_row < self.grid.rows() {
            assert(self.document()[absolute_row as int] == self.grid@[grid_row as int]);
            Some(self.grid.row_wrapped(grid_row))
        } else {
            None
        }
    }

    /// Where the logical cursor stands.
    pub fn current_buffer_anchor(&self) -> (anchor: BufferAnchor)
        ensures
            anchor == self.cursor_anchor(),
    {
        let column: usize = if self.pending_wrap {
            self.grid.row_len()
        } else {
            self.cursor_col
        };
        BufferAnchor {
            line_id: self.total_lines_scrolled.saturating_add(self.cursor_row as u64),
            column,
        }
    }
}

/// Once found, the first row with an identity stays the first as more rows are
/// considered.
proof fn lemma_first_with_id_extends(lines: Seq<Line>, n: int, id: RawRowId)
    requires
        0 <= n <= lines.len(),
        first_with_id(lines.take(n), id) is Some,
    ensures
        first_with_id(lines, id) == first_with_id(lines.take(n), id),
    decreases lines.len() - n,
{
    if n == lines.len() {
        assert(lines.take(n) =~= lines);
    } else {
        assert(lines.take(n + 1).drop_last() =~= lines.take(n));
        lemma_first_with_id_extends(lines, n + 1, id);
    }
}

/// What a search by identity finds.
pub proof fn lemma_first_with_id(lines: Seq<Line>, id: RawRowId)
    ensures
        match first_with_id(lines, id) {
            Some(r) => 0 <= r < lines.len() && lines[r].id == id && (forall|k: int|
                0 <= k < r ==> (#[trigger] lines[k]).id != id),
            None => forall|k: int| 0 <= k < lines.len() ==> (#[trigger] lines[k]).id != id,
        },
    decreases lines.len(),
{
    if lines.len() > 0 {
        let head = lines.drop_last();
        lemma_first_with_id(head, id);
        assert(forall|k: int| 0 <= k < head.len() ==> #[trigger] lines[k] == head[k]);
    }
}

/// Resolving the stable position of a retained row gives that row back, as
/// long as line numbers have not run into the end of `u64`.
pub proof fn anchors_round_trip(state: TerminalState, row: int)
    requires
        state.core_wf(),
        0 <= row < state.document().len(),
        state.total_lines_scrolled + state.rows() <= u64::MAX,
    ensures
        state.absolute_of_line(state.line_of_absolute(row)) == Some(row),
{
}

} // verus!
