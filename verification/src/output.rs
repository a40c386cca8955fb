//! Tracking which cells the running command writes.

use vstd::prelude::*;

use crate::cell::TerminalCell;
use crate::grid::Line;
use crate::grid::RawRowId;
use crate::provenance::ActiveOutputProvenance;
use crate::provenance::BufferAnchor;
use crate::provenance::FinishedOutputProvenance;
use crate::provenance::FinishedOutputRange;
use crate::provenance::FinishedOutputRow;
use crate::provenance::OutputProvenance;
use crate::provenance::RawCellBoundary;
use crate::state::saturating_sum;
use crate::state::TerminalState;

verus! {

/// The smaller of two numbers.
pub open spec fn least(a: usize, b: usize) -> usize {
    if a <= b {
        a
    } else {
        b
    }
}

/// The smaller of two numbers.
pub fn min_usize(a: usize, b: usize) -> (m: usize)
    ensures
        m == least(a, b),
{
    if a <= b {
        a
    } else {
        b
    }
}

/// The running output, given up as a contiguous range.
pub open spec fn given_up(active: ActiveOutputProvenance) -> ActiveOutputProvenance {
    ActiveOutputProvenance { invalid: true, ..active }
}

/// The row where the running output reached its end, while it is retained.
pub open spec fn extent_row(state: TerminalState, active: ActiveOutputProvenance) -> Option<int> {
    match active.extent_row_id {
        Some(id) => state.row_of_id(id, active.extent),
        None => None,
    }
}

/// The running output after cells `start_col..end_col` of screen row
/// `grid_row`, which has identity `row_id`, were written.
pub open spec fn active_after_write(
    state: TerminalState,
    active: ActiveOutputProvenance,
    grid_row: int,
    row_id: RawRowId,
    start_col: usize,
    end_col: usize,
) -> ActiveOutputProvenance {
    let line_id = saturating_sum(state.total_lines_scrolled, grid_row);
    let written = BufferAnchor { line_id, column: least(start_col, state.grid.cols) };
    let extent = BufferAnchor { line_id, column: least(end_col, state.grid.cols) };
    match (
        state.row_of_id(row_id, Some(written)),
        state.row_of_id(active.start_row_id, Some(active.start)),
    ) {
        (Some(write_row), Some(start_row)) => {
            if write_row < start_row || (write_row == start_row && active.start_row_id != row_id) {
                given_up(active)
            } else {
                let noted = ActiveOutputProvenance {
                    start: if write_row == start_row && start_col < active.start.column {
                        BufferAnchor { column: start_col, ..active.start }
                    } else {
                        active.start
                    },
                    last_write_end: Some(extent),
                    semantic_end: Some(extent),
                    cursor_moved_since_output: false,
                    ..active
                };
                let reached = ActiveOutputProvenance {
                    extent: Some(extent),
                    extent_row_id: Some(row_id),
                    ..noted
                };
                match active.extent {
                    None => reached,
                    Some(previous) => match extent_row(state, active) {
                        None => given_up(noted),
                        Some(previous_row) => if write_row > previous_row {
                            reached
                        } else if write_row < previous_row {
                            noted
                        } else if active.extent_row_id != Some(row_id) {
                            given_up(noted)
                        } else if extent.column > previous.column {
                            reached
                        } else {
                            noted
                        },
                    },
                }
            }
        },
        _ => given_up(active),
    }
}

/// The running output after a hard line advance off row `departed_id`.
pub open spec fn active_after_advance(
    state: TerminalState,
    active: ActiveOutputProvenance,
    departed_id: RawRowId,
    departed: BufferAnchor,
    next: BufferAnchor,
) -> ActiveOutputProvenance {
    match (
        state.row_of_id(departed_id, Some(departed)),
        state.row_of_id(active.start_row_id, Some(active.start)),
    ) {
        (Some(departed_row), Some(start_row)) => {
            let width = state.document()[departed_row].cells.len() as usize;
            let extent = BufferAnchor { line_id: departed.line_id, column: width };
            let moved = ActiveOutputProvenance {
                semantic_end: Some(next),
                cursor_moved_since_output: false,
                ..active
            };
            let reached = ActiveOutputProvenance {
                extent: Some(extent),
                extent_row_id: Some(departed_id),
                ..moved
            };
            if departed_row < start_row {
                given_up(active)
            } else {
                match active.extent {
                    None => reached,
                    Some(previous) => match extent_row(state, active) {
                        None => given_up(active),
                        Some(previous_row) => if departed_row > previous_row {
                            reached
                        } else if departed_row == previous_row && previous.column < width {
                            if active.extent_row_id != Some(departed_id) {
                                given_up(active)
                            } else {
                                reached
                            }
                        } else {
                            moved
                        },
                    },
                }
            }
        },
        _ => given_up(active),
    }
}

/// `post` is `pre` with another view of the running output.
pub open spec fn only_active_changed(
    pre: TerminalState,
    active: Option<ActiveOutputProvenance>,
    post: TerminalState,
) -> bool {
    &&& post.provenance == OutputProvenance { active, ..pre.provenance }
    &&& post == TerminalState { provenance: post.provenance, ..pre }
}

/// The running output after a write, where one is being tracked on the primary
/// screen.
pub open spec fn noted_write(
    pre: TerminalState,
    grid_row: int,
    row_id: RawRowId,
    start_col: usize,
    end_col: usize,
) -> Option<ActiveOutputProvenance> {
    match pre.provenance.active {
        Some(active) => if pre.use_alt_buffer || active.invalid {
            Some(active)
        } else {
            Some(active_after_write(pre, active, grid_row, row_id, start_col, end_col))
        },
        None => None,
    }
}

/// The running output after a hard line advance, where one is being tracked on
/// the primary screen.
pub open spec fn noted_advance(
    pre: TerminalState,
    departed_id: RawRowId,
    departed: BufferAnchor,
    next: BufferAnchor,
) -> Option<ActiveOutputProvenance> {
    match pre.provenance.active {
        Some(active) => if pre.use_alt_buffer || active.invalid {
            Some(active)
        } else {
            Some(active_after_advance(pre, active, departed_id, departed, next))
        },
        None => None,
    }
}

/// The running output after a cursor movement; a vertical jump gives it up.
pub open spec fn noted_reposition(pre: TerminalState, non_linear: bool) -> Option<
    ActiveOutputProvenance,
> {
    match pre.provenance.active {
        Some(active) => if pre.use_alt_buffer {
            Some(active)
        } else {
            Some(
                ActiveOutputProvenance {
                    cursor_moved_since_output: true,
                    invalid: active.invalid || non_linear,
                    ..active
                },
            )
        },
        None => None,
    }
}

/// The running output after an automatic wrap off row `departed_id`: an output
/// that has written nothing yet begins on the new row.
pub open spec fn noted_wrap(pre: TerminalState, departed_id: RawRowId) -> Option<
    ActiveOutputProvenance,
> {
    match pre.provenance.active {
        Some(active) => if !pre.use_alt_buffer && !active.invalid && active.start_row_id
            == departed_id && active.extent is None && active.last_write_end is None {
            Some(
                ActiveOutputProvenance {
                    start: BufferAnchor {
                        line_id: saturating_sum(pre.total_lines_scrolled, pre.cursor_row as int),
                        column: 0,
                    },
                    start_row_id: pre.grid@[pre.cursor_row as int].id,
                    ..active
                },
            )
        } else {
            Some(active)
        },
        None => None,
    }
}

impl TerminalState {
    /// Row of the end of the running output, while it is retained.
    fn extent_absolute(&self, active: &ActiveOutputProvenance) -> (row: Option<usize>)
        requires
            self.core_wf(),
        ensures
            match (extent_row(*self, *active), row) {
                (Some(expected), Some(found)) => found == expected,
                (None, None) => true,
                _ => false,
            },
    {
        match active.extent_row_id {
            Some(id) => match self.retained_raw_row_absolute(id, active.extent) {
                Some((row, _)) => Some(row),
                None => None,
            },
            None => None,
        }
    }

    /// Notes that cells of a screen row were written.
    pub fn note_output_write(
        &mut self,
        grid_row: usize,
        row_id: RawRowId,
        start_col: usize,
        end_col: usize,
    )
        requires
            old(self).core_wf(),
        ensures
            final(self).core_wf(),
            only_active_changed(
                *old(self),
                noted_write(*old(self), grid_row as int, row_id, start_col, end_col),
                *final(self),
            ),
    {
        if self.use_alt_buffer {
            return;
        }
        let active = match self.provenance.active {
            Some(active) => active,
            None => return,
        };
        if active.invalid {
            return;
        }
        let line_id: u64 = self.total_lines_scrolled.saturating_add(grid_row as u64);
        let cols: usize = self.grid.row_len();
        let written = BufferAnchor { line_id, column: min_usize(start_col, cols) };
        let extent = BufferAnchor { line_id, column: min_usize(end_col, cols) };
        let given = ActiveOutputProvenance { invalid: true, ..active };
        let write_row = match self.retained_raw_row_absolute(row_id, Some(written)) {
            Some((row, _)) => row,
            None => {
                self.provenance.active = Some(given);
                return;
            },
        };
        let start_row = match self.retained_raw_row_absolute(
            active.start_row_id,
            Some(active.start),
        ) {
            Some((row, _)) => row,
            None => {
                self.provenance.active = Some(given);
                return;
            },
        };
        if write_row < start_row || (write_row == start_row && active.start_row_id != row_id) {
            self.provenance.active = Some(given);
            return;
        }
        let previous_row = self.extent_absolute(&active);
        let start = if write_row == start_row && start_col < active.start.column {
            BufferAnchor { column: start_col, ..active.start }
        } else {
            active.start
        };
        let noted = ActiveOutputProvenance {
            start,
            last_write_end: Some(extent),
            semantic_end: Some(extent),
            cursor_moved_since_output: false,
            ..active
        };
        let reached = ActiveOutputProvenance {
            extent: Some(extent),
            extent_row_id: Some(row_id),
            ..noted
        };
        let next = match (active.extent, previous_row) {
            (None, _) => reached,
            (Some(_), None) => ActiveOutputProvenance { invalid: true, ..noted },
            (Some(previous), Some(previous_row)) => {
                if write_row > previous_row {
                    reached
                } else if write_row < previous_row {
                    noted
                } else if active.extent_row_id != Some(row_id) {
                    ActiveOutputProvenance { invalid: true, ..noted }
                } else if extent.column > previous.column {
                    reached
                } else {
                    noted
                }
            },
        };
        self.provenance.active = Some(next);
    }

    /// Notes a line feed or index off a row.
    pub fn note_output_hard_line_advance(
        &mut self,
        departed_row_id: RawRowId,
        departed_boundary: BufferAnchor,
        next_boundary: BufferAnchor,
    )
        requires
            old(self).core_wf(),
        ensures
            final(self).core_wf(),
            only_active_changed(
                *old(self),
                noted_advance(*old(self), departed_row_id, departed_boundary, next_boundary),
                *final(self),
            ),
    {
        if self.use_alt_buffer {
            return;
        }
        let active = match self.provenance.active {
            Some(active) => active,
            None => return,
        };
        if active.invalid {
            return;
        }
        let given = ActiveOutputProvenance { invalid: true, ..active };
        let (departed_row, width) = match self.retained_raw_row_absolute(
            departed_row_id,
            Some(departed_boundary),
        ) {
            Some(found) => found,
            None => {
                self.provenance.active = Some(given);
                return;
            },
        };
        let start_row = match self.retained_raw_row_absolute(
            active.start_row_id,
            Some(active.start),
        ) {
            Some((row, _)) => row,
            None => {
                self.provenance.active = Some(given);
                return;
            },
        };
        if departed_row < start_row {
            self.provenance.active = Some(given);
            return;
        }
        let extent = BufferAnchor { line_id: departed_boundary.line_id, column: width };
        let previous_row = self.extent_absolute(&active);
        let moved = ActiveOutputProvenance {
            semantic_end: Some(next_boundary),
            cursor_moved_since_output: false,
            ..active
        };
        let reached = ActiveOutputProvenance {
            extent: Some(extent),
            extent_row_id: Some(departed_row_id),
            ..moved
        };
        let next = match (active.extent, previous_row) {
            (None, _) => reached,
            (Some(_), None) => given,
            (Some(previous), Some(previous_row)) => {
                if departed_row > previous_row {
                    reached
                } else if departed_row == previous_row && previous.column < width {
                    if active.extent_row_id != Some(departed_row_id) {
                        given
                    } else {
                        reached
                    }
                } else {
                    moved
                }
            },
        };
        self.provenance.active = Some(next);
    }

    /// Notes a cursor movement without output.
    pub fn note_output_cursor_reposition(&mut self, non_linear: bool)
        requires
            old(self).core_wf(),
        ensures
            final(self).core_wf(),
            only_active_changed(*old(self), noted_reposition(*old(self), non_linear), *final(self)),
    {
        if self.use_alt_buffer {
            return;
        }
        if let Some(active) = self.provenance.active {
            self.provenance.active = Some(
                ActiveOutputProvenance {
                    cursor_moved_since_output: true,
                    invalid: active.invalid || non_linear,
                    ..active
                },
            );
        }
    }

    /// Notes an automatic wrap off a row.
    pub fn rebase_active_output_start_after_initial_wrap(&mut self, departed_row_id: RawRowId)
        requires
            old(self).core_wf(),
        ensures
            final(self).core_wf(),
            only_active_changed(*old(self), noted_wrap(*old(self), departed_row_id), *final(self)),
    {
        if self.use_alt_buffer {
            return;
        }
        if let Some(active) = self.provenance.active {
            if !active.invalid && active.start_row_id == departed_row_id
                && active.extent.is_none() && active.last_write_end.is_none() {
                let start = BufferAnchor {
                    line_id: self.total_lines_scrolled.saturating_add(self.cursor_row as u64),
                    column: 0,
                };
                let start_row_id = self.grid.row_id(self.cursor_row);
                self.provenance.active = Some(
                    ActiveOutputProvenance { start, start_row_id, ..active },
                );
            }
        }
    }
}

/// The first column of an output that starts at `col`: a double-width
/// character belongs to it as a whole.
pub open spec fn aligned_start(cells: Seq<TerminalCell>, col: int) -> int {
    if col >= cells.len() {
        cells.len() as int
    } else if col > 0 && cells[col].flags.spec_continuation() {
        col - 1
    } else {
        col
    }
}

/// The end column of an output that ends at `col`: a double-width character
/// belongs to it as a whole.
pub open spec fn aligned_end(cells: Seq<TerminalCell>, col: int) -> int {
    if col >= cells.len() {
        cells.len() as int
    } else if cells[col].flags.spec_continuation() {
        col + 1
    } else {
        col
    }
}

/// The rows that an output between two cell boundaries covers.
pub open spec fn covered_rows(
    lines: Seq<Line>,
    start: (int, int),
    end: (int, int),
) -> Seq<FinishedOutputRow> {
    Seq::new(
        (end.0 - start.0 + 1) as nat,
        |k: int|
            FinishedOutputRow {
                row_id: lines[start.0 + k].id,
                start_col: if k == 0 {
                    start.1 as usize
                } else {
                    0
                },
                end_col: if start.0 + k == end.0 {
                    end.1 as usize
                } else {
                    lines[start.0 + k].cells.len() as usize
                },
            },
    )
}

/// Whether a covered row can be owned: it is tracked and not empty.
pub open spec fn ownable(row: FinishedOutputRow) -> bool {
    row.row_id.spec_is_tracked() && row.start_col < row.end_col
}

/// The cell boundaries that an output from `start` to `end` is bound to.
pub open spec fn bound_cells(lines: Seq<Line>, start: (int, int), end: (int, int)) -> (
    (int, int),
    (int, int),
) {
    (
        (start.0, aligned_start(lines[start.0].cells, start.1)),
        (end.0, aligned_end(lines[end.0].cells, end.1)),
    )
}

/// Whether an output from `start` to `end` can be bound to its cells: every
/// row is retained and ownable.
pub open spec fn bindable(lines: Seq<Line>, start: (int, int), end: (int, int)) -> bool {
    let (from, to) = bound_cells(lines, start, end);
    let rows = covered_rows(lines, from, to);
    &&& 0 <= start.0 <= end.0 < lines.len()
    &&& forall|k: int| 0 <= k < rows.len() ==> ownable(#[trigger] rows[k])
}

/// `provenance` binds the output of `zone_id` to the cells from `start` to
/// `end`.
pub open spec fn binds(
    state: TerminalState,
    zone_id: u64,
    start: (int, int),
    end: (int, int),
    provenance: FinishedOutputProvenance,
) -> bool {
    let lines = state.document();
    let (from, to) = bound_cells(lines, start, end);
    &&& provenance.range == FinishedOutputRange {
        zone_id,
        start: RawCellBoundary { row: lines[start.0].id, col: from.1 as usize },
        end: RawCellBoundary { row: lines[end.0].id, col: to.1 as usize },
    }
    &&& provenance.start_line_id == state.line_of_absolute(start.0)
    &&& provenance.rows@ == covered_rows(lines, from, to)
}

/// The cells that the running output of `zone_id` has reached, where they are
/// known exactly.
pub open spec fn closing_range(state: TerminalState, zone_id: u64) -> Option<
    ((int, int), (int, int)),
> {
    match state.provenance.active {
        Some(active) => {
            let first = state.row_of_id(active.start_row_id, Some(active.start));
            let last = extent_row(state, active);
            if active.zone_id == zone_id && !active.invalid && !active.cursor_moved_since_output
                && active.extent is Some && first is Some && last is Some && first->0 <= last->0 {
                Some(
                    (
                        (first->0, active.start.column as int),
                        (last->0, active.extent->0.column as int),
                    ),
                )
            } else {
                None
            }
        },
        None => None,
    }
}

/// The later of two positions.
pub open spec fn later(a: BufferAnchor, b: BufferAnchor) -> BufferAnchor {
    if a.precedes_or_is(b) {
        b
    } else {
        a
    }
}

/// Where an output ends for text extraction: at its last cell, or later where
/// a line advance followed.
pub open spec fn semantic_output_end(
    state: TerminalState,
    semantic_end: Option<BufferAnchor>,
    output_start: BufferAnchor,
    cell_end: BufferAnchor,
) -> BufferAnchor {
    match semantic_end {
        Some(end) => if output_start.precedes_or_is(end) && state.absolute_of_line(
            end.line_id,
        ) is Some {
            later(end, cell_end)
        } else {
            cell_end
        },
        None => cell_end,
    }
}

/// `result` is what closing the running output of `zone_id` yields: its
/// binding, where it starts and where it ends.
pub open spec fn closed_output(
    state: TerminalState,
    zone_id: u64,
    result: Option<(FinishedOutputProvenance, BufferAnchor, BufferAnchor)>,
) -> bool {
    match closing_range(state, zone_id) {
        Some((start, end)) => if bindable(state.document(), start, end) {
            let (from, to) = bound_cells(state.document(), start, end);
            let output_start = BufferAnchor {
                line_id: state.line_of_absolute(start.0),
                column: from.1 as usize,
            };
            let cell_end = BufferAnchor {
                line_id: state.line_of_absolute(end.0),
                column: to.1 as usize,
            };
            match result {
                Some((provenance, first, last)) => {
                    &&& binds(state, zone_id, start, end, provenance)
                    &&& first == output_start
                    &&& last == semantic_output_end(
                        state,
                        state.provenance.active->0.semantic_end,
                        output_start,
                        cell_end,
                    )
                },
                None => false,
            }
        } else {
            result is None
        },
        None => result is None,
    }
}

impl TerminalState {
    /// Binds the output of `zone_id` to its cells, where every row of it can
    /// be owned.
    pub fn bind_finished_output_provenance(
        &self,
        zone_id: u64,
        start_row: usize,
        start_col: usize,
        end_row: usize,
        end_col: usize,
    ) -> (result: Option<FinishedOutputProvenance>)
        requires
            self.core_wf(),
        ensures
            match result {
                Some(provenance) => bindable(
                    self.document(),
                    (start_row as int, start_col as int),
                    (end_row as int, end_col as int),
                ) && binds(
                    *self,
                    zone_id,
                    (start_row as int, start_col as int),
                    (end_row as int, end_col as int),
                    provenance,
                ),
                None => !bindable(
                    self.document(),
                    (start_row as int, start_col as int),
                    (end_row as int, end_col as int),
                ),
            },
    {
        if start_row > end_row {
            return None;
        }
        let (start_id, start_width) = match self.retained_raw_row(start_row) {
            Some(found) => found,
            None => return None,
        };
        let (end_id, end_width) = match self.retained_raw_row(end_row) {
            Some(found) => found,
            None => return None,
        };
        let ghost lines = self.document();
        let mut from: usize = min_usize(start_col, start_width);
        if from > 0 && from < start_width {
            if let Some(continuation) = self.retained_cell_is_wide_continuation(start_row, from) {
                if continuation {
                    from = from - 1;
                }
            }
        }
        let mut to: usize = min_usize(end_col, end_width);
        if to < end_width {
            if let Some(continuation) = self.retained_cell_is_wide_continuation(end_row, to) {
                if continuation {
                    to = to + 1;
                }
            }
        }
        let ghost start = (start_row as int, from as int);
        let ghost end = (end_row as int, to as int);
        let ghost expected = covered_rows(lines, start, end);
        assert((start, end) == bound_cells(
            lines,
            (start_row as int, start_col as int),
            (end_row as int, end_col as int),
        ));
        let mut rows: Vec<FinishedOutputRow> = Vec::new();
        let mut row: usize = start_row;
        while row <= end_row
            invariant
                self.core_wf(),
                lines == self.document(),
                start_row <= row <= end_row + 1,
                end_row < lines.len(),
                start == (start_row as int, from as int),
                end == (end_row as int, to as int),
                expected == covered_rows(lines, start, end),
                rows@ == expected.take(row - start_row),
                forall|k: int| 0 <= k < row - start_row ==> ownable(#[trigger] expected[k]),
                (start, end) == bound_cells(
                    lines,
                    (start_row as int, start_col as int),
                    (end_row as int, end_col as int),
                ),
            decreases end_row + 1 - row,
        {
            if let Some((row_id, width)) = self.retained_raw_row(row) {
                let piece = FinishedOutputRow {
                    row_id,
                    start_col: if row == start_row {
                        from
                    } else {
                        0
                    },
                    end_col: if row == end_row {
                        to
                    } else {
                        width
                    },
                };
                assert(piece == expected[row - start_row]);
                if !row_id.is_tracked() || piece.start_col >= piece.end_col {
                    proof {
                        let k = row - start_row;
                        assert(!ownable(expected[k]));
                        let (a, b) = bound_cells(
                            lines,
                            (start_row as int, start_col as int),
                            (end_row as int, end_col as int),
                        );
                        assert(covered_rows(lines, a, b) == expected);
                        assert(!ownable(covered_rows(lines, a, b)[k]));
                        assert(0 <= k < expected.len());
                    }
                    return None;
                }
                rows.push(piece);
                assert(rows@ =~= expected.take(row + 1 - start_row));
            }
            row = row + 1;
        }
        assert(expected.take(row - start_row) =~= expected);
        let start_line_id = match self.absolute_to_buffer_anchor((start_row, 0)) {
            Some(anchor) => anchor.line_id,
            None => 0,
        };
        Some(
            FinishedOutputProvenance {
                range: FinishedOutputRange {
                    zone_id,
                    start: RawCellBoundary { row: start_id, col: from },
                    end: RawCellBoundary { row: end_id, col: to },
                },
                start_line_id,
                rows,
            },
        )
    }

    /// Closes the running output and binds it to its cells, where they are
    /// known exactly.
    pub fn finish_active_output_provenance(&mut self, zone_id: u64) -> (result: Option<
        (FinishedOutputProvenance, BufferAnchor, BufferAnchor),
    >)
        requires
            old(self).core_wf(),
        ensures
            final(self).core_wf(),
            only_active_changed(*old(self), None, *final(self)),
            closed_output(*old(self), zone_id, result),
    {
        let active = match self.provenance.active {
            Some(active) => active,
            None => return None,
        };
        self.provenance.active = None;
        if active.zone_id != zone_id || active.invalid || active.cursor_moved_since_output {
            return None;
        }
        let (start_row, _) = match self.retained_raw_row_absolute(
            active.start_row_id,
            Some(active.start),
        ) {
            Some(found) => found,
            None => return None,
        };
        let (extent, extent_row_id) = match (active.extent, active.extent_row_id) {
            (Some(extent), Some(id)) => (extent, id),
            _ => return None,
        };
        let (last_row, _) = match self.retained_raw_row_absolute(extent_row_id, Some(extent)) {
            Some(found) => found,
            None => return None,
        };
        if start_row > last_row {
            return None;
        }
        let provenance = match self.bind_finished_output_provenance(
            zone_id,
            start_row,
            active.start.column,
            last_row,
            extent.column,
        ) {
            Some(provenance) => provenance,
            None => return None,
        };
        let output_start = match self.absolute_to_buffer_anchor(
            (start_row, provenance.range.start.col),
        ) {
            Some(anchor) => anchor,
            None => return None,
        };
        let cell_end = match self.absolute_to_buffer_anchor((last_row, provenance.range.end.col)) {
            Some(anchor) => anchor,
            None => return None,
        };
        let output_end = match active.semantic_end {
            Some(end) => {
                let retained = match self.buffer_anchor_to_absolute(end) {
                    Some(_) => true,
                    None => false,
                };
                if output_start.le(&end) && retained {
                    if end.le(&cell_end) {
                        cell_end
                    } else {
                        end
                    }
                } else {
                    cell_end
                }
            },
            None => cell_end,
        };
        Some((provenance, output_start, output_end))
    }
}

} // verus!
