//! Full-document plans: which cells of which rows a projected document shows,
//! row by row, without the cells themselves.

use std::sync::Arc;
use vstd::prelude::*;

use crate::grid::Line;
use crate::grid::RawRowId;
use crate::history::content_len;
use crate::projection::PlanKeyModel;
use crate::projection::ProjectedRowKind;
use crate::projection::ProjectionPlanKey;
use crate::provenance::FinishedOutputRange;
use crate::state::saturating_sum;
use crate::view::logical_end;

verus! {

/// Consecutive cells of one physical row in consecutive columns of a document
/// row.
#[derive(Clone, Copy, Debug, PartialEq, Eq, Structural)]
pub struct RawSlice {
    /// Stable line number of the physical row.
    pub line: u64,
    /// Identity of the physical row.
    pub row: RawRowId,
    /// First cell of the physical row.
    pub column: usize,
    /// First column of the document row.
    pub view_column: usize,
    pub len: usize,
    /// A double-width character squeezed into one column.
    pub narrow: bool,
}

/// The physical row that a document row shows or continues.
#[derive(Clone, Copy, Debug, PartialEq, Eq, Structural)]
pub struct RowSource {
    pub row: RawRowId,
    pub line: u64,
}

/// One row of a projected document.
pub struct PlanRow {
    pub slices: Vec<RawSlice>,
    pub wrapped: bool,
    pub kind: ProjectedRowKind,
    pub source: Option<RowSource>,
}

/// A folded output with the lines that it begins and ends on.
#[derive(Clone, Copy, Debug, PartialEq, Eq, Structural)]
pub struct ResolvedCollapse {
    pub range: FinishedOutputRange,
    pub start_line: u64,
    pub end_line: u64,
}

/// A projected document.
pub struct ProjectionPlan {
    pub cols: usize,
    pub rows: Vec<Arc<PlanRow>>,
    /// Stable number of the oldest line.
    pub first_line: u64,
    /// Identities of the history rows that the document covers.
    pub history_ids: Vec<RawRowId>,
    /// Which of them continue on the next row.
    pub history_wraps: Vec<bool>,
    /// What was to be folded.
    pub collapses: Vec<ResolvedCollapse>,
    /// The outputs that are folded.
    pub effective_collapsed: Vec<u64>,
    /// Number of the plan; zero where it folds nothing.
    pub plan_revision: u64,
    /// What the plan that this one was advanced from depended on.
    pub incremental_from: Option<Arc<ProjectionPlanKey>>,
    /// How many rows the advance appended.
    pub incremental_appended_rows: usize,
}

/// [`ProjectionPlan`] as a value.
pub struct PlanModel {
    pub cols: usize,
    pub rows: Seq<PlanRowModel>,
    pub first_line: u64,
    pub history_ids: Seq<RawRowId>,
    pub history_wraps: Seq<bool>,
    pub collapses: Seq<ResolvedCollapse>,
    pub effective_collapsed: Seq<u64>,
    pub plan_revision: u64,
    pub incremental_from: Option<PlanKeyModel>,
    pub incremental_appended_rows: usize,
}

impl View for ProjectionPlan {
    type V = PlanModel;

    open spec fn view(&self) -> PlanModel {
        PlanModel {
            cols: self.cols,
            rows: row_models(self.rows@, self.cols as int),
            first_line: self.first_line,
            history_ids: self.history_ids@,
            history_wraps: self.history_wraps@,
            collapses: self.collapses@,
            effective_collapsed: self.effective_collapsed@,
            plan_revision: self.plan_revision,
            incremental_from: match self.incremental_from {
                Some(key) => Some(key@),
                None => None,
            },
            incremental_appended_rows: self.incremental_appended_rows,
        }
    }
}

/// One cell of a physical row, as a document shows it.
#[derive(Clone, Copy, Debug, PartialEq, Eq, Structural)]
pub struct SourceCell {
    pub line: u64,
    pub row: RawRowId,
    pub column: usize,
    pub narrow: bool,
}

/// A document row as a value: the cell that each column shows, if any.
pub struct PlanRowModel {
    pub cells: Seq<Option<SourceCell>>,
    pub wrapped: bool,
    pub kind: ProjectedRowKind,
    pub source: Option<RowSource>,
}

/// The sum, or the largest `usize`.
pub open spec fn capped_sum(a: usize, b: int) -> usize {
    if a + b > usize::MAX {
        usize::MAX
    } else {
        (a + b) as usize
    }
}

impl RawSlice {
    /// Whether the slice reaches column `column` of the document row.
    pub open spec fn covers(self, column: int) -> bool {
        self.view_column <= column < self.view_column + self.len
    }

    /// What the slice shows in column `column` of the document row.
    pub open spec fn cell(self, column: int) -> SourceCell {
        SourceCell {
            line: self.line,
            row: self.row,
            column: capped_sum(self.column, column - self.view_column),
            narrow: self.narrow,
        }
    }
}

/// What a row of `slices` shows in column `column`; later slices cover earlier
/// ones.
pub open spec fn shown(slices: Seq<RawSlice>, column: int) -> Option<SourceCell>
    decreases slices.len(),
{
    if slices.len() == 0 {
        None
    } else if slices.last().covers(column) {
        Some(slices.last().cell(column))
    } else {
        shown(slices.drop_last(), column)
    }
}

/// The cells that a row of `slices` shows in its first `cols` columns.
pub open spec fn shown_cells(slices: Seq<RawSlice>, cols: int) -> Seq<Option<SourceCell>> {
    Seq::new(cols as nat, |j: int| shown(slices, j))
}

impl PlanRow {
    /// The row as a value.
    pub open spec fn model(self, cols: int) -> PlanRowModel {
        PlanRowModel {
            cells: shown_cells(self.slices@, cols),
            wrapped: self.wrapped,
            kind: self.kind,
            source: self.source,
        }
    }
}

/// Document rows as values.
pub open spec fn row_models(rows: Seq<Arc<PlanRow>>, cols: int) -> Seq<PlanRowModel> {
    Seq::new(rows.len(), |i: int| rows[i].model(cols))
}

/// What a row of `slices` shows in column `column`.
pub fn cell_shown(slices: &Vec<RawSlice>, column: usize) -> (cell: Option<SourceCell>)
    ensures
        cell == shown(slices@, column as int),
{
    let mut i: usize = slices.len();
    assert(slices@.take(i as int) =~= slices@);
    while i > 0
        invariant
            i <= slices@.len(),
            shown(slices@, column as int) == shown(slices@.take(i as int), column as int),
        decreases i,
    {
        i = i - 1;
        let slice = slices[i];
        assert(slices@.take(i + 1).last() == slice);
        assert(slices@.take(i + 1).drop_last() =~= slices@.take(i as int));
        if slice.view_column <= column && column - slice.view_column < slice.len {
            return Some(
                SourceCell {
                    line: slice.line,
                    row: slice.row,
                    column: slice.column.saturating_add(column - slice.view_column),
                    narrow: slice.narrow,
                },
            );
        }
    }
    assert(slices@.take(0).len() == 0);
    None
}

/// Shows `cell` in column `view_column` of a row that shows nothing from there
/// on.
pub fn show_cell(slices: &mut Vec<RawSlice>, cell: SourceCell, view_column: usize)
    ensures
        forall|j: int| #[trigger]
            shown(final(slices)@, j) == if j == view_column {
                Some(cell)
            } else {
                shown(old(slices)@, j)
            },
{
    let ghost before = slices@;
    let count: usize = slices.len();
    if count > 0 {
        let last = slices[count - 1];
        let continues = last.line == cell.line && last.row == cell.row && !last.narrow
            && !cell.narrow && last.len < usize::MAX && match (
            last.column.checked_add(last.len),
            last.view_column.checked_add(last.len),
        ) {
            (Some(column), Some(view)) => column == cell.column && view == view_column,
            _ => false,
        };
        if continues {
            slices.pop();
            let ghost head = slices@;
            assert(head =~= before.drop_last());
            let longer = RawSlice { len: last.len + 1, ..last };
            slices.push(longer);
            assert(slices@.drop_last() =~= head);
            assert forall|j: int| #[trigger] shown(slices@, j) == if j == view_column {
                Some(cell)
            } else {
                shown(before, j)
            } by {
                assert(before.last() == last);
                if j == view_column {
                    assert(longer.cell(j) == cell);
                } else if last.covers(j) {
                    assert(longer.cell(j) == last.cell(j));
                }
            }
            return;
        }
    }
    let slice = RawSlice {
        line: cell.line,
        row: cell.row,
        column: cell.column,
        view_column,
        len: 1,
        narrow: cell.narrow,
    };
    slices.push(slice);
    assert forall|j: int| #[trigger] shown(slices@, j) == if j == view_column {
        Some(cell)
    } else {
        shown(before, j)
    } by {
        assert(slices@.drop_last() =~= before);
        assert(slices@.last() == slice);
        if j == view_column {
            assert(slice.cell(j) == cell);
        }
    }
}

/// A character of a row with its one or two cells.
#[derive(Clone, Copy, Debug, PartialEq, Eq, Structural)]
pub struct Glyph {
    pub line: u64,
    pub row: RawRowId,
    pub column: usize,
    pub wide: bool,
}

/// The characters of the cells `c..len` of a row.
pub open spec fn glyphs_from(line: Line, number: u64, c: int, len: int) -> Seq<Glyph>
    decreases len - c,
{
    if c >= len {
        Seq::empty()
    } else {
        let wide = c + 1 < len && line.cells[c + 1].flags.spec_continuation();
        seq![Glyph { line: number, row: line.id, column: c as usize, wide }] + glyphs_from(
            line,
            number,
            if wide {
                c + 2
            } else {
                c + 1
            },
            len,
        )
    }
}

/// The characters of the rows `from..to`, of which row zero has the stable
/// number `first`. Trailing cells that reflow drops do not count.
pub open spec fn glyphs_of(lines: Seq<Line>, first: u64, from: int, to: int) -> Seq<Glyph>
    decreases to - from,
{
    if from >= to {
        Seq::empty()
    } else {
        glyphs_from(lines[from], saturating_sum(first, from), 0, content_len(lines[from].cells))
            + glyphs_of(lines, first, from + 1, to)
    }
}

/// How many columns a character takes: one of a single column takes what there
/// is.
pub open spec fn glyph_columns(glyph: Glyph, cols: int) -> int {
    if glyph.wide && cols >= 2 {
        2
    } else {
        1
    }
}

/// How many columns characters take.
pub open spec fn glyphs_columns(glyphs: Seq<Glyph>, cols: int) -> int
    decreases glyphs.len(),
{
    if glyphs.len() == 0 {
        0
    } else {
        glyphs_columns(glyphs.drop_last(), cols) + glyph_columns(glyphs.last(), cols)
    }
}

/// How many characters from the first on fit into `room` columns.
pub open spec fn fitting(glyphs: Seq<Glyph>, room: int, cols: int) -> int
    decreases glyphs.len(),
{
    if glyphs.len() == 0 || glyph_columns(glyphs[0], cols) > room {
        0
    } else {
        1 + fitting(glyphs.skip(1), room - glyph_columns(glyphs[0], cols), cols)
    }
}

/// Characters broken into rows of `cols` columns; no character is split.
pub open spec fn broken(glyphs: Seq<Glyph>, cols: int) -> Seq<Seq<Glyph>>
    decreases glyphs.len(),
{
    let n = fitting(glyphs, cols, cols);
    if glyphs.len() == 0 {
        Seq::empty()
    } else if n < 1 || n > glyphs.len() {
        seq![glyphs]
    } else {
        seq![glyphs.take(n)] + broken(glyphs.skip(n), cols)
    }
}

/// The cells of one character in rows of `cols` columns.
pub open spec fn glyph_cells(glyph: Glyph, cols: int) -> Seq<SourceCell> {
    let first = SourceCell {
        line: glyph.line,
        row: glyph.row,
        column: glyph.column,
        narrow: glyph.wide && cols < 2,
    };
    if glyph.wide && cols >= 2 {
        seq![first, SourceCell { column: capped_sum(glyph.column, 1), ..first }]
    } else {
        seq![first]
    }
}

/// The cells of characters in rows of `cols` columns.
pub open spec fn glyphs_cells(glyphs: Seq<Glyph>, cols: int) -> Seq<SourceCell>
    decreases glyphs.len(),
{
    if glyphs.len() == 0 {
        Seq::empty()
    } else {
        glyphs_cells(glyphs.drop_last(), cols) + glyph_cells(glyphs.last(), cols)
    }
}

/// A document row of characters.
pub open spec fn glyph_row(glyphs: Seq<Glyph>, cols: int, wrapped: bool) -> PlanRowModel {
    let cells = glyphs_cells(glyphs, cols);
    PlanRowModel {
        cells: Seq::new(
            cols as nat,
            |j: int|
                if j < cells.len() {
                    Some(cells[j])
                } else {
                    None
                },
        ),
        wrapped,
        kind: ProjectedRowKind::Raw,
        source: Some(RowSource { row: glyphs[0].row, line: glyphs[0].line }),
    }
}

/// A document row of a physical row without characters.
pub open spec fn empty_row(line: Line, number: u64, cols: int) -> PlanRowModel {
    PlanRowModel {
        cells: Seq::new(cols as nat, |j: int| None),
        wrapped: false,
        kind: ProjectedRowKind::Raw,
        source: Some(RowSource { row: line.id, line: number }),
    }
}

/// The document rows of a logical line of characters.
pub open spec fn glyph_rows(rows: Seq<Seq<Glyph>>, cols: int) -> Seq<PlanRowModel> {
    Seq::new(rows.len(), |k: int| glyph_row(rows[k], cols, k + 1 < rows.len()))
}

/// The document rows of the logical line in the rows `from..to`.
pub open spec fn logical_rows(lines: Seq<Line>, first: u64, from: int, to: int, cols: int) -> Seq<
    PlanRowModel,
> {
    let glyphs = glyphs_of(lines, first, from, to);
    if glyphs.len() == 0 {
        seq![empty_row(lines[from], saturating_sum(first, from), cols)]
    } else {
        glyph_rows(broken(glyphs, cols), cols)
    }
}

/// The document rows of the history rows `from..end`.
pub open spec fn history_rows(lines: Seq<Line>, first: u64, from: int, end: int, cols: int) -> Seq<
    PlanRowModel,
>
    decreases end - from,
{
    let next = logical_end(lines, from, end);
    if from >= end || next <= from || next > end {
        Seq::empty()
    } else {
        logical_rows(lines, first, from, next, cols) + history_rows(lines, first, next, end, cols)
    }
}

/// The document row of a row of the screen, which it shows as it is.
pub open spec fn screen_row(line: Line, number: u64, cols: int) -> PlanRowModel {
    PlanRowModel {
        cells: Seq::new(
            cols as nat,
            |j: int|
                Some(
                    SourceCell { line: number, row: line.id, column: j as usize, narrow: false },
                ),
        ),
        wrapped: line.wrapped,
        kind: ProjectedRowKind::Raw,
        source: Some(RowSource { row: line.id, line: number }),
    }
}

/// The document rows of the screen, whose first row has the stable number
/// `first`.
pub open spec fn screen_rows(lines: Seq<Line>, first: u64, cols: int) -> Seq<PlanRowModel> {
    Seq::new(lines.len(), |r: int| screen_row(lines[r], saturating_sum(first, r), cols))
}

/// The document that folds nothing: the history in rows of `cols` columns,
/// then the screen.
pub open spec fn identity_rows(
    history: Seq<Line>,
    screen: Seq<Line>,
    first: u64,
    cols: int,
) -> Seq<PlanRowModel> {
    history_rows(history, first, 0, history.len() as int, cols) + screen_rows(
        screen,
        saturating_sum(first, history.len() as int),
        cols,
    )
}

} // verus!
