//! The screen grid: rows of cells with soft-wrap marks and stable identities.

use vstd::prelude::*;

use crate::cell::blank_cell;
use crate::cell::Color;
use crate::cell::TerminalCell;

verus! {

/// Widest supported screen.
pub const MAX_TERMINAL_COLS: usize = 1024;

/// Tallest supported screen.
pub const MAX_TERMINAL_ROWS: usize = 512;

/// Stable identity of a physical row; zero marks an untracked row.
#[derive(Clone, Copy, Debug, PartialEq, Eq, Structural)]
pub struct RawRowId {
    pub raw: u64,
}

/// Identity of a row that no origin may resolve to.
pub open spec fn untracked_id() -> RawRowId {
    RawRowId { raw: 0 }
}

impl RawRowId {
    /// Identity of a row that no origin may resolve to.
    pub fn untracked() -> (id: RawRowId)
        ensures
            id == untracked_id(),
    {
        RawRowId { raw: 0 }
    }

    /// Whether origins may resolve to this row.
    pub open spec fn spec_is_tracked(self) -> bool {
        self.raw != 0
    }

    /// Whether origins may resolve to this row.
    pub fn is_tracked(&self) -> (yes: bool)
        ensures
            yes == self.spec_is_tracked(),
    {
        self.raw != 0
    }
}

/// Shape of the text cursor (DECSCUSR).
#[derive(Clone, Copy, Debug, PartialEq, Eq, Structural)]
pub enum CursorShape {
    Block,
    Underline,
    Bar,
}

/// The span of rows that changed since the renderer last looked.
#[derive(Clone, Copy, Debug)]
pub struct DirtyRegion {
    pub span: Option<(usize, usize)>,
}

impl DirtyRegion {
    /// The region after rows `first..=last` also changed.
    pub open spec fn marked(self, first: usize, last: usize) -> DirtyRegion {
        DirtyRegion {
            span: match self.span {
                None => Some((first, last)),
                Some((lo, hi)) => Some(
                    (if first < lo { first } else { lo }, if last > hi { last } else { hi }),
                ),
            },
        }
    }

    /// Nothing changed.
    pub fn new() -> (region: DirtyRegion)
        ensures
            region.span is None,
    {
        DirtyRegion { span: None }
    }

    /// Records that rows `first..=last` changed.
    pub fn mark_rows(&mut self, first: usize, last: usize)
        ensures
            *final(self) == old(self).marked(first, last),
    {
        self.span = match self.span {
            None => Some((first, last)),
            Some((lo, hi)) => Some(
                (if first < lo { first } else { lo }, if last > hi { last } else { hi }),
            ),
        };
    }

    /// Records that `row` changed.
    pub fn mark_row(&mut self, row: usize)
        ensures
            *final(self) == old(self).marked(row, row),
    {
        self.mark_rows(row, row);
    }

    /// Records that every row of a `rows`-high screen changed.
    pub fn mark_all(&mut self, rows: usize)
        requires
            rows > 0,
        ensures
            *final(self) == old(self).marked(0, (rows - 1) as usize),
    {
        self.mark_rows(0, rows - 1);
    }

    /// Forgets every change.
    pub fn clear(&mut self)
        ensures
            final(self).span is None,
    {
        self.span = None;
    }
}

/// A physical row as a value: its cells, whether it continues on the next row,
/// and its identity.
#[verifier::ext_equal]
pub struct Line {
    pub cells: Seq<TerminalCell>,
    pub wrapped: bool,
    pub id: RawRowId,
}

/// `n` copies of one cell.
pub open spec fn repeated(cell: TerminalCell, n: int) -> Seq<TerminalCell> {
    Seq::new(n as nat, |i: int| cell)
}

/// `cells` with positions `start..end` replaced by `cell`.
pub open spec fn filled(
    cells: Seq<TerminalCell>,
    start: int,
    end: int,
    cell: TerminalCell,
) -> Seq<TerminalCell> {
    Seq::new(cells.len(), |i: int| if start <= i < end { cell } else { cells[i] })
}

/// A fresh row of `cols` blanks.
pub open spec fn blank_line(cols: int, blank: TerminalCell, id: RawRowId) -> Line {
    Line { cells: repeated(blank, cols), wrapped: false, id }
}

/// `cells` cut or extended with `blank` to exactly `cols` cells.
pub open spec fn fitted(cells: Seq<TerminalCell>, cols: int, blank: TerminalCell) -> Seq<
    TerminalCell,
> {
    Seq::new(cols as nat, |i: int| if i < cells.len() { cells[i] } else { blank })
}

/// `cells` with a double-width lead at the right edge, whose other half does
/// not exist, replaced by `blank`.
pub open spec fn dangling_cleared(cells: Seq<TerminalCell>, blank: TerminalCell) -> Seq<
    TerminalCell,
> {
    if cells.len() > 0 && cells[cells.len() - 1].flags.spec_wide() {
        cells.update(cells.len() - 1, blank)
    } else {
        cells
    }
}

/// Row `r` of `lines` with other cells.
pub open spec fn with_cells(lines: Seq<Line>, r: int, cells: Seq<TerminalCell>) -> Seq<Line> {
    lines.update(r, Line { cells, ..lines[r] })
}

/// Rows `top..=bottom` moved up by one, with `fresh` entering at the bottom.
pub open spec fn scrolled_up(lines: Seq<Line>, top: int, bottom: int, fresh: Line) -> Seq<Line> {
    lines.remove(top).insert(bottom, fresh)
}

/// Rows `top..=bottom` moved down by one, with `fresh` entering at the top.
pub open spec fn scrolled_down(lines: Seq<Line>, top: int, bottom: int, fresh: Line) -> Seq<Line> {
    lines.remove(bottom).insert(top, fresh)
}

/// Storage of one physical row.
pub struct GridRow {
    pub cells: Vec<TerminalCell>,
    pub wrapped: bool,
    pub id: RawRowId,
}

impl View for GridRow {
    type V = Line;

    open spec fn view(&self) -> Line {
        Line { cells: self.cells@, wrapped: self.wrapped, id: self.id }
    }
}

/// A rectangular screen of rows.
pub struct TerminalGrid {
    pub rows: Vec<GridRow>,
    pub cols: usize,
}

impl View for TerminalGrid {
    type V = Seq<Line>;

    open spec fn view(&self) -> Seq<Line> {
        Seq::new(self.rows@.len(), |r: int| self.rows@[r]@)
    }
}

/// A new row of blanks.
pub fn make_blank_row(cols: usize, blank: TerminalCell, id: RawRowId) -> (row: GridRow)
    ensures
        row@ == blank_line(cols as int, blank, id),
{
    let cells: Vec<TerminalCell> = vec![blank; cols];
    assert(cells@ =~= repeated(blank, cols as int));
    GridRow { cells, wrapped: false, id }
}

/// Copies a run of cells.
pub fn copy_cells(cells: &Vec<TerminalCell>) -> (out: Vec<TerminalCell>)
    ensures
        out@ == cells@,
{
    let mut out: Vec<TerminalCell> = Vec::with_capacity(cells.len());
    let mut i: usize = 0;
    while i < cells.len()
        invariant
            i <= cells@.len(),
            out@ == cells@.take(i as int),
        decreases cells.len() - i,
    {
        out.push(cells[i]);
        i = i + 1;
    }
    out
}

impl TerminalGrid {
    /// Every row is exactly `cols` wide and the size is within the supported
    /// range.
    pub open spec fn wf(&self) -> bool {
        &&& 1 <= self.cols <= MAX_TERMINAL_COLS
        &&& 1 <= self.rows@.len() <= MAX_TERMINAL_ROWS
        &&& forall|r: int|
            0 <= r < self.rows@.len() ==> (#[trigger] self.rows@[r]).cells@.len() == self.cols
    }

    /// A blank, untracked screen.
    pub fn new(rows: usize, cols: usize) -> (grid: TerminalGrid)
        requires
            1 <= rows <= MAX_TERMINAL_ROWS,
            1 <= cols <= MAX_TERMINAL_COLS,
        ensures
            grid.wf(),
            grid.cols == cols,
            grid@ == Seq::new(
                rows as nat,
                |r: int| blank_line(cols as int, blank_cell(Color::Default), RawRowId { raw: 0 }),
            ),
    {
        let mut out: Vec<GridRow> = Vec::new();
        let mut r: usize = 0;
        while r < rows
            invariant
                r <= rows,
                out@.len() == r,
                forall|k: int|
                    0 <= k < r ==> (#[trigger] out@[k])@ == blank_line(
                        cols as int,
                        blank_cell(Color::Default),
                        RawRowId { raw: 0 },
                    ),
            decreases rows - r,
        {
            out.push(
                make_blank_row(cols, TerminalCell::blank(Color::Default), RawRowId::untracked()),
            );
            r = r + 1;
        }
        let grid = TerminalGrid { rows: out, cols };
        assert(forall|k: int|
            0 <= k < rows ==> (#[trigger] grid.rows@[k]).cells@ == grid.rows@[k]@.cells);
        grid
    }

    /// Number of rows.
    pub fn rows(&self) -> (n: usize)
        ensures
            n == self@.len(),
    {
        self.rows.len()
    }

    /// Number of columns.
    pub fn row_len(&self) -> (n: usize)
        ensures
            n == self.cols,
    {
        self.cols
    }

    /// The cell at `row`, `col`.
    pub fn get(&self, row: usize, col: usize) -> (cell: TerminalCell)
        requires
            self.wf(),
            row < self@.len(),
            col < self.cols,
        ensures
            cell == self@[row as int].cells[col as int],
    {
        self.rows[row].cells[col]
    }

    /// Replaces the cell at `row`, `col`.
    pub fn set(&mut self, row: usize, col: usize, cell: TerminalCell)
        requires
            old(self).wf(),
            row < old(self)@.len(),
            col < old(self).cols,
        ensures
            final(self).wf(),
            final(self).cols == old(self).cols,
            final(self)@ == with_cells(
                old(self)@,
                row as int,
                old(self)@[row as int].cells.update(col as int, cell),
            ),
    {
        self.rows[row].cells[col] = cell;
        assert(self@ =~= with_cells(
            old(self)@,
            row as int,
            old(self)@[row as int].cells.update(col as int, cell),
        ));
    }

    /// Identity of `row`.
    pub fn row_id(&self, row: usize) -> (id: RawRowId)
        requires
            row < self@.len(),
        ensures
            id == self@[row as int].id,
    {
        self.rows[row].id
    }

    /// Gives `row` the identity `id`.
    pub fn set_row_id(&mut self, row: usize, id: RawRowId)
        requires
            old(self).wf(),
            row < old(self)@.len(),
        ensures
            final(self).wf(),
            final(self).cols == old(self).cols,
            final(self)@ == old(self)@.update(row as int, Line { id, ..old(self)@[row as int] }),
    {
        self.rows[row].id = id;
        assert(self@ =~= old(self)@.update(row as int, Line { id, ..old(self)@[row as int] }));
    }

    /// Whether `row` continues on the next row.
    pub fn row_wrapped(&self, row: usize) -> (wrapped: bool)
        requires
            row < self@.len(),
        ensures
            wrapped == self@[row as int].wrapped,
    {
        self.rows[row].wrapped
    }

    /// Sets whether `row` continues on the next row.
    pub fn set_row_wrapped(&mut self, row: usize, wrapped: bool)
        requires
            old(self).wf(),
            row < old(self)@.len(),
        ensures
            final(self).wf(),
            final(self).cols == old(self).cols,
            final(self)@ == old(self)@.update(
                row as int,
                Line { wrapped, ..old(self)@[row as int] },
            ),
    {
        self.rows[row].wrapped = wrapped;
        assert(self@ =~= old(self)@.update(row as int, Line { wrapped, ..old(self)@[row as int] }));
    }

    /// Inserts `cell` at `row`, `col`; the last cell of the row is lost.
    pub fn insert_cell_in_row(&mut self, row: usize, col: usize, cell: TerminalCell)
        requires
            old(self).wf(),
            row < old(self)@.len(),
            col < old(self).cols,
        ensures
            final(self).wf(),
            final(self).cols == old(self).cols,
            final(self)@ == with_cells(
                old(self)@,
                row as int,
                old(self)@[row as int].cells.insert(col as int, cell).drop_last(),
            ),
    {
        self.rows[row].cells.insert(col, cell);
        let _ = self.rows[row].cells.pop();
        assert(self@ =~= with_cells(
            old(self)@,
            row as int,
            old(self)@[row as int].cells.insert(col as int, cell).drop_last(),
        ));
    }

    /// Blanks a double-width lead stranded at the right edge of `row`.
    pub fn clear_dangling_wide_at_row_end(&mut self, row: usize, blank: TerminalCell)
        requires
            old(self).wf(),
            row < old(self)@.len(),
        ensures
            final(self).wf(),
            final(self).cols == old(self).cols,
            final(self)@ == with_cells(
                old(self)@,
                row as int,
                dangling_cleared(old(self)@[row as int].cells, blank),
            ),
    {
        let last: usize = self.cols - 1;
        if self.get(row, last).flags.wide() {
            self.set(row, last, blank);
        }
        assert(self@ =~= with_cells(
            old(self)@,
            row as int,
            dangling_cleared(old(self)@[row as int].cells, blank),
        ));
    }

    /// Moves rows `top..=bottom` up by one, blanks the bottom row under the
    /// identity `id`, and hands out the row that left at the top.
    pub fn scroll_up_one(
        &mut self,
        top: usize,
        bottom: usize,
        blank: TerminalCell,
        id: RawRowId,
    ) -> (removed: GridRow)
        requires
            old(self).wf(),
            top <= bottom < old(self)@.len(),
        ensures
            final(self).wf(),
            final(self).cols == old(self).cols,
            removed@ == old(self)@[top as int],
            final(self)@ == scrolled_up(
                old(self)@,
                top as int,
                bottom as int,
                blank_line(old(self).cols as int, blank, id),
            ),
    {
        let fresh = make_blank_row(self.cols, blank, id);
        assert(fresh@.cells.len() == self.cols);
        let removed = self.rows.remove(top);
        self.rows.insert(bottom, fresh);
        assert(self@ =~= scrolled_up(old(self)@, top as int, bottom as int, fresh@));
        removed
    }

    /// Moves rows `top..=bottom` down by one and blanks the top row under the
    /// identity `id`.
    pub fn scroll_down_one(&mut self, top: usize, bottom: usize, blank: TerminalCell, id: RawRowId)
        requires
            old(self).wf(),
            top <= bottom < old(self)@.len(),
        ensures
            final(self).wf(),
            final(self).cols == old(self).cols,
            final(self)@ == scrolled_down(
                old(self)@,
                top as int,
                bottom as int,
                blank_line(old(self).cols as int, blank, id),
            ),
    {
        let fresh = make_blank_row(self.cols, blank, id);
        assert(fresh@.cells.len() == self.cols);
        let _ = self.rows.remove(bottom);
        self.rows.insert(top, fresh);
        assert(self@ =~= scrolled_down(old(self)@, top as int, bottom as int, fresh@));
    }

    /// Cuts or extends the screen to `rows` by `cols`. Surviving rows keep
    /// their identity; new rows are untracked.
    pub fn resize(&mut self, rows: usize, cols: usize, blank: TerminalCell)
        requires
            old(self).wf(),
            1 <= rows <= MAX_TERMINAL_ROWS,
            1 <= cols <= MAX_TERMINAL_COLS,
        ensures
            final(self).wf(),
            final(self).cols == cols,
            final(self)@ == resized(old(self)@, rows as int, cols as int, blank),
    {
        if rows < self.rows.len() {
            self.rows.truncate(rows);
        }
        let ghost kept = self@;
        let ghost before = old(self)@;
        let mut r: usize = 0;
        while r < self.rows.len()
            invariant
                r <= self.rows@.len(),
                self.rows@.len() == kept.len(),
                kept.len() <= before.len(),
                forall|k: int| 0 <= k < kept.len() ==> kept[k] == before[k],
                forall|k: int|
                    0 <= k < r ==> (#[trigger] self.rows@[k])@ == (Line {
                        cells: fitted(before[k].cells, cols as int, blank),
                        ..before[k]
                    }),
                forall|k: int| r <= k < kept.len() ==> (#[trigger] self.rows@[k])@ == before[k],
            decreases self.rows.len() - r,
        {
            fit_cells(&mut self.rows[r].cells, cols, blank);
            r = r + 1;
        }
        while self.rows.len() < rows
            invariant
                kept.len() <= self.rows@.len(),
                kept.len() < before.len() ==> kept.len() == rows,
                self.rows@.len() <= rows,
                kept.len() <= before.len(),
                forall|k: int|
                    0 <= k < kept.len() ==> (#[trigger] self.rows@[k])@ == (Line {
                        cells: fitted(before[k].cells, cols as int, blank),
                        ..before[k]
                    }),
                forall|k: int|
                    kept.len() <= k < self.rows@.len() ==> (#[trigger] self.rows@[k])@
                        == blank_line(cols as int, blank, RawRowId { raw: 0 }),
            decreases rows - self.rows.len(),
        {
            self.rows.push(make_blank_row(cols, blank, RawRowId::untracked()));
        }
        self.cols = cols;
        assert(self@ =~= resized(before, rows as int, cols as int, blank));
        assert(forall|k: int|
            0 <= k < rows ==> (#[trigger] self.rows@[k]).cells@ == self.rows@[k]@.cells);
    }
}

/// `lines` cut or extended to `rows` rows of `cols` cells.
pub open spec fn resized(lines: Seq<Line>, rows: int, cols: int, blank: TerminalCell) -> Seq<Line> {
    Seq::new(
        rows as nat,
        |r: int|
            if r < lines.len() {
                Line { cells: fitted(lines[r].cells, cols, blank), ..lines[r] }
            } else {
                blank_line(cols, blank, RawRowId { raw: 0 })
            },
    )
}

/// Cuts or extends a row of cells in place.
pub fn fit_cells(cells: &mut Vec<TerminalCell>, cols: usize, blank: TerminalCell)
    ensures
        final(cells)@ == fitted(old(cells)@, cols as int, blank),
{
    if cols < cells.len() {
        cells.truncate(cols);
    }
    while cells.len() < cols
        invariant
            cells@.len() <= cols,
            old(cells)@.len() < cells@.len() || cells@.len() == old(cells)@.len()
                || cells@.len() == cols,
            forall|i: int|
                0 <= i < cells@.len() ==> #[trigger] cells@[i] == (if i < old(cells)@.len() {
                    old(cells)@[i]
                } else {
                    blank
                }),
        decreases cols - cells.len(),
    {
        cells.push(blank);
    }
    assert(cells@ =~= fitted(old(cells)@, cols as int, blank));
}

/// Brings a requested size into the supported range.
pub fn clamp_terminal_dimensions(cols: usize, rows: usize) -> (size: (usize, usize))
    ensures
        size.0 == spec_clamp(cols, MAX_TERMINAL_COLS),
        size.1 == spec_clamp(rows, MAX_TERMINAL_ROWS),
{
    let c: usize = if cols < 1 {
        1
    } else if cols > MAX_TERMINAL_COLS {
        MAX_TERMINAL_COLS
    } else {
        cols
    };
    let r: usize = if rows < 1 {
        1
    } else if rows > MAX_TERMINAL_ROWS {
        MAX_TERMINAL_ROWS
    } else {
        rows
    };
    (c, r)
}

/// `n` brought into `1..=max`.
pub open spec fn spec_clamp(n: usize, max: usize) -> usize {
    if n < 1 {
        1
    } else if n > max {
        max
    } else {
        n
    }
}

} // verus!
