//! Scrollback storage.

use vstd::prelude::*;

use crate::cell::TerminalCell;
use crate::grid::copy_cells;
use crate::grid::GridRow;
use crate::grid::Line;
use crate::grid::RawRowId;

verus! {

/// A row that left the screen at the top.
pub struct ScrollbackLine {
    pub cells: Vec<TerminalCell>,
    pub is_wrapped: bool,
    pub row_id: RawRowId,
}

impl View for ScrollbackLine {
    type V = Line;

    open spec fn view(&self) -> Line {
        Line { cells: self.cells@, wrapped: self.is_wrapped, id: self.row_id }
    }
}

/// The rows of a scrollback, oldest first.
pub open spec fn history_lines(history: Seq<ScrollbackLine>) -> Seq<Line> {
    Seq::new(history.len(), |i: int| history[i]@)
}

/// Whether the history of `new` is that of `old` without its first `evicted`
/// rows and with `appended` more.
pub open spec fn history_advanced(
    old: Seq<Line>,
    new: Seq<Line>,
    evicted: int,
    appended: int,
) -> bool {
    &&& 0 <= evicted <= old.len()
    &&& new.len() == old.len() - evicted + appended
    &&& new.take(old.len() - evicted) == old.skip(evicted)
}

/// Length of `cells` without the trailing cells that reflow drops.
pub open spec fn content_len(cells: Seq<TerminalCell>) -> int
    decreases cells.len(),
{
    if cells.len() == 0 {
        0
    } else if cells[cells.len() - 1].spec_is_reflow_trimmable_blank() {
        content_len(cells.drop_last())
    } else {
        cells.len() as int
    }
}

/// The content length never exceeds the number of cells.
pub proof fn lemma_content_len_bounds(cells: Seq<TerminalCell>)
    ensures
        0 <= content_len(cells) <= cells.len(),
    decreases cells.len(),
{
    if cells.len() > 0 && cells[cells.len() - 1].spec_is_reflow_trimmable_blank() {
        lemma_content_len_bounds(cells.drop_last());
    }
}

/// Number of cells that remain when trailing reflow blanks are dropped.
pub fn strip_trailing_blanks(cells: &Vec<TerminalCell>) -> (end: usize)
    ensures
        end == content_len(cells@),
        end <= cells@.len(),
{
    let mut end: usize = cells.len();
    assert(cells@.take(end as int) =~= cells@);
    while end > 0 && cells[end - 1].is_reflow_trimmable_blank()
        invariant
            end <= cells@.len(),
            content_len(cells@.take(end as int)) == content_len(cells@),
        decreases end,
    {
        assert(cells@.take(end as int).drop_last() =~= cells@.take(end - 1));
        end = end - 1;
    }
    end
}

impl ScrollbackLine {
    /// Stores a copy of `cells`; the line is untracked.
    pub fn compress(cells: &Vec<TerminalCell>, is_wrapped: bool) -> (line: ScrollbackLine)
        ensures
            line@ == (Line { cells: cells@, wrapped: is_wrapped, id: RawRowId { raw: 0 } }),
    {
        ScrollbackLine { cells: copy_cells(cells), is_wrapped, row_id: RawRowId::untracked() }
    }

    /// Stores a row moved off the screen, with its identity.
    pub fn from_row(row: GridRow) -> (line: ScrollbackLine)
        ensures
            line@ == row@,
    {
        ScrollbackLine { cells: row.cells, is_wrapped: row.wrapped, row_id: row.id }
    }

    /// The stored cells.
    pub fn decompress(&self) -> (cells: Vec<TerminalCell>)
        ensures
            cells@ == self@.cells,
    {
        copy_cells(&self.cells)
    }

    /// Identity of the stored row.
    pub fn raw_row_id(&self) -> (id: RawRowId)
        ensures
            id == self@.id,
    {
        self.row_id
    }

    /// Gives the stored row the identity `id`.
    pub fn set_raw_row_id(&mut self, id: RawRowId)
        ensures
            final(self)@ == (Line { id, ..old(self)@ }),
    {
        self.row_id = id;
    }

    /// Number of stored cells.
    pub fn columns(&self) -> (n: usize)
        ensures
            n == self@.cells.len(),
    {
        self.cells.len()
    }

    /// Number of cells that reflow keeps.
    pub fn reflow_content_len(&self) -> (n: usize)
        ensures
            n == content_len(self@.cells),
            n <= self@.cells.len(),
    {
        strip_trailing_blanks(&self.cells)
    }
}

} // verus!
