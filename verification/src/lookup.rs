//! Finds cells, rows and summaries in a projected document.

use vstd::prelude::*;

use crate::document::RawCellAnchor;
use crate::folding::cell_is_hidden;
use crate::folding::is_hidden;
use crate::grid::RawRowId;
use crate::plan::cell_shown;
use crate::plan::shown_cells;
use crate::plan::PlanModel;
use crate::plan::PlanRow;
use crate::plan::PlanRowModel;
use crate::plan::ProjectionPlan;
use crate::plan::ResolvedCollapse;
use crate::plan::SourceCell;
use crate::projection::DocumentPoint;
use crate::projection::ProjectedRowKind;
use crate::projection::ProjectedSelectionAnchor;
use crate::projection::ProjectedTopAnchor;

verus! {

/// Whether a document cell shows a given cell of a physical row.
pub open spec fn is_cell(cell: Option<SourceCell>, anchor: RawCellAnchor) -> bool {
    cell matches Some(cell) && cell.row == anchor.row_id && cell.column == anchor.column
}

/// The first column from `from` on that shows a given cell.
pub open spec fn column_of(
    cells: Seq<Option<SourceCell>>,
    anchor: RawCellAnchor,
    from: int,
) -> Option<int>
    decreases cells.len() - from,
{
    if from >= cells.len() {
        None
    } else if is_cell(cells[from], anchor) {
        Some(from)
    } else {
        column_of(cells, anchor, from + 1)
    }
}

/// The first document cell, from row `from` on, that shows a given cell.
pub open spec fn position_of(
    rows: Seq<PlanRowModel>,
    anchor: RawCellAnchor,
    from: int,
) -> Option<(int, int)>
    decreases rows.len() - from,
{
    if from >= rows.len() {
        None
    } else {
        match column_of(rows[from].cells, anchor, 0) {
            Some(column) => Some((from, column)),
            None => position_of(rows, anchor, from + 1),
        }
    }
}

/// Whether a document row shows or continues a physical row.
pub open spec fn is_of_row(row: PlanRowModel, id: RawRowId) -> bool {
    &&& row.kind is Raw
    &&& row.source matches Some(source)
    &&& source.row == id
}

/// The first document row from `from` on that shows or continues a physical
/// row.
pub open spec fn row_position(rows: Seq<PlanRowModel>, id: RawRowId, from: int) -> Option<int>
    decreases rows.len() - from,
{
    if from >= rows.len() {
        None
    } else if is_of_row(rows[from], id) {
        Some(from)
    } else {
        row_position(rows, id, from + 1)
    }
}

/// Whether a document row is the summary of an output.
pub open spec fn is_summary_of(row: PlanRowModel, zone_id: u64) -> bool {
    row.kind matches ProjectedRowKind::CollapsedSummary { key, .. } && key.zone_id == zone_id
}

/// The first document row from `from` on that is the summary of an output.
pub open spec fn summary_position(rows: Seq<PlanRowModel>, zone_id: u64, from: int) -> Option<int>
    decreases rows.len() - from,
{
    if from >= rows.len() {
        None
    } else if is_summary_of(rows[from], zone_id) {
        Some(from)
    } else {
        summary_position(rows, zone_id, from + 1)
    }
}

/// The first output from `from` on that was to be folded and holds a cell of a
/// line.
pub open spec fn holding(
    collapses: Seq<ResolvedCollapse>,
    line: u64,
    column: usize,
    from: int,
) -> Option<u64>
    decreases collapses.len() - from,
{
    if from >= collapses.len() {
        None
    } else if is_hidden(collapses[from], line, column) {
        Some(collapses[from].range.zone_id)
    } else {
        holding(collapses, line, column, from + 1)
    }
}

/// The row of the summary that stands in for a cell of a line, if one does.
pub open spec fn summary_for(plan: PlanModel, line: u64, column: usize) -> Option<int> {
    match holding(plan.collapses, line, column, 0) {
        Some(zone_id) => summary_position(plan.rows, zone_id, 0),
        None => None,
    }
}

/// The document row of a cell: the one that shows it, or else the first of its
/// physical row.
pub open spec fn row_for_cell(rows: Seq<PlanRowModel>, anchor: RawCellAnchor) -> Option<int> {
    match position_of(rows, anchor, 0) {
        Some((row, _)) => Some(row),
        None => row_position(rows, anchor.row_id, 0),
    }
}

/// The document row that holds what the top row of a view was held by.
pub open spec fn row_for_anchor(rows: Seq<PlanRowModel>, anchor: ProjectedTopAnchor) -> Option<int> {
    match anchor {
        ProjectedTopAnchor::RawCell(cell) => row_for_cell(rows, cell),
        ProjectedTopAnchor::RawRow(id) => row_position(rows, id, 0),
        ProjectedTopAnchor::Summary { zone_id, hidden_range } => {
            match summary_position(rows, zone_id, 0) {
                Some(row) => Some(row),
                None => row_for_cell(
                    rows,
                    RawCellAnchor {
                        row_id: hidden_range.start.row,
                        column: hidden_range.start.col,
                    },
                ),
            }
        },
    }
}

/// The document cell that one end of a selection is held by.
pub open spec fn point_for_anchor(
    rows: Seq<PlanRowModel>,
    anchor: ProjectedSelectionAnchor,
) -> Option<(int, int)> {
    match anchor {
        ProjectedSelectionAnchor::Cell(cell) => position_of(rows, cell, 0),
        ProjectedSelectionAnchor::Row { row, column } => match row_position(rows, row, 0) {
            Some(found) => Some((found, column as int)),
            None => None,
        },
    }
}

/// Finds the first column that shows a given cell.
fn find_column(row: &PlanRow, anchor: RawCellAnchor, cols: usize) -> (column: Option<usize>)
    ensures
        match (column_of(row.model(cols as int).cells, anchor, 0), column) {
            (Some(expected), Some(found)) => found == expected,
            (None, None) => true,
            _ => false,
        },
{
    let ghost cells = shown_cells(row.slices@, cols as int);
    let mut j: usize = 0;
    while j < cols
        invariant
            j <= cols,
            cells == shown_cells(row.slices@, cols as int),
            column_of(cells, anchor, 0) == column_of(cells, anchor, j as int),
        decreases cols - j,
    {
        if let Some(cell) = cell_shown(&row.slices, j) {
            if cell.row == anchor.row_id && cell.column == anchor.column {
                return Some(j);
            }
        }
        j = j + 1;
    }
    None
}

/// Whether a document row shows or continues a physical row.
fn row_is_of(row: &PlanRow, id: RawRowId) -> (yes: bool)
    ensures
        forall|cols: int| yes == is_of_row(#[trigger] row.model(cols), id),
{
    match (row.kind, row.source) {
        (ProjectedRowKind::Raw, Some(source)) => source.row == id,
        _ => false,
    }
}

/// Whether a document row is the summary of an output.
fn row_summarizes(row: &PlanRow, zone_id: u64) -> (yes: bool)
    ensures
        forall|cols: int| yes == is_summary_of(#[trigger] row.model(cols), zone_id),
{
    match row.kind {
        ProjectedRowKind::CollapsedSummary { key, .. } => key.zone_id == zone_id,
        _ => false,
    }
}

impl ProjectionPlan {
    /// Height of the document.
    pub fn document_rows(&self) -> (rows: usize)
        ensures
            rows == self@.rows.len(),
    {
        self.rows.len()
    }

    /// The first document cell that shows a given cell.
    pub fn raw_cell_document_point(&self, anchor: RawCellAnchor) -> (point: Option<DocumentPoint>)
        ensures
            match (position_of(self@.rows, anchor, 0), point) {
                (Some((row, column)), Some(found)) => found.row == row && found.column == column
                    && row < self@.rows.len(),
                (None, None) => true,
                _ => false,
            },
    {
        let ghost rows = self@.rows;
        let mut i: usize = 0;
        while i < self.rows.len()
            invariant
                i <= rows.len(),
                rows == self@.rows,
                rows.len() == self.rows@.len(),
                position_of(rows, anchor, 0) == position_of(rows, anchor, i as int),
            decreases self.rows@.len() - i,
        {
            assert(rows[i as int] == self.rows@[i as int].model(self.cols as int));
            if let Some(column) = find_column(&self.rows[i], anchor, self.cols) {
                return Some(DocumentPoint { row: i, column });
            }
            i = i + 1;
        }
        None
    }

    /// The first document row that shows or continues a physical row.
    pub fn raw_row_document_row(&self, id: RawRowId) -> (row: Option<usize>)
        ensures
            match (row_position(self@.rows, id, 0), row) {
                (Some(expected), Some(found)) => found == expected && found < self@.rows.len(),
                (None, None) => true,
                _ => false,
            },
    {
        let ghost rows = self@.rows;
        let mut i: usize = 0;
        while i < self.rows.len()
            invariant
                i <= rows.len(),
                rows == self@.rows,
                rows.len() == self.rows@.len(),
                row_position(rows, id, 0) == row_position(rows, id, i as int),
            decreases self.rows@.len() - i,
        {
            assert(rows[i as int] == self.rows@[i as int].model(self.cols as int));
            if row_is_of(&self.rows[i], id) {
                return Some(i);
            }
            i = i + 1;
        }
        None
    }

    /// The row of the summary of an output.
    pub fn summary_document_row(&self, zone_id: u64) -> (row: Option<usize>)
        ensures
            match (summary_position(self@.rows, zone_id, 0), row) {
                (Some(expected), Some(found)) => found == expected && found < self@.rows.len()
                    && is_summary_of(self@.rows[found as int], zone_id),
                (None, None) => true,
                _ => false,
            },
    {
        let ghost rows = self@.rows;
        let mut i: usize = 0;
        while i < self.rows.len()
            invariant
                i <= rows.len(),
                rows == self@.rows,
                rows.len() == self.rows@.len(),
                summary_position(rows, zone_id, 0) == summary_position(rows, zone_id, i as int),
            decreases self.rows@.len() - i,
        {
            assert(rows[i as int] == self.rows@[i as int].model(self.cols as int));
            if row_summarizes(&self.rows[i], zone_id) {
                return Some(i);
            }
            i = i + 1;
        }
        None
    }

    /// The row of the summary that stands in for a cell of a line.
    pub fn summary_owning(&self, line: u64, column: usize) -> (row: Option<usize>)
        ensures
            match (summary_for(self@, line, column), row) {
                (Some(expected), Some(found)) => found == expected && found < self@.rows.len()
                    && self@.rows[found as int].kind is CollapsedSummary,
                (None, None) => true,
                _ => false,
            },
    {
        let ghost collapses = self.collapses@;
        let mut i: usize = 0;
        while i < self.collapses.len()
            invariant
                i <= collapses.len(),
                collapses == self.collapses@,
                holding(collapses, line, column, 0) == holding(collapses, line, column, i as int),
            decreases self.collapses@.len() - i,
        {
            if cell_is_hidden(&self.collapses[i], line, column) {
                return self.summary_document_row(self.collapses[i].range.zone_id);
            }
            i = i + 1;
        }
        None
    }

    /// The document row of a cell.
    pub fn raw_cell_document_row(&self, anchor: RawCellAnchor) -> (row: Option<usize>)
        ensures
            match (row_for_cell(self@.rows, anchor), row) {
                (Some(expected), Some(found)) => found == expected && found < self@.rows.len(),
                (None, None) => true,
                _ => false,
            },
    {
        match self.raw_cell_document_point(anchor) {
            Some(point) => Some(point.row),
            None => self.raw_row_document_row(anchor.row_id),
        }
    }

    /// The document row that holds what the top row of a view was held by.
    pub fn document_row_for_anchor(&self, anchor: ProjectedTopAnchor) -> (row: Option<usize>)
        ensures
            match (row_for_anchor(self@.rows, anchor), row) {
                (Some(expected), Some(found)) => found == expected && found < self@.rows.len(),
                (None, None) => true,
                _ => false,
            },
    {
        match anchor {
            ProjectedTopAnchor::RawCell(cell) => self.raw_cell_document_row(cell),
            ProjectedTopAnchor::RawRow(id) => self.raw_row_document_row(id),
            ProjectedTopAnchor::Summary { zone_id, hidden_range } => {
                match self.summary_document_row(zone_id) {
                    Some(row) => Some(row),
                    None => self.raw_cell_document_row(
                        RawCellAnchor {
                            row_id: hidden_range.start.row,
                            column: hidden_range.start.col,
                        },
                    ),
                }
            },
        }
    }

    /// The document cell that one end of a selection is held by.
    pub fn selection_point_for_anchor(&self, anchor: ProjectedSelectionAnchor) -> (point: Option<
        DocumentPoint,
    >)
        ensures
            match (point_for_anchor(self@.rows, anchor), point) {
                (Some((row, column)), Some(found)) => found.row == row && found.column == column,
                (None, None) => true,
                _ => false,
            },
    {
        match anchor {
            ProjectedSelectionAnchor::Cell(cell) => self.raw_cell_document_point(cell),
            ProjectedSelectionAnchor::Row { row, column } => {
                match self.raw_row_document_row(row) {
                    Some(found) => Some(DocumentPoint { row: found, column }),
                    None => None,
                }
            },
        }
    }
}

/// Searching a document for a cell that it shows finds that cell.
pub proof fn positions_show_their_cell(rows: Seq<PlanRowModel>, anchor: RawCellAnchor, from: int)
    requires
        from >= 0,
        position_of(rows, anchor, from) is Some,
    ensures
        ({
            let (row, column) = position_of(rows, anchor, from)->0;
            &&& from <= row < rows.len()
            &&& 0 <= column < rows[row].cells.len()
            &&& is_cell(rows[row].cells[column], anchor)
        }),
    decreases rows.len() - from,
{
    match column_of(rows[from].cells, anchor, 0) {
        Some(_) => {
            lemma_column_of(rows[from].cells, anchor, 0);
        },
        None => {
            positions_show_their_cell(rows, anchor, from + 1);
        },
    }
}

/// Searching a row for a cell that it shows finds that cell.
proof fn lemma_column_of(cells: Seq<Option<SourceCell>>, anchor: RawCellAnchor, from: int)
    requires
        from >= 0,
        column_of(cells, anchor, from) is Some,
    ensures
        from <= column_of(cells, anchor, from)->0 < cells.len(),
        is_cell(cells[column_of(cells, anchor, from)->0], anchor),
    decreases cells.len() - from,
{
    if !is_cell(cells[from], anchor) {
        lemma_column_of(cells, anchor, from + 1);
    }
}

} // verus!
