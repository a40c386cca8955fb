//! Folds outputs of a document into summary rows.

use std::sync::Arc;
use vstd::prelude::*;

use crate::layout::append_rows;
use crate::layout::lemma_models_add;
use crate::plan::cell_shown;
use crate::plan::row_models;
use crate::plan::show_cell;
use crate::plan::shown;
use crate::plan::shown_cells;
use crate::plan::PlanRow;
use crate::plan::PlanRowModel;
use crate::plan::RawSlice;
use crate::plan::ResolvedCollapse;
use crate::plan::RowSource;
use crate::plan::SourceCell;
use crate::projection::ProjectedRowKind;
use crate::projection::SyntheticRowKey;

verus! {

/// Whether a cell lies in a folded output.
pub open spec fn is_hidden(collapse: ResolvedCollapse, line: u64, column: usize) -> bool {
    &&& collapse.start_line < line || (collapse.start_line == line
        && collapse.range.start.col <= column)
    &&& line < collapse.end_line || (line == collapse.end_line && column < collapse.range.end.col)
}

/// Whether column `j` of a row shows a cell of a folded output.
pub open spec fn hides(
    collapse: ResolvedCollapse,
    cells: Seq<Option<SourceCell>>,
    j: int,
) -> bool {
    match cells[j] {
        Some(cell) => is_hidden(collapse, cell.line, cell.column),
        None => false,
    }
}

/// The first column from `from` on that shows a cell of a folded output, or
/// the width.
pub open spec fn first_hidden(
    collapse: ResolvedCollapse,
    cells: Seq<Option<SourceCell>>,
    from: int,
) -> int
    decreases cells.len() - from,
{
    if from >= cells.len() || hides(collapse, cells, from) {
        from
    } else {
        first_hidden(collapse, cells, from + 1)
    }
}

/// The column behind the last one before `to` that shows a cell of a folded
/// output; zero where there is none.
pub open spec fn hidden_end(
    collapse: ResolvedCollapse,
    cells: Seq<Option<SourceCell>>,
    to: int,
) -> int
    decreases to,
{
    if to <= 0 || hides(collapse, cells, to - 1) {
        to
    } else {
        hidden_end(collapse, cells, to - 1)
    }
}

/// The first cell that a row shows from column `from` on.
pub open spec fn first_cell(cells: Seq<Option<SourceCell>>, from: int) -> Option<SourceCell>
    decreases cells.len() - from,
{
    if from >= cells.len() {
        None
    } else if cells[from] is Some {
        cells[from]
    } else {
        first_cell(cells, from + 1)
    }
}

/// Whether a row shows or is part of a folded output.
pub open spec fn touches(collapse: ResolvedCollapse, row: PlanRowModel) -> bool {
    &&& row.kind is Raw
    &&& match first_cell(row.cells, 0) {
        Some(_) => first_hidden(collapse, row.cells, 0) < row.cells.len(),
        None => match row.source {
            Some(source) => is_hidden(collapse, source.line, 0),
            None => false,
        },
    }
}

/// The first row from `from` on that a folded output touches, or their number.
pub open spec fn first_touched(
    collapse: ResolvedCollapse,
    rows: Seq<PlanRowModel>,
    from: int,
) -> int
    decreases rows.len() - from,
{
    if from >= rows.len() || touches(collapse, rows[from]) {
        from
    } else {
        first_touched(collapse, rows, from + 1)
    }
}

/// The row behind the last one before `to` that a folded output touches.
pub open spec fn touched_end(collapse: ResolvedCollapse, rows: Seq<PlanRowModel>, to: int) -> int
    decreases to,
{
    if to <= 0 || touches(collapse, rows[to - 1]) {
        to
    } else {
        touched_end(collapse, rows, to - 1)
    }
}

/// The columns `from..to` of a row, in their places.
pub open spec fn kept(cells: Seq<Option<SourceCell>>, from: int, to: int) -> Seq<
    Option<SourceCell>,
> {
    Seq::new(
        cells.len(),
        |j: int|
            if from <= j < to {
                cells[j]
            } else {
                None
            },
    )
}

/// The row that remains of the columns `from..to` of a row, if they show
/// anything.
pub open spec fn part(row: PlanRowModel, from: int, to: int, wrapped: bool) -> Seq<PlanRowModel> {
    let cells = kept(row.cells, from, to);
    match first_cell(cells, 0) {
        Some(cell) => seq![
            PlanRowModel {
                cells,
                wrapped,
                kind: ProjectedRowKind::Raw,
                source: Some(RowSource { row: cell.row, line: cell.line }),
            },
        ],
        None => Seq::empty(),
    }
}

/// Rows of which the last does not continue.
pub open spec fn hard_end(rows: Seq<PlanRowModel>) -> Seq<PlanRowModel> {
    if rows.len() == 0 {
        rows
    } else {
        rows.update(rows.len() - 1, PlanRowModel { wrapped: false, ..rows.last() })
    }
}

/// The row in place of a folded output of `hidden_rows` rows.
pub open spec fn summary_row(
    collapse: ResolvedCollapse,
    policy_revision: u64,
    hidden_rows: int,
    cols: int,
) -> PlanRowModel {
    PlanRowModel {
        cells: Seq::new(cols as nat, |j: int| None),
        wrapped: false,
        kind: ProjectedRowKind::CollapsedSummary {
            key: SyntheticRowKey { zone_id: collapse.range.zone_id, policy_revision },
            hidden_range: collapse.range,
            hidden_rows: hidden_rows as usize,
        },
        source: None,
    }
}

/// A document with one output folded. What stands before it on its first row
/// and behind it on its last stays, in its columns; a summary takes the place
/// of the rest.
pub open spec fn folded(
    rows: Seq<PlanRowModel>,
    collapse: ResolvedCollapse,
    policy_revision: u64,
    cols: int,
) -> Seq<PlanRowModel> {
    let f = first_touched(collapse, rows, 0);
    let e = touched_end(collapse, rows, rows.len() as int);
    if f >= rows.len() || e < 1 {
        rows
    } else {
        hard_end(
            rows.take(f) + part(rows[f], 0, first_hidden(collapse, rows[f].cells, 0), false),
        ) + seq![summary_row(collapse, policy_revision, e - f, cols)] + (part(
            rows[e - 1],
            hidden_end(collapse, rows[e - 1].cells, cols),
            cols,
            rows[e - 1].wrapped,
        ) + rows.skip(e))
    }
}

/// A document with the first `n` outputs folded.
pub open spec fn all_folded(
    rows: Seq<PlanRowModel>,
    collapses: Seq<ResolvedCollapse>,
    n: int,
    policy_revision: u64,
    cols: int,
) -> Seq<PlanRowModel>
    decreases n,
{
    if n <= 0 {
        rows
    } else {
        folded(
            all_folded(rows, collapses, n - 1, policy_revision, cols),
            collapses[n - 1],
            policy_revision,
            cols,
        )
    }
}

/// The outputs among the first `n` that fold anything.
pub open spec fn effective(
    rows: Seq<PlanRowModel>,
    collapses: Seq<ResolvedCollapse>,
    n: int,
    policy_revision: u64,
    cols: int,
) -> Set<u64>
    decreases n,
{
    if n <= 0 {
        Set::empty()
    } else {
        let before = all_folded(rows, collapses, n - 1, policy_revision, cols);
        let earlier = effective(rows, collapses, n - 1, policy_revision, cols);
        if first_touched(collapses[n - 1], before, 0) < before.len() {
            earlier.insert(collapses[n - 1].range.zone_id)
        } else {
            earlier
        }
    }
}

/// Whether a cell lies in a folded output.
pub fn cell_is_hidden(collapse: &ResolvedCollapse, line: u64, column: usize) -> (yes: bool)
    ensures
        yes == is_hidden(*collapse, line, column),
{
    (collapse.start_line < line || (collapse.start_line == line && collapse.range.start.col
        <= column)) && (line < collapse.end_line || (line == collapse.end_line && column
        < collapse.range.end.col))
}

/// Whether column `j` of a row shows a cell of a folded output.
fn column_hides(collapse: &ResolvedCollapse, slices: &Vec<RawSlice>, j: usize, cols: usize) -> (yes:
    bool)
    requires
        j < cols,
    ensures
        yes == hides(*collapse, shown_cells(slices@, cols as int), j as int),
{
    match cell_shown(slices, j) {
        Some(cell) => cell_is_hidden(collapse, cell.line, cell.column),
        None => false,
    }
}

/// Finds the first column that shows a cell of a folded output.
fn find_first_hidden(collapse: &ResolvedCollapse, slices: &Vec<RawSlice>, cols: usize) -> (j: usize)
    ensures
        j == first_hidden(*collapse, shown_cells(slices@, cols as int), 0),
        j <= cols,
{
    let ghost cells = shown_cells(slices@, cols as int);
    let mut j: usize = 0;
    while j < cols && !column_hides(collapse, slices, j, cols)
        invariant
            j <= cols,
            cells == shown_cells(slices@, cols as int),
            first_hidden(*collapse, cells, 0) == first_hidden(*collapse, cells, j as int),
        decreases cols - j,
    {
        j = j + 1;
    }
    j
}

/// Finds the end of the last column that shows a cell of a folded output.
fn find_hidden_end(collapse: &ResolvedCollapse, slices: &Vec<RawSlice>, cols: usize) -> (j: usize)
    ensures
        j == hidden_end(*collapse, shown_cells(slices@, cols as int), cols as int),
        j <= cols,
{
    let ghost cells = shown_cells(slices@, cols as int);
    let mut j: usize = cols;
    while j > 0 && !column_hides(collapse, slices, j - 1, cols)
        invariant
            j <= cols,
            cells == shown_cells(slices@, cols as int),
            hidden_end(*collapse, cells, cols as int) == hidden_end(*collapse, cells, j as int),
        decreases j,
    {
        j = j - 1;
    }
    j
}

/// Finds the first cell that a row shows.
fn find_first_cell(slices: &Vec<RawSlice>, cols: usize) -> (cell: Option<SourceCell>)
    ensures
        cell == first_cell(shown_cells(slices@, cols as int), 0),
{
    let ghost cells = shown_cells(slices@, cols as int);
    let mut j: usize = 0;
    while j < cols
        invariant
            j <= cols,
            cells == shown_cells(slices@, cols as int),
            first_cell(cells, 0) == first_cell(cells, j as int),
        decreases cols - j,
    {
        let cell = cell_shown(slices, j);
        if cell.is_some() {
            return cell;
        }
        j = j + 1;
    }
    None
}

/// Whether a row shows or is part of a folded output.
fn row_touches(collapse: &ResolvedCollapse, row: &PlanRow, cols: usize) -> (yes: bool)
    ensures
        yes == touches(*collapse, row.model(cols as int)),
{
    match row.kind {
        ProjectedRowKind::Raw => {
            if find_first_cell(&row.slices, cols).is_some() {
                find_first_hidden(collapse, &row.slices, cols) < cols
            } else {
                match row.source {
                    Some(source) => cell_is_hidden(collapse, source.line, 0),
                    None => false,
                }
            }
        },
        _ => false,
    }
}

/// The slices that remain of the columns `from..to` of a row.
fn keep_columns(slices: &Vec<RawSlice>, from: usize, to: usize, cols: usize) -> (left: Vec<
    RawSlice,
>)
    requires
        to <= cols,
    ensures
        shown_cells(left@, cols as int) == kept(
            shown_cells(slices@, cols as int),
            from as int,
            to as int,
        ),
{
    let mut left: Vec<RawSlice> = Vec::new();
    let mut j: usize = from;
    while j < to
        invariant
            from <= j,
            j <= to || j == from,
            forall|k: int| #[trigger]
                shown(left@, k) == if from <= k < j {
                    shown(slices@, k)
                } else {
                    None
                },
        decreases to - j,
    {
        if let Some(cell) = cell_shown(slices, j) {
            show_cell(&mut left, cell, j);
        }
        j = j + 1;
    }
    assert(shown_cells(left@, cols as int) =~= kept(
        shown_cells(slices@, cols as int),
        from as int,
        to as int,
    ));
    left
}

/// The row that remains of the columns `from..to` of a row, if they show
/// anything.
fn keep_part(row: &PlanRow, from: usize, to: usize, wrapped: bool, cols: usize) -> (left: Option<
    PlanRow,
>)
    requires
        to <= cols,
    ensures
        part(row.model(cols as int), from as int, to as int, wrapped) == match left {
            Some(left) => seq![left.model(cols as int)],
            None => Seq::empty(),
        },
{
    let slices = keep_columns(&row.slices, from, to, cols);
    match find_first_cell(&slices, cols) {
        Some(cell) => Some(
            PlanRow {
                slices,
                wrapped,
                kind: ProjectedRowKind::Raw,
                source: Some(RowSource { row: cell.row, line: cell.line }),
            },
        ),
        None => None,
    }
}

/// Copies slices.
fn copy_slices(slices: &Vec<RawSlice>) -> (copied: Vec<RawSlice>)
    ensures
        copied@ == slices@,
{
    let mut copied: Vec<RawSlice> = Vec::new();
    let mut i: usize = 0;
    while i < slices.len()
        invariant
            i <= slices@.len(),
            copied@ == slices@.take(i as int),
        decreases slices.len() - i,
    {
        copied.push(slices[i]);
        i = i + 1;
        assert(copied@ =~= slices@.take(i as int));
    }
    assert(slices@.take(i as int) =~= slices@);
    copied
}

/// Ends the last row.
fn end_hard(rows: &mut Vec<Arc<PlanRow>>, cols: usize)
    ensures
        row_models(final(rows)@, cols as int) == hard_end(row_models(old(rows)@, cols as int)),
{
    let ghost before = rows@;
    let count: usize = rows.len();
    if count == 0 {
        return;
    }
    let row = {
        let last = &rows[count - 1];
        PlanRow {
            slices: copy_slices(&last.slices),
            wrapped: false,
            kind: last.kind,
            source: last.source,
        }
    };
    rows.pop();
    rows.push(Arc::new(row));
    assert(row_models(rows@, cols as int) =~= hard_end(row_models(before, cols as int)));
}

/// Folds an output; nothing where it touches no row.
pub fn fold(
    rows: &Vec<Arc<PlanRow>>,
    collapse: &ResolvedCollapse,
    policy_revision: u64,
    cols: usize,
) -> (result: Option<Vec<Arc<PlanRow>>>)
    ensures
        match result {
            Some(result) => first_touched(*collapse, row_models(rows@, cols as int), 0)
                < rows@.len() && row_models(result@, cols as int) == folded(
                row_models(rows@, cols as int),
                *collapse,
                policy_revision,
                cols as int,
            ),
            None => first_touched(*collapse, row_models(rows@, cols as int), 0) >= rows@.len()
                && folded(
                row_models(rows@, cols as int),
                *collapse,
                policy_revision,
                cols as int,
            ) == row_models(rows@, cols as int),
        },
{
    let ghost models = row_models(rows@, cols as int);
    let total: usize = rows.len();
    let mut first: usize = 0;
    while first < total && !row_touches(collapse, &rows[first], cols)
        invariant
            first <= total == rows@.len(),
            models == row_models(rows@, cols as int),
            first_touched(*collapse, models, 0) == first_touched(*collapse, models, first as int),
        decreases total - first,
    {
        first = first + 1;
    }
    if first == total {
        return None;
    }
    let mut end: usize = total;
    while end > first + 1 && !row_touches(collapse, &rows[end - 1], cols)
        invariant
            first < end <= total == rows@.len(),
            models == row_models(rows@, cols as int),
            touched_end(*collapse, models, total as int) == touched_end(
                *collapse,
                models,
                end as int,
            ),
        decreases end,
    {
        end = end - 1;
    }
    assert(touches(*collapse, models[first as int]));
    assert(touched_end(*collapse, models, total as int) == end);
    let mut result: Vec<Arc<PlanRow>> = Vec::new();
    append_rows(&mut result, rows, 0, first);
    assert(row_models(result@, cols as int) =~= models.take(first as int));
    let from: usize = find_first_hidden(collapse, &rows[first].slices, cols);
    let before = keep_part(&rows[first], 0, from, false, cols);
    let ghost head = models.take(first as int) + part(
        models[first as int],
        0,
        from as int,
        false,
    );
    if let Some(row) = before {
        let ghost prior = result@;
        result.push(Arc::new(row));
        assert(row_models(result@, cols as int) =~= row_models(prior, cols as int)
            + seq![row.model(cols as int)]);
    }
    assert(row_models(result@, cols as int) =~= head);
    end_hard(&mut result, cols);
    let ghost upper = result@;
    let summary = PlanRow {
        slices: Vec::new(),
        wrapped: false,
        kind: ProjectedRowKind::CollapsedSummary {
            key: SyntheticRowKey { zone_id: collapse.range.zone_id, policy_revision },
            hidden_range: collapse.range,
            hidden_rows: end - first,
        },
        source: None,
    };
    let ghost own = summary_row(*collapse, policy_revision, end - first, cols as int);
    assert(summary.model(cols as int).cells =~= own.cells);
    result.push(Arc::new(summary));
    assert(row_models(result@, cols as int) =~= row_models(upper, cols as int) + seq![own]);
    let to: usize = find_hidden_end(collapse, &rows[end - 1].slices, cols);
    let behind = keep_part(&rows[end - 1], to, cols, rows[end - 1].wrapped, cols);
    let ghost lower = part(
        models[end - 1],
        to as int,
        cols as int,
        models[end - 1].wrapped,
    );
    let ghost upper = result@;
    if let Some(row) = behind {
        result.push(Arc::new(row));
        assert(row_models(result@, cols as int) =~= row_models(upper, cols as int)
            + seq![row.model(cols as int)]);
    }
    assert(row_models(result@, cols as int) =~= row_models(upper, cols as int) + lower);
    let ghost prior = result@;
    append_rows(&mut result, rows, end, total);
    proof {
        let rest = rows@.subrange(end as int, total as int);
        lemma_models_add(prior, rest, cols as int);
        assert(row_models(rest, cols as int) =~= models.skip(end as int));
        assert(row_models(result@, cols as int) =~= row_models(upper, cols as int) + (lower
            + models.skip(end as int)));
    }
    Some(result)
}

} // verus!
