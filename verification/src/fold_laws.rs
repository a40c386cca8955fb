//! What folding does to a document: it hides the folded outputs, all of them
//! and nothing else.

use vstd::prelude::*;

use crate::folding::all_folded;
use crate::folding::first_cell;
use crate::folding::first_hidden;
use crate::folding::first_touched;
use crate::folding::folded;
use crate::folding::hard_end;
use crate::folding::hidden_end;
use crate::folding::hides;
use crate::folding::is_hidden;
use crate::folding::kept;
use crate::folding::part;
use crate::folding::summary_row;
use crate::folding::touched_end;
use crate::folding::touches;
use crate::line_order::cells_are_countable;
use crate::line_order::cells_are_raw;
use crate::line_order::documents_are_in_order;
use crate::line_order::have_width;
use crate::line_order::in_line_order;
use crate::line_order::lemma_first_cell;
use crate::line_order::marks;
use crate::line_order::marks_at;
use crate::line_order::place_before;
use crate::plan::PlanModel;
use crate::plan::PlanRowModel;
use crate::plan::ResolvedCollapse;
use crate::plan::RowSource;
use crate::plan::SourceCell;
use crate::planning::is_plan_of;
use crate::planning::plain_rows;
use crate::state::TerminalState;

verus! {

/// No column before the first hidden one hides anything.
pub proof fn lemma_first_hidden(
    collapse: ResolvedCollapse,
    cells: Seq<Option<SourceCell>>,
    from: int,
)
    requires
        0 <= from <= cells.len(),
    ensures
        from <= first_hidden(collapse, cells, from) <= cells.len(),
        forall|j: int|
            from <= j < first_hidden(collapse, cells, from) ==> !hides(collapse, cells, j),
        first_hidden(collapse, cells, from) < cells.len() ==> hides(
            collapse,
            cells,
            first_hidden(collapse, cells, from),
        ),
    decreases cells.len() - from,
{
    if from < cells.len() && !hides(collapse, cells, from) {
        lemma_first_hidden(collapse, cells, from + 1);
    }
}

/// No column from the end of the hidden ones on hides anything.
pub proof fn lemma_hidden_end(collapse: ResolvedCollapse, cells: Seq<Option<SourceCell>>, to: int)
    requires
        0 <= to <= cells.len(),
    ensures
        0 <= hidden_end(collapse, cells, to) <= to,
        forall|j: int| hidden_end(collapse, cells, to) <= j < to ==> !hides(collapse, cells, j),
        hidden_end(collapse, cells, to) > 0 ==> hides(
            collapse,
            cells,
            hidden_end(collapse, cells, to) - 1,
        ),
    decreases to,
{
    if to > 0 && !hides(collapse, cells, to - 1) {
        lemma_hidden_end(collapse, cells, to - 1);
    }
}

/// Only touched rows lie between the first and the last.
pub proof fn lemma_first_touched(collapse: ResolvedCollapse, rows: Seq<PlanRowModel>, from: int)
    requires
        0 <= from <= rows.len(),
    ensures
        from <= first_touched(collapse, rows, from) <= rows.len(),
        forall|r: int|
            from <= r < first_touched(collapse, rows, from) ==> !touches(
                collapse,
                #[trigger] rows[r],
            ),
        first_touched(collapse, rows, from) < rows.len() ==> touches(
            collapse,
            rows[first_touched(collapse, rows, from)],
        ),
    decreases rows.len() - from,
{
    if from < rows.len() && !touches(collapse, rows[from]) {
        lemma_first_touched(collapse, rows, from + 1);
    }
}

/// No row from the end of the touched ones on is touched.
pub proof fn lemma_touched_end(collapse: ResolvedCollapse, rows: Seq<PlanRowModel>, to: int)
    requires
        0 <= to <= rows.len(),
    ensures
        0 <= touched_end(collapse, rows, to) <= to,
        forall|r: int|
            touched_end(collapse, rows, to) <= r < to ==> !touches(collapse, #[trigger] rows[r]),
        touched_end(collapse, rows, to) > 0 ==> touches(
            collapse,
            rows[touched_end(collapse, rows, to) - 1],
        ),
    decreases to,
{
    if to > 0 && !touches(collapse, rows[to - 1]) {
        lemma_touched_end(collapse, rows, to - 1);
    }
}

/// Whether a row stands for the first cell that it shows.
pub open spec fn is_part(row: PlanRowModel) -> bool {
    &&& row.kind is Raw
    &&& first_cell(row.cells, 0) matches Some(cell) && row.source == Some(
        RowSource { row: cell.row, line: cell.line },
    )
}

/// What remains of a row shows the columns that were kept, and nothing of the
/// folded output where none of them does.
pub proof fn lemma_part(
    collapse: ResolvedCollapse,
    row: PlanRowModel,
    from: int,
    to: int,
    wrapped: bool,
)
    requires
        0 <= from,
        to <= row.cells.len(),
    ensures
        part(row, from, to, wrapped).len() <= 1,
        part(row, from, to, wrapped).len() == 1 ==> {
            let left = part(row, from, to, wrapped)[0];
            &&& left.cells == kept(row.cells, from, to)
            &&& left.kind is Raw
            &&& is_part(left)
        },
        part(row, from, to, wrapped).len() == 0 ==> forall|j: int|
            from <= j < to ==> (#[trigger] row.cells[j]) is None,
        (forall|j: int| from <= j < to ==> !hides(collapse, row.cells, j)) ==> (part(
            row,
            from,
            to,
            wrapped,
        ).len() == 1 ==> !touches(collapse, part(row, from, to, wrapped)[0])),
{
    let cells = kept(row.cells, from, to);
    lemma_first_cell(cells, 0);
    if first_cell(cells, 0) is None {
        assert forall|j: int| from <= j < to implies (#[trigger] row.cells[j]) is None by {
            assert(cells[j] is None);
        }
    }
    if (forall|j: int| from <= j < to ==> !hides(collapse, row.cells, j)) {
        lemma_first_hidden(collapse, cells, 0);
        let f = first_hidden(collapse, cells, 0);
        if f < cells.len() {
            assert(hides(collapse, cells, f));
            assert(hides(collapse, row.cells, f));
        }
    }
}

/// The parts of a folded document.
pub open spec fn upper_part(rows: Seq<PlanRowModel>, collapse: ResolvedCollapse) -> Seq<
    PlanRowModel,
> {
    let f = first_touched(collapse, rows, 0);
    hard_end(rows.take(f) + part(rows[f], 0, first_hidden(collapse, rows[f].cells, 0), false))
}

/// The rows below the summary of a folded output.
pub open spec fn lower_part(rows: Seq<PlanRowModel>, collapse: ResolvedCollapse, cols: int) -> Seq<
    PlanRowModel,
> {
    let e = touched_end(collapse, rows, rows.len() as int);
    part(
        rows[e - 1],
        hidden_end(collapse, rows[e - 1].cells, cols),
        cols,
        rows[e - 1].wrapped,
    ) + rows.skip(e)
}

/// A folded output is not shown: no row of the document is part of it any
/// more.
pub proof fn folded_output_is_hidden(
    rows: Seq<PlanRowModel>,
    collapse: ResolvedCollapse,
    policy_revision: u64,
    cols: int,
    i: int,
)
    requires
        have_width(rows, cols),
        0 <= i < folded(rows, collapse, policy_revision, cols).len(),
    ensures
        !touches(collapse, folded(rows, collapse, policy_revision, cols)[i]),
{
    let f = first_touched(collapse, rows, 0);
    let e = touched_end(collapse, rows, rows.len() as int);
    lemma_first_touched(collapse, rows, 0);
    lemma_touched_end(collapse, rows, rows.len() as int);
    if f < rows.len() {
        assert(e > f) by {
            if e <= f {
                assert(!touches(collapse, rows[f]));
            }
        }
        let fh = first_hidden(collapse, rows[f].cells, 0);
        let he = hidden_end(collapse, rows[e - 1].cells, cols);
        lemma_first_hidden(collapse, rows[f].cells, 0);
        lemma_hidden_end(collapse, rows[e - 1].cells, cols);
        lemma_part(collapse, rows[f], 0, fh, false);
        lemma_part(collapse, rows[e - 1], he, cols, rows[e - 1].wrapped);
        let head = rows.take(f) + part(rows[f], 0, fh, false);
        let upper = upper_part(rows, collapse);
        let lower = lower_part(rows, collapse, cols);
        let all = folded(rows, collapse, policy_revision, cols);
        assert(all == upper + seq![summary_row(collapse, policy_revision, e - f, cols)] + lower);
        if i < upper.len() {
            assert(all[i] == upper[i]);
            assert(upper[i].cells == head[i].cells && upper[i].kind == head[i].kind
                && upper[i].source == head[i].source);
            if i < f {
                assert(head[i] == rows[i]);
            }
        } else if i > upper.len() {
            let k = i - upper.len() - 1;
            assert(all[i] == lower[k]);
            let n = part(rows[e - 1], he, cols, rows[e - 1].wrapped).len();
            if k >= n {
                assert(lower[k] == rows[e + (k - n)]);
            }
        }
    }
}

/// Between two positions of a folded output everything is part of it.
proof fn lemma_between(
    collapse: ResolvedCollapse,
    a: (u64, usize),
    b: (u64, usize),
    c: (u64, usize),
)
    requires
        is_hidden(collapse, a.0, a.1),
        is_hidden(collapse, c.0, c.1),
        a == b || place_before(a, b),
        b == c || place_before(b, c),
    ensures
        is_hidden(collapse, b.0, b.1),
{
}

/// A touched row stands for a position of the folded output.
pub proof fn lemma_touched_mark(collapse: ResolvedCollapse, row: PlanRowModel) -> (place: (u64, usize))
    requires
        touches(collapse, row),
    ensures
        marks(row, place),
        is_hidden(collapse, place.0, place.1),
{
    match first_cell(row.cells, 0) {
        Some(_) => {
            lemma_first_hidden(collapse, row.cells, 0);
            let j = first_hidden(collapse, row.cells, 0);
            let cell = row.cells[j]->0;
            let place = (cell.line, cell.column);
            assert(marks_at(row.cells, j, place));
            place
        },
        None => (row.source->0.line, 0usize),
    }
}

/// Whether a document shows a cell in a column.
pub open spec fn shows_cell(rows: Seq<PlanRowModel>, cell: SourceCell, j: int) -> bool {
    exists|r: int| #[trigger] shows_cell_at(rows, r, j, cell)
}

/// Whether row `r` of a document shows a cell in a column.
pub open spec fn shows_cell_at(rows: Seq<PlanRowModel>, r: int, j: int, cell: SourceCell) -> bool {
    &&& 0 <= r < rows.len()
    &&& 0 <= j < rows[r].cells.len()
    &&& rows[r].cells[j] == Some(cell)
}

/// Whether no cell of a row with an identity is shown twice.
pub open spec fn cells_once(rows: Seq<PlanRowModel>) -> bool {
    forall|r: int, j: int, q: int, k: int, a: SourceCell, b: SourceCell|
        #[trigger] shows_cell_at(rows, r, j, a) && #[trigger] shows_cell_at(rows, q, k, b)
            && a.row.raw != 0 && a.row == b.row && a.column == b.column ==> r == q && j == k
}

/// A cell of a row is a position that the row stands for.
proof fn lemma_cell_mark(rows: Seq<PlanRowModel>, r: int, j: int)
    requires
        cells_are_raw(rows),
        0 <= r < rows.len(),
        0 <= j < rows[r].cells.len(),
        rows[r].cells[j] is Some,
    ensures
        ({
            let cell = rows[r].cells[j]->0;
            &&& marks(rows[r], (cell.line, cell.column))
            &&& marks_at(rows[r].cells, j, (cell.line, cell.column))
        }),
{
    let cell = rows[r].cells[j]->0;
    lemma_first_cell(rows[r].cells, 0);
    assert(first_cell(rows[r].cells, 0) is Some);
    assert(marks_at(rows[r].cells, j, (cell.line, cell.column)));
}

/// Folding an output keeps every other cell, in its column.
pub proof fn other_cells_stay(
    rows: Seq<PlanRowModel>,
    collapse: ResolvedCollapse,
    policy_revision: u64,
    cols: int,
    r: int,
    j: int,
    cell: SourceCell,
)
    requires
        have_width(rows, cols),
        cells_are_raw(rows),
        in_line_order(rows),
        shows_cell_at(rows, r, j, cell),
        !is_hidden(collapse, cell.line, cell.column),
    ensures
        shows_cell(folded(rows, collapse, policy_revision, cols), cell, j),
{
    let f = first_touched(collapse, rows, 0);
    let e = touched_end(collapse, rows, rows.len() as int);
    let all = folded(rows, collapse, policy_revision, cols);
    lemma_first_touched(collapse, rows, 0);
    lemma_touched_end(collapse, rows, rows.len() as int);
    if f >= rows.len() {
        assert(shows_cell_at(all, r, j, cell));
        return;
    }
    assert(e > f) by {
        if e <= f {
            assert(!touches(collapse, rows[f]));
        }
    }
    let fh = first_hidden(collapse, rows[f].cells, 0);
    let he = hidden_end(collapse, rows[e - 1].cells, cols);
    lemma_first_hidden(collapse, rows[f].cells, 0);
    lemma_hidden_end(collapse, rows[e - 1].cells, cols);
    lemma_part(collapse, rows[f], 0, fh, false);
    lemma_part(collapse, rows[e - 1], he, cols, rows[e - 1].wrapped);
    let before = part(rows[f], 0, fh, false);
    let behind = part(rows[e - 1], he, cols, rows[e - 1].wrapped);
    let head = rows.take(f) + before;
    let upper = upper_part(rows, collapse);
    let lower = lower_part(rows, collapse, cols);
    assert(all == upper + seq![summary_row(collapse, policy_revision, e - f, cols)] + lower);
    lemma_cell_mark(rows, r, j);
    let place = (cell.line, cell.column);
    if r < f {
        assert(upper[r].cells == head[r].cells);
        assert(head[r] == rows[r]);
        assert(all[r] == upper[r]);
        assert(shows_cell_at(all, r, j, cell));
    } else if r >= e {
        let at = upper.len() + 1 + behind.len() + (r - e);
        assert(lower[behind.len() + (r - e)] == rows[r]);
        assert(all[at] == rows[r]);
        assert(shows_cell_at(all, at, j, cell));
    } else {
        let a = lemma_touched_mark(collapse, rows[f]);
        let c = lemma_touched_mark(collapse, rows[e - 1]);
        if r == f && j < fh {
            if before.len() == 0 {
                assert(rows[f].cells[j] is None);
            }
            assert(upper[f].cells == head[f].cells);
            assert(head[f] == before[0]);
            assert(all[f] == upper[f]);
            assert(shows_cell_at(all, f, j, cell));
        } else if r == e - 1 && j >= he {
            if behind.len() == 0 {
                assert(rows[e - 1].cells[j] is None);
            }
            let at = upper.len() + 1;
            assert(lower[0] == behind[0]);
            assert(all[at as int] == behind[0]);
            assert(shows_cell_at(all, at as int, j, cell));
        } else {
            // Everything else lies between two positions of the output.
            let low = if r == f {
                lemma_cell_mark(rows, f, fh);
                let hidden = rows[f].cells[fh]->0;
                (hidden.line, hidden.column)
            } else {
                a
            };
            let high = if r == e - 1 {
                lemma_cell_mark(rows, e - 1, he - 1);
                let hidden = rows[e - 1].cells[he - 1]->0;
                (hidden.line, hidden.column)
            } else {
                c
            };
            lemma_between(collapse, low, place, high);
        }
    }
}

/// Where row `i` of a folded document comes from: the row of the document
/// before, or nothing for the summary.
spec fn came_from(rows: Seq<PlanRowModel>, collapse: ResolvedCollapse, cols: int, i: int) -> Option<
    int,
> {
    let f = first_touched(collapse, rows, 0);
    let e = touched_end(collapse, rows, rows.len() as int);
    let upper = upper_part(rows, collapse).len();
    let behind = part(
        rows[e - 1],
        hidden_end(collapse, rows[e - 1].cells, cols),
        cols,
        rows[e - 1].wrapped,
    ).len();
    if f >= rows.len() {
        Some(i)
    } else if i < upper {
        Some(i)
    } else if i == upper {
        None
    } else if i - upper - 1 < behind {
        Some(e - 1)
    } else {
        Some(e + (i - upper - 1 - behind))
    }
}

/// Each row of a folded document shows columns of the row that it comes from,
/// and stands for nothing else.
proof fn lemma_came_from(
    rows: Seq<PlanRowModel>,
    collapse: ResolvedCollapse,
    policy_revision: u64,
    cols: int,
    i: int,
)
    requires
        have_width(rows, cols),
        0 <= i < folded(rows, collapse, policy_revision, cols).len(),
    ensures
        ({
            let row = folded(rows, collapse, policy_revision, cols)[i];
            &&& row.cells.len() == cols
            &&& match came_from(rows, collapse, cols, i) {
                Some(r) => {
                    &&& 0 <= r < rows.len()
                    &&& forall|j: int|
                        0 <= j < cols && (#[trigger] row.cells[j]) is Some ==> row.cells[j]
                            == rows[r].cells[j]
                    &&& (row.cells == rows[r].cells && row.kind == rows[r].kind && row.source
                        == rows[r].source) || is_part(row)
                },
                None => row.kind is CollapsedSummary && row.source is None && first_cell(
                    row.cells,
                    0,
                ) is None,
            }
        }),
        cols >= 0,
{
    let f = first_touched(collapse, rows, 0);
    let e = touched_end(collapse, rows, rows.len() as int);
    let all = folded(rows, collapse, policy_revision, cols);
    lemma_first_touched(collapse, rows, 0);
    lemma_touched_end(collapse, rows, rows.len() as int);
    if rows.len() > 0 {
        assert(rows[0].cells.len() == cols);
    }
    if f < rows.len() {
        assert(e > f) by {
            if e <= f {
                assert(!touches(collapse, rows[f]));
            }
        }
        let fh = first_hidden(collapse, rows[f].cells, 0);
        let he = hidden_end(collapse, rows[e - 1].cells, cols);
        lemma_first_hidden(collapse, rows[f].cells, 0);
        lemma_hidden_end(collapse, rows[e - 1].cells, cols);
        lemma_part(collapse, rows[f], 0, fh, false);
        lemma_part(collapse, rows[e - 1], he, cols, rows[e - 1].wrapped);
        let head = rows.take(f) + part(rows[f], 0, fh, false);
        let upper = upper_part(rows, collapse);
        let lower = lower_part(rows, collapse, cols);
        let summary = summary_row(collapse, policy_revision, e - f, cols);
        assert(all == upper + seq![summary] + lower);
        lemma_first_cell(summary.cells, 0);
        if i < upper.len() {
            assert(all[i] == upper[i]);
            assert(upper[i].cells == head[i].cells && upper[i].kind == head[i].kind
                && upper[i].source == head[i].source);
            if i < f {
                assert(head[i] == rows[i]);
            }
        } else if i > upper.len() {
            let k = i - upper.len() - 1;
            assert(all[i] == lower[k]);
            let n = part(rows[e - 1], he, cols, rows[e - 1].wrapped).len();
            if k >= n {
                assert(lower[k] == rows[e + (k - n)]);
            }
        }
    }
}

/// What a row of a folded document stands for, the row that it comes from
/// stands for.
proof fn lemma_mark_came_from(
    rows: Seq<PlanRowModel>,
    collapse: ResolvedCollapse,
    policy_revision: u64,
    cols: int,
    i: int,
    place: (u64, usize),
)
    requires
        have_width(rows, cols),
        cells_are_raw(rows),
        0 <= i < folded(rows, collapse, policy_revision, cols).len(),
        marks(folded(rows, collapse, policy_revision, cols)[i], place),
    ensures
        came_from(rows, collapse, cols, i) is Some,
        marks(rows[came_from(rows, collapse, cols, i)->0], place),
{
    let row = folded(rows, collapse, policy_revision, cols)[i];
    lemma_came_from(rows, collapse, policy_revision, cols, i);
    let r = came_from(rows, collapse, cols, i)->0;
    if first_cell(row.cells, 0) is Some {
        let j = choose|j: int| #[trigger] marks_at(row.cells, j, place);
        assert(row.cells[j] == rows[r].cells[j]);
        assert(rows[r].cells.len() == cols);
        lemma_cell_mark(rows, r, j);
    }
}

/// Folding keeps a document in order.
proof fn lemma_order_stays(
    rows: Seq<PlanRowModel>,
    collapse: ResolvedCollapse,
    policy_revision: u64,
    cols: int,
)
    requires
        have_width(rows, cols),
        cells_are_raw(rows),
        in_line_order(rows),
    ensures
        have_width(folded(rows, collapse, policy_revision, cols), cols),
        cells_are_raw(folded(rows, collapse, policy_revision, cols)),
        in_line_order(folded(rows, collapse, policy_revision, cols)),
{
    let all = folded(rows, collapse, policy_revision, cols);
    assert forall|r: int| 0 <= r < all.len() implies (#[trigger] all[r]).cells.len() == cols by {
        lemma_came_from(rows, collapse, policy_revision, cols, r);
    }
    assert forall|r: int|
        0 <= r < all.len() && first_cell((#[trigger] all[r]).cells, 0) is Some implies all[r].kind
        is Raw by {
        lemma_came_from(rows, collapse, policy_revision, cols, r);
    }
    assert forall|r: int, i: int, j: int, p: (u64, usize), q: (u64, usize)|
        0 <= r < all.len() && i < j && #[trigger] marks_at(all[r].cells, i, p)
            && #[trigger] marks_at(all[r].cells, j, q) implies place_before(p, q) by {
        lemma_came_from(rows, collapse, policy_revision, cols, r);
        lemma_first_cell(all[r].cells, 0);
        let s = came_from(rows, collapse, cols, r)->0;
        assert(rows[s].cells.len() == cols);
        assert(marks_at(rows[s].cells, i, p) && marks_at(rows[s].cells, j, q));
    }
    assert forall|a: int, b: int, p: (u64, usize), q: (u64, usize)|
        0 <= a < b < all.len() && #[trigger] marks(all[a], p) && #[trigger] marks(
            all[b],
            q,
        ) implies place_before(p, q) by {
        lemma_mark_came_from(rows, collapse, policy_revision, cols, a, p);
        lemma_mark_came_from(rows, collapse, policy_revision, cols, b, q);
        lemma_parts_in_order(rows, collapse, policy_revision, cols, a, b, p, q);
    }
}

/// Rows of a folded document stand in the order of the rows that they come
/// from.
proof fn lemma_parts_in_order(
    rows: Seq<PlanRowModel>,
    collapse: ResolvedCollapse,
    policy_revision: u64,
    cols: int,
    a: int,
    b: int,
    p: (u64, usize),
    q: (u64, usize),
)
    requires
        have_width(rows, cols),
        cells_are_raw(rows),
        in_line_order(rows),
        0 <= a < b < folded(rows, collapse, policy_revision, cols).len(),
        marks(folded(rows, collapse, policy_revision, cols)[a], p),
        marks(folded(rows, collapse, policy_revision, cols)[b], q),
        came_from(rows, collapse, cols, a) is Some,
        came_from(rows, collapse, cols, b) is Some,
        marks(rows[came_from(rows, collapse, cols, a)->0], p),
        marks(rows[came_from(rows, collapse, cols, b)->0], q),
    ensures
        place_before(p, q),
{
    let f = first_touched(collapse, rows, 0);
    let e = touched_end(collapse, rows, rows.len() as int);
    let all = folded(rows, collapse, policy_revision, cols);
    lemma_first_touched(collapse, rows, 0);
    lemma_touched_end(collapse, rows, rows.len() as int);
    let ra = came_from(rows, collapse, cols, a)->0;
    let rb = came_from(rows, collapse, cols, b)->0;
    lemma_came_from(rows, collapse, policy_revision, cols, a);
    lemma_came_from(rows, collapse, policy_revision, cols, b);
    if f < rows.len() {
        assert(e > f) by {
            if e <= f {
                assert(!touches(collapse, rows[f]));
            }
        }
        let fh = first_hidden(collapse, rows[f].cells, 0);
        let he = hidden_end(collapse, rows[e - 1].cells, cols);
        lemma_first_hidden(collapse, rows[f].cells, 0);
        lemma_hidden_end(collapse, rows[e - 1].cells, cols);
        lemma_part(collapse, rows[f], 0, fh, false);
        lemma_part(collapse, rows[e - 1], he, cols, rows[e - 1].wrapped);
        let before = part(rows[f], 0, fh, false);
        let behind = part(rows[e - 1], he, cols, rows[e - 1].wrapped);
        let head = rows.take(f) + before;
        let upper = upper_part(rows, collapse);
        let lower = lower_part(rows, collapse, cols);
        assert(all == upper + seq![summary_row(collapse, policy_revision, e - f, cols)] + lower);
        if ra == rb {
            // Both are parts of the one row that the output lies on.
            assert(f == e - 1 && a == f && b == upper.len() + 1 && behind.len() == 1);
            assert(upper[a].cells == head[a].cells && head[a] == before[0]);
            assert(all[a] == upper[a]);
            assert(all[b] == lower[0] && lower[0] == behind[0]);
            let i = choose|i: int| #[trigger] marks_at(all[a].cells, i, p);
            let j = choose|j: int| #[trigger] marks_at(all[b].cells, j, q);
            assert(all[a].cells == kept(rows[f].cells, 0, fh));
            assert(all[b].cells == kept(rows[f].cells, he, cols));
            assert(i < fh);
            assert(he <= j);
            assert(fh < he) by {
                if he <= fh {
                    assert(touches(collapse, rows[f]));
                    lemma_first_cell(all[a].cells, 0);
                    lemma_first_cell(rows[f].cells, 0);
                    assert(rows[f].cells[i] is Some);
                    assert(fh < cols);
                    assert(hides(collapse, rows[f].cells, fh));
                }
            }
            assert(marks_at(rows[f].cells, i, p));
            assert(marks_at(rows[f].cells, j, q));
        } else {
            assert(ra < rb);
        }
    }
}

/// What a row of a folded document shows, the row that it comes from shows.
proof fn lemma_cell_came_from(
    rows: Seq<PlanRowModel>,
    collapse: ResolvedCollapse,
    policy_revision: u64,
    cols: int,
    i: int,
    j: int,
    cell: SourceCell,
)
    requires
        have_width(rows, cols),
        shows_cell_at(folded(rows, collapse, policy_revision, cols), i, j, cell),
    ensures
        came_from(rows, collapse, cols, i) is Some,
        shows_cell_at(rows, came_from(rows, collapse, cols, i)->0, j, cell),
{
    let all = folded(rows, collapse, policy_revision, cols);
    lemma_came_from(rows, collapse, policy_revision, cols, i);
    lemma_first_cell(all[i].cells, 0);
    let r = came_from(rows, collapse, cols, i)->0;
    assert(rows[r].cells.len() == cols);
    assert(all[i].cells[j] == rows[r].cells[j]);
}

/// Two rows of a folded document that come from one row share no column.
proof fn lemma_parts_share_nothing(
    rows: Seq<PlanRowModel>,
    collapse: ResolvedCollapse,
    policy_revision: u64,
    cols: int,
    a: int,
    b: int,
    j: int,
)
    requires
        have_width(rows, cols),
        0 <= a < b < folded(rows, collapse, policy_revision, cols).len(),
        came_from(rows, collapse, cols, a) is Some,
        came_from(rows, collapse, cols, a) == came_from(rows, collapse, cols, b),
        0 <= j < cols,
        folded(rows, collapse, policy_revision, cols)[a].cells[j] is Some,
    ensures
        folded(rows, collapse, policy_revision, cols)[b].cells[j] is None,
{
    let f = first_touched(collapse, rows, 0);
    let e = touched_end(collapse, rows, rows.len() as int);
    let all = folded(rows, collapse, policy_revision, cols);
    lemma_first_touched(collapse, rows, 0);
    lemma_touched_end(collapse, rows, rows.len() as int);
    if f < rows.len() {
        assert(e > f) by {
            if e <= f {
                assert(!touches(collapse, rows[f]));
            }
        }
        let fh = first_hidden(collapse, rows[f].cells, 0);
        let he = hidden_end(collapse, rows[e - 1].cells, cols);
        lemma_first_hidden(collapse, rows[f].cells, 0);
        lemma_hidden_end(collapse, rows[e - 1].cells, cols);
        lemma_part(collapse, rows[f], 0, fh, false);
        lemma_part(collapse, rows[e - 1], he, cols, rows[e - 1].wrapped);
        let before = part(rows[f], 0, fh, false);
        let behind = part(rows[e - 1], he, cols, rows[e - 1].wrapped);
        let head = rows.take(f) + before;
        let upper = upper_part(rows, collapse);
        let lower = lower_part(rows, collapse, cols);
        assert(all == upper + seq![summary_row(collapse, policy_revision, e - f, cols)] + lower);
        assert(f == e - 1 && a == f && b == upper.len() + 1 && behind.len() == 1);
        assert(upper[a].cells == head[a].cells && head[a] == before[0]);
        assert(all[a] == upper[a]);
        assert(all[b] == lower[0] && lower[0] == behind[0]);
        assert(all[a].cells == kept(rows[f].cells, 0, fh));
        assert(all[b].cells == kept(rows[f].cells, he, cols));
        assert(j < fh);
        assert(fh < he) by {
            if he <= fh {
                assert(touches(collapse, rows[f]));
                lemma_first_cell(rows[f].cells, 0);
                assert(rows[f].cells[j] is Some);
                assert(fh < cols);
                assert(hides(collapse, rows[f].cells, fh));
            }
        }
    }
}

/// Folding an output shows no cell twice.
proof fn lemma_once_stays(
    rows: Seq<PlanRowModel>,
    collapse: ResolvedCollapse,
    policy_revision: u64,
    cols: int,
)
    requires
        have_width(rows, cols),
        cells_once(rows),
    ensures
        have_width(folded(rows, collapse, policy_revision, cols), cols),
        cells_once(folded(rows, collapse, policy_revision, cols)),
{
    let all = folded(rows, collapse, policy_revision, cols);
    assert forall|r: int| 0 <= r < all.len() implies (#[trigger] all[r]).cells.len() == cols by {
        lemma_came_from(rows, collapse, policy_revision, cols, r);
    }
    assert forall|r: int, j: int, q: int, k: int, a: SourceCell, b: SourceCell|
        #[trigger] shows_cell_at(all, r, j, a) && #[trigger] shows_cell_at(all, q, k, b)
            && a.row.raw != 0 && a.row == b.row && a.column == b.column implies r == q && j
        == k by {
        lemma_cell_came_from(rows, collapse, policy_revision, cols, r, j, a);
        lemma_cell_came_from(rows, collapse, policy_revision, cols, q, k, b);
        assert(all[r].cells.len() == cols && all[q].cells.len() == cols);
        if r < q {
            lemma_parts_share_nothing(rows, collapse, policy_revision, cols, r, q, j);
        } else if q < r {
            lemma_parts_share_nothing(rows, collapse, policy_revision, cols, q, r, j);
        }
    }
}

/// Folding outputs shows no cell twice.
pub proof fn folding_shows_cells_once(
    rows: Seq<PlanRowModel>,
    collapses: Seq<ResolvedCollapse>,
    n: int,
    policy_revision: u64,
    cols: int,
)
    requires
        have_width(rows, cols),
        cells_once(rows),
        0 <= n <= collapses.len(),
    ensures
        have_width(all_folded(rows, collapses, n, policy_revision, cols), cols),
        cells_once(all_folded(rows, collapses, n, policy_revision, cols)),
    decreases n,
{
    if n > 0 {
        folding_shows_cells_once(rows, collapses, n - 1, policy_revision, cols);
        lemma_once_stays(
            all_folded(rows, collapses, n - 1, policy_revision, cols),
            collapses[n - 1],
            policy_revision,
            cols,
        );
    }
}

/// Folding shows nothing that was not shown before.
proof fn lemma_nothing_new(
    rows: Seq<PlanRowModel>,
    collapse: ResolvedCollapse,
    policy_revision: u64,
    cols: int,
    cell: SourceCell,
    j: int,
)
    requires
        have_width(rows, cols),
        cells_are_raw(rows),
        shows_cell(folded(rows, collapse, policy_revision, cols), cell, j),
    ensures
        shows_cell(rows, cell, j),
        !is_hidden(collapse, cell.line, cell.column),
{
    let all = folded(rows, collapse, policy_revision, cols);
    let i = choose|i: int| #[trigger] shows_cell_at(all, i, j, cell);
    lemma_came_from(rows, collapse, policy_revision, cols, i);
    lemma_first_cell(all[i].cells, 0);
    let r = came_from(rows, collapse, cols, i)->0;
    assert(rows[r].cells.len() == cols);
    assert(all[i].cells[j] == rows[r].cells[j]);
    assert(shows_cell_at(rows, r, j, cell));
    folded_output_is_hidden(rows, collapse, policy_revision, cols, i);
    if is_hidden(collapse, cell.line, cell.column) {
        lemma_first_hidden(collapse, all[i].cells, 0);
        lemma_first_cell(rows[r].cells, 0);
        assert(hides(collapse, all[i].cells, j));
        assert(touches(collapse, all[i]));
    }
}

/// Folding several outputs hides their cells, all of them and no others; what
/// remains stays in its columns and in order.
pub proof fn folding_hides_outputs_alone(
    rows: Seq<PlanRowModel>,
    collapses: Seq<ResolvedCollapse>,
    n: int,
    policy_revision: u64,
    cols: int,
)
    requires
        have_width(rows, cols),
        cells_are_raw(rows),
        in_line_order(rows),
        0 <= n <= collapses.len(),
    ensures
        have_width(all_folded(rows, collapses, n, policy_revision, cols), cols),
        cells_are_raw(all_folded(rows, collapses, n, policy_revision, cols)),
        in_line_order(all_folded(rows, collapses, n, policy_revision, cols)),
        forall|cell: SourceCell, j: int| #[trigger]
            shows_cell(all_folded(rows, collapses, n, policy_revision, cols), cell, j) <==> (
            shows_cell(rows, cell, j) && forall|k: int|
                0 <= k < n ==> !is_hidden(#[trigger] collapses[k], cell.line, cell.column)),
    decreases n,
{
    if n > 0 {
        folding_hides_outputs_alone(rows, collapses, n - 1, policy_revision, cols);
        let before = all_folded(rows, collapses, n - 1, policy_revision, cols);
        let last = collapses[n - 1];
        let all = all_folded(rows, collapses, n, policy_revision, cols);
        assert(all == folded(before, last, policy_revision, cols));
        lemma_order_stays(before, last, policy_revision, cols);
        assert forall|cell: SourceCell, j: int| #[trigger] shows_cell(all, cell, j) <==> (
        shows_cell(rows, cell, j) && forall|k: int|
            0 <= k < n ==> !is_hidden(#[trigger] collapses[k], cell.line, cell.column)) by {
            if shows_cell(all, cell, j) {
                lemma_nothing_new(before, last, policy_revision, cols, cell, j);
                assert(shows_cell(before, cell, j));
            }
            if shows_cell(rows, cell, j) && forall|k: int|
                0 <= k < n ==> !is_hidden(#[trigger] collapses[k], cell.line, cell.column) {
                assert(shows_cell(before, cell, j));
                let r = choose|r: int| #[trigger] shows_cell_at(before, r, j, cell);
                assert(!is_hidden(last, cell.line, cell.column));
                other_cells_stay(before, last, policy_revision, cols, r, j, cell);
            }
        }
    }
}

/// Whether rows show nothing before the line `limit`.
pub open spec fn begin_at(rows: Seq<PlanRowModel>, limit: int) -> bool {
    &&& forall|r: int|
        0 <= r < rows.len() && (#[trigger] rows[r]).source is Some ==> limit
            <= rows[r].source->0.line
    &&& forall|r: int, j: int|
        0 <= r < rows.len() && 0 <= j < rows[r].cells.len() && (#[trigger] rows[r].cells[j]) is Some
            ==> limit <= rows[r].cells[j]->0.line
}

/// A document that shows nothing before a line still does so when it is
/// folded.
pub proof fn lemma_begin_at(
    rows: Seq<PlanRowModel>,
    collapses: Seq<ResolvedCollapse>,
    n: int,
    policy_revision: u64,
    cols: int,
    limit: int,
)
    requires
        have_width(rows, cols),
        cells_are_raw(rows),
        in_line_order(rows),
        begin_at(rows, limit),
        0 <= n <= collapses.len(),
    ensures
        begin_at(all_folded(rows, collapses, n, policy_revision, cols), limit),
    decreases n,
{
    if n > 0 {
        lemma_begin_at(rows, collapses, n - 1, policy_revision, cols, limit);
        folding_hides_outputs_alone(rows, collapses, n - 1, policy_revision, cols);
        let before = all_folded(rows, collapses, n - 1, policy_revision, cols);
        let last = collapses[n - 1];
        let all = folded(before, last, policy_revision, cols);
        assert forall|r: int, j: int|
            0 <= r < all.len() && 0 <= j < all[r].cells.len() && (
            #[trigger] all[r].cells[j]) is Some implies limit <= all[r].cells[j]->0.line by {
            lemma_came_from(before, last, policy_revision, cols, r);
            lemma_first_cell(all[r].cells, 0);
            let s = came_from(before, last, cols, r)->0;
            assert(before[s].cells.len() == cols);
            assert(all[r].cells[j] == before[s].cells[j]);
        }
        assert forall|r: int| 0 <= r < all.len() && (#[trigger] all[r]).source is Some implies limit
            <= all[r].source->0.line by {
            lemma_came_from(before, last, policy_revision, cols, r);
            lemma_first_cell(all[r].cells, 0);
            match came_from(before, last, cols, r) {
                Some(s) => {
                    if is_part(all[r]) {
                        let cell = first_cell(all[r].cells, 0)->0;
                        let j = choose|j: int|
                            0 <= j < all[r].cells.len() && #[trigger] all[r].cells[j] == Some(cell);
                        assert(all[r].cells[j] is Some);
                    } else {
                        assert(before[s].source is Some);
                    }
                },
                None => {},
            }
        }
    }
}

/// The document of a terminal with outputs folded shows what the document that
/// folds nothing shows, each cell in its column and all in the order of the
/// lines, except the cells of the outputs, which it does not show.
pub proof fn plans_hide_outputs_alone(
    state: TerminalState,
    cols: usize,
    collapses: Seq<ResolvedCollapse>,
    policy_revision: u64,
    plan: PlanModel,
)
    requires
        state.core_wf(),
        cols >= 1,
        is_plan_of(state, cols, collapses, policy_revision, plan),
        state.total_lines_scrolled + state.grid@.len() <= u64::MAX,
    ensures
        in_line_order(plan.rows),
        forall|cell: SourceCell, j: int| #[trigger]
            shows_cell(plan.rows, cell, j) <==> (shows_cell(plain_rows(state, cols), cell, j)
                && forall|k: int|
                0 <= k < collapses.len() ==> !is_hidden(
                    #[trigger] collapses[k],
                    cell.line,
                    cell.column,
                )),
{
    lemma_countable(state);
    documents_are_in_order(
        state.history(),
        state.grid@,
        state.first_line_id() as u64,
        cols as int,
    );
    folding_hides_outputs_alone(
        plain_rows(state, cols),
        collapses,
        collapses.len() as int,
        policy_revision,
        cols as int,
    );
}

/// The lengths of rows are numbers of the machine.
pub proof fn lemma_countable(state: TerminalState)
    ensures
        cells_are_countable(state.history()),
{
    assert forall|r: int| 0 <= r < state.history().len() implies (
    #[trigger] state.history()[r]).cells.len() <= usize::MAX by {
        assert(state.scrollback@[r].cells.len() <= usize::MAX);
    }
}

} // verus!
