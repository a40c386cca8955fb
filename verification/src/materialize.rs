//! Fills a window of a projected document with cells.

use vstd::prelude::*;

use crate::cell::blank_cell;
use crate::cell::CellRole;
use crate::cell::Color;
use crate::cell::TerminalCell;
use crate::document::RawCellAnchor;
use crate::fold_laws::cells_once;
use crate::fold_laws::shows_cell_at;
use crate::geometry::append_projected_origin;
use crate::geometry::origin_at;
use crate::line_order::have_width;
use crate::plan::cell_shown;
use crate::plan::shown;
use crate::plan::PlanModel;
use crate::plan::PlanRow;
use crate::plan::PlanRowModel;
use crate::plan::ProjectionPlan;
use crate::plan::RowSource;
use crate::plan::SourceCell;
use crate::projection::OriginSpan;
use crate::projection::ProjectedRowKind;
use crate::projection::RawRowSource;
use crate::provenance::BufferAnchor;
use crate::spans::exact_origins;
use crate::spans::lemma_next_column;
use crate::spans::lemma_next_row;
use crate::spans::lemma_no_spans;
use crate::spans::lemma_origins_are_exact;
use crate::spans::lemma_spans_apart;
use crate::spans::maps_once;
use crate::spans::spans_apart;
use crate::spans::spans_end;
use crate::spans::spans_in_order;
use crate::state::TerminalState;

verus! {

/// A window of a projected document with its cells.
pub struct MaterializedProjection {
    pub cells: Vec<Vec<TerminalCell>>,
    pub row_wrapped: Vec<bool>,
    pub row_kinds: Vec<ProjectedRowKind>,
    pub row_sources: Vec<Option<RawRowSource>>,
    pub origins: Vec<OriginSpan>,
    pub document_start: usize,
    pub top_padding: usize,
}

/// The cell of the terminal that a document cell shows, while it is retained.
pub open spec fn source_cell(state: TerminalState, cell: SourceCell) -> Option<TerminalCell> {
    match state.absolute_of_line(cell.line) {
        Some(row) => {
            let cells = state.document()[row].cells;
            if cell.column < cells.len() {
                let found = cells[cell.column as int];
                Some(
                    if cell.narrow && found.flags.spec_wide() {
                        TerminalCell {
                            flags: found.flags.spec_with_role(CellRole::Single),
                            ..found
                        }
                    } else {
                        found
                    },
                )
            } else {
                None
            }
        },
        None => None,
    }
}

/// What a column of a document row looks like.
pub open spec fn shown_cell(state: TerminalState, cell: Option<SourceCell>) -> TerminalCell {
    match cell {
        Some(cell) => match source_cell(state, cell) {
            Some(found) => found,
            None => blank_cell(Color::Default),
        },
        None => blank_cell(Color::Default),
    }
}

/// Where a column of a document row comes from.
pub open spec fn shown_origin(state: TerminalState, cell: Option<SourceCell>) -> Option<
    RawCellAnchor,
> {
    match cell {
        Some(cell) => if source_cell(state, cell) is Some && cell.row.spec_is_tracked() {
            Some(RawCellAnchor { row_id: cell.row, column: cell.column })
        } else {
            None
        },
        None => None,
    }
}

/// The absolute row that a document row shows or continues.
pub open spec fn shown_source(state: TerminalState, source: Option<RowSource>) -> Option<
    RawRowSource,
> {
    match source {
        Some(source) => match state.absolute_of_line(source.line) {
            Some(row) => Some(
                RawRowSource { raw_row: source.row, raw_absolute_row: row as usize },
            ),
            None => None,
        },
        None => None,
    }
}

/// A blank row above a short document.
pub open spec fn padding_row(cols: int) -> PlanRowModel {
    PlanRowModel {
        cells: Seq::new(cols as nat, |j: int| None),
        wrapped: false,
        kind: ProjectedRowKind::Padding,
        source: None,
    }
}

/// How many rows of a document of `total` rows a window of `height` rows from
/// row `start` on shows.
pub open spec fn rows_shown(total: int, start: int, height: int) -> int {
    if total <= start {
        0
    } else if total - start < height {
        total - start
    } else {
        height
    }
}

/// The rows of a window, padded at the top.
pub open spec fn window_rows(plan: PlanModel, start: int, height: int) -> Seq<PlanRowModel> {
    let count = rows_shown(plan.rows.len() as int, start, height);
    Seq::new(
        height as nat,
        |r: int|
            if r < height - count {
                padding_row(plan.cols as int)
            } else {
                plan.rows[start + (r - (height - count))]
            },
    )
}

/// `window` shows `rows` of a document.
pub open spec fn shows_rows(
    state: TerminalState,
    rows: Seq<PlanRowModel>,
    cols: int,
    cells: Seq<Vec<TerminalCell>>,
    wrapped: Seq<bool>,
    kinds: Seq<ProjectedRowKind>,
    sources: Seq<Option<RawRowSource>>,
    origins: Seq<OriginSpan>,
) -> bool {
    &&& cells.len() == rows.len()
    &&& wrapped.len() == rows.len()
    &&& kinds.len() == rows.len()
    &&& sources.len() == rows.len()
    &&& forall|r: int|
        0 <= r < rows.len() ==> (#[trigger] cells[r])@ == Seq::new(
            cols as nat,
            |j: int| shown_cell(state, rows[r].cells[j]),
        )
    &&& forall|r: int| 0 <= r < rows.len() ==> #[trigger] wrapped[r] == rows[r].wrapped
    &&& forall|r: int| 0 <= r < rows.len() ==> #[trigger] kinds[r] == rows[r].kind
    &&& forall|r: int|
        0 <= r < rows.len() ==> #[trigger] sources[r] == shown_source(state, rows[r].source)
    &&& forall|r: int, j: int| #[trigger]
        origin_at(origins, r, j) == if 0 <= r < rows.len() && 0 <= j < cols {
            shown_origin(state, rows[r].cells[j])
        } else {
            None
        }
    &&& spans_in_order(origins, rows.len() as int, cols)
}

/// `shown` is the window of `height` rows from row `start` on.
pub open spec fn materialized(
    state: TerminalState,
    plan: PlanModel,
    start: int,
    height: int,
    shown: MaterializedProjection,
) -> bool {
    &&& shows_rows(
        state,
        window_rows(plan, start, height),
        plan.cols as int,
        shown.cells@,
        shown.row_wrapped@,
        shown.row_kinds@,
        shown.row_sources@,
        shown.origins@,
    )
    &&& shown.document_start == if start < plan.rows.len() {
        start
    } else {
        plan.rows.len() as int
    }
    &&& shown.top_padding == height - rows_shown(plan.rows.len() as int, start, height)
    &&& spans_apart(shown.origins@, height, plan.cols as int)
    &&& cells_once(plan.rows) ==> exact_origins(shown.origins@, height, plan.cols as int)
}

/// A window of a document that shows no cell twice maps no cell twice.
proof fn lemma_window_maps_once(
    state: TerminalState,
    plan: PlanModel,
    start: int,
    height: int,
    origins: Seq<OriginSpan>,
)
    requires
        0 <= start,
        0 <= height,
        have_width(plan.rows, plan.cols as int),
        cells_once(plan.rows),
        forall|r: int, j: int| #[trigger]
            origin_at(origins, r, j) == if 0 <= r < height && 0 <= j < plan.cols {
                shown_origin(state, window_rows(plan, start, height)[r].cells[j])
            } else {
                None
            },
    ensures
        maps_once(origins),
{
    let rows = window_rows(plan, start, height);
    let up = height - rows_shown(plan.rows.len() as int, start, height);
    assert forall|r: int, c: int, q: int, k: int|
        (#[trigger] origin_at(origins, r, c)) is Some && origin_at(origins, r, c)
            == #[trigger] origin_at(origins, q, k) implies r == q && c == k by {
        assert(rows[r].cells[c] is Some && rows[q].cells[k] is Some);
        let a = rows[r].cells[c]->0;
        let b = rows[q].cells[k]->0;
        assert(r >= up && q >= up);
        assert(rows[r] == plan.rows[start + (r - up)]);
        assert(rows[q] == plan.rows[start + (q - up)]);
        assert(shows_cell_at(plan.rows, start + (r - up), c, a));
        assert(shows_cell_at(plan.rows, start + (q - up), k, b));
    }
}

impl TerminalState {
    /// The cell of the terminal that a document cell shows, while it is
    /// retained.
    pub fn find_source_cell(&self, cell: &SourceCell) -> (found: Option<TerminalCell>)
        requires
            self.core_wf(),
        ensures
            found == source_cell(*self, *cell),
            found is Some ==> cell.column < usize::MAX,
    {
        let anchor = BufferAnchor { line_id: cell.line, column: cell.column };
        let (row, column) = match self.buffer_anchor_to_absolute(anchor) {
            Some(found) => found,
            None => return None,
        };
        let history: usize = self.scrollback.len();
        let found = if row < history {
            let line = &self.scrollback[row];
            assert(self.document()[row as int] == line@);
            if column >= line.cells.len() {
                return None;
            }
            line.cells[column]
        } else {
            assert(self.document()[row as int] == self.grid@[row - history]);
            if column >= self.grid.row_len() {
                return None;
            }
            self.grid.get(row - history, column)
        };
        if cell.narrow && found.flags.wide() {
            Some(TerminalCell { flags: found.flags.with_role(CellRole::Single), ..found })
        } else {
            Some(found)
        }
    }

    /// The absolute row that a document row shows or continues.
    fn find_source_row(&self, source: &Option<RowSource>) -> (found: Option<RawRowSource>)
        requires
            self.core_wf(),
        ensures
            found == shown_source(*self, *source),
    {
        match source {
            Some(source) => match self.buffer_anchor_to_absolute(
                BufferAnchor { line_id: source.line, column: 0 },
            ) {
                Some((row, _)) => Some(
                    RawRowSource { raw_row: source.row, raw_absolute_row: row },
                ),
                None => None,
            },
            None => None,
        }
    }

    /// Fills one row and records where its cells come from.
    fn materialize_row(
        &self,
        row: &PlanRow,
        cols: usize,
        index: usize,
        origins: &mut Vec<OriginSpan>,
    ) -> (cells: Vec<TerminalCell>)
        requires
            self.core_wf(),
        ensures
            cells@ == Seq::new(
                cols as nat,
                |j: int| shown_cell(*self, row.model(cols as int).cells[j]),
            ),
            (forall|r: int, j: int| r >= index ==> #[trigger] origin_at(old(origins)@, r, j) is None)
                ==> (forall|r: int, j: int| #[trigger]
                origin_at(final(origins)@, r, j) == if r == index && 0 <= j < cols {
                    shown_origin(*self, row.model(cols as int).cells[j])
                } else {
                    origin_at(old(origins)@, r, j)
                }),
            spans_in_order(old(origins)@, index as int, cols as int) ==> spans_in_order(
                final(origins)@,
                index + 1,
                cols as int,
            ),
    {
        let ghost before = origins@;
        let ghost fresh = forall|r: int, j: int|
            r >= index ==> #[trigger] origin_at(before, r, j) is None;
        let ghost model = row.model(cols as int);
        let ghost ordered = spans_in_order(before, index as int, cols as int);
        proof {
            if ordered {
                lemma_next_row(before, index as int, cols as int);
            }
        }
        let mut cells: Vec<TerminalCell> = Vec::new();
        let ghost all = Seq::new(cols as nat, |j: int| shown_cell(*self, model.cells[j]));
        let mut j: usize = 0;
        while j < cols
            invariant
                self.core_wf(),
                j <= cols,
                model == row.model(cols as int),
                all == Seq::new(cols as nat, |j: int| shown_cell(*self, model.cells[j])),
                cells@ == all.take(j as int),
                fresh == (forall|r: int, i: int|
                    r >= index ==> #[trigger] origin_at(before, r, i) is None),
                fresh ==> forall|r: int, i: int| #[trigger]
                    origin_at(origins@, r, i) == if r == index && 0 <= i < j {
                        shown_origin(*self, model.cells[i])
                    } else {
                        origin_at(before, r, i)
                    },
                ordered ==> spans_in_order(origins@, index + 1, cols as int) && spans_end(
                    origins@,
                    index as int,
                    j as int,
                ),
            decreases cols - j,
        {
            proof {
                if ordered {
                    lemma_next_column(origins@, index as int, j as int);
                }
            }
            let shown = cell_shown(&row.slices, j);
            assert(model.cells[j as int] == shown);
            let mut filled = TerminalCell::blank(Color::Default);
            if let Some(cell) = shown {
                if let Some(found) = self.find_source_cell(&cell) {
                    filled = found;
                    if cell.row.is_tracked() {
                        append_projected_origin(
                            origins,
                            index,
                            j,
                            RawCellAnchor { row_id: cell.row, column: cell.column },
                        );
                    }
                }
            }
            cells.push(filled);
            j = j + 1;
            assert(cells@ =~= all.take(j as int));
        }
        assert(all.take(j as int) =~= all);
        cells
    }

    /// Fills the window of `height` rows from document row `start` on.
    pub fn materialize_projection_plan(
        &self,
        plan: &ProjectionPlan,
        start: usize,
        height: usize,
    ) -> (shown: MaterializedProjection)
        requires
            self.core_wf(),
        ensures
            materialized(*self, plan@, start as int, height as int, shown),
    {
        let total: usize = plan.rows.len();
        let cols: usize = plan.cols;
        let document_start: usize = if start < total {
            start
        } else {
            total
        };
        let count: usize = if total - document_start < height {
            total - document_start
        } else {
            height
        };
        let padding: usize = height - count;
        let ghost target = window_rows(plan@, start as int, height as int);
        let mut cells: Vec<Vec<TerminalCell>> = Vec::new();
        let mut row_wrapped: Vec<bool> = Vec::new();
        let mut row_kinds: Vec<ProjectedRowKind> = Vec::new();
        let mut row_sources: Vec<Option<RawRowSource>> = Vec::new();
        let mut origins: Vec<OriginSpan> = Vec::new();
        let mut r: usize = 0;
        proof {
            assert(origins@ =~= Seq::empty());
            lemma_no_spans(0, cols as int);
        }
        while r < height
            invariant
                self.core_wf(),
                r <= height,
                total == plan.rows@.len(),
                cols == plan.cols,
                count <= height,
                padding == height - count,
                count == rows_shown(total as int, start as int, height as int),
                count > 0 ==> document_start == start && start + count <= total,
                target == window_rows(plan@, start as int, height as int),
                shows_rows(
                    *self,
                    target.take(r as int),
                    cols as int,
                    cells@,
                    row_wrapped@,
                    row_kinds@,
                    row_sources@,
                    origins@,
                ),
            decreases height - r,
        {
            let ghost before = (cells@, row_wrapped@, row_kinds@, row_sources@, origins@);
            let ghost rows = target.take(r as int);
            if r < padding {
                let blank: Vec<TerminalCell> = vec![TerminalCell::blank(Color::Default); cols];
                assert(target[r as int] == padding_row(cols as int));
                proof {
                    lemma_next_row(origins@, r as int, cols as int);
                }
                assert(blank@ =~= Seq::new(
                    cols as nat,
                    |j: int| shown_cell(*self, target[r as int].cells[j]),
                ));
                cells.push(blank);
                row_wrapped.push(false);
                row_kinds.push(ProjectedRowKind::Padding);
                row_sources.push(None);
            } else {
                let row = &plan.rows[document_start + (r - padding)];
                assert(target[r as int] == row.model(cols as int));
                let filled = self.materialize_row(row, cols, r, &mut origins);
                cells.push(filled);
                row_wrapped.push(row.wrapped);
                row_kinds.push(row.kind);
                row_sources.push(self.find_source_row(&row.source));
            }
            proof {
                let next = target.take(r + 1);
                assert(next =~= rows.push(target[r as int]));
                assert forall|q: int| 0 <= q < next.len() implies (#[trigger] cells@[q])@
                    == Seq::new(cols as nat, |j: int| shown_cell(*self, next[q].cells[j])) by {
                    if q < r {
                        assert(cells@[q] == before.0[q]);
                        assert(next[q] == rows[q]);
                    }
                }
                assert forall|q: int| 0 <= q < next.len() implies #[trigger] row_wrapped@[q]
                    == next[q].wrapped by {
                    if q < r {
                        assert(row_wrapped@[q] == before.1[q]);
                        assert(next[q] == rows[q]);
                    }
                }
                assert forall|q: int| 0 <= q < next.len() implies #[trigger] row_kinds@[q]
                    == next[q].kind by {
                    if q < r {
                        assert(row_kinds@[q] == before.2[q]);
                        assert(next[q] == rows[q]);
                    }
                }
                assert forall|q: int| 0 <= q < next.len() implies #[trigger] row_sources@[q]
                    == shown_source(*self, next[q].source) by {
                    if q < r {
                        assert(row_sources@[q] == before.3[q]);
                        assert(next[q] == rows[q]);
                    }
                }
                assert forall|q: int, j: int| #[trigger] origin_at(origins@, q, j) == if 0 <= q
                    < next.len() && 0 <= j < cols {
                    shown_origin(*self, next[q].cells[j])
                } else {
                    None
                } by {
                    if 0 <= q < r {
                        assert(next[q] == rows[q]);
                    }
                }
            }
            r = r + 1;
        }
        assert(target.take(r as int) =~= target);
        proof {
            lemma_spans_apart(origins@, height as int, cols as int);
            if cells_once(plan@.rows) {
                lemma_window_maps_once(
                    *self,
                    plan@,
                    start as int,
                    height as int,
                    origins@,
                );
                lemma_origins_are_exact(origins@, height as int, cols as int);
            }
        }
        MaterializedProjection {
            cells,
            row_wrapped,
            row_kinds,
            row_sources,
            origins,
            document_start,
            top_padding: padding,
        }
    }
}

} // verus!
