//! Projected views.

use std::sync::Arc;
use vstd::prelude::*;

use crate::cell::TerminalCell;
use crate::document::RawCellAnchor;
use crate::geometry::display_of;
use crate::geometry::origin_at;
use crate::grid::RawRowId;
use crate::plan::capped_sum;
use crate::projection::DisplayPoint;
use crate::projection::OriginSpan;
use crate::projection::ProjectedRowKind;
use crate::projection::ProjectedTopAnchor;
use crate::projection::ProjectionCacheKey;
use crate::projection::ProjectionMode;
use crate::projection::ProjectionViewState;
use crate::projection::RawRowSource;
use crate::spans::exact_origins;
use crate::view::clamped;
use crate::view::rows_view;
use crate::view::share;
use crate::words::is_uniform;

verus! {

/// What a view shows and where it has that from.
pub struct ViewportData {
    pub key: ProjectionCacheKey,
    pub cells: Arc<Vec<Vec<TerminalCell>>>,
    pub row_wrapped: Vec<bool>,
    pub row_kinds: Vec<ProjectedRowKind>,
    pub row_sources: Vec<Option<RawRowSource>>,
    pub origins: Vec<OriginSpan>,
    pub cursor: DisplayPoint,
    pub document_rows: usize,
    pub document_start: usize,
    pub top_padding: usize,
    pub effective_collapsed: Vec<u64>,
}

/// A view of the terminal; copies share their contents.
pub struct ProjectedViewport {
    pub data: Arc<ViewportData>,
}

impl ProjectedViewport {
    /// The rows have one width, each has its metadata, and cells and where
    /// they come from lead to each other.
    pub open spec fn wf(self) -> bool {
        let height = self.data.cells@.len();
        &&& is_uniform(rows_view(self.data.cells@))
        &&& self.data.row_wrapped@.len() == height
        &&& self.data.row_kinds@.len() == height
        &&& self.data.row_sources@.len() == height
        &&& exact_origins(self.data.origins@, height as int, self.data.key.columns as int)
    }
}

/// Whether any span lies on row `row` of a view.
pub open spec fn has_origin(origins: Seq<OriginSpan>, row: int) -> bool {
    exists|i: int| 0 <= i < origins.len() && #[trigger] on_row(origins[i], row)
}

/// Whether a span lies on row `row` of a view.
pub open spec fn on_row(span: OriginSpan, row: int) -> bool {
    span.display_start.row == row && span.len > 0
}

/// The first and the last column with a span on row `row`, by the first `n`
/// spans.
pub open spec fn origin_bounds(origins: Seq<OriginSpan>, row: int, n: int) -> Option<(int, int)>
    decreases n,
{
    if n <= 0 {
        None
    } else {
        let earlier = origin_bounds(origins, row, n - 1);
        let span = origins[n - 1];
        if !on_row(span, row) {
            earlier
        } else {
            let first = span.display_start.column as int;
            let last = capped_sum(span.display_start.column, span.len - 1) as int;
            match earlier {
                Some((a, b)) => Some(
                    (
                        if first < a {
                            first
                        } else {
                            a
                        },
                        if last > b {
                            last
                        } else {
                            b
                        },
                    ),
                ),
                None => Some((first, last)),
            }
        }
    }
}

/// The first span on row `row`.
pub open spec fn first_on_row(origins: Seq<OriginSpan>, row: int, from: int) -> Option<OriginSpan>
    decreases origins.len() - from,
{
    if from >= origins.len() {
        None
    } else if on_row(origins[from], row) {
        Some(origins[from])
    } else {
        first_on_row(origins, row, from + 1)
    }
}

/// The first row of a view, from `from` on, that shows physical row `id`.
pub open spec fn first_of_row(sources: Seq<Option<RawRowSource>>, id: RawRowId, from: int) -> int
    decreases sources.len() - from,
{
    if from < sources.len() && !shows_row(sources[from], id) {
        first_of_row(sources, id, from + 1)
    } else {
        from
    }
}

/// The row behind the last one before `to` that shows physical row `id`.
pub open spec fn end_of_row(sources: Seq<Option<RawRowSource>>, id: RawRowId, to: int) -> int
    decreases to,
{
    if to > 0 && !shows_row(sources[to - 1], id) {
        end_of_row(sources, id, to - 1)
    } else {
        to
    }
}

/// Whether a row of a view shows physical row `id`.
pub open spec fn shows_row(source: Option<RawRowSource>, id: RawRowId) -> bool {
    source matches Some(source) && source.raw_row == id
}

impl ProjectedViewport {
    /// Whether the view is of a document with folded outputs.
    pub open spec fn transformed(self) -> bool {
        self.data.key.mode == ProjectionMode::Transformed
    }

    /// Whether row `row` is a blank row of the terminal that can be found
    /// again.
    pub open spec fn is_blank_raw_row(self, row: int) -> bool {
        &&& 0 <= row < self.data.row_kinds@.len()
        &&& self.data.row_kinds@[row] is Raw
        &&& row < self.data.row_sources@.len()
        &&& self.data.row_sources@[row] matches Some(source) && source.raw_row.spec_is_tracked()
    }

    /// The first and the last selectable column of row `row`.
    pub open spec fn selectable(self, row: int) -> Option<(int, int)> {
        let bounds = origin_bounds(self.data.origins@, row, self.data.origins@.len() as int);
        if bounds is Some {
            bounds
        } else if self.is_blank_raw_row(row) && self.data.key.columns > 0 {
            Some((0, self.data.key.columns - 1))
        } else {
            None
        }
    }

    /// The document row of row `row` of the view.
    pub open spec fn document_row(self, row: int) -> Option<int> {
        if self.data.top_padding <= row < self.data.cells@.len() && self.data.document_start
            + (row - self.data.top_padding) <= usize::MAX {
            Some(self.data.document_start + (row - self.data.top_padding))
        } else {
            None
        }
    }

    /// What the top row of the view can be held by.
    pub open spec fn top_anchor(self) -> Option<ProjectedTopAnchor> {
        let top = self.data.top_padding as int;
        if top >= self.data.row_kinds@.len() {
            None
        } else {
            match self.data.row_kinds@[top] {
                ProjectedRowKind::CollapsedSummary { key, hidden_range, .. } => Some(
                    ProjectedTopAnchor::Summary { zone_id: key.zone_id, hidden_range },
                ),
                _ => match first_on_row(self.data.origins@, top, 0) {
                    Some(span) => Some(ProjectedTopAnchor::RawCell(span.raw_start)),
                    None => if self.is_blank_raw_row(top) {
                        Some(
                            ProjectedTopAnchor::RawRow(self.data.row_sources@[top]->0.raw_row),
                        )
                    } else {
                        None
                    },
                },
            }
        }
    }

    /// The same view once more.
    pub fn copy(&self) -> (copied: ProjectedViewport)
        ensures
            copied == *self,
    {
        ProjectedViewport { data: share(&self.data) }
    }

    /// Whether the view is of a document with folded outputs.
    pub fn is_transformed(&self) -> (yes: bool)
        ensures
            yes == self.transformed(),
    {
        self.data.key.mode == ProjectionMode::Transformed
    }

    /// Everything that the view depends on.
    pub fn key(&self) -> (key: ProjectionCacheKey)
        ensures
            key == self.data.key,
    {
        self.data.key
    }

    /// The cells.
    pub fn cells(&self) -> (cells: &Vec<Vec<TerminalCell>>)
        ensures
            cells@ == self.data.cells@,
    {
        &self.data.cells
    }

    /// The cells, shared.
    pub fn cells_arc(&self) -> (cells: Arc<Vec<Vec<TerminalCell>>>)
        ensures
            cells == self.data.cells,
    {
        share(&self.data.cells)
    }

    /// Which rows continue on the next.
    pub fn row_wrapped(&self) -> (wrapped: &Vec<bool>)
        ensures
            wrapped@ == self.data.row_wrapped@,
    {
        &self.data.row_wrapped
    }

    /// What the rows are.
    pub fn row_kinds(&self) -> (kinds: &Vec<ProjectedRowKind>)
        ensures
            kinds@ == self.data.row_kinds@,
    {
        &self.data.row_kinds
    }

    /// What row `row` is.
    pub fn row_kind(&self, row: usize) -> (kind: Option<ProjectedRowKind>)
        ensures
            kind == if row < self.data.row_kinds@.len() {
                Some(self.data.row_kinds@[row as int])
            } else {
                None
            },
    {
        if row < self.data.row_kinds.len() {
            Some(self.data.row_kinds[row])
        } else {
            None
        }
    }

    /// The physical row that row `row` shows or continues.
    pub fn row_source_at(&self, row: usize) -> (source: Option<RawRowSource>)
        ensures
            source == if row < self.data.row_sources@.len() {
                self.data.row_sources@[row as int]
            } else {
                None
            },
    {
        if row < self.data.row_sources.len() {
            self.data.row_sources[row]
        } else {
            None
        }
    }

    /// The absolute row that row `row` shows or continues.
    pub fn view_row_absolute(&self, row: usize) -> (absolute: Option<usize>)
        ensures
            absolute == if row < self.data.row_sources@.len() {
                match self.data.row_sources@[row as int] {
                    Some(source) => Some(source.raw_absolute_row),
                    None => None,
                }
            } else {
                None
            },
    {
        match self.row_source_at(row) {
            Some(source) => Some(source.raw_absolute_row),
            None => None,
        }
    }

    /// Whether row `row` shows cells of a physical row.
    pub fn row_has_origin(&self, row: usize) -> (yes: bool)
        ensures
            yes == has_origin(self.data.origins@, row as int),
    {
        let ghost origins = self.data.origins@;
        let mut i: usize = 0;
        while i < self.data.origins.len()
            invariant
                i <= origins.len(),
                origins == self.data.origins@,
                forall|k: int| 0 <= k < i ==> !(#[trigger] on_row(origins[k], row as int)),
            decreases self.data.origins@.len() - i,
        {
            let span = self.data.origins[i];
            if span.display_start.row == row && span.len > 0 {
                assert(on_row(origins[i as int], row as int));
                return true;
            }
            i = i + 1;
        }
        false
    }

    /// The cell of a physical row that a cell of the view shows.
    pub fn raw_anchor_at(&self, point: DisplayPoint) -> (anchor: Option<RawCellAnchor>)
        ensures
            anchor == origin_at(self.data.origins@, point.row as int, point.column as int),
    {
        let ghost all = self.data.origins@;
        let mut i: usize = self.data.origins.len();
        assert(all.take(i as int) =~= all);
        while i > 0
            invariant
                i <= all.len(),
                all == self.data.origins@,
                origin_at(all, point.row as int, point.column as int) == origin_at(
                    all.take(i as int),
                    point.row as int,
                    point.column as int,
                ),
            decreases i,
        {
            i = i - 1;
            let span = self.data.origins[i];
            assert(all.take(i + 1).last() == span);
            assert(all.take(i + 1).drop_last() =~= all.take(i as int));
            if span.display_start.row == point.row && span.display_start.column <= point.column
                && point.column - span.display_start.column < span.len {
                return Some(
                    RawCellAnchor {
                        row_id: span.raw_start.row_id,
                        column: span.raw_start.column.saturating_add(
                            point.column - span.display_start.column,
                        ),
                    },
                );
            }
        }
        assert(all.take(0).len() == 0);
        None
    }

    /// The cell of the view that shows a cell of a physical row.
    pub fn display_point_for(&self, anchor: RawCellAnchor) -> (point: Option<DisplayPoint>)
        ensures
            point == display_of(self.data.origins@, anchor),
    {
        find_display(&self.data.origins, anchor)
    }

    /// The first and the last row of the view that show physical row `id`.
    pub fn raw_row_view_bounds(&self, id: RawRowId) -> (bounds: Option<(usize, usize)>)
        ensures
            ({
                let sources = self.data.row_sources@;
                let first = first_of_row(sources, id, 0);
                match bounds {
                    Some((a, b)) => a == first && a < sources.len() && b == end_of_row(
                        sources,
                        id,
                        sources.len() as int,
                    ) - 1,
                    None => first >= sources.len(),
                }
            }),
    {
        let ghost sources = self.data.row_sources@;
        let total: usize = self.data.row_sources.len();
        let mut first: usize = 0;
        while first < total && !row_shows(&self.data.row_sources[first], id)
            invariant
                first <= total == sources.len(),
                sources == self.data.row_sources@,
                first_of_row(sources, id, 0) == first_of_row(sources, id, first as int),
            decreases total - first,
        {
            first = first + 1;
        }
        if first == total {
            return None;
        }
        let mut end: usize = total;
        while end > first + 1 && !row_shows(&self.data.row_sources[end - 1], id)
            invariant
                first < end <= total == sources.len(),
                sources == self.data.row_sources@,
                end_of_row(sources, id, total as int) == end_of_row(sources, id, end as int),
            decreases end,
        {
            end = end - 1;
        }
        Some((first, end - 1))
    }

    /// The first and the last selectable column of row `row`.
    pub fn real_column_bounds(&self, row: usize) -> (bounds: Option<(usize, usize)>)
        ensures
            match (self.selectable(row as int), bounds) {
                (Some((a, b)), Some((first, last))) => first == a && last == b,
                (None, None) => true,
                _ => false,
            },
    {
        let ghost origins = self.data.origins@;
        let mut bounds: Option<(usize, usize)> = None;
        let mut i: usize = 0;
        while i < self.data.origins.len()
            invariant
                i <= origins.len(),
                origins == self.data.origins@,
                match (origin_bounds(origins, row as int, i as int), bounds) {
                    (Some((a, b)), Some((first, last))) => first == a && last == b,
                    (None, None) => true,
                    _ => false,
                },
            decreases self.data.origins@.len() - i,
        {
            let span = self.data.origins[i];
            if span.display_start.row == row && span.len > 0 {
                let first: usize = span.display_start.column;
                let last: usize = first.saturating_add(span.len - 1);
                bounds = match bounds {
                    Some((a, b)) => Some(
                        (
                            if first < a {
                                first
                            } else {
                                a
                            },
                            if last > b {
                                last
                            } else {
                                b
                            },
                        ),
                    ),
                    None => Some((first, last)),
                };
            }
            i = i + 1;
        }
        if bounds.is_some() {
            return bounds;
        }
        if self.is_blank_raw(row) && self.data.key.columns > 0 {
            return Some((0, self.data.key.columns - 1));
        }
        None
    }

    /// Whether row `row` is a row of the terminal that can be found again.
    pub fn is_blank_raw(&self, row: usize) -> (yes: bool)
        ensures
            yes == self.is_blank_raw_row(row as int),
    {
        match (self.row_kind(row), self.row_source_at(row)) {
            (Some(ProjectedRowKind::Raw), Some(source)) => source.raw_row.is_tracked(),
            _ => false,
        }
    }

    /// The document row of row `row` of the view.
    pub fn view_document_row(&self, row: usize) -> (document_row: Option<usize>)
        ensures
            match (self.document_row(row as int), document_row) {
                (Some(expected), Some(found)) => found == expected,
                (None, None) => true,
                _ => false,
            },
    {
        if row < self.data.top_padding || row >= self.data.cells.len() {
            return None;
        }
        self.data.document_start.checked_add(row - self.data.top_padding)
    }

    /// The absolute row that row `row` shows where rows of the view are rows
    /// of the terminal.
    pub fn legacy_absolute_row(&self, row: usize) -> (absolute: usize)
        ensures
            absolute == self.plain_absolute_row(row),
    {
        self.view_base().saturating_add(row)
    }

    /// The absolute row of the first row where rows of the view are rows of
    /// the terminal.
    pub fn view_base(&self) -> (base: usize)
        ensures
            base == self.base(),
    {
        if self.data.key.scroll_offset < self.data.key.scrollback_len {
            self.data.key.scrollback_len - self.data.key.scroll_offset
        } else {
            0
        }
    }

    /// The absolute row of the first row where rows of the view are rows of
    /// the terminal.
    pub open spec fn base(self) -> int {
        if self.data.key.scroll_offset < self.data.key.scrollback_len {
            self.data.key.scrollback_len - self.data.key.scroll_offset
        } else {
            0
        }
    }

    /// The absolute row that row `row` shows where rows of the view are rows
    /// of the terminal.
    pub open spec fn plain_absolute_row(self, row: usize) -> usize {
        capped_sum(row, self.base())
    }

    /// Number of the plan that the view was made through.
    pub fn plan_revision(&self) -> (revision: Option<u64>)
        ensures
            revision == self.plan_number(),
    {
        if self.is_transformed() && self.data.key.projection_revision != 0 {
            Some(self.data.key.projection_revision)
        } else {
            None
        }
    }

    /// Number of the plan that the view was made through.
    pub open spec fn plan_number(self) -> Option<u64> {
        if self.transformed() && self.data.key.projection_revision != 0 {
            Some(self.data.key.projection_revision)
        } else {
            None
        }
    }

    /// Height of the document.
    pub fn document_rows(&self) -> (rows: usize)
        ensures
            rows == self.data.document_rows,
    {
        self.data.document_rows
    }

    /// The document row at the top of the view, below the padding.
    pub fn document_start(&self) -> (row: usize)
        ensures
            row == self.data.document_start,
    {
        self.data.document_start
    }

    /// How many blank rows stand above a short document.
    pub fn top_padding(&self) -> (rows: usize)
        ensures
            rows == self.data.top_padding,
    {
        self.data.top_padding
    }

    /// How far the view can be scrolled back.
    pub fn max_scroll_offset(&self) -> (offset: usize)
        ensures
            offset == self.scroll_limit(),
    {
        if self.data.cells.len() < self.data.document_rows {
            self.data.document_rows - self.data.cells.len()
        } else {
            0
        }
    }

    /// How far the view can be scrolled back.
    pub open spec fn scroll_limit(self) -> int {
        if self.data.cells@.len() < self.data.document_rows {
            self.data.document_rows - self.data.cells@.len()
        } else {
            0
        }
    }

    /// How far the view is scrolled back.
    pub fn scroll_offset(&self) -> (offset: usize)
        ensures
            offset == self.data.key.scroll_offset,
    {
        self.data.key.scroll_offset
    }

    /// How many rows of history there are.
    pub fn history_len(&self) -> (len: usize)
        ensures
            len == self.data.key.scrollback_len,
    {
        self.data.key.scrollback_len
    }

    /// Height of the document.
    pub fn total_lines(&self) -> (lines: usize)
        ensures
            lines == self.data.document_rows,
    {
        self.data.document_rows
    }

    /// Height of the view.
    pub fn rows(&self) -> (rows: usize)
        ensures
            rows == self.data.cells@.len(),
    {
        self.data.cells.len()
    }

    /// Width of the view.
    pub fn columns(&self) -> (columns: usize)
        ensures
            columns == self.data.key.columns,
    {
        self.data.key.columns
    }

    /// Where the cursor is shown.
    pub fn cursor(&self) -> (cursor: DisplayPoint)
        ensures
            cursor == self.data.cursor,
    {
        self.data.cursor
    }

    /// The outputs that are folded, in rising order of their numbers.
    pub fn effective_collapsed(&self) -> (ids: &Vec<u64>)
        ensures
            ids@ == self.data.effective_collapsed@,
    {
        &self.data.effective_collapsed
    }

    /// The cell of the screen to report to an application for a cell of the
    /// view. In a folded document rows of the view are no rows of the screen.
    pub fn application_cell(&self, point: DisplayPoint) -> (cell: Option<(usize, usize)>)
        ensures
            cell == if !self.transformed() && point.row < self.data.cells@.len() && point.column
                < self.data.key.columns {
                Some((point.row, point.column))
            } else {
                None
            },
    {
        if !self.is_transformed() && point.row < self.data.cells.len() && point.column
            < self.data.key.columns {
            Some((point.row, point.column))
        } else {
            None
        }
    }

    /// The row of the view on which a picture that is anchored to row `row` of
    /// the screen appears.
    pub fn kitty_viewport_row(&self, row: i64) -> (shown: i64)
        ensures
            shown == if row + self.data.key.scroll_offset > i64::MAX {
                i64::MAX as int
            } else {
                row + self.data.key.scroll_offset
            },
    {
        let shown: i128 = row as i128 + self.data.key.scroll_offset as i128;
        if shown > i64::MAX as i128 {
            i64::MAX
        } else {
            shown as i64
        }
    }

    /// What the top row of the view can be held by.
    pub fn stable_top_anchor(&self) -> (anchor: Option<ProjectedTopAnchor>)
        ensures
            anchor == self.top_anchor(),
    {
        let top: usize = self.data.top_padding;
        let kind = match self.row_kind(top) {
            Some(kind) => kind,
            None => return None,
        };
        match kind {
            ProjectedRowKind::CollapsedSummary { key, hidden_range, .. } => {
                return Some(
                    ProjectedTopAnchor::Summary { zone_id: key.zone_id, hidden_range },
                );
            },
            _ => {},
        }
        let ghost origins = self.data.origins@;
        let mut i: usize = 0;
        while i < self.data.origins.len()
            invariant
                i <= origins.len(),
                origins == self.data.origins@,
                top == self.data.top_padding,
                top < self.data.row_kinds@.len(),
                !(self.data.row_kinds@[top as int] is CollapsedSummary),
                first_on_row(origins, top as int, 0) == first_on_row(
                    origins,
                    top as int,
                    i as int,
                ),
            decreases self.data.origins@.len() - i,
        {
            let span = self.data.origins[i];
            if span.display_start.row == top && span.len > 0 {
                return Some(ProjectedTopAnchor::RawCell(span.raw_start));
            }
            i = i + 1;
        }
        match self.row_source_at(top) {
            Some(source) => {
                if self.is_blank_raw(top) {
                    Some(ProjectedTopAnchor::RawRow(source.raw_row))
                } else {
                    None
                }
            },
            None => None,
        }
    }
}

/// The cell of a view that shows a cell of a physical row.
pub fn find_display(origins: &Vec<OriginSpan>, anchor: RawCellAnchor) -> (point: Option<
    DisplayPoint,
>)
    ensures
        point == display_of(origins@, anchor),
{
    let ghost all = origins@;
    let mut i: usize = origins.len();
    assert(all.take(i as int) =~= all);
    while i > 0
        invariant
            i <= all.len(),
            all == origins@,
            display_of(all, anchor) == display_of(all.take(i as int), anchor),
        decreases i,
    {
        i = i - 1;
        let span = origins[i];
        assert(all.take(i + 1).last() == span);
        assert(all.take(i + 1).drop_last() =~= all.take(i as int));
        if span.raw_start.row_id == anchor.row_id && span.raw_start.column <= anchor.column
            && anchor.column - span.raw_start.column < span.len {
            return Some(
                DisplayPoint {
                    row: span.display_start.row,
                    column: span.display_start.column.saturating_add(
                        anchor.column - span.raw_start.column,
                    ),
                },
            );
        }
    }
    assert(all.take(0).len() == 0);
    None
}

/// Whether a row of a view shows physical row `id`.
fn row_shows(source: &Option<RawRowSource>, id: RawRowId) -> (yes: bool)
    ensures
        yes == shows_row(*source, id),
{
    match source {
        Some(source) => source.raw_row == id,
        None => false,
    }
}

impl ProjectionViewState {
    /// Puts the reader `offset` rows above the bottom, as far as the document
    /// goes.
    pub fn set_offset(&mut self, offset: usize, viewport: &ProjectedViewport)
        ensures
            final(self).offset_from_bottom == if offset < viewport.scroll_limit() {
                offset as int
            } else {
                viewport.scroll_limit()
            },
            final(self).follow_bottom == (final(self).offset_from_bottom == 0),
            final(self).top_anchor is None,
            final(self).last_plan_key == old(self).last_plan_key,
    {
        let limit: usize = viewport.max_scroll_offset();
        self.offset_from_bottom = if offset < limit {
            offset
        } else {
            limit
        };
        self.follow_bottom = self.offset_from_bottom == 0;
        self.top_anchor = None;
    }

    /// Moves the reader up by `lines` rows, or down by their negative, as far
    /// as the document goes.
    pub fn scroll(&mut self, lines: isize, viewport: &ProjectedViewport)
        ensures
            final(self).offset_from_bottom == clamped(
                old(self).offset_from_bottom + lines,
                0,
                viewport.scroll_limit(),
            ),
            final(self).follow_bottom == (final(self).offset_from_bottom == 0),
            final(self).top_anchor is None,
            final(self).last_plan_key == old(self).last_plan_key,
    {
        let target: usize = if lines >= 0 {
            self.offset_from_bottom.saturating_add(lines as usize)
        } else {
            let down: usize = (-(lines + 1)) as usize;
            if down < self.offset_from_bottom {
                self.offset_from_bottom - down - 1
            } else {
                0
            }
        };
        self.set_offset(target, viewport);
    }
}

} // verus!
