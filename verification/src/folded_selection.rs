//! Selections in views, also of folded documents.

use vstd::prelude::*;

use crate::cell::CellRole;
use crate::cell::TerminalCell;
use crate::folding::first_cell;
use crate::geometry::origin_at;
use crate::materialize::source_cell;
use crate::plan::cell_shown;
use crate::plan::PlanRow;
use crate::plan::PlanRowModel;
use crate::plan::SourceCell;
use crate::planning::key_is_current;
use crate::projection::copy_ids;
use crate::projection::DisplayPoint;
use crate::projection::DocumentPoint;
use crate::projection::ProjectedRowKind;
use crate::projection::ProjectedSelection;
use crate::projection::ProjectedSelectionAnchor;
use crate::projection::ProjectedSelectionEndpoint;
use crate::screens::next_selection_revision;
use crate::selection::find_line_extent;
use crate::selection::line_extent;
use crate::selection::line_selected;
use crate::selection::selected;
use crate::selection::selected_columns;
use crate::selection::selection_cleared;
use crate::selection::selection_extended;
use crate::selection::selection_text;
use crate::selection::word_selected;
use crate::state::Selection;
use crate::state::SelectionMode;
use crate::state::TerminalState;
use crate::text::string_of;
use crate::view::rows_view;
use crate::viewport::has_origin;
use crate::viewport::ProjectedViewport;
use crate::words::word_span;
use crate::words::word_span_in_view;

verus! {

/// Number of the remembered plan, where `view` was made through it and it is
/// still the document of the current rows.
pub open spec fn live_plan(state: TerminalState, view: ProjectedViewport) -> Option<u64> {
    match (view.plan_number(), state.caches.plan) {
        (Some(number), Some(cache)) => if cache.plan.plan_revision == number && key_is_current(
            state,
            cache.key@,
        ) && cache.plan@.rows.len() == view.data.document_rows {
            Some(number)
        } else {
            None
        },
        _ => None,
    }
}

/// The column of the character in a column: a right half belongs to the column
/// before it.
pub open spec fn glyph_column(cells: Seq<TerminalCell>, column: int) -> int {
    if cells[column].flags.spec_continuation() && column > 0 {
        column - 1
    } else {
        column
    }
}

/// The end of a selection at a cell of a view, where that shows a cell of the
/// terminal or is on one of its blank rows.
pub open spec fn selection_end(view: ProjectedViewport, row: usize, column: usize) -> Option<
    ProjectedSelectionEndpoint,
> {
    let cells = rows_view(view.data.cells@);
    if row >= cells.len() || column >= cells[row as int].len() {
        None
    } else {
        let body = glyph_column(cells[row as int], column as int) as usize;
        let anchor = match origin_at(view.data.origins@, row as int, body as int) {
            Some(cell) => Some(ProjectedSelectionAnchor::Cell(cell)),
            None => if !has_origin(view.data.origins@, row as int) && view.is_blank_raw_row(
                row as int,
            ) {
                Some(
                    ProjectedSelectionAnchor::Row {
                        row: view.data.row_sources@[row as int]->0.raw_row,
                        column: body,
                    },
                )
            } else {
                None
            },
        };
        match (anchor, view.document_row(row as int)) {
            (Some(anchor), Some(document_row)) => Some(
                ProjectedSelectionEndpoint {
                    point: DocumentPoint { row: document_row as usize, column: body },
                    anchor,
                },
            ),
            _ => None,
        }
    }
}

/// `selection` is between two ends in the document of `view`.
pub open spec fn is_selection_in(
    view: ProjectedViewport,
    number: u64,
    anchor: ProjectedSelectionEndpoint,
    active: ProjectedSelectionEndpoint,
    mode: SelectionMode,
    selection: ProjectedSelection,
) -> bool {
    &&& selection.plan_revision == number
    &&& selection.plan_cols == view.data.key.columns
    &&& selection.hidden@ == view.data.effective_collapsed@
    &&& selection.anchor == anchor
    &&& selection.active == active
    &&& selection.mode == mode
}

/// `post` is `pre` with a selection in a folded document.
pub open spec fn selected_in(
    pre: TerminalState,
    view: ProjectedViewport,
    number: u64,
    anchor: ProjectedSelectionEndpoint,
    active: ProjectedSelectionEndpoint,
    mode: SelectionMode,
    post: TerminalState,
) -> bool {
    &&& post.selection is None
    &&& post.projected_selection matches Some(selection)
    &&& is_selection_in(view, number, anchor, active, mode, selection)
    &&& post.selection_revision == next_selection_revision(pre.selection_revision)
    &&& post == TerminalState {
        selection: post.selection,
        projected_selection: post.projected_selection,
        selection_revision: post.selection_revision,
        ..pre
    }
}

/// `post` is `pre` with the cells between two cells of a folded view selected;
/// nothing where one of them cannot be an end.
pub open spec fn selected_between(
    pre: TerminalState,
    view: ProjectedViewport,
    number: u64,
    from: (usize, usize),
    to: (usize, usize),
    mode: SelectionMode,
    post: TerminalState,
) -> bool {
    match (selection_end(view, from.0, from.1), selection_end(view, to.0, to.1)) {
        (Some(anchor), Some(active)) => selected_in(
            pre,
            view,
            number,
            anchor,
            active,
            mode,
            post,
        ),
        _ => selection_cleared(pre, post),
    }
}

/// `post` is `pre` with a selection begun at a cell of a view.
pub open spec fn selection_started(
    pre: TerminalState,
    view: ProjectedViewport,
    cell: (usize, usize),
    mode: SelectionMode,
    post: TerminalState,
) -> bool {
    if view.transformed() {
        match live_plan(pre, view) {
            Some(number) => selected_between(pre, view, number, cell, cell, mode, post),
            None => selection_cleared(pre, post),
        }
    } else {
        let place = (view.plain_absolute_row(cell.0), cell.1);
        selected(pre, Selection { anchor: place, active: place, mode }, post)
    }
}

/// `post` is `pre` with the moving end of its selection at a cell of a view.
/// Over a summary or padding the end stays where it was.
pub open spec fn selection_moved(
    pre: TerminalState,
    view: ProjectedViewport,
    cell: (usize, usize),
    post: TerminalState,
) -> bool {
    if view.transformed() {
        match (live_plan(pre, view), selection_end(view, cell.0, cell.1)) {
            (None, _) => selection_cleared(pre, post),
            (_, None) => post == pre,
            (Some(number), Some(end)) => match pre.projected_selection {
                None => post == pre,
                Some(selection) => if selection.plan_revision != number {
                    selection_cleared(pre, post)
                } else if selection.active.point == end.point {
                    post == pre
                } else {
                    &&& post.projected_selection == Some(
                        ProjectedSelection { active: end, ..selection },
                    )
                    &&& post.selection_revision == next_selection_revision(pre.selection_revision)
                    &&& post == TerminalState {
                        projected_selection: post.projected_selection,
                        selection_revision: post.selection_revision,
                        ..pre
                    }
                },
            },
        }
    } else {
        selection_extended(
            TerminalState { projected_selection: None, ..pre },
            (view.plain_absolute_row(cell.0), cell.1),
            post,
        )
    }
}

/// A cell as machine numbers.
pub open spec fn as_cell(cell: (int, int)) -> (usize, usize) {
    (cell.0 as usize, cell.1 as usize)
}

/// `post` is `pre` with the word or token around a cell of a view selected.
pub open spec fn word_selected_in(
    pre: TerminalState,
    view: ProjectedViewport,
    row: usize,
    column: usize,
    post: TerminalState,
) -> bool {
    let rows = rows_view(view.data.cells@);
    let wrapped = view.data.row_wrapped@;
    if view.transformed() {
        match (live_plan(pre, view), word_span(rows, wrapped, row as int, column as int)) {
            (None, _) => selection_cleared(pre, post),
            (_, None) => post == pre,
            (Some(number), Some((start, end))) => selected_between(
                pre,
                view,
                number,
                as_cell(start),
                as_cell(end),
                SelectionMode::Normal,
                post,
            ),
        }
    } else {
        word_selected(
            pre,
            rows,
            wrapped,
            (row as int, column as int),
            view.base() as usize,
            post,
        )
    }
}

/// `post` is `pre` with a row of a view selected as far as it shows anything.
pub open spec fn line_selected_in(
    pre: TerminalState,
    view: ProjectedViewport,
    row: usize,
    post: TerminalState,
) -> bool {
    let rows = rows_view(view.data.cells@);
    if view.transformed() {
        match (live_plan(pre, view), view.selectable(row as int)) {
            (Some(number), Some((left, right))) => if row < rows.len() && left <= right
                && right < rows[row as int].len() {
                selected_between(
                    pre,
                    view,
                    number,
                    (row, left as usize),
                    (row, line_extent(rows[row as int], left, right) as usize),
                    SelectionMode::Normal,
                    post,
                )
            } else {
                selection_cleared(pre, post)
            },
            _ => selection_cleared(pre, post),
        }
    } else {
        line_selected(pre, rows, row as int, view.base() as usize, post)
    }
}

/// The part of a double-width character in a column, if any.
pub open spec fn role_at(roles: Seq<Option<CellRole>>, column: int) -> Option<CellRole> {
    if 0 <= column < roles.len() {
        roles[column]
    } else {
        None
    }
}

/// Columns widened to whole characters.
pub open spec fn whole_glyphs(roles: Seq<Option<CellRole>>, left: int, right: int) -> Option<
    (int, int),
> {
    let cut_left = role_at(roles, left) == Some(CellRole::Continuation);
    let cut_right = role_at(roles, right) == Some(CellRole::Wide) && role_at(roles, right + 1)
        == Some(CellRole::Continuation);
    if left > right || (cut_left && left == 0) {
        None
    } else {
        Some(
            (
                if cut_left {
                    left - 1
                } else {
                    left
                },
                if cut_right {
                    right + 1
                } else {
                    right
                },
            ),
        )
    }
}

/// What the columns of a row of cells are parts of.
pub open spec fn cell_roles(cells: Seq<TerminalCell>) -> Seq<Option<CellRole>> {
    Seq::new(cells.len(), |j: int| Some(cells[j].flags.role))
}

/// What the columns of a document row are parts of.
pub open spec fn row_roles(state: TerminalState, row: PlanRowModel) -> Seq<Option<CellRole>> {
    Seq::new(
        row.cells.len(),
        |j: int|
            match row.cells[j] {
                Some(cell) => match source_cell(state, cell) {
                    Some(found) => Some(found.flags.role),
                    None => None,
                },
                None => None,
            },
    )
}

/// The ends of a selection in document order.
pub open spec fn ordered_points(selection: ProjectedSelection) -> (DocumentPoint, DocumentPoint) {
    if selection.anchor.point.precedes_or_is(selection.active.point) {
        (selection.anchor.point, selection.active.point)
    } else {
        (selection.active.point, selection.anchor.point)
    }
}

/// The columns that a selection covers on a document row that it reaches,
/// before they are widened to whole characters.
pub open spec fn covered_columns(selection: ProjectedSelection, row: int, last: usize) -> (
    usize,
    usize,
) {
    let (start, end) = ordered_points(selection);
    if selection.mode == SelectionMode::Block {
        let a = selection.anchor.point.column;
        let b = selection.active.point.column;
        if a <= b {
            (a, b)
        } else {
            (b, a)
        }
    } else {
        (
            if row == start.row {
                start.column
            } else {
                0
            },
            if row == end.row {
                end.column
            } else {
                last
            },
        )
    }
}

/// The columns to highlight on a row of a view.
pub open spec fn highlighted(state: TerminalState, view: ProjectedViewport, row: usize) -> Option<
    (usize, usize),
> {
    if view.transformed() {
        match (
            state.projected_selection,
            live_plan(state, view),
            view.document_row(row as int),
            view.selectable(row as int),
        ) {
            (Some(selection), Some(number), Some(document_row), Some((first, last))) => {
                let (start, end) = ordered_points(selection);
                let (a, b) = covered_columns(selection, document_row, usize::MAX);
                let left = if a < first {
                    first
                } else {
                    a as int
                };
                let right = if b > last {
                    last
                } else {
                    b as int
                };
                if number != selection.plan_revision || !(view.data.row_kinds@[row as int] is Raw)
                    || document_row < start.row || document_row > end.row {
                    None
                } else {
                    match whole_glyphs(
                        cell_roles(view.data.cells@[row as int]@),
                        left,
                        right,
                    ) {
                        Some((left, right)) => Some((left as usize, right as usize)),
                        None => None,
                    }
                }
            },
            _ => None,
        }
    } else {
        match state.selection {
            Some(selection) => selected_columns(selection, view.plain_absolute_row(row)),
            None => None,
        }
    }
}

/// The characters in the columns `from..to` of a document row; none at all
/// where one of its cells is gone.
pub open spec fn shown_text(
    state: TerminalState,
    cells: Seq<Option<SourceCell>>,
    from: int,
    to: int,
) -> Option<Seq<char>>
    decreases to - from,
{
    if from >= to {
        Some(Seq::empty())
    } else {
        match (shown_text(state, cells, from, to - 1), cells[to - 1]) {
            (None, _) => None,
            (Some(text), None) => Some(text),
            (Some(text), Some(cell)) => match source_cell(state, cell) {
                None => None,
                Some(found) => Some(
                    if found.flags.spec_continuation() {
                        text
                    } else {
                        text.push(found.character)
                    },
                ),
            },
        }
    }
}

/// Text in the making, and whether a line break is due before more of it.
pub struct CopyState {
    pub text: Seq<char>,
    pub break_due: bool,
}

/// Spaces; none for a negative number of them.
pub open spec fn spaces(n: int) -> Seq<char> {
    if n <= 0 {
        Seq::empty()
    } else {
        Seq::new(n as nat, |i: int| ' ')
    }
}

/// `n`, or `limit` where that is less.
pub open spec fn up_to(n: int, limit: int) -> int {
    if n < limit {
        n
    } else {
        limit
    }
}

/// What copying takes from one document row, appended to `before`.
pub open spec fn row_copied(
    state: TerminalState,
    selection: ProjectedSelection,
    row: PlanRowModel,
    index: int,
    before: CopyState,
) -> Option<CopyState> {
    let cols = row.cells.len() as int;
    let last = if cols > 0 {
        cols - 1
    } else {
        0
    };
    let (a, b) = covered_columns(selection, index, last as usize);
    match whole_glyphs(row_roles(state, row), a as int, b as int) {
        None => None,
        Some((left, right)) => match row.kind {
            ProjectedRowKind::CollapsedSummary { .. } => Some(
                CopyState {
                    break_due: before.text.len() == 0 || before.text.last() != '\n',
                    ..before
                },
            ),
            ProjectedRowKind::Padding => Some(before),
            ProjectedRowKind::Raw => {
                let text = if before.break_due {
                    before.text.push('\n')
                } else {
                    before.text
                };
                let blank = first_cell(row.cells, 0) is None && row.source is Some;
                match shown_text(state, row.cells, left, up_to(right + 1, cols)) {
                    None => None,
                    Some(own) => {
                        let full = if blank {
                            text + spaces(up_to(right, last) - left + 1)
                        } else {
                            text + own
                        };
                        let (_, end) = ordered_points(selection);
                        Some(
                            CopyState {
                                text: if index < end.row && (selection.mode == SelectionMode::Block
                                    || !row.wrapped) {
                                    full.push('\n')
                                } else {
                                    full
                                },
                                break_due: false,
                            },
                        )
                    },
                }
            },
        },
    }
}

/// What copying takes from the document rows before `row`.
pub open spec fn rows_copied(
    state: TerminalState,
    selection: ProjectedSelection,
    rows: Seq<PlanRowModel>,
    row: int,
) -> Option<CopyState>
    decreases row,
{
    let (start, _) = ordered_points(selection);
    if row <= start.row || row <= 0 {
        Some(CopyState { text: Seq::empty(), break_due: false })
    } else {
        match rows_copied(state, selection, rows, row - 1) {
            Some(before) => row_copied(state, selection, rows[row - 1], row - 1, before),
            None => None,
        }
    }
}

/// The text of a selection in a folded document, while that is the document of
/// the current rows. Folded output is not part of it: a line break stands in
/// its place.
pub open spec fn folded_text(state: TerminalState, selection: ProjectedSelection) -> Option<
    Seq<char>,
> {
    match state.caches.plan {
        None => None,
        Some(cache) => {
            let rows = cache.plan@.rows;
            let (start, end) = ordered_points(selection);
            if selection.plan_revision == 0 || cache.plan.plan_revision != selection.plan_revision
                || !key_is_current(state, cache.key@) || start.row >= rows.len() || end.row
                >= rows.len() {
                None
            } else {
                match rows_copied(state, selection, rows, end.row + 1) {
                    Some(copied) => Some(copied.text),
                    None => None,
                }
            }
        },
    }
}

/// What copying gives.
pub open spec fn copied_text(state: TerminalState) -> Option<Seq<char>> {
    match (state.projected_selection, state.selection) {
        (Some(selection), _) => folded_text(state, selection),
        (None, Some(selection)) => Some(selection_text(state, selection)),
        (None, None) => None,
    }
}

/// What the columns of a row of cells are parts of.
fn roles_of_cells(cells: &Vec<TerminalCell>) -> (roles: Vec<Option<CellRole>>)
    ensures
        roles@ == cell_roles(cells@),
{
    let ghost all = cell_roles(cells@);
    let mut roles: Vec<Option<CellRole>> = Vec::new();
    let mut j: usize = 0;
    while j < cells.len()
        invariant
            j <= cells@.len(),
            all == cell_roles(cells@),
            roles@ == all.take(j as int),
        decreases cells.len() - j,
    {
        roles.push(Some(cells[j].flags.role));
        j = j + 1;
        assert(roles@ =~= all.take(j as int));
    }
    assert(all.take(j as int) =~= all);
    roles
}

/// The part of a double-width character in a column, if any.
fn role_in(roles: &Vec<Option<CellRole>>, column: usize) -> (role: Option<CellRole>)
    ensures
        role == role_at(roles@, column as int),
{
    if column < roles.len() {
        roles[column]
    } else {
        None
    }
}

/// Widens columns to whole characters.
pub fn wide_atomic_selection_columns(
    roles: &Vec<Option<CellRole>>,
    left: usize,
    right: usize,
) -> (columns: Option<(usize, usize)>)
    ensures
        match (whole_glyphs(roles@, left as int, right as int), columns) {
            (Some((a, b)), Some((first, last))) => first == a && last == b,
            (None, None) => true,
            _ => false,
        },
{
    if left > right {
        return None;
    }
    let mut first: usize = left;
    if let Some(CellRole::Continuation) = role_in(roles, left) {
        if left == 0 {
            return None;
        }
        first = left - 1;
    }
    let mut last: usize = right;
    if right < roles.len() {
        if let Some(CellRole::Wide) = role_in(roles, right) {
            if let Some(CellRole::Continuation) = role_in(roles, right + 1) {
                last = right + 1;
            }
        }
    }
    Some((first, last))
}

/// The ends of a selection in document order.
fn order_points(selection: &ProjectedSelection) -> (ends: (DocumentPoint, DocumentPoint))
    ensures
        ends == ordered_points(*selection),
{
    if selection.anchor.point.le(&selection.active.point) {
        (selection.anchor.point, selection.active.point)
    } else {
        (selection.active.point, selection.anchor.point)
    }
}

/// The columns that a selection covers on a document row that it reaches.
fn cover_columns(selection: &ProjectedSelection, row: usize, last: usize) -> (columns: (
    usize,
    usize,
))
    ensures
        columns == covered_columns(*selection, row as int, last),
{
    let (start, end) = order_points(selection);
    if selection.mode == SelectionMode::Block {
        let a: usize = selection.anchor.point.column;
        let b: usize = selection.active.point.column;
        return if a <= b {
            (a, b)
        } else {
            (b, a)
        };
    }
    let first: usize = if row == start.row {
        start.column
    } else {
        0
    };
    let final_column: usize = if row == end.row {
        end.column
    } else {
        last
    };
    (first, final_column)
}

/// The end of a selection at a cell of a view.
pub fn projected_selection_point(view: &ProjectedViewport, cell: (usize, usize)) -> (end: Option<
    ProjectedSelectionEndpoint,
>)
    ensures
        end == selection_end(*view, cell.0, cell.1),
{
    let rows = view.cells();
    let (row, column) = cell;
    if row >= rows.len() {
        return None;
    }
    assert(rows_view(view.data.cells@)[row as int] == rows@[row as int]@);
    if column >= rows[row].len() {
        return None;
    }
    let body: usize = if rows[row][column].flags.wide_continuation() && column > 0 {
        column - 1
    } else {
        column
    };
    let anchor = match view.raw_anchor_at(DisplayPoint { row, column: body }) {
        Some(anchor) => ProjectedSelectionAnchor::Cell(anchor),
        None => {
            if view.row_has_origin(row) || !view.is_blank_raw(row) {
                return None;
            }
            match view.row_source_at(row) {
                Some(source) => ProjectedSelectionAnchor::Row {
                    row: source.raw_row,
                    column: body,
                },
                None => return None,
            }
        },
    };
    match view.view_document_row(row) {
        Some(document_row) => Some(
            ProjectedSelectionEndpoint {
                point: DocumentPoint { row: document_row, column: body },
                anchor,
            },
        ),
        None => None,
    }
}

impl TerminalState {
    /// Number of the remembered plan, where `view` was made through it and it
    /// is still the document of the current rows.
    pub fn projected_selection_plan_revision(&self, view: &ProjectedViewport) -> (number: Option<
        u64,
    >)
        requires
            self.core_wf(),
        ensures
            number == live_plan(*self, *view),
    {
        let number: u64 = match view.plan_revision() {
            Some(number) => number,
            None => return None,
        };
        match &self.caches.plan {
            Some(cache) => {
                if cache.plan.plan_revision == number
                    && self.projection_plan_key_matches_current_source(&cache.key)
                    && cache.plan.document_rows() == view.document_rows() {
                    Some(number)
                } else {
                    None
                }
            },
            None => None,
        }
    }

    /// Selects between two ends in a folded document.
    fn set_projected_selection(
        &mut self,
        view: &ProjectedViewport,
        number: u64,
        anchor: ProjectedSelectionEndpoint,
        active: ProjectedSelectionEndpoint,
        mode: SelectionMode,
    )
        requires
            old(self).core_wf(),
        ensures
            final(self).core_wf(),
            selected_in(*old(self), *view, number, anchor, active, mode, *final(self)),
    {
        let selection = ProjectedSelection {
            plan_revision: number,
            plan_cols: view.columns(),
            hidden: copy_ids(view.effective_collapsed()),
            anchor,
            active,
            mode,
        };
        self.selection = None;
        self.projected_selection = Some(selection);
        self.bump_selection_revision();
    }

    /// Selects the cells between two cells of a folded view.
    fn select_between(
        &mut self,
        view: &ProjectedViewport,
        number: u64,
        from: (usize, usize),
        to: (usize, usize),
        mode: SelectionMode,
    )
        requires
            old(self).core_wf(),
        ensures
            final(self).core_wf(),
            selected_between(*old(self), *view, number, from, to, mode, *final(self)),
    {
        match (projected_selection_point(view, from), projected_selection_point(view, to)) {
            (Some(anchor), Some(active)) => self.set_projected_selection(
                view,
                number,
                anchor,
                active,
                mode,
            ),
            _ => self.clear_text_selection(),
        }
    }

    /// Begins a selection at a cell of a view.
    pub fn start_selection_with_projected_mode(
        &mut self,
        view: &ProjectedViewport,
        cell: (usize, usize),
        mode: SelectionMode,
    )
        requires
            old(self).core_wf(),
        ensures
            final(self).core_wf(),
            selection_started(*old(self), *view, cell, mode, *final(self)),
    {
        if view.is_transformed() {
            match self.projected_selection_plan_revision(view) {
                Some(number) => self.select_between(view, number, cell, cell, mode),
                None => self.clear_text_selection(),
            }
            return;
        }
        let place = (view.legacy_absolute_row(cell.0), cell.1);
        self.set_raw_selection(Selection { anchor: place, active: place, mode });
    }

    /// Begins a selection at a cell of a view.
    pub fn start_selection_projected(&mut self, view: &ProjectedViewport, cell: (usize, usize))
        requires
            old(self).core_wf(),
        ensures
            final(self).core_wf(),
            selection_started(*old(self), *view, cell, SelectionMode::Normal, *final(self)),
    {
        self.start_selection_with_projected_mode(view, cell, SelectionMode::Normal);
    }

    /// Begins a rectangular selection at a cell of a view.
    pub fn start_block_selection_projected(
        &mut self,
        view: &ProjectedViewport,
        cell: (usize, usize),
    )
        requires
            old(self).core_wf(),
        ensures
            final(self).core_wf(),
            selection_started(*old(self), *view, cell, SelectionMode::Block, *final(self)),
    {
        self.start_selection_with_projected_mode(view, cell, SelectionMode::Block);
    }

    /// Moves the active end of a selection in a folded document.
    fn move_active_end(&mut self, number: u64, end: ProjectedSelectionEndpoint)
        requires
            old(self).core_wf(),
        ensures
            final(self).core_wf(),
            match old(self).projected_selection {
                None => *final(self) == *old(self),
                Some(selection) => if selection.plan_revision != number {
                    selection_cleared(*old(self), *final(self))
                } else if selection.active.point == end.point {
                    *final(self) == *old(self)
                } else {
                    &&& final(self).projected_selection == Some(
                        ProjectedSelection { active: end, ..selection },
                    )
                    &&& final(self).selection_revision == next_selection_revision(
                        old(self).selection_revision,
                    )
                    &&& *final(self) == (TerminalState {
                        projected_selection: final(self).projected_selection,
                        selection_revision: final(self).selection_revision,
                        ..*old(self)
                    })
                },
            },
    {
        let (stale, still) = match &self.projected_selection {
            None => return,
            Some(selection) => (
                selection.plan_revision != number,
                selection.active.point == end.point,
            ),
        };
        if stale {
            self.clear_text_selection();
            return;
        }
        if still {
            return;
        }
        let mut taken: Option<ProjectedSelection> = None;
        std::mem::swap(&mut taken, &mut self.projected_selection);
        if let Some(selection) = taken {
            self.projected_selection = Some(ProjectedSelection { active: end, ..selection });
        }
        self.bump_selection_revision();
    }

    /// Moves the active end of the selection to a cell of a view.
    pub fn update_selection_projected(&mut self, view: &ProjectedViewport, cell: (usize, usize))
        requires
            old(self).core_wf(),
        ensures
            final(self).core_wf(),
            selection_moved(*old(self), *view, cell, *final(self)),
    {
        if view.is_transformed() {
            let number: u64 = match self.projected_selection_plan_revision(view) {
                Some(number) => number,
                None => {
                    self.clear_text_selection();
                    return;
                },
            };
            if let Some(end) = projected_selection_point(view, cell) {
                self.move_active_end(number, end);
            }
            return;
        }
        self.projected_selection = None;
        let row: usize = view.legacy_absolute_row(cell.0);
        self.extend_selection((row, cell.1));
    }

    /// Selects the word or token around a cell of a view.
    pub fn select_word_at_projected(&mut self, view: &ProjectedViewport, row: usize, col: usize)
        requires
            old(self).core_wf(),
            view.wf(),
        ensures
            final(self).core_wf(),
            word_selected_in(*old(self), *view, row, col, *final(self)),
    {
        if view.is_transformed() {
            let number: u64 = match self.projected_selection_plan_revision(view) {
                Some(number) => number,
                None => {
                    self.clear_text_selection();
                    return;
                },
            };
            if let Some((start, end)) = word_span_in_view(
                view.cells(),
                view.row_wrapped(),
                row,
                col,
            ) {
                self.select_between(view, number, start, end, SelectionMode::Normal);
            }
            return;
        }
        let base: usize = view.view_base();
        self.select_word_in_view(view.cells(), view.row_wrapped(), row, col, base);
    }

    /// Selects a row of a view as far as it shows anything.
    pub fn select_line_at_projected(&mut self, view: &ProjectedViewport, row: usize)
        requires
            old(self).core_wf(),
        ensures
            final(self).core_wf(),
            line_selected_in(*old(self), *view, row, *final(self)),
    {
        if view.is_transformed() {
            let number = self.projected_selection_plan_revision(view);
            let bounds = view.real_column_bounds(row);
            let rows = view.cells();
            match (number, bounds) {
                (Some(number), Some((left, right))) => {
                    if row < rows.len() {
                        assert(rows_view(view.data.cells@)[row as int] == rows@[row as int]@);
                        if left <= right && right < rows[row].len() {
                            let end: usize = find_line_extent(&rows[row], left, right);
                            self.select_between(
                                view,
                                number,
                                (row, left),
                                (row, end),
                                SelectionMode::Normal,
                            );
                            return;
                        }
                    }
                    self.clear_text_selection();
                },
                _ => self.clear_text_selection(),
            }
            return;
        }
        let base: usize = view.view_base();
        self.select_line_in_view(view.cells(), row, base);
    }

    /// The columns to highlight on a row of a view.
    pub fn row_selection_cols_projected(&self, view: &ProjectedViewport, row: usize) -> (columns:
        Option<(usize, usize)>)
        requires
            self.core_wf(),
            view.wf(),
        ensures
            columns == highlighted(*self, *view, row),
    {
        if !view.is_transformed() {
            return self.row_selection_cols_at_absolute(view.legacy_absolute_row(row));
        }
        let selection = match &self.projected_selection {
            Some(selection) => selection,
            None => return None,
        };
        let number: u64 = match self.projected_selection_plan_revision(view) {
            Some(number) => number,
            None => return None,
        };
        let document_row: usize = match view.view_document_row(row) {
            Some(document_row) => document_row,
            None => return None,
        };
        let (first, last) = match view.real_column_bounds(row) {
            Some(bounds) => bounds,
            None => return None,
        };
        if number != selection.plan_revision {
            return None;
        }
        match view.row_kind(row) {
            Some(ProjectedRowKind::Raw) => {},
            _ => return None,
        }
        let (start, end) = order_points(selection);
        if document_row < start.row || document_row > end.row {
            return None;
        }
        let (a, b) = cover_columns(selection, document_row, usize::MAX);
        let left: usize = if a < first {
            first
        } else {
            a
        };
        let right: usize = if b > last {
            last
        } else {
            b
        };
        let rows = view.cells();
        let roles = roles_of_cells(&rows[row]);
        wide_atomic_selection_columns(&roles, left, right)
    }

    /// What the columns of a document row are parts of.
    fn roles_of_row(&self, row: &PlanRow, cols: usize) -> (roles: Vec<Option<CellRole>>)
        requires
            self.core_wf(),
        ensures
            roles@ == row_roles(*self, row.model(cols as int)),
    {
        let ghost all = row_roles(*self, row.model(cols as int));
        let mut roles: Vec<Option<CellRole>> = Vec::new();
        let mut j: usize = 0;
        while j < cols
            invariant
                self.core_wf(),
                j <= cols,
                all == row_roles(*self, row.model(cols as int)),
                all.len() == cols,
                roles@ == all.take(j as int),
            decreases cols - j,
        {
            let shown = cell_shown(&row.slices, j);
            assert(row.model(cols as int).cells[j as int] == shown);
            let role = match shown {
                Some(cell) => match self.find_source_cell(&cell) {
                    Some(found) => Some(found.flags.role),
                    None => None,
                },
                None => None,
            };
            roles.push(role);
            j = j + 1;
            assert(roles@ =~= all.take(j as int));
        }
        assert(all.take(j as int) =~= all);
        roles
    }

    /// Appends the characters in the columns `from..to` of a document row;
    /// false where one of its cells is gone.
    fn append_shown_text(
        &self,
        text: &mut Vec<char>,
        row: &PlanRow,
        from: usize,
        to: usize,
        cols: usize,
    ) -> (whole: bool)
        requires
            self.core_wf(),
            to <= cols,
        ensures
            match shown_text(*self, row.model(cols as int).cells, from as int, to as int) {
                Some(own) => whole && final(text)@ == old(text)@ + own,
                None => !whole,
            },
    {
        let ghost cells = row.model(cols as int).cells;
        let ghost before = text@;
        let mut j: usize = from;
        assert(before + Seq::<char>::empty() =~= before);
        while j < to
            invariant
                self.core_wf(),
                from <= j,
                j <= to || j == from,
                to <= cols,
                cells == row.model(cols as int).cells,
                shown_text(*self, cells, from as int, j as int) is Some,
                text@ == before + shown_text(*self, cells, from as int, j as int)->0,
            decreases to - j,
        {
            let shown = cell_shown(&row.slices, j);
            assert(cells[j as int] == shown);
            if let Some(cell) = shown {
                match self.find_source_cell(&cell) {
                    Some(found) => {
                        if !found.flags.wide_continuation() {
                            text.push(found.character);
                        }
                    },
                    None => {
                        proof {
                            lemma_gone(*self, cells, from as int, j + 1, to as int);
                        }
                        return false;
                    },
                }
            }
            j = j + 1;
            assert(text@ =~= before + shown_text(*self, cells, from as int, j as int)->0);
        }
        true
    }

    /// Appends what copying takes from one document row; false where nothing
    /// can be copied.
    #[verifier::rlimit(40)]
    fn copy_row(
        &self,
        selection: &ProjectedSelection,
        row: &PlanRow,
        index: usize,
        cols: usize,
        text: &mut Vec<char>,
        break_due: &mut bool,
    ) -> (copied: bool)
        requires
            self.core_wf(),
        ensures
            match row_copied(
                *self,
                *selection,
                row.model(cols as int),
                index as int,
                CopyState { text: old(text)@, break_due: *old(break_due) },
            ) {
                Some(after) => copied && final(text)@ == after.text && *final(break_due)
                    == after.break_due,
                None => !copied,
            },
    {
        let last: usize = if cols > 0 {
            cols - 1
        } else {
            0
        };
        let ghost model = row.model(cols as int);
        let (a, b) = cover_columns(selection, index, last);
        let roles = self.roles_of_row(row, cols);
        let (left, right) = match wide_atomic_selection_columns(&roles, a, b) {
            Some(columns) => columns,
            None => return false,
        };
        match row.kind {
            ProjectedRowKind::CollapsedSummary { .. } => {
                let count: usize = text.len();
                *break_due = count == 0 || text[count - 1] != '\n';
                return true;
            },
            ProjectedRowKind::Padding => {
                return true;
            },
            ProjectedRowKind::Raw => {},
        }
        if *break_due {
            text.push('\n');
            *break_due = false;
        }
        let ghost begun = text@;
        let to: usize = if right < cols {
            right + 1
        } else {
            cols
        };
        let blank = find_any_cell(row, cols).is_none() && row.source.is_some();
        if !self.append_shown_text(text, row, left, to, cols) {
            return false;
        }
        if blank {
            proof {
                lemma_blank_text(*self, model.cells, left as int, to as int);
                assert(text@ =~= begun);
            }
            let end: usize = if right < last {
                right
            } else {
                last
            };
            append_spaces(text, left, end);
        }
        let (_, end) = order_points(selection);
        if index < end.row && (selection.mode == SelectionMode::Block || !row.wrapped) {
            text.push('\n');
        }
        true
    }

    /// The text of a selection in a folded document.
    fn copy_projected_selection(&self, selection: &ProjectedSelection) -> (text: Option<String>)
        requires
            self.core_wf(),
        ensures
            match (folded_text(*self, *selection), text) {
                (Some(expected), Some(found)) => found@ == expected,
                (None, None) => true,
                _ => false,
            },
    {
        let cache = match &self.caches.plan {
            Some(cache) => cache,
            None => return None,
        };
        if selection.plan_revision == 0 || cache.plan.plan_revision != selection.plan_revision
            || !self.projection_plan_key_matches_current_source(&cache.key) {
            return None;
        }
        let (start, end) = order_points(selection);
        let total: usize = cache.plan.document_rows();
        if start.row >= total || end.row >= total {
            return None;
        }
        let ghost rows = cache.plan@.rows;
        let cols: usize = cache.plan.cols;
        let mut text: Vec<char> = Vec::new();
        let mut break_due = false;
        let mut row: usize = start.row;
        while row <= end.row
            invariant
                self.core_wf(),
                start.row <= row,
                row <= end.row + 1 || row == start.row,
                end.row < total == rows.len(),
                rows == cache.plan@.rows,
                rows.len() == cache.plan.rows@.len(),
                cols == cache.plan.cols,
                (start, end) == ordered_points(*selection),
                start.row <= end.row,
                self.caches.plan == Some(*cache),
                cache.plan.plan_revision == selection.plan_revision,
                selection.plan_revision != 0,
                key_is_current(*self, cache.key@),
                rows_copied(*self, *selection, rows, row as int) == Some(
                    CopyState { text: text@, break_due },
                ),
            decreases end.row + 1 - row,
        {
            assert(rows[row as int] == cache.plan.rows@[row as int].model(cols as int));
            if !self.copy_row(
                selection,
                &cache.plan.rows[row],
                row,
                cols,
                &mut text,
                &mut break_due,
            ) {
                proof {
                    assert(rows_copied(*self, *selection, rows, row + 1) is None);
                    lemma_copy_stops(*self, *selection, rows, row + 1, end.row + 1);
                }
                return None;
            }
            row = row + 1;
        }
        Some(string_of(&text))
    }

    /// The text of the selection.
    pub fn copy_selection(&self) -> (text: Option<String>)
        requires
            self.core_wf(),
        ensures
            match (copied_text(*self), text) {
                (Some(expected), Some(found)) => found@ == expected,
                (None, None) => true,
                _ => false,
            },
    {
        if let Some(selection) = &self.projected_selection {
            return self.copy_projected_selection(selection);
        }
        match &self.selection {
            Some(selection) => Some(self.raw_selection_text(selection)),
            None => None,
        }
    }
}

/// Appends a space for each of the columns `first..=last`.
fn append_spaces(text: &mut Vec<char>, first: usize, last: usize)
    requires
        last < usize::MAX,
    ensures
        final(text)@ == old(text)@ + spaces(last - first + 1),
{
    let ghost begun = text@;
    let mut column: usize = first;
    assert(begun + spaces(0) =~= begun);
    while column <= last
        invariant
            last < usize::MAX,
            first <= column,
            column <= last + 1 || column == first,
            text@ == begun + spaces(column - first),
        decreases last + 1 - column,
    {
        text.push(' ');
        column = column + 1;
        assert(text@ =~= begun + spaces(column - first));
    }
    assert(text@ =~= begun + spaces(last - first + 1));
}

/// Finds the first cell that a document row shows.
fn find_any_cell(row: &PlanRow, cols: usize) -> (cell: Option<SourceCell>)
    ensures
        cell == first_cell(row.model(cols as int).cells, 0),
{
    let ghost cells = row.model(cols as int).cells;
    let mut j: usize = 0;
    while j < cols
        invariant
            j <= cols,
            cells == row.model(cols as int).cells,
            first_cell(cells, 0) == first_cell(cells, j as int),
        decreases cols - j,
    {
        let cell = cell_shown(&row.slices, j);
        assert(cells[j as int] == cell);
        if cell.is_some() {
            return cell;
        }
        j = j + 1;
    }
    None
}

/// Once a cell is gone, no more columns bring the text back.
proof fn lemma_gone(
    state: TerminalState,
    cells: Seq<Option<SourceCell>>,
    from: int,
    to: int,
    end: int,
)
    requires
        from <= to <= end,
        shown_text(state, cells, from, to) is None,
    ensures
        shown_text(state, cells, from, end) is None,
    decreases end - to,
{
    if to < end {
        lemma_gone(state, cells, from, to, end - 1);
    }
}

/// A row without cells has no text.
proof fn lemma_blank_text(
    state: TerminalState,
    cells: Seq<Option<SourceCell>>,
    from: int,
    to: int,
)
    requires
        0 <= from,
        to <= cells.len(),
        first_cell(cells, 0) is None,
    ensures
        shown_text(state, cells, from, to) == Some(Seq::<char>::empty()),
    decreases to - from,
{
    if from < to {
        lemma_blank_text(state, cells, from, to - 1);
        lemma_no_cell(cells, 0, to - 1);
    }
}

/// A row without a first cell has none.
proof fn lemma_no_cell(cells: Seq<Option<SourceCell>>, from: int, j: int)
    requires
        first_cell(cells, from) is None,
        from <= j < cells.len(),
    ensures
        cells[j] is None,
    decreases cells.len() - from,
{
    if from < j {
        lemma_no_cell(cells, from + 1, j);
    }
}

/// Once nothing can be copied, no more rows help.
proof fn lemma_copy_stops(
    state: TerminalState,
    selection: ProjectedSelection,
    rows: Seq<PlanRowModel>,
    row: int,
    end: int,
)
    requires
        0 <= row <= end,
        rows_copied(state, selection, rows, row) is None,
    ensures
        rows_copied(state, selection, rows, end) is None,
    decreases end - row,
{
    if row < end {
        lemma_copy_stops(state, selection, rows, row, end - 1);
    }
}

} // verus!
