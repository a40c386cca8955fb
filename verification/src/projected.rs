//! Projected views of the terminal.

use std::sync::Arc;
use vstd::prelude::*;

use crate::caches::shows_window;
use crate::caches::TransformedViewCache;
use crate::caches::TransformedViewKey;
use crate::caches::ViewCaches;
use crate::document::first_with_id;
use crate::document::lemma_first_with_id;
use crate::document::RawCellAnchor;
use crate::fold_laws::cells_once;
use crate::geometry::describes;
use crate::geometry::display_of;
use crate::geometry::view_places;
use crate::grid::RawRowId;
use crate::lookup::point_for_anchor;
use crate::lookup::row_for_anchor;
use crate::materialize::materialized;
use crate::materialize::window_rows;
use crate::materialize::MaterializedProjection;
use crate::plan::PlanModel;
use crate::plan::ProjectionPlan;
use crate::planning::lemma_handed_out;
use crate::planning::plan_key;
use crate::planning::plan_requested;
use crate::planning::value_of;
use crate::projection::copy_ids;
use crate::projection::same_ids;
use crate::projection::DisplayPoint;
use crate::projection::DocumentPoint;
use crate::projection::HistoryProjection;
use crate::projection::OriginSpan;
use crate::projection::PlanKeyModel;
use crate::projection::ProjectedRowKind;
use crate::projection::ProjectedSelection;
use crate::projection::ProjectedSelectionEndpoint;
use crate::projection::ProjectedTopAnchor;
use crate::projection::ProjectionCacheKey;
use crate::projection::ProjectionMode;
use crate::projection::ProjectionPlanKey;
use crate::projection::ProjectionPolicy;
use crate::projection::ProjectionViewState;
use crate::screens::next_selection_revision;
use crate::selection::wrapped_in_view;
use crate::state::SelectionMode;
use crate::state::TerminalState;
use crate::view::rows_view;
use crate::view::share;
use crate::view::view_given;
use crate::view::view_requested;
use crate::viewport::find_display;
use crate::viewport::ProjectedViewport;
use crate::viewport::ViewportData;
use crate::words::is_uniform;

verus! {

/// `post` is `pre` without a selection in a folded document.
pub open spec fn folded_selection_left(pre: TerminalState, post: TerminalState) -> bool {
    if pre.projected_selection is Some {
        &&& post.projected_selection is None
        &&& post.selection_revision == next_selection_revision(pre.selection_revision)
        &&& post == TerminalState {
            projected_selection: post.projected_selection,
            selection_revision: post.selection_revision,
            ..pre
        }
    } else {
        post == pre
    }
}

/// Everything that a view without folding depends on.
pub open spec fn plain_view_key(
    state: TerminalState,
    revision: u64,
    block_mode: bool,
) -> ProjectionCacheKey {
    ProjectionCacheKey {
        grid_version: state.grid_version,
        projection_revision: revision,
        total_lines_scrolled: state.total_lines_scrolled,
        row_identity_revision: state.row_identity_revision,
        scrollback_len: state.scrollback@.len() as usize,
        scroll_offset: state.scroll_offset,
        rows: state.grid@.len() as usize,
        columns: state.grid.cols,
        alt_screen: state.use_alt_buffer,
        mode: if !block_mode || state.use_alt_buffer {
            ProjectionMode::Bypass
        } else {
            ProjectionMode::Identity
        },
    }
}

/// `view` shows what the terminal shows, row by row, and says where each cell
/// comes from.
pub open spec fn is_plain_view(
    state: TerminalState,
    key: ProjectionCacheKey,
    view: ViewportData,
) -> bool {
    &&& view.key == key
    &&& rows_view(view.cells@) == view_given(state)
    &&& view.row_wrapped@ == wrapped_in_view(state)
    &&& view.row_kinds@ == Seq::new(state.grid@.len(), |r: int| ProjectedRowKind::Raw)
    &&& describes(state, view_places(state), view.origins@, view.row_sources@)
    &&& view.cursor == DisplayPoint { row: state.cursor_row, column: state.cursor_col }
    &&& view.document_rows == state.document().len()
    &&& view.document_start == state.history().len() - state.scroll_offset
    &&& view.top_padding == 0
    &&& view.effective_collapsed@ == Seq::<u64>::empty()
}

/// The remembered view serves as it is.
pub open spec fn plain_view_hit(state: TerminalState, key: ProjectionCacheKey) -> bool {
    state.caches.viewport matches Some(view) && view.data.key == key
}

/// The terminal without the remembered view.
pub open spec fn without_viewport(state: TerminalState) -> TerminalState {
    TerminalState { caches: ViewCaches { viewport: None, ..state.caches }, ..state }
}

/// `post` is `pre` after a view without folding was requested, and `view` is
/// that view.
pub open spec fn plain_view_requested(
    pre: TerminalState,
    revision: u64,
    block_mode: bool,
    post: TerminalState,
    view: ProjectedViewport,
) -> bool {
    exists|left: TerminalState|
        {
            &&& #[trigger] folded_selection_left(pre, left)
            &&& plain_view_given(left, plain_view_key(left, revision, block_mode), post, view)
        }
}

/// `post` is `pre` after a view for `key` was requested, and `view` is that
/// view: the remembered one, or else a new one.
pub open spec fn plain_view_given(
    pre: TerminalState,
    key: ProjectionCacheKey,
    post: TerminalState,
    view: ProjectedViewport,
) -> bool {
    if plain_view_hit(pre, key) {
        &&& post == pre
        &&& view == pre.caches.viewport->0
    } else {
        exists|drawn: TerminalState|
            {
                &&& #[trigger] view_requested(without_viewport(pre), drawn)
                &&& is_plain_view(without_viewport(pre), key, *view.data)
                &&& post.caches == ViewCaches { viewport: Some(view), ..drawn.caches }
                &&& post == TerminalState { caches: post.caches, ..drawn }
            }
    }
}

/// What holds the top row of a view: the view itself knows, or else the
/// identity of the row that it shows.
pub open spec fn held_top(state: TerminalState, view: ProjectedViewport) -> Option<
    ProjectedTopAnchor,
> {
    if view.top_anchor() is Some {
        view.top_anchor()
    } else {
        let top = view.data.top_padding as int;
        let absolute = if top < view.data.row_sources@.len()
            && view.data.row_sources@[top] is Some {
            view.data.row_sources@[top]->0.raw_absolute_row
        } else {
            view.plain_absolute_row(view.data.top_padding)
        };
        if absolute < state.document().len()
            && state.document()[absolute as int].id.spec_is_tracked() {
            Some(ProjectedTopAnchor::RawRow(state.document()[absolute as int].id))
        } else {
            None
        }
    }
}

/// The physical row that something holds.
pub open spec fn row_held(anchor: Option<ProjectedTopAnchor>) -> Option<RawRowId> {
    match anchor {
        Some(ProjectedTopAnchor::RawCell(cell)) => Some(cell.row_id),
        Some(ProjectedTopAnchor::RawRow(id)) => Some(id),
        Some(ProjectedTopAnchor::Summary { hidden_range, .. }) => Some(hidden_range.start.row),
        None => None,
    }
}

/// The absolute row of a physical row that has an identity.
pub open spec fn retained_row(state: TerminalState, id: RawRowId) -> Option<int> {
    if id.spec_is_tracked() {
        first_with_id(state.document(), id)
    } else {
        None
    }
}

/// How far the terminal is to be scrolled back to go on where the reader of a
/// folded document was.
pub open spec fn restored_offset(state: TerminalState, view: ProjectionViewState) -> usize {
    let history = state.history().len() as int;
    if view.follow_bottom {
        0
    } else {
        match row_held(view.top_anchor) {
            Some(id) => match retained_row(state, id) {
                Some(row) => if row < history {
                    (history - row) as usize
                } else {
                    0
                },
                None => state.scroll_offset,
            },
            None => state.scroll_offset,
        }
    }
}

/// The terminal and the reader back in the document without folding.
pub open spec fn restored(state: TerminalState, view: ProjectionViewState) -> TerminalState {
    if view.last_plan_key is Some {
        TerminalState { scroll_offset: restored_offset(state, view), ..state }
    } else {
        state
    }
}

/// `post` is `pre` after the reader went back to the document without folding
/// and requested a view, which is `view`.
pub open spec fn unfolded_view_requested(
    pre: TerminalState,
    revision: u64,
    pre_view: ProjectionViewState,
    post: TerminalState,
    post_view: ProjectionViewState,
    view: ProjectedViewport,
) -> bool {
    &&& plain_view_requested(restored(pre, pre_view), revision, true, post, view)
    &&& post_view == ProjectionViewState { last_plan_key: None, ..pre_view }
}

/// A selection in another document, if it can be carried over to `plan`.
pub open spec fn carried_over(selection: ProjectedSelection, plan: PlanModel) -> Option<
    ProjectedSelection,
> {
    let anchor = point_for_anchor(plan.rows, selection.anchor.anchor);
    let active = point_for_anchor(plan.rows, selection.active.anchor);
    if selection.mode == SelectionMode::Block || selection.plan_cols != plan.cols
        || selection.hidden@ != plan.effective_collapsed || anchor is None || active is None {
        None
    } else {
        Some(
            ProjectedSelection {
                plan_revision: plan.plan_revision,
                anchor: ProjectedSelectionEndpoint {
                    point: document_point(anchor->0),
                    ..selection.anchor
                },
                active: ProjectedSelectionEndpoint {
                    point: document_point(active->0),
                    ..selection.active
                },
                ..selection
            },
        )
    }
}

/// A document cell by row and column.
pub open spec fn document_point(point: (int, int)) -> DocumentPoint {
    DocumentPoint { row: point.0 as usize, column: point.1 as usize }
}

/// `post` is `pre` with its selection, if any, in the folded document `plan`.
pub open spec fn folded_selection_entered(
    pre: TerminalState,
    plan: PlanModel,
    post: TerminalState,
) -> bool {
    let moved = match pre.projected_selection {
        Some(selection) => plan.plan_revision == 0 || selection.plan_revision
            != plan.plan_revision,
        None => false,
    };
    &&& post.selection is None
    &&& post.projected_selection == if !moved {
        pre.projected_selection
    } else if plan.plan_revision == 0 {
        None
    } else {
        carried_over(pre.projected_selection->0, plan)
    }
    &&& post.selection_revision == if pre.selection is Some || moved {
        next_selection_revision(pre.selection_revision)
    } else {
        pre.selection_revision
    }
    &&& post == TerminalState {
        selection: post.selection,
        projected_selection: post.projected_selection,
        selection_revision: post.selection_revision,
        ..pre
    }
}

/// The key of the document that a reader last saw.
pub open spec fn last_key(view: ProjectionViewState) -> Option<PlanKeyModel> {
    match view.last_plan_key {
        Some(key) => Some(key@),
        None => None,
    }
}

/// How many rows a document of `total` rows exceeds a view of `height` rows.
pub open spec fn excess(total: int, height: int) -> int {
    if total > height {
        total - height
    } else {
        0
    }
}

/// `n`, or `limit` where that is less.
pub open spec fn at_most(n: int, limit: int) -> int {
    if n < limit {
        n
    } else {
        limit
    }
}

/// How many rows above the bottom of `plan` a reader is. In the document last
/// seen the reader stays; at the bottom the reader follows it. Rows appended
/// below leave the reader where they were, and in another document the reader
/// goes to what held the top row.
pub open spec fn settled_offset(
    view: ProjectionViewState,
    key: PlanKeyModel,
    plan: PlanModel,
    height: int,
) -> int {
    let limit = excess(plan.rows.len() as int, height);
    if last_key(view) == Some(key) {
        view.offset_from_bottom as int
    } else if view.follow_bottom {
        0
    } else if plan.incremental_from is Some && plan.incremental_from == last_key(view) {
        at_most(view.offset_from_bottom + plan.incremental_appended_rows, limit)
    } else {
        match view.top_anchor {
            Some(anchor) => match row_for_anchor(plan.rows, anchor) {
                Some(row) => limit - at_most(row, limit),
                None => at_most(view.offset_from_bottom as int, limit),
            },
            None => at_most(view.offset_from_bottom as int, limit),
        }
    }
}

/// Whether two views of folded documents depend on the same.
pub open spec fn same_view_key(a: TransformedViewKey, b: TransformedViewKey) -> bool {
    &&& a.plan@ == b.plan@
    &&& a.projection_revision == b.projection_revision
    &&& a.grid_version == b.grid_version
    &&& a.document_start == b.document_start
    &&& a.viewport_rows == b.viewport_rows
    &&& a.cursor_row == b.cursor_row
    &&& a.cursor_col == b.cursor_col
}

/// Everything that a view of a folded document depends on.
pub open spec fn is_folded_view_key(
    state: TerminalState,
    key: PlanKeyModel,
    plan: PlanModel,
    start: int,
    view_key: TransformedViewKey,
) -> bool {
    &&& view_key.plan@ == key
    &&& view_key.projection_revision == plan.plan_revision
    &&& view_key.grid_version == state.grid_version
    &&& view_key.document_start == start
    &&& view_key.viewport_rows == state.grid@.len()
    &&& view_key.cursor_row == state.grid@[state.cursor_row as int].id
    &&& view_key.cursor_col == state.cursor_col
}

/// Where a view shows the cursor; the largest row and column where it does not.
pub open spec fn shown_cursor(
    state: TerminalState,
    origins: Seq<OriginSpan>,
) -> DisplayPoint {
    let cell = RawCellAnchor {
        row_id: state.grid@[state.cursor_row as int].id,
        column: state.cursor_col,
    };
    match display_of(origins, cell) {
        Some(point) => point,
        None => DisplayPoint { row: usize::MAX, column: usize::MAX },
    }
}

/// `view` shows the folded document `plan` from row `start` on.
pub open spec fn is_folded_view(
    state: TerminalState,
    plan: PlanModel,
    offset: usize,
    start: int,
    view: ViewportData,
) -> bool {
    &&& view.key == ProjectionCacheKey {
        grid_version: state.grid_version,
        projection_revision: plan.plan_revision,
        total_lines_scrolled: state.total_lines_scrolled,
        row_identity_revision: state.row_identity_revision,
        scrollback_len: state.scrollback@.len() as usize,
        scroll_offset: offset,
        rows: state.grid@.len() as usize,
        columns: plan.cols,
        alt_screen: false,
        mode: ProjectionMode::Transformed,
    }
    &&& exists|shown: MaterializedProjection|
        {
            &&& #[trigger] materialized(state, plan, start, state.rows(), shown)
            &&& view.cells@ == shown.cells@
            &&& view.row_wrapped@ == shown.row_wrapped@
            &&& view.row_kinds@ == shown.row_kinds@
            &&& view.row_sources@ == shown.row_sources@
            &&& view.origins@ == shown.origins@
            &&& view.document_start == shown.document_start
            &&& view.top_padding == shown.top_padding
        }
    &&& view.cursor == shown_cursor(state, view.origins@)
    &&& view.document_rows == plan.rows.len()
    &&& view.effective_collapsed@ == plan.effective_collapsed
}

/// `post` is `pre` after a view of the folded document `plan` from row `start`
/// on was requested, and `view` is that view: the remembered one, or else a
/// new one.
pub open spec fn folded_view_given(
    pre: TerminalState,
    key: PlanKeyModel,
    plan: PlanModel,
    offset: usize,
    start: int,
    post: TerminalState,
    view: ProjectedViewport,
) -> bool {
    match pre.caches.transformed {
        Some(cache) if is_folded_view_key(pre, key, plan, start, cache.key) => {
            &&& post == pre
            &&& view == cache.viewport
        },
        _ => {
            &&& is_folded_view(pre, plan, offset, start, *view.data)
            &&& post.caches.transformed matches Some(cache)
            &&& is_folded_view_key(pre, key, plan, start, cache.key)
            &&& cache.viewport == view
            &&& post.caches == ViewCaches {
                transformed: post.caches.transformed,
                ..pre.caches
            }
            &&& post == TerminalState { caches: post.caches, ..pre }
        },
    }
}

/// `post` is `pre` after the reader requested a view of the folded document
/// `plan`, which is `view`.
pub open spec fn folded_view_requested(
    pre: TerminalState,
    key: PlanKeyModel,
    plan: PlanModel,
    pre_view: ProjectionViewState,
    post: TerminalState,
    post_view: ProjectionViewState,
    view: ProjectedViewport,
) -> bool {
    let offset = settled_offset(pre_view, key, plan, pre.rows());
    let limit = excess(plan.rows.len() as int, pre.rows());
    let start = if offset < limit {
        limit - offset
    } else {
        0
    };
    exists|entered: TerminalState|
        {
            &&& #[trigger] folded_selection_entered(pre, plan, entered)
            &&& folded_view_given(entered, key, plan, offset as usize, start, post, view)
            &&& post_view.offset_from_bottom == view.data.key.scroll_offset
            &&& post_view.follow_bottom == (view.data.key.scroll_offset == 0)
            &&& post_view.top_anchor == if view.data.key.scroll_offset == 0 {
                None
            } else {
                held_top(entered, view)
            }
            &&& last_key(post_view) == Some(key)
        }
}

/// `post_view` is `pre_view` of a reader who comes from the document without
/// folding, scrolled back, and whose top row is held.
pub open spec fn reader_enters(
    pre: TerminalState,
    revision: u64,
    pre_view: ProjectionViewState,
    post: TerminalState,
    post_view: ProjectionViewState,
) -> bool {
    if pre_view.last_plan_key is None && pre.scroll_offset > 0 {
        exists|view: ProjectedViewport|
            {
                &&& #[trigger] plain_view_requested(pre, revision, true, post, view)
                &&& post_view == ProjectionViewState {
                    top_anchor: held_top(post, view),
                    follow_bottom: false,
                    ..pre_view
                }
            }
    } else {
        &&& post == pre
        &&& post_view == pre_view
    }
}

/// `post` is `pre` after the reader requested a view with the outputs of the
/// policy folded, which is `view`. The alternate screen and a view without
/// regard to commands fold nothing and leave the reader where they are.
pub open spec fn projected_view_requested(
    pre: TerminalState,
    revision: u64,
    block_mode: bool,
    policy_revision: u64,
    ids: Seq<u64>,
    pre_view: ProjectionViewState,
    post: TerminalState,
    post_view: ProjectionViewState,
    view: ProjectedViewport,
) -> bool {
    if !block_mode || pre.use_alt_buffer {
        &&& plain_view_requested(pre, revision, block_mode, post, view)
        &&& post_view == pre_view
    } else if ids.len() == 0 {
        unfolded_view_requested(pre, revision, pre_view, post, post_view, view)
    } else {
        exists|ready: TerminalState, ready_view: ProjectionViewState|
            {
                &&& #[trigger] reader_enters(pre, revision, pre_view, ready, ready_view)
                &&& document_view_requested(
                    ready,
                    revision,
                    policy_revision,
                    ids,
                    ready_view,
                    post,
                    post_view,
                    view,
                )
            }
    }
}

/// `post` is `pre` after the reader requested a view of the document folded by
/// the outputs `ids`, or of the plain one where nothing is folded.
pub open spec fn document_view_requested(
    pre: TerminalState,
    revision: u64,
    policy_revision: u64,
    ids: Seq<u64>,
    pre_view: ProjectionViewState,
    post: TerminalState,
    post_view: ProjectionViewState,
    view: ProjectedViewport,
) -> bool {
    exists|planned: TerminalState, plan: Option<PlanModel>|
        {
            &&& #[trigger] plan_requested(
                pre,
                pre.grid.cols,
                policy_revision,
                ids,
                planned,
                plan,
            )
            &&& match plan {
                None => unfolded_view_requested(
                    planned,
                    revision,
                    pre_view,
                    post,
                    post_view,
                    view,
                ),
                Some(plan) => folded_view_requested(
                    planned,
                    plan_key(pre, pre.grid.cols, policy_revision, ids),
                    plan,
                    pre_view,
                    post,
                    post_view,
                    view,
                ),
            }
        }
}

impl TransformedViewKey {
    /// Whether two views of folded documents depend on the same.
    fn same(&self, other: &TransformedViewKey) -> (same: bool)
        ensures
            same == same_view_key(*self, *other),
    {
        self.projection_revision == other.projection_revision && self.grid_version
            == other.grid_version && self.document_start == other.document_start
            && self.viewport_rows == other.viewport_rows && self.cursor_row == other.cursor_row
            && self.cursor_col == other.cursor_col && self.plan.same(&other.plan)
    }
}

impl TerminalState {
    /// Drops a selection in a folded document.
    pub fn leave_transformed_selection_space(&mut self)
        ensures
            folded_selection_left(*old(self), *final(self)),
            old(self).core_wf() ==> final(self).core_wf(),
    {
        if self.projected_selection.is_some() {
            self.projected_selection = None;
            self.bump_selection_revision();
        }
    }

    /// Makes a view without folding.
    fn draw_plain_view(&mut self, key: ProjectionCacheKey) -> (view: ProjectedViewport)
        requires
            old(self).core_wf(),
            old(self).caches.viewport is None,
            key.columns == old(self).cols(),
        ensures
            final(self).core_wf(),
            view.wf(),
            exists|drawn: TerminalState|
                {
                    &&& #[trigger] view_requested(*old(self), drawn)
                    &&& is_plain_view(*old(self), key, *view.data)
                    &&& final(self).caches == (ViewCaches {
                        viewport: Some(view),
                        ..drawn.caches
                    })
                    &&& *final(self) == (TerminalState { caches: final(self).caches, ..drawn })
                },
    {
        let height: usize = self.grid.rows();
        let (origins, row_sources) = self.identity_projection_geometry();
        let row_wrapped = self.get_visible_row_wrapped();
        assert(row_wrapped@ =~= wrapped_in_view(*self));
        let row_kinds: Vec<ProjectedRowKind> = vec![ProjectedRowKind::Raw; height];
        assert(row_kinds@ =~= Seq::new(self.grid@.len(), |r: int| ProjectedRowKind::Raw));
        let document_rows: usize = self.scrollback.len() + height;
        let document_start: usize = self.scrollback.len() - self.scroll_offset;
        let cursor = DisplayPoint { row: self.cursor_row, column: self.cursor_col };
        proof {
            lemma_view_places_len(*self);
        }
        let cells = self.get_visible_cells();
        let ghost drawn = *self;
        assert(view_requested(*old(self), drawn));
        let view = ProjectedViewport {
            data: Arc::new(
                ViewportData {
                    key,
                    cells,
                    row_wrapped,
                    row_kinds,
                    row_sources,
                    origins,
                    cursor,
                    document_rows,
                    document_start,
                    top_padding: 0,
                    effective_collapsed: Vec::new(),
                },
            ),
        };
        proof {
            reveal(ViewCaches::wf);
        }
        self.caches.viewport = Some(view.copy());
        view
    }

    /// A view without folding.
    pub fn projected_viewport(&mut self, projection: HistoryProjection, block_mode: bool) -> (view:
        ProjectedViewport)
        requires
            old(self).core_wf(),
        ensures
            final(self).core_wf(),
            view.wf(),
            plain_view_requested(
                *old(self),
                projection.revision,
                block_mode,
                *final(self),
                view,
            ),
    {
        self.leave_transformed_selection_space();
        let ghost left = *self;
        assert(folded_selection_left(*old(self), left));
        let mode = if !block_mode || self.use_alt_buffer {
            ProjectionMode::Bypass
        } else {
            ProjectionMode::Identity
        };
        let key = ProjectionCacheKey {
            grid_version: self.grid_version,
            projection_revision: projection.revision,
            total_lines_scrolled: self.total_lines_scrolled,
            row_identity_revision: self.row_identity_revision,
            scrollback_len: self.scrollback.len(),
            scroll_offset: self.scroll_offset,
            rows: self.grid.rows(),
            columns: self.grid.row_len(),
            alt_screen: self.use_alt_buffer,
            mode,
        };
        assert(key == plain_view_key(left, projection.revision, block_mode));
        proof {
            reveal(ViewCaches::wf);
        }
        if let Some(view) = &self.caches.viewport {
            if view.key() == key {
                return view.copy();
            }
        }
        self.caches.viewport = None;
        assert(*self == without_viewport(left));
        let view = self.draw_plain_view(key);
        assert(plain_view_given(left, key, *self, view));
        view
    }

    /// What holds the top row of a view.
    pub fn projected_top_anchor(&self, view: &ProjectedViewport) -> (anchor: Option<
        ProjectedTopAnchor,
    >)
        requires
            self.core_wf(),
        ensures
            anchor == held_top(*self, *view),
    {
        let own = view.stable_top_anchor();
        if own.is_some() {
            return own;
        }
        let top: usize = view.top_padding();
        let absolute: usize = match view.view_row_absolute(top) {
            Some(absolute) => absolute,
            None => view.legacy_absolute_row(top),
        };
        match self.raw_row_id_at_absolute(absolute) {
            Some(id) => {
                if id.is_tracked() {
                    Some(ProjectedTopAnchor::RawRow(id))
                } else {
                    None
                }
            },
            None => None,
        }
    }

    /// The absolute row of a physical row that has an identity.
    pub fn retained_absolute_for_raw(&self, id: RawRowId) -> (row: Option<usize>)
        requires
            self.core_wf(),
        ensures
            match (retained_row(*self, id), row) {
                (Some(expected), Some(found)) => found == expected && found
                    < self.document().len(),
                (None, None) => true,
                _ => false,
            },
    {
        if !id.is_tracked() {
            return None;
        }
        let ghost lines = self.document();
        let total: usize = self.scrollback.len() + self.grid.rows();
        let mut row: usize = 0;
        while row < total
            invariant
                self.core_wf(),
                lines == self.document(),
                total == lines.len(),
                row <= total,
                id.spec_is_tracked(),
                forall|k: int| 0 <= k < row ==> (#[trigger] lines[k]).id != id,
            decreases total - row,
        {
            match self.raw_row_id_at_absolute(row) {
                Some(found) => {
                    if found == id {
                        proof {
                            lemma_first_with_id(lines, id);
                            assert(lines[row as int].id == id);
                        }
                        return Some(row);
                    }
                },
                None => {},
            }
            row = row + 1;
        }
        proof {
            lemma_first_with_id(lines, id);
        }
        None
    }

    /// Goes on in the document without folding where the reader of a folded
    /// one was.
    fn restore_identity_scroll_from_projection(&mut self, view: &ProjectionViewState)
        requires
            old(self).core_wf(),
        ensures
            final(self).core_wf(),
            *final(self) == (TerminalState {
                scroll_offset: restored_offset(*old(self), *view),
                ..*old(self)
            }),
    {
        let history: usize = self.scrollback.len();
        if view.follow_bottom {
            self.scroll_offset = 0;
            return;
        }
        let held = match view.top_anchor {
            Some(ProjectedTopAnchor::RawCell(cell)) => Some(cell.row_id),
            Some(ProjectedTopAnchor::RawRow(id)) => Some(id),
            Some(ProjectedTopAnchor::Summary { hidden_range, .. }) => Some(hidden_range.start.row),
            None => None,
        };
        if let Some(id) = held {
            if let Some(row) = self.retained_absolute_for_raw(id) {
                self.scroll_offset = if row < history {
                    history - row
                } else {
                    0
                };
            }
        }
    }

    /// Brings the reader back to the document without folding.
    fn view_unfolded(
        &mut self,
        projection: HistoryProjection,
        view_state: &mut ProjectionViewState,
    ) -> (view: ProjectedViewport)
        requires
            old(self).core_wf(),
        ensures
            final(self).core_wf(),
            view.wf(),
            unfolded_view_requested(
                *old(self),
                projection.revision,
                *old(view_state),
                *final(self),
                *final(view_state),
                view,
            ),
    {
        if view_state.last_plan_key.is_some() {
            self.restore_identity_scroll_from_projection(view_state);
            view_state.last_plan_key = None;
        }
        assert(*self == restored(*old(self), *old(view_state)));
        self.projected_viewport(projection, true)
    }

    /// Carries a selection over to another document.
    fn carry_over(&mut self, plan: &ProjectionPlan)
        requires
            old(self).projected_selection is Some,
        ensures
            final(self).projected_selection == carried_over(
                old(self).projected_selection->0,
                plan@,
            ),
            *final(self) == (TerminalState {
                projected_selection: final(self).projected_selection,
                ..*old(self)
            }),
    {
        let mut taken: Option<ProjectedSelection> = None;
        std::mem::swap(&mut taken, &mut self.projected_selection);
        if let Some(selection) = taken {
            if selection.mode == SelectionMode::Block || selection.plan_cols != plan.cols
                || !same_ids(&selection.hidden, &plan.effective_collapsed) {
                return;
            }
            match (
                plan.selection_point_for_anchor(selection.anchor.anchor),
                plan.selection_point_for_anchor(selection.active.anchor),
            ) {
                (Some(anchor), Some(active)) => {
                    self.projected_selection = Some(
                        ProjectedSelection {
                            plan_revision: plan.plan_revision,
                            anchor: ProjectedSelectionEndpoint {
                                point: anchor,
                                ..selection.anchor
                            },
                            active: ProjectedSelectionEndpoint {
                                point: active,
                                ..selection.active
                            },
                            ..selection
                        },
                    );
                },
                _ => {},
            }
        }
    }

    /// Takes the selection into a folded document.
    fn enter_transformed_selection_space(&mut self, plan: &ProjectionPlan)
        requires
            old(self).core_wf(),
        ensures
            final(self).core_wf(),
            folded_selection_entered(*old(self), plan@, *final(self)),
    {
        let raw_changed = self.selection.is_some();
        let moved = match &self.projected_selection {
            Some(selection) => plan.plan_revision == 0 || selection.plan_revision
                != plan.plan_revision,
            None => false,
        };
        self.selection = None;
        if moved {
            if plan.plan_revision == 0 {
                self.projected_selection = None;
            } else {
                self.carry_over(plan);
            }
        }
        if raw_changed || moved {
            self.bump_selection_revision();
        }
    }

    /// Makes a view of a folded document.
    fn draw_folded_view(&self, plan: &ProjectionPlan, offset: usize, start: usize) -> (view:
        ProjectedViewport)
        requires
            self.core_wf(),
            cells_once(plan@.rows),
        ensures
            view.wf(),
            is_folded_view(*self, plan@, offset, start as int, *view.data),
    {
        let height: usize = self.grid.rows();
        let shown = self.materialize_projection_plan(plan, start, height);
        let ghost model = shown;
        assert(materialized(*self, plan@, start as int, self.rows(), model));
        let cell = RawCellAnchor {
            row_id: self.grid.row_id(self.cursor_row),
            column: self.cursor_col,
        };
        let cursor = match find_display(&shown.origins, cell) {
            Some(point) => point,
            None => DisplayPoint { row: usize::MAX, column: usize::MAX },
        };
        let key = ProjectionCacheKey {
            grid_version: self.grid_version,
            projection_revision: plan.plan_revision,
            total_lines_scrolled: self.total_lines_scrolled,
            row_identity_revision: self.row_identity_revision,
            scrollback_len: self.scrollback.len(),
            scroll_offset: offset,
            rows: height,
            columns: plan.cols,
            alt_screen: false,
            mode: ProjectionMode::Transformed,
        };
        let view = ProjectedViewport {
            data: Arc::new(
                ViewportData {
                    key,
                    cells: Arc::new(shown.cells),
                    row_wrapped: shown.row_wrapped,
                    row_kinds: shown.row_kinds,
                    row_sources: shown.row_sources,
                    origins: shown.origins,
                    cursor,
                    document_rows: plan.document_rows(),
                    document_start: shown.document_start,
                    top_padding: shown.top_padding,
                    effective_collapsed: copy_ids(&plan.effective_collapsed),
                },
            ),
        };
        assert(is_uniform(rows_view(view.data.cells@)));
        view
    }

    /// A view of a folded document: the remembered one, or else a new one.
    fn folded_view(
        &mut self,
        key: &Arc<ProjectionPlanKey>,
        plan: &ProjectionPlan,
        offset: usize,
        start: usize,
    ) -> (view: ProjectedViewport)
        requires
            old(self).core_wf(),
            cells_once(plan@.rows),
            old(self).caches.plan is Some,
            old(self).caches.plan->0.plan@ == plan@,
            plan@.effective_collapsed.len() > 0,
        ensures
            final(self).core_wf(),
            view.wf(),
            folded_view_given(
                *old(self),
                key@,
                plan@,
                offset,
                start as int,
                *final(self),
                view,
            ),
    {
        let view_key = TransformedViewKey {
            plan: share(key),
            projection_revision: plan.plan_revision,
            grid_version: self.grid_version,
            document_start: start,
            viewport_rows: self.grid.rows(),
            cursor_row: self.grid.row_id(self.cursor_row),
            cursor_col: self.cursor_col,
        };
        proof {
            reveal(ViewCaches::wf);
        }
        if let Some(cache) = &self.caches.transformed {
            if cache.key.same(&view_key) {
                return cache.viewport.copy();
            }
        }
        let view = self.draw_folded_view(plan, offset, start);
        proof {
            lemma_window_shown(*self, plan@, offset, start as int, view);
        }
        self.caches.transformed = Some(
            TransformedViewCache { key: view_key, viewport: view.copy() },
        );
        view
    }

    /// How many rows above the bottom of a document a reader is.
    fn settle_offset(
        &self,
        view_state: &ProjectionViewState,
        key: &Arc<ProjectionPlanKey>,
        plan: &ProjectionPlan,
        limit: usize,
    ) -> (offset: usize)
        requires
            self.core_wf(),
            limit == excess(plan@.rows.len() as int, self.rows()),
        ensures
            offset == settled_offset(*view_state, key@, plan@, self.rows()),
    {
        let mut advanced = false;
        if let Some(last) = &view_state.last_plan_key {
            if last.same(key) {
                return view_state.offset_from_bottom;
            }
            if let Some(from) = &plan.incremental_from {
                advanced = from.same(last);
            }
        }
        if view_state.follow_bottom {
            return 0;
        }
        let wanted: usize = if advanced {
            view_state.offset_from_bottom.saturating_add(plan.incremental_appended_rows)
        } else {
            if let Some(anchor) = view_state.top_anchor {
                if let Some(row) = plan.document_row_for_anchor(anchor) {
                    return limit - if row < limit {
                        row
                    } else {
                        limit
                    };
                }
            }
            view_state.offset_from_bottom
        };
        if wanted < limit {
            wanted
        } else {
            limit
        }
    }

    /// Shows the reader a folded document.
    fn view_folded(
        &mut self,
        key: Arc<ProjectionPlanKey>,
        plan: &ProjectionPlan,
        view_state: &mut ProjectionViewState,
    ) -> (view: ProjectedViewport)
        requires
            old(self).core_wf(),
            cells_once(plan@.rows),
            old(self).caches.plan is Some,
            old(self).caches.plan->0.plan@ == plan@,
            plan@.effective_collapsed.len() > 0,
        ensures
            final(self).core_wf(),
            view.wf(),
            folded_view_requested(
                *old(self),
                key@,
                plan@,
                *old(view_state),
                *final(self),
                *final(view_state),
                view,
            ),
    {
        self.enter_transformed_selection_space(plan);
        let ghost entered = *self;
        assert(folded_selection_entered(*old(self), plan@, entered));
        let height: usize = self.grid.rows();
        let total: usize = plan.document_rows();
        let limit: usize = if total > height {
            total - height
        } else {
            0
        };
        let offset: usize = self.settle_offset(view_state, &key, plan, limit);
        let start: usize = if offset < limit {
            limit - offset
        } else {
            0
        };
        let view = self.folded_view(&key, plan, offset, start);
        let shown: usize = view.scroll_offset();
        view_state.offset_from_bottom = shown;
        view_state.follow_bottom = shown == 0;
        view_state.top_anchor = if shown == 0 {
            None
        } else {
            proof {
                lemma_held_top(entered, *self, view);
            }
            self.projected_top_anchor(&view)
        };
        view_state.last_plan_key = Some(key);
        view
    }

    /// A view with the outputs of `policy` folded, for the reader at
    /// `view_state`.
    pub fn projected_viewport_with_state(
        &mut self,
        projection: HistoryProjection,
        block_mode: bool,
        policy: &ProjectionPolicy,
        view_state: &mut ProjectionViewState,
    ) -> (view: ProjectedViewport)
        requires
            old(self).core_wf(),
        ensures
            final(self).core_wf(),
            view.wf(),
            projected_view_requested(
                *old(self),
                projection.revision,
                block_mode,
                policy.revision,
                policy.collapsed@,
                *old(view_state),
                *final(self),
                *final(view_state),
                view,
            ),
    {
        if !block_mode || self.use_alt_buffer {
            return self.projected_viewport(projection, block_mode);
        }
        if policy.is_identity() {
            return self.view_unfolded(projection, view_state);
        }
        self.admit_reader(projection, view_state);
        let ghost ready = *self;
        let ghost ready_view = *view_state;
        assert(reader_enters(
            *old(self),
            projection.revision,
            *old(view_state),
            ready,
            ready_view,
        ));
        self.view_document(projection, policy, view_state)
    }

    /// Holds the top row of a reader who comes from the document without
    /// folding.
    fn admit_reader(&mut self, projection: HistoryProjection, view_state: &mut ProjectionViewState)
        requires
            old(self).core_wf(),
        ensures
            final(self).core_wf(),
            reader_enters(
                *old(self),
                projection.revision,
                *old(view_state),
                *final(self),
                *final(view_state),
            ),
    {
        if view_state.last_plan_key.is_none() && self.scroll_offset > 0 {
            let view = self.projected_viewport(projection, true);
            view_state.top_anchor = self.projected_top_anchor(&view);
            view_state.follow_bottom = false;
            assert(plain_view_requested(
                *old(self),
                projection.revision,
                true,
                *self,
                view,
            ));
        }
    }

    /// Shows the reader the document folded by `policy`.
    fn view_document(
        &mut self,
        projection: HistoryProjection,
        policy: &ProjectionPolicy,
        view_state: &mut ProjectionViewState,
    ) -> (view: ProjectedViewport)
        requires
            old(self).core_wf(),
        ensures
            final(self).core_wf(),
            view.wf(),
            document_view_requested(
                *old(self),
                projection.revision,
                policy.revision,
                policy.collapsed@,
                *old(view_state),
                *final(self),
                *final(view_state),
                view,
            ),
    {
        let cols: usize = self.grid.row_len();
        let key = Arc::new(self.projection_plan_cache_key(cols, policy));
        let found = self.cached_collapsed_projection_plan(cols, policy);
        let ghost planned = *self;
        let ghost model = value_of(found);
        assert(plan_requested(
            *old(self),
            old(self).grid.cols,
            policy.revision,
            policy.collapsed@,
            planned,
            model,
        ));
        proof {
            if let Some(plan) = model {
                lemma_handed_out(
                    *old(self),
                    old(self).grid.cols,
                    policy.revision,
                    policy.collapsed@,
                    planned,
                    plan,
                );
            }
        }
        match found {
            Some(plan) => self.view_folded(key, &plan, view_state),
            None => self.view_unfolded(projection, view_state),
        }
    }
}

/// A view of a folded document is a window of it.
pub proof fn lemma_window_shown(
    state: TerminalState,
    plan: PlanModel,
    offset: usize,
    start: int,
    view: ProjectedViewport,
)
    requires
        is_folded_view(state, plan, offset, start, *view.data),
    ensures
        shows_window(plan, start, state.rows(), *view.data),
{
    let shown = choose|shown: MaterializedProjection|
        {
            &&& #[trigger] materialized(state, plan, start, state.rows(), shown)
            &&& view.data.cells@ == shown.cells@
            &&& view.data.row_wrapped@ == shown.row_wrapped@
            &&& view.data.row_kinds@ == shown.row_kinds@
            &&& view.data.row_sources@ == shown.row_sources@
            &&& view.data.origins@ == shown.origins@
            &&& view.data.document_start == shown.document_start
            &&& view.data.top_padding == shown.top_padding
        };
    assert(materialized(state, plan, start, state.rows(), shown));
    let rows = window_rows(plan, start, state.rows());
    assert(view.data.row_kinds@ =~= Seq::new(state.rows() as nat, |r: int| rows[r].kind));
}

/// As many rows as the screen has come from somewhere.
proof fn lemma_view_places_len(state: TerminalState)
    requires
        state.core_wf(),
    ensures
        view_places(state).len() == state.rows(),
{
}

/// What holds the top row of a view does not depend on what is remembered.
proof fn lemma_held_top(a: TerminalState, b: TerminalState, view: ProjectedViewport)
    requires
        a.scrollback == b.scrollback,
        a.grid == b.grid,
    ensures
        held_top(a, view) == held_top(b, view),
{
    assert(a.document() == b.document());
}

} // verus!
