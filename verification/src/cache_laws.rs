//! Remembered views are those of what they were made for.

use vstd::prelude::*;

use crate::caches::is_taken;
use crate::caches::ViewCaches;
use crate::collapses::resolved;
use crate::document::lemma_first_with_id;
use crate::geometry::describes;
use crate::geometry::origin_at;
use crate::geometry::screen_places;
use crate::geometry::view_places;
use crate::lifecycle::ClockReading;
use crate::materialize::materialized;
use crate::materialize::shown_cell;
use crate::materialize::shown_origin;
use crate::materialize::shown_source;
use crate::materialize::window_rows;
use crate::materialize::MaterializedProjection;
use crate::navigation::view_beginning;
use crate::parser::input_processed;
use crate::plan::PlanModel;
use crate::plan::SourceCell;
use crate::planning::document_width;
use crate::planning::is_plan_of;
use crate::planning::lemma_handed_out;
use crate::planning::plan_adopted;
use crate::planning::plan_advances;
use crate::planning::plan_hit;
use crate::planning::plan_key;
use crate::planning::plan_requested;
use crate::projected::document_view_requested;
use crate::projected::excess;
use crate::projected::folded_selection_entered;
use crate::projected::folded_selection_left;
use crate::projected::folded_view_given;
use crate::projected::folded_view_requested;
use crate::projected::is_folded_view;
use crate::projected::is_folded_view_key;
use crate::projected::is_plain_view;
use crate::projected::last_key;
use crate::projected::plain_view_given;
use crate::projected::plain_view_hit;
use crate::projected::plain_view_key;
use crate::projected::plain_view_requested;
use crate::projected::projected_view_requested;
use crate::projected::reader_enters;
use crate::projected::restored;
use crate::projected::row_held;
use crate::projected::settled_offset;
use crate::projected::unfolded_view_requested;
use crate::projected::without_viewport;
use crate::projection::DisplayPoint;
use crate::projection::PlanKeyModel;
use crate::projection::ProjectedRowKind;
use crate::projection::ProjectionViewState;
use crate::resize::size_set;
use crate::selection::wrapped_in_view;
use crate::setup::history_cleared;
use crate::setup::history_limited;
use crate::setup::oldest_rows_dropped;
use crate::setup::smaller;
use crate::setup::terminal_reset;
use crate::state::TerminalState;
use crate::view::lemma_view_beginning;
use crate::view::lemma_visible_ignores_caches;
use crate::view::rows_view;
use crate::view::unchanged_rows_keep_views_current;
use crate::view::view_cache_valid;
use crate::view::view_given;
use crate::view::view_remembered;
use crate::view::view_requested;
use crate::view::visible_rows;
use crate::view_laws::stale_views_are_forgotten;
use crate::viewport::ProjectedViewport;
use crate::viewport::ViewportData;

verus! {

/// The terminal scrolled back by `offset`.
pub open spec fn scrolled(state: TerminalState, offset: usize) -> TerminalState {
    TerminalState { scroll_offset: offset, ..state }
}

/// `view` shows the rows of the terminal as they are, scrolled back as its key
/// says.
pub open spec fn shows_plainly(state: TerminalState, view: ViewportData) -> bool {
    let then = scrolled(state, view.key.scroll_offset);
    &&& rows_view(view.cells@) == visible_rows(state, view.key.scroll_offset as int)
    &&& view.row_wrapped@ == wrapped_in_view(then)
    &&& view.row_kinds@ == Seq::new(state.grid@.len(), |r: int| ProjectedRowKind::Raw)
    &&& describes(then, view_places(then), view.origins@, view.row_sources@)
    &&& view.cursor == DisplayPoint { row: state.cursor_row, column: state.cursor_col }
    &&& view.document_rows == state.document().len()
    &&& view.document_start == state.history().len() - view.key.scroll_offset
    &&& view.top_padding == 0
    &&& view.effective_collapsed@ == Seq::<u64>::empty()
}

/// Whether a remembered view without folding is that of its version.
pub open spec fn plain_cache_valid(state: TerminalState) -> bool {
    state.caches.viewport is Some && state.caches.viewport->0.data.key.grid_version
        == state.grid_version ==> shows_plainly(state, *state.caches.viewport->0.data)
}

/// Whether a remembered view of the remembered folded document is that of its
/// version and cursor.
pub open spec fn folded_cache_valid(state: TerminalState) -> bool {
    let cache = state.caches.transformed->0;
    let plan = state.caches.plan->0.plan@;
    state.caches.transformed is Some && state.caches.plan is Some && plan.plan_revision
        == cache.key.projection_revision && cache.key.grid_version == state.grid_version
        && cache.key.viewport_rows == state.grid@.len() && cache.key.cursor_row
        == state.grid@[state.cursor_row as int].id && cache.key.cursor_col == state.cursor_col
        ==> is_folded_view(
        state,
        plan,
        cache.viewport.data.key.scroll_offset,
        cache.key.document_start as int,
        *cache.viewport.data,
    )
}

/// Whether all that is remembered of views is what it was made for.
pub open spec fn caches_valid(state: TerminalState) -> bool {
    &&& view_cache_valid(state)
    &&& plain_cache_valid(state)
    &&& folded_cache_valid(state)
}

/// Whether a view shows a document from row `start` on.
spec fn is_window(
    state: TerminalState,
    plan: PlanModel,
    start: int,
    view: ProjectedViewport,
) -> bool {
    is_folded_view(state, plan, view.data.key.scroll_offset, start, *view.data)
}

/// What views are made of is the same.
pub open spec fn same_rows(a: TerminalState, b: TerminalState) -> bool {
    &&& b.grid == a.grid
    &&& b.scrollback == a.scrollback
    &&& b.current_bg == a.current_bg
    &&& b.grid_version == a.grid_version
    &&& b.total_lines_scrolled == a.total_lines_scrolled
    &&& b.row_identity_revision == a.row_identity_revision
    &&& b.cursor_row == a.cursor_row
    &&& b.cursor_col == a.cursor_col
}

/// Views without folding depend on nothing but the rows.
proof fn lemma_plain_same(a: TerminalState, b: TerminalState, view: ProjectedViewport)
    requires
        same_rows(a, b),
        shows_plainly(a, *view.data),
    ensures
        shows_plainly(b, *view.data),
{
    let offset = view.data.key.scroll_offset;
    let x = scrolled(a, offset);
    let y = scrolled(b, offset);
    assert(a.history() == b.history());
    assert(a.document() == b.document());
    lemma_view_beginning(a, b, offset as int);
    assert(view_beginning(x) == view_beginning(y));
    assert(Seq::new(x.grid@.len(), |r: int| screen_places(x, r)) =~= Seq::new(
        y.grid@.len(),
        |r: int| screen_places(y, r),
    ));
    assert(view_places(x) == view_places(y));
    assert(wrapped_in_view(x) =~= wrapped_in_view(y));
    assert(describes(y, view_places(y), view.data.origins@, view.data.row_sources@));
}

/// What a document cell shows depends on nothing but the rows.
proof fn lemma_cells_same(a: TerminalState, b: TerminalState, cell: Option<SourceCell>)
    requires
        same_rows(a, b),
    ensures
        shown_cell(a, cell) == shown_cell(b, cell),
        shown_origin(a, cell) == shown_origin(b, cell),
{
    assert(a.document() == b.document());
}

/// Views of folded documents depend on nothing but the rows.
pub proof fn lemma_folded_same(
    a: TerminalState,
    b: TerminalState,
    plan: PlanModel,
    start: int,
    view: ProjectedViewport,
)
    requires
        same_rows(a, b),
        is_folded_view(a, plan, view.data.key.scroll_offset, start, *view.data),
    ensures
        is_folded_view(b, plan, view.data.key.scroll_offset, start, *view.data),
{
    let shown = choose|shown: MaterializedProjection|
        {
            &&& #[trigger] materialized(a, plan, start, a.rows(), shown)
            &&& view.data.cells@ == shown.cells@
            &&& view.data.row_wrapped@ == shown.row_wrapped@
            &&& view.data.row_kinds@ == shown.row_kinds@
            &&& view.data.row_sources@ == shown.row_sources@
            &&& view.data.origins@ == shown.origins@
            &&& view.data.document_start == shown.document_start
            &&& view.data.top_padding == shown.top_padding
        };
    assert(materialized(a, plan, start, a.rows(), shown));
    assert(a.document() == b.document());
    let rows = window_rows(plan, start, a.rows());
    let cols = plan.cols as int;
    assert forall|r: int| 0 <= r < rows.len() implies (#[trigger] shown.cells@[r])@ == Seq::new(
        cols as nat,
        |j: int| shown_cell(b, rows[r].cells[j]),
    ) by {
        assert forall|j: int| 0 <= j < cols implies shown_cell(a, rows[r].cells[j]) == shown_cell(
            b,
            rows[r].cells[j],
        ) by {
            lemma_cells_same(a, b, rows[r].cells[j]);
        }
        assert(shown.cells@[r]@ =~= Seq::new(
            cols as nat,
            |j: int| shown_cell(b, rows[r].cells[j]),
        ));
    }
    assert forall|r: int| 0 <= r < rows.len() implies #[trigger] shown.row_sources@[r]
        == shown_source(b, rows[r].source) by {
        assert(shown.row_sources@[r] == shown_source(a, rows[r].source));
    }
    assert forall|r: int, j: int| #[trigger] origin_at(shown.origins@, r, j)
        == if 0 <= r < rows.len() && 0 <= j < cols {
        shown_origin(b, rows[r].cells[j])
    } else {
        None
    } by {
        if 0 <= r < rows.len() && 0 <= j < cols {
            lemma_cells_same(a, b, rows[r].cells[j]);
        }
    }
    assert(materialized(b, plan, start, b.rows(), shown));
}

/// Where the rows stay as they are, so does what is remembered.
proof fn lemma_valid_same(a: TerminalState, b: TerminalState)
    requires
        caches_valid(a),
        same_rows(a, b),
        b.caches == a.caches,
    ensures
        caches_valid(b),
{
    unchanged_rows_keep_views_current(a, b);
    if a.caches.viewport is Some && a.caches.viewport->0.data.key.grid_version == a.grid_version {
        lemma_plain_same(a, b, a.caches.viewport->0);
    }
    if a.caches.transformed is Some && a.caches.plan is Some {
        let cache = a.caches.transformed->0;
        let plan = a.caches.plan->0.plan@;
        let start = cache.key.document_start as int;
        if is_window(a, plan, start, cache.viewport) {
            lemma_folded_same(a, b, plan, start, cache.viewport);
        }
    }
}

/// A view without folding is that of the rows as they are, and what is
/// remembered stays valid.
proof fn lemma_plain_current(
    pre: TerminalState,
    revision: u64,
    block_mode: bool,
    post: TerminalState,
    view: ProjectedViewport,
)
    requires
        pre.scroll_offset <= pre.history().len(),
        caches_valid(pre),
        plain_view_requested(pre, revision, block_mode, post, view),
    ensures
        caches_valid(post),
        shows_plainly(post, *view.data),
        same_rows(pre, post),
        post.caches.transformed == pre.caches.transformed,
        post.caches.plan == pre.caches.plan,
        post.caches.next_plan_revision == pre.caches.next_plan_revision,
        post.scroll_offset == pre.scroll_offset,
{
    let left = choose|left: TerminalState|
        {
            &&& #[trigger] folded_selection_left(pre, left)
            &&& plain_view_given(left, plain_view_key(left, revision, block_mode), post, view)
        };
    assert(folded_selection_left(pre, left));
    let key = plain_view_key(left, revision, block_mode);
    lemma_valid_same(pre, left);
    if !plain_view_hit(left, key) {
        let bare = without_viewport(left);
        let drawn = choose|drawn: TerminalState|
            {
                &&& #[trigger] view_requested(bare, drawn)
                &&& is_plain_view(bare, key, *view.data)
                &&& post.caches == ViewCaches { viewport: Some(view), ..drawn.caches }
                &&& post == TerminalState { caches: post.caches, ..drawn }
            };
        assert(view_requested(bare, drawn));
        unchanged_rows_keep_views_current(left, bare);
        lemma_drawn(bare, drawn);
        unchanged_rows_keep_views_current(drawn, post);
        let then = scrolled(bare, view.data.key.scroll_offset);
        assert(then == bare);
        assert(shows_plainly(bare, *view.data));
        lemma_plain_same(bare, post, view);
        if post.caches.transformed is Some && post.caches.plan is Some {
            let cache = left.caches.transformed->0;
            let plan = left.caches.plan->0.plan@;
            let start = cache.key.document_start as int;
            if is_window(left, plan, start, cache.viewport) {
                lemma_folded_same(left, post, plan, start, cache.viewport);
            }
        }
    }
}

/// Rows that are requested are the rows as they are.
proof fn lemma_drawn(pre: TerminalState, post: TerminalState)
    requires
        view_cache_valid(pre),
        view_requested(pre, post),
        pre.scroll_offset <= pre.history().len(),
    ensures
        view_given(pre) == visible_rows(pre, pre.scroll_offset as int),
        view_cache_valid(post),
        same_rows(pre, post),
{
    if !view_remembered(pre) {
        lemma_visible_ignores_caches(pre, post);
    }
}

/// What a remembered view of a folded document is found by.
pub open spec fn numbers_fit(caches: ViewCaches) -> bool {
    caches.transformed is Some ==> caches.transformed->0.key.projection_revision != 0 && is_taken(
        caches.transformed->0.key.projection_revision,
        caches.next_plan_revision,
    )
}

/// Going back to the document without folding gives the rows as they are.
pub proof fn lemma_unfolded_current(
    pre: TerminalState,
    revision: u64,
    pre_view: ProjectionViewState,
    post: TerminalState,
    post_view: ProjectionViewState,
    view: ProjectedViewport,
)
    requires
        pre.scroll_offset <= pre.history().len(),
        caches_valid(pre),
        unfolded_view_requested(pre, revision, pre_view, post, post_view, view),
    ensures
        caches_valid(post),
        shows_plainly(post, *view.data),
{
    let back = restored(pre, pre_view);
    lemma_valid_same(pre, back);
    match row_held(pre_view.top_anchor) {
        Some(id) => {
            lemma_first_with_id(pre.document(), id);
        },
        None => {},
    }
    lemma_plain_current(back, revision, true, post, view);
}

/// A request for a document keeps what is remembered valid.
pub proof fn lemma_plan_valid(
    pre: TerminalState,
    cols: usize,
    policy_revision: u64,
    ids: Seq<u64>,
    post: TerminalState,
    result: Option<PlanModel>,
)
    requires
        caches_valid(pre),
        numbers_fit(pre.caches),
        plan_requested(pre, cols, policy_revision, ids, post, result),
        pre.caches.plan is Some && pre.caches.plan->0.plan@.effective_collapsed.len() == 0
            ==> pre.caches.plan->0.plan@.plan_revision == 0,
    ensures
        caches_valid(post),
        same_rows(pre, post),
        post == (TerminalState { caches: post.caches, ..pre }),
{
    let key = plan_key(pre, cols, policy_revision, ids);
    unchanged_rows_keep_views_current(pre, post);
    if pre.caches.viewport is Some && pre.caches.viewport->0.data.key.grid_version
        == pre.grid_version {
        lemma_plain_same(pre, post, pre.caches.viewport->0);
    }
    if !plan_hit(pre, key) && !plan_advances(pre, key) && resolved(pre, ids).len() > 0 {
        let plan = choose|plan: PlanModel|
            {
                &&& is_plan_of(
                    pre,
                    document_width(cols),
                    resolved(pre, ids),
                    policy_revision,
                    plan,
                )
                &&& plan.plan_revision == 0
                &&& plan.incremental_from is None
                &&& plan.incremental_appended_rows == 0
                &&& #[trigger] plan_adopted(pre, key, plan, post, result)
            };
        assert(plan_adopted(pre, key, plan, post, result));
    }
}

/// A view of a folded document is that of the rows as they are, and what is
/// remembered stays valid.
proof fn lemma_folded_current(
    pre: TerminalState,
    key: PlanKeyModel,
    plan: PlanModel,
    pre_view: ProjectionViewState,
    post: TerminalState,
    post_view: ProjectionViewState,
    view: ProjectedViewport,
)
    requires
        caches_valid(pre),
        pre.caches.plan is Some,
        pre.caches.plan->0.plan@ == plan,
        folded_view_requested(pre, key, plan, pre_view, post, post_view, view),
    ensures
        caches_valid(post),
        shows_folded(post, view),
{
    let offset = settled_offset(pre_view, key, plan, pre.rows());
    let limit = excess(plan.rows.len() as int, pre.rows());
    let start = if offset < limit {
        limit - offset
    } else {
        0
    };
    let entered = choose|entered: TerminalState|
        {
            &&& #[trigger] folded_selection_entered(pre, plan, entered)
            &&& folded_view_given(entered, key, plan, offset as usize, start, post, view)
            &&& last_key(post_view) == Some(key)
        };
    assert(folded_selection_entered(pre, plan, entered));
    lemma_valid_same(pre, entered);
    if entered.caches.transformed is Some && is_folded_view_key(
        entered,
        key,
        plan,
        start,
        entered.caches.transformed->0.key,
    ) {
        assert(is_folded_view(post, plan, view.data.key.scroll_offset, start, *view.data));
    } else {
        unchanged_rows_keep_views_current(entered, post);
        if entered.caches.viewport is Some && entered.caches.viewport->0.data.key.grid_version
            == entered.grid_version {
            lemma_plain_same(entered, post, entered.caches.viewport->0);
        }
        assert(is_folded_view(entered, plan, view.data.key.scroll_offset, start, *view.data));
        lemma_folded_same(entered, post, plan, start, view);
    }
}

/// `view` shows a window of the remembered folded document with the rows as
/// they are.
pub open spec fn shows_folded(state: TerminalState, view: ProjectedViewport) -> bool {
    &&& state.caches.plan is Some
    &&& exists|start: int| #[trigger]
        is_folded_view(
            state,
            state.caches.plan->0.plan@,
            view.data.key.scroll_offset,
            start,
            *view.data,
        )
}

/// Every view that is handed out, remembered or made anew, is that of the rows
/// as they are, plainly or with outputs folded; and what is remembered stays
/// what it was made for.
pub proof fn views_are_current(
    pre: TerminalState,
    revision: u64,
    block_mode: bool,
    policy_revision: u64,
    ids: Seq<u64>,
    pre_view: ProjectionViewState,
    post: TerminalState,
    post_view: ProjectionViewState,
    view: ProjectedViewport,
)
    requires
        pre.core_wf(),
        caches_valid(pre),
        projected_view_requested(
            pre,
            revision,
            block_mode,
            policy_revision,
            ids,
            pre_view,
            post,
            post_view,
            view,
        ),
    ensures
        caches_valid(post),
        shows_plainly(post, *view.data) || shows_folded(post, view),
{
    reveal(ViewCaches::wf);
    if !block_mode || pre.use_alt_buffer {
        lemma_plain_current(pre, revision, block_mode, post, view);
    } else if ids.len() == 0 {
        lemma_unfolded_current(pre, revision, pre_view, post, post_view, view);
    } else {
        let (ready, ready_view) = choose|ready: TerminalState, ready_view: ProjectionViewState|
            {
                &&& #[trigger] reader_enters(pre, revision, pre_view, ready, ready_view)
                &&& document_view_requested(
                    ready,
                    revision,
                    policy_revision,
                    ids,
                    ready_view,
                    post,
                    post_view,
                    view,
                )
            };
        assert(reader_enters(pre, revision, pre_view, ready, ready_view));
        if pre_view.last_plan_key is None && pre.scroll_offset > 0 {
            let first = choose|first: ProjectedViewport| #[trigger]
                plain_view_requested(pre, revision, true, ready, first);
            lemma_plain_current(pre, revision, true, ready, first);
        }
        lemma_document_current(
            ready,
            revision,
            policy_revision,
            ids,
            ready_view,
            post,
            post_view,
            view,
        );
    }
}

/// A view of a document is that of the rows as they are.
proof fn lemma_document_current(
    pre: TerminalState,
    revision: u64,
    policy_revision: u64,
    ids: Seq<u64>,
    pre_view: ProjectionViewState,
    post: TerminalState,
    post_view: ProjectionViewState,
    view: ProjectedViewport,
)
    requires
        pre.scroll_offset <= pre.history().len(),
        caches_valid(pre),
        numbers_fit(pre.caches),
        pre.caches.plan is Some && pre.caches.plan->0.plan@.effective_collapsed.len() == 0
            ==> pre.caches.plan->0.plan@.plan_revision == 0,
        document_view_requested(
            pre,
            revision,
            policy_revision,
            ids,
            pre_view,
            post,
            post_view,
            view,
        ),
    ensures
        caches_valid(post),
        shows_plainly(post, *view.data) || shows_folded(post, view),
{
    let (planned, plan) = choose|planned: TerminalState, plan: Option<PlanModel>|
        {
            &&& #[trigger] plan_requested(
                pre,
                pre.grid.cols,
                policy_revision,
                ids,
                planned,
                plan,
            )
            &&& match plan {
                None => unfolded_view_requested(
                    planned,
                    revision,
                    pre_view,
                    post,
                    post_view,
                    view,
                ),
                Some(plan) => folded_view_requested(
                    planned,
                    plan_key(pre, pre.grid.cols, policy_revision, ids),
                    plan,
                    pre_view,
                    post,
                    post_view,
                    view,
                ),
            }
        };
    assert(plan_requested(pre, pre.grid.cols, policy_revision, ids, planned, plan));
    lemma_plan_valid(pre, pre.grid.cols, policy_revision, ids, planned, plan);
    match plan {
        None => {
            lemma_unfolded_current(planned, revision, pre_view, post, post_view, view);
        },
        Some(plan) => {
            lemma_handed_out(pre, pre.grid.cols, policy_revision, ids, planned, plan);
            lemma_folded_current(
                planned,
                plan_key(pre, pre.grid.cols, policy_revision, ids),
                plan,
                pre_view,
                post,
                post_view,
                view,
            );
        },
    }
}

/// No operation leaves a view remembered that is not what it was made for:
/// input, another size, a shorter history and a reset forget what they make
/// stale.
pub proof fn remembered_views_stay_valid(
    pre: TerminalState,
    data: Seq<u8>,
    now: ClockReading,
    cols: usize,
    rows: usize,
    limit: int,
    post: TerminalState,
)
    requires
        pre.core_wf(),
        caches_valid(pre),
        input_processed(pre, data, now, post) || size_set(pre, cols, rows, post) || history_limited(
            pre,
            limit,
            post,
        ) || history_cleared(pre, post) || terminal_reset(pre, post),
    ensures
        caches_valid(post),
{
    stale_views_are_forgotten(pre, data, now, cols, rows, limit, post);
    if history_limited(pre, limit, post) {
        let keep = smaller(pre.history().len() as int, limit);
        let clamped = TerminalState {
            scroll_offset: smaller(pre.scroll_offset as int, keep) as usize,
            ..pre
        };
        let mid = choose|mid: TerminalState|
            {
                &&& #[trigger] oldest_rows_dropped(clamped, pre.history().len() - keep, mid)
                &&& post.max_scrollback == limit
                &&& post.caches == if keep < pre.history().len() {
                    mid.caches.views_dropped()
                } else {
                    mid.caches
                }
                &&& post == TerminalState {
                    max_scrollback: post.max_scrollback,
                    caches: post.caches,
                    ..mid
                }
            };
        if keep >= pre.history().len() {
            assert(mid == clamped);
            lemma_valid_same(pre, post);
        }
    } else if size_set(pre, cols, rows, post) && post == pre {
    } else {
        assert(post.caches.viewport is None && post.caches.transformed is None);
    }
}

} // verus!
