//! A view of a document that was advanced along with the output is the view of
//! the document made anew.

use vstd::prelude::*;

use crate::advancing::advanced_documents_are_current;
use crate::advancing::lemma_resolved_same;
use crate::advancing::plan_cache_valid;
use crate::caches::PlanCache;
use crate::collapses::resolved;
use crate::geometry::origin_at;
use crate::grid::Line;
use crate::history::history_advanced;
use crate::materialize::materialized;
use crate::materialize::shown_cell;
use crate::materialize::shown_source;
use crate::materialize::window_rows;
use crate::materialize::MaterializedProjection;
use crate::plan::PlanModel;
use crate::plan::PlanRowModel;
use crate::plan::ResolvedCollapse;
use crate::planning::advanced;
use crate::planning::can_advance;
use crate::planning::document_width;
use crate::planning::is_plan_of;
use crate::planning::plan_adopted;
use crate::planning::plan_advances;
use crate::planning::plan_hit;
use crate::planning::plan_key;
use crate::planning::plan_requested;
use crate::projected::document_view_requested;
use crate::projected::folded_selection_left;
use crate::projected::folded_view_requested;
use crate::projected::is_folded_view;
use crate::projected::plain_view_given;
use crate::projected::plain_view_key;
use crate::projected::plain_view_requested;
use crate::projected::projected_view_requested;
use crate::projected::reader_enters;
use crate::projected::restored;
use crate::projected::unfolded_view_requested;
use crate::projection::ProjectionViewState;
use crate::state::saturating_sum;
use crate::state::TerminalState;
use crate::text_laws::fed_with;
use crate::text_laws::feeding_goes_on;
use crate::text_laws::history_fed;
use crate::view::rows_view;
use crate::view_laws::only_looked_at;
use crate::viewport::ProjectedViewport;

verus! {

/// A document that is advanced after rows were appended to the history is the
/// one that would be made anew.
pub proof fn fed_documents_are_current(
    old: TerminalState,
    new: TerminalState,
    cols: usize,
    collapses: Seq<ResolvedCollapse>,
    policy_revision: u64,
    ids: Seq<u64>,
    plan: PlanModel,
)
    requires
        old.core_wf(),
        new.core_wf(),
        cols >= 1,
        history_fed(old, new),
        is_plan_of(old, cols, collapses, policy_revision, plan),
        can_advance(
            new,
            plan_key(old, cols, policy_revision, ids),
            plan_key(new, cols, policy_revision, ids),
            plan,
        ),
    ensures
        is_plan_of(
            new,
            cols,
            resolved(new, ids),
            policy_revision,
            advanced(new, plan_key(old, cols, policy_revision, ids), plan),
        ),
{
    let fresh = choose|fresh: Seq<Line>| #[trigger]
        fed_with(old.history(), new.history(), fresh) && new.total_lines_scrolled
            == saturating_sum(old.total_lines_scrolled, fresh.len() as int);
    let appended = new.total_lines_scrolled - old.total_lines_scrolled;
    assert(new.grid@.len() >= 1);
    assert(appended == fresh.len());
    let evicted = old.history().len() + appended - new.history().len();
    let stay = old.history().len() - evicted;
    assert(new.first_line_id() - old.first_line_id() == evicted);
    assert(new.history().take(stay) =~= old.history().skip(evicted)) by {
        let all = old.history() + fresh;
        assert forall|r: int| 0 <= r < stay implies #[trigger] new.history().take(stay)[r]
            == old.history().skip(evicted)[r] by {
            assert(new.history()[r] == all.skip(evicted)[r]);
        }
    }
    assert(history_advanced(old.history(), new.history(), evicted, appended));
    advanced_documents_are_current(old, new, cols, collapses, policy_revision, ids, plan);
}

/// Whether two views show the same cells, and come from the same.
pub open spec fn same_cells(v: ProjectedViewport, w: ProjectedViewport) -> bool {
    &&& rows_view(v.data.cells@) == rows_view(w.data.cells@)
    &&& v.data.row_wrapped@ == w.data.row_wrapped@
    &&& v.data.row_sources@ == w.data.row_sources@
    &&& v.data.document_rows == w.data.document_rows
    &&& v.data.document_start == w.data.document_start
    &&& v.data.top_padding == w.data.top_padding
    &&& forall|r: int, c: int| #[trigger]
        origin_at(v.data.origins@, r, c) == origin_at(w.data.origins@, r, c)
}

/// Whether two views look the same and come from the same cells.
pub open spec fn look_alike(v: ProjectedViewport, w: ProjectedViewport) -> bool {
    &&& same_cells(v, w)
    &&& v.data.row_kinds@ == w.data.row_kinds@
}

/// Whether rows of a document differ in nothing but their kinds.
pub open spec fn same_layout(a: Seq<PlanRowModel>, b: Seq<PlanRowModel>) -> bool {
    &&& a.len() == b.len()
    &&& forall|r: int|
        0 <= r < a.len() ==> (#[trigger] a[r]).cells == b[r].cells && a[r].wrapped == b[r].wrapped
            && a[r].source == b[r].source
}

/// Views of windows that differ in nothing but the kinds of their rows show the
/// same cells.
pub proof fn lemma_same_cells(
    state: TerminalState,
    a: PlanModel,
    b: PlanModel,
    start: int,
    v: ProjectedViewport,
    w: ProjectedViewport,
)
    requires
        a.rows.len() == b.rows.len(),
        a.cols == b.cols,
        same_layout(
            window_rows(a, start, state.rows()),
            window_rows(b, start, state.rows()),
        ),
        is_folded_view(state, a, v.data.key.scroll_offset, start, *v.data),
        is_folded_view(state, b, w.data.key.scroll_offset, start, *w.data),
    ensures
        same_cells(v, w),
        v.data.row_kinds@ == Seq::new(
            state.rows() as nat,
            |r: int| window_rows(a, start, state.rows())[r].kind,
        ),
        w.data.row_kinds@ == Seq::new(
            state.rows() as nat,
            |r: int| window_rows(b, start, state.rows())[r].kind,
        ),
{
    let height = state.rows();
    let x = choose|shown: MaterializedProjection|
        {
            &&& #[trigger] materialized(state, a, start, height, shown)
            &&& v.data.cells@ == shown.cells@
            &&& v.data.row_wrapped@ == shown.row_wrapped@
            &&& v.data.row_kinds@ == shown.row_kinds@
            &&& v.data.row_sources@ == shown.row_sources@
            &&& v.data.origins@ == shown.origins@
            &&& v.data.document_start == shown.document_start
            &&& v.data.top_padding == shown.top_padding
        };
    let y = choose|shown: MaterializedProjection|
        {
            &&& #[trigger] materialized(state, b, start, height, shown)
            &&& w.data.cells@ == shown.cells@
            &&& w.data.row_wrapped@ == shown.row_wrapped@
            &&& w.data.row_kinds@ == shown.row_kinds@
            &&& w.data.row_sources@ == shown.row_sources@
            &&& w.data.origins@ == shown.origins@
            &&& w.data.document_start == shown.document_start
            &&& w.data.top_padding == shown.top_padding
        };
    assert(materialized(state, a, start, height, x));
    assert(materialized(state, b, start, height, y));
    let rows = window_rows(a, start, height);
    let others = window_rows(b, start, height);
    assert(rows_view(v.data.cells@) =~= rows_view(w.data.cells@)) by {
        assert forall|r: int| 0 <= r < rows.len() implies #[trigger] rows_view(v.data.cells@)[r]
            == rows_view(w.data.cells@)[r] by {
            let row = Seq::new(
                a.cols as nat,
                |j: int| shown_cell(state, rows[r].cells[j]),
            );
            assert(rows[r].cells == others[r].cells);
            assert(v.data.cells@[r]@ =~= row);
            assert(w.data.cells@[r]@ =~= row);
        }
    }
    assert(v.data.row_wrapped@ =~= w.data.row_wrapped@) by {
        assert forall|r: int| 0 <= r < rows.len() implies v.data.row_wrapped@[r]
            == w.data.row_wrapped@[r] by {
            assert(v.data.row_wrapped@[r] == rows[r].wrapped);
            assert(w.data.row_wrapped@[r] == others[r].wrapped);
        }
    }
    assert(v.data.row_sources@ =~= w.data.row_sources@) by {
        assert forall|r: int| 0 <= r < rows.len() implies v.data.row_sources@[r]
            == w.data.row_sources@[r] by {
            assert(v.data.row_sources@[r] == shown_source(state, rows[r].source));
            assert(w.data.row_sources@[r] == shown_source(state, others[r].source));
        }
    }
    assert(v.data.row_kinds@ =~= Seq::new(height as nat, |r: int| rows[r].kind));
    assert(w.data.row_kinds@ =~= Seq::new(height as nat, |r: int| others[r].kind));
    assert forall|r: int, c: int| #[trigger] origin_at(v.data.origins@, r, c) == origin_at(
        w.data.origins@,
        r,
        c,
    ) by {
        if 0 <= r < rows.len() {
            assert(rows[r].cells == others[r].cells);
        }
    }
}

/// Views of documents with the same rows, from the same row on, look alike.
pub proof fn equal_documents_look_alike(
    state: TerminalState,
    a: PlanModel,
    b: PlanModel,
    start: int,
    v: ProjectedViewport,
    w: ProjectedViewport,
)
    requires
        a.rows == b.rows,
        a.cols == b.cols,
        is_folded_view(state, a, v.data.key.scroll_offset, start, *v.data),
        is_folded_view(state, b, w.data.key.scroll_offset, start, *w.data),
    ensures
        look_alike(v, w),
{
    assert(window_rows(a, start, state.rows()) =~= window_rows(b, start, state.rows()));
    lemma_same_cells(state, a, b, start, v, w);
}

/// A view of a document that was advanced after rows were appended to the
/// history looks like one of the document made anew.
pub proof fn advanced_views_are_current(
    old: TerminalState,
    new: TerminalState,
    cols: usize,
    collapses: Seq<ResolvedCollapse>,
    policy_revision: u64,
    ids: Seq<u64>,
    plan: PlanModel,
    current: PlanModel,
    anew: PlanModel,
    start: int,
    v: ProjectedViewport,
    w: ProjectedViewport,
)
    requires
        old.core_wf(),
        new.core_wf(),
        cols >= 1,
        history_fed(old, new),
        is_plan_of(old, cols, collapses, policy_revision, plan),
        can_advance(
            new,
            plan_key(old, cols, policy_revision, ids),
            plan_key(new, cols, policy_revision, ids),
            plan,
        ),
        current == (PlanModel {
            plan_revision: current.plan_revision,
            incremental_from: current.incremental_from,
            incremental_appended_rows: current.incremental_appended_rows,
            ..advanced(new, plan_key(old, cols, policy_revision, ids), plan)
        }),
        is_plan_of(new, cols, resolved(new, ids), policy_revision, anew),
        is_folded_view(new, current, v.data.key.scroll_offset, start, *v.data),
        is_folded_view(new, anew, w.data.key.scroll_offset, start, *w.data),
    ensures
        look_alike(v, w),
{
    fed_documents_are_current(old, new, cols, collapses, policy_revision, ids, plan);
    equal_documents_look_alike(new, current, anew, start, v, w);
}

/// Whether a remembered document was made for the rows of `old`.
pub open spec fn made_for(
    cache: PlanCache,
    old: TerminalState,
    cols: usize,
    policy_revision: u64,
    ids: Seq<u64>,
) -> bool {
    &&& old.core_wf()
    &&& cache.key@ == plan_key(old, cols, policy_revision, ids)
    &&& is_plan_of(
        old,
        document_width(cols),
        resolved(old, ids),
        policy_revision,
        cache.plan@,
    )
}

/// Whether the remembered document can be traced through the output: it was
/// made for rows to whose history nothing happened since but that rows were
/// appended.
pub open spec fn document_follows(state: TerminalState) -> bool {
    match state.caches.plan {
        Some(cache) => exists|
            old: TerminalState,
            cols: usize,
            policy_revision: u64,
            ids: Seq<u64>,
        | #[trigger]
            made_for(cache, old, cols, policy_revision, ids) && history_fed(old, state),
        None => true,
    }
}

/// Where the history stays, nothing was appended to it.
proof fn lemma_nothing_fed(pre: TerminalState, post: TerminalState)
    requires
        post.scrollback == pre.scrollback,
        post.total_lines_scrolled == pre.total_lines_scrolled,
    ensures
        history_fed(pre, post),
{
    let none = Seq::<Line>::empty();
    assert(pre.history() =~= (pre.history() + none).skip(0));
    assert(fed_with(pre.history(), post.history(), none));
}

/// The advanced document is that of the rows as they are.
proof fn lemma_advances(
    pre: TerminalState,
    ready: TerminalState,
    cols: usize,
    policy_revision: u64,
    ids: Seq<u64>,
)
    requires
        pre.core_wf(),
        document_follows(pre),
        only_looked_at(pre, ready),
        ready.caches.plan == pre.caches.plan,
        cols >= 1,
        plan_advances(ready, plan_key(ready, cols, policy_revision, ids)),
    ensures
        is_plan_of(
            pre,
            cols,
            resolved(pre, ids),
            policy_revision,
            advanced(ready, pre.caches.plan->0.key@, pre.caches.plan->0.plan@),
        ),
{
    let cache = pre.caches.plan->0;
    let key = plan_key(pre, cols, policy_revision, ids);
    let (old, c, p, i) = choose|
        old: TerminalState,
        c: usize,
        p: u64,
        i: Seq<u64>,
    | #[trigger] made_for(cache, old, c, p, i) && history_fed(old, pre);
    lemma_resolved_same(pre, ready, ids);
    assert(plan_key(ready, cols, policy_revision, ids) == key);
    assert(c == cols && p == policy_revision && i == ids);
    assert(can_advance(pre, cache.key@, key, cache.plan@));
    fed_documents_are_current(
        old,
        pre,
        cols,
        resolved(old, ids),
        policy_revision,
        ids,
        cache.plan@,
    );
    assert(advanced(ready, cache.key@, cache.plan@) == advanced(pre, cache.key@, cache.plan@));
}

/// Where the rows and the remembered document stay, the document is still that
/// of the rows.
proof fn lemma_still_valid(pre: TerminalState, post: TerminalState)
    requires
        plan_cache_valid(pre),
        only_looked_at(pre, post),
        post.caches.plan == pre.caches.plan,
    ensures
        plan_cache_valid(post),
{
    if post.caches.plan is Some {
        let cache = post.caches.plan->0;
        assert forall|c: usize, p: u64, i: Seq<u64>|
            post.provenance.revision != 0 && cache.key@ == #[trigger] plan_key(
                post,
                c,
                p,
                i,
            ) implies is_plan_of(post, document_width(c), resolved(post, i), p, cache.plan@) by {
            lemma_resolved_same(pre, post, i);
            assert(plan_key(pre, c, p, i) == plan_key(post, c, p, i));
        }
    }
}

/// A document that is requested after output, be it the remembered one
/// advanced or a new one, is that of the rows as they are, and can be traced
/// through more output.
proof fn lemma_requested(
    pre: TerminalState,
    ready: TerminalState,
    cols: usize,
    policy_revision: u64,
    ids: Seq<u64>,
    post: TerminalState,
    result: Option<PlanModel>,
)
    requires
        pre.core_wf(),
        document_follows(pre),
        only_looked_at(pre, ready),
        ready.caches.plan == pre.caches.plan,
        cols >= 1,
        plan_requested(ready, cols, policy_revision, ids, post, result),
    ensures
        document_follows(post),
        plan_cache_valid(pre) ==> plan_cache_valid(post),
        result is Some && !plan_hit(ready, plan_key(ready, cols, policy_revision, ids))
            ==> is_plan_of(pre, cols, resolved(pre, ids), policy_revision, result->0),
{
    let key = plan_key(ready, cols, policy_revision, ids);
    lemma_resolved_same(pre, ready, ids);
    assert(plan_key(pre, cols, policy_revision, ids) == key);
    lemma_nothing_fed(pre, post);
    if plan_hit(ready, key) {
        let (old, c, p, i) = choose|
            old: TerminalState,
            c: usize,
            p: u64,
            i: Seq<u64>,
        | #[trigger] made_for(pre.caches.plan->0, old, c, p, i) && history_fed(old, pre);
        feeding_goes_on(old, pre, post);
        assert(made_for(post.caches.plan->0, old, c, p, i) && history_fed(old, post));
        if plan_cache_valid(pre) {
            lemma_still_valid(pre, post);
        }
    } else {
        if plan_advances(ready, key) {
            lemma_advances(pre, ready, cols, policy_revision, ids);
        } else if resolved(ready, ids).len() > 0 {
            let plan = choose|plan: PlanModel|
                {
                    &&& is_plan_of(
                        ready,
                        document_width(cols),
                        resolved(ready, ids),
                        policy_revision,
                        plan,
                    )
                    &&& plan.plan_revision == 0
                    &&& plan.incremental_from is None
                    &&& plan.incremental_appended_rows == 0
                    &&& #[trigger] plan_adopted(ready, key, plan, post, result)
                };
            assert(plan_adopted(ready, key, plan, post, result));
        }
        if post.caches.plan is Some {
            let cache = post.caches.plan->0;
            assert(made_for(cache, pre, cols, policy_revision, ids));
            assert forall|c: usize, p: u64, i: Seq<u64>|
                cache.key@ == #[trigger] plan_key(post, c, p, i) implies is_plan_of(
                post,
                document_width(c),
                resolved(post, i),
                p,
                cache.plan@,
            ) by {
                assert(c == cols && p == policy_revision && i == ids);
                lemma_resolved_same(pre, post, i);
            }
        }
    }
}

/// A document that is requested after output, be it the remembered one, the
/// remembered one advanced or a new one, is that of the rows as they are.
pub proof fn requested_documents_are_current(
    pre: TerminalState,
    cols: usize,
    policy_revision: u64,
    ids: Seq<u64>,
    post: TerminalState,
    result: Option<PlanModel>,
)
    requires
        pre.core_wf(),
        document_follows(pre),
        plan_cache_valid(pre),
        cols >= 1,
        plan_requested(pre, cols, policy_revision, ids, post, result),
    ensures
        result matches Some(plan) ==> is_plan_of(
            pre,
            cols,
            resolved(pre, ids),
            policy_revision,
            plan,
        ),
        document_follows(post),
        plan_cache_valid(post),
{
    lemma_requested(pre, pre, cols, policy_revision, ids, post, result);
}

/// A view without folding leaves the remembered document alone.
proof fn lemma_plain_keeps_plan(
    pre: TerminalState,
    revision: u64,
    block_mode: bool,
    post: TerminalState,
    view: ProjectedViewport,
)
    requires
        plain_view_requested(pre, revision, block_mode, post, view),
    ensures
        post.caches.plan == pre.caches.plan,
        only_looked_at(pre, post),
{
    let left = choose|left: TerminalState|
        {
            &&& #[trigger] folded_selection_left(pre, left)
            &&& plain_view_given(left, plain_view_key(left, revision, block_mode), post, view)
        };
    assert(folded_selection_left(pre, left));
}

/// Looking at another state with the same rows and the same document keeps the
/// document traceable.
proof fn lemma_still_follows(pre: TerminalState, post: TerminalState)
    requires
        document_follows(pre),
        only_looked_at(pre, post),
        post.caches.plan == pre.caches.plan,
    ensures
        document_follows(post),
{
    if pre.caches.plan is Some {
        let cache = pre.caches.plan->0;
        let (old, c, p, i) = choose|
            old: TerminalState,
            c: usize,
            p: u64,
            i: Seq<u64>,
        | #[trigger] made_for(cache, old, c, p, i) && history_fed(old, pre);
        lemma_nothing_fed(pre, post);
        feeding_goes_on(old, pre, post);
        assert(made_for(cache, old, c, p, i) && history_fed(old, post));
    }
}

/// A remembered document that can be traced through the output, and what is
/// remembered in its place, can still be traced after a look at the terminal,
/// and is still that of the rows it was made for.
pub proof fn looking_keeps_documents_traceable(
    pre: TerminalState,
    revision: u64,
    block_mode: bool,
    policy_revision: u64,
    ids: Seq<u64>,
    pre_view: ProjectionViewState,
    post: TerminalState,
    post_view: ProjectionViewState,
    view: ProjectedViewport,
)
    requires
        pre.core_wf(),
        document_follows(pre),
        projected_view_requested(
            pre,
            revision,
            block_mode,
            policy_revision,
            ids,
            pre_view,
            post,
            post_view,
            view,
        ),
    ensures
        document_follows(post),
        plan_cache_valid(pre) ==> plan_cache_valid(post),
{
    if !block_mode || pre.use_alt_buffer {
        lemma_plain_keeps_plan(pre, revision, block_mode, post, view);
        lemma_still_follows(pre, post);
        if plan_cache_valid(pre) {
            lemma_still_valid(pre, post);
        }
    } else if ids.len() == 0 {
        lemma_plain_keeps_plan(restored(pre, pre_view), revision, true, post, view);
        lemma_still_follows(pre, post);
        if plan_cache_valid(pre) {
            lemma_still_valid(pre, post);
        }
    } else {
        let (ready, ready_view) = choose|ready: TerminalState, ready_view: ProjectionViewState|
            {
                &&& #[trigger] reader_enters(pre, revision, pre_view, ready, ready_view)
                &&& document_view_requested(
                    ready,
                    revision,
                    policy_revision,
                    ids,
                    ready_view,
                    post,
                    post_view,
                    view,
                )
            };
        assert(reader_enters(pre, revision, pre_view, ready, ready_view));
        if pre_view.last_plan_key is None && pre.scroll_offset > 0 {
            let first = choose|first: ProjectedViewport| #[trigger]
                plain_view_requested(pre, revision, true, ready, first);
            lemma_plain_keeps_plan(pre, revision, true, ready, first);
        }
        lemma_document_traceable(
            pre,
            ready,
            revision,
            policy_revision,
            ids,
            ready_view,
            post,
            post_view,
            view,
        );
    }
}

/// Looking at a folded document keeps it traceable.
proof fn lemma_document_traceable(
    pre: TerminalState,
    ready: TerminalState,
    revision: u64,
    policy_revision: u64,
    ids: Seq<u64>,
    pre_view: ProjectionViewState,
    post: TerminalState,
    post_view: ProjectionViewState,
    view: ProjectedViewport,
)
    requires
        pre.core_wf(),
        document_follows(pre),
        only_looked_at(pre, ready),
        ready.caches.plan == pre.caches.plan,
        document_view_requested(
            ready,
            revision,
            policy_revision,
            ids,
            pre_view,
            post,
            post_view,
            view,
        ),
    ensures
        document_follows(post),
        plan_cache_valid(pre) ==> plan_cache_valid(post),
{
    let (planned, plan) = choose|planned: TerminalState, plan: Option<PlanModel>|
        {
            &&& #[trigger] plan_requested(
                ready,
                ready.grid.cols,
                policy_revision,
                ids,
                planned,
                plan,
            )
            &&& match plan {
                None => unfolded_view_requested(
                    planned,
                    revision,
                    pre_view,
                    post,
                    post_view,
                    view,
                ),
                Some(plan) => folded_view_requested(
                    planned,
                    plan_key(ready, ready.grid.cols, policy_revision, ids),
                    plan,
                    pre_view,
                    post,
                    post_view,
                    view,
                ),
            }
        };
    lemma_requested(pre, ready, ready.grid.cols, policy_revision, ids, planned, plan);
    if plan is None {
        lemma_plain_keeps_plan(restored(planned, pre_view), revision, true, post, view);
    }
    lemma_still_follows(planned, post);
    if plan_cache_valid(pre) {
        lemma_still_valid(planned, post);
    }
}

} // verus!
