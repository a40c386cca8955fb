//! Unfolding outputs and folding them again gives the same view.

use vstd::prelude::*;

use crate::advance_laws::document_follows;
use crate::advance_laws::lemma_same_cells;
use crate::advance_laws::requested_documents_are_current;
use crate::advance_laws::same_cells;
use crate::advancing::lemma_resolved_same;
use crate::advancing::plan_cache_valid;
use crate::cache_laws::caches_valid;
use crate::cache_laws::folded_cache_valid;
use crate::cache_laws::lemma_folded_same;
use crate::cache_laws::lemma_plan_valid;
use crate::cache_laws::lemma_unfolded_current;
use crate::caches::ViewCaches;
use crate::collapses::resolved;
use crate::fold_laws::lemma_first_touched;
use crate::fold_laws::lemma_touched_end;
use crate::folding::all_folded;
use crate::folding::effective;
use crate::folding::first_hidden;
use crate::folding::first_touched;
use crate::folding::folded;
use crate::folding::hard_end;
use crate::folding::hidden_end;
use crate::folding::part;
use crate::folding::summary_row;
use crate::folding::touched_end;
use crate::folding::touches;
use crate::grid::Line;
use crate::materialize::window_rows;
use crate::plan::history_rows;
use crate::plan::logical_rows;
use crate::plan::PlanModel;
use crate::plan::PlanRowModel;
use crate::plan::ResolvedCollapse;
use crate::planning::document_width;
use crate::planning::is_plan_of;
use crate::planning::lemma_handed_out;
use crate::planning::plain_rows;
use crate::planning::plan_adopted;
use crate::planning::plan_advances;
use crate::planning::plan_hit;
use crate::planning::plan_key;
use crate::planning::plan_requested;
use crate::projected::document_view_requested;
use crate::projected::excess;
use crate::projected::folded_selection_entered;
use crate::projected::folded_view_given;
use crate::projected::folded_view_requested;
use crate::projected::is_folded_view;
use crate::projected::is_folded_view_key;
use crate::projected::last_key;
use crate::projected::projected_view_requested;
use crate::projected::reader_enters;
use crate::projected::unfolded_view_requested;
use crate::projection::PlanKeyModel;
use crate::projection::ProjectedRowKind;
use crate::projection::ProjectionViewState;
use crate::projection::SyntheticRowKey;
use crate::state::TerminalState;
use crate::view::logical_end;
use crate::view_laws::looking_changes_nothing;
use crate::view_laws::only_looked_at;
use crate::viewport::ProjectedViewport;

verus! {

/// A kind of row as it is under another revision of what is folded.
pub open spec fn renumbered_kind(kind: ProjectedRowKind, revision: u64) -> ProjectedRowKind {
    match kind {
        ProjectedRowKind::CollapsedSummary { key, hidden_range, hidden_rows } =>
            ProjectedRowKind::CollapsedSummary {
            key: SyntheticRowKey { policy_revision: revision, ..key },
            hidden_range,
            hidden_rows,
        },
        _ => kind,
    }
}

/// Rows of a document as they are under another revision of what is folded.
pub open spec fn renumbered(rows: Seq<PlanRowModel>, revision: u64) -> Seq<PlanRowModel> {
    Seq::new(
        rows.len(),
        |r: int|
            PlanRowModel { kind: renumbered_kind(rows[r].kind, revision), ..rows[r] },
    )
}

/// Whether two views look the same and come from the same cells, but that the
/// summaries of the second are of the given revision of what is folded.
pub open spec fn look_alike_but_for_revision(
    v: ProjectedViewport,
    w: ProjectedViewport,
    revision: u64,
) -> bool {
    &&& same_cells(v, w)
    &&& w.data.row_kinds@ == Seq::new(
        v.data.row_kinds@.len(),
        |r: int| renumbered_kind(v.data.row_kinds@[r], revision),
    )
}

/// Whether a reader is at the bottom and follows it.
pub open spec fn follows_bottom(view: ProjectionViewState) -> bool {
    view.follow_bottom && view.offset_from_bottom == 0
}

/// The first row that an output touches does not depend on the revision.
proof fn lemma_first_touched_same(
    rows: Seq<PlanRowModel>,
    collapse: ResolvedCollapse,
    revision: u64,
    from: int,
)
    requires
        0 <= from,
    ensures
        first_touched(collapse, renumbered(rows, revision), from) == first_touched(
            collapse,
            rows,
            from,
        ),
    decreases rows.len() - from,
{
    if from < rows.len() {
        lemma_first_touched_same(rows, collapse, revision, from + 1);
        assert(touches(collapse, renumbered(rows, revision)[from]) == touches(
            collapse,
            rows[from],
        ));
    }
}

/// The last row that an output touches does not depend on the revision.
proof fn lemma_touched_end_same(
    rows: Seq<PlanRowModel>,
    collapse: ResolvedCollapse,
    revision: u64,
    to: int,
)
    requires
        to <= rows.len(),
    ensures
        touched_end(collapse, renumbered(rows, revision), to) == touched_end(collapse, rows, to),
    decreases to,
{
    if to > 0 {
        lemma_touched_end_same(rows, collapse, revision, to - 1);
        assert(touches(collapse, renumbered(rows, revision)[to - 1]) == touches(
            collapse,
            rows[to - 1],
        ));
    }
}

/// Folding an output gives the same rows under every revision.
proof fn lemma_folded_renumbered(
    rows: Seq<PlanRowModel>,
    collapse: ResolvedCollapse,
    before: u64,
    revision: u64,
    cols: int,
)
    ensures
        folded(renumbered(rows, revision), collapse, revision, cols) == renumbered(
            folded(rows, collapse, before, cols),
            revision,
        ),
{
    let f = first_touched(collapse, rows, 0);
    let e = touched_end(collapse, rows, rows.len() as int);
    let others = renumbered(rows, revision);
    lemma_first_touched_same(rows, collapse, revision, 0);
    lemma_touched_end_same(rows, collapse, revision, rows.len() as int);
    lemma_first_touched(collapse, rows, 0);
    lemma_touched_end(collapse, rows, rows.len() as int);
    if f < rows.len() && e >= 1 {
        let left = part(rows[f], 0, first_hidden(collapse, rows[f].cells, 0), false);
        let right = part(
            rows[e - 1],
            hidden_end(collapse, rows[e - 1].cells, cols),
            cols,
            rows[e - 1].wrapped,
        );
        assert(renumbered(left, revision) =~= left);
        assert(renumbered(right, revision) =~= right);
        let head = rows.take(f) + left;
        let other_head = others.take(f) + left;
        assert(other_head =~= renumbered(head, revision));
        assert(hard_end(other_head) =~= renumbered(hard_end(head), revision));
        let tail = right + rows.skip(e);
        let other_tail = right + others.skip(e);
        assert(other_tail =~= renumbered(tail, revision));
        let summary = seq![summary_row(collapse, before, e - f, cols)];
        let other_summary = seq![summary_row(collapse, revision, e - f, cols)];
        assert(other_summary =~= renumbered(summary, revision));
        assert(hard_end(other_head) + other_summary + other_tail =~= renumbered(
            hard_end(head) + summary + tail,
            revision,
        ));
    }
}

/// Folding outputs gives the same rows under every revision.
proof fn lemma_all_folded_renumbered(
    rows: Seq<PlanRowModel>,
    collapses: Seq<ResolvedCollapse>,
    n: int,
    before: u64,
    revision: u64,
    cols: int,
)
    requires
        renumbered(rows, revision) == rows,
    ensures
        all_folded(rows, collapses, n, revision, cols) == renumbered(
            all_folded(rows, collapses, n, before, cols),
            revision,
        ),
        effective(rows, collapses, n, revision, cols) == effective(
            rows,
            collapses,
            n,
            before,
            cols,
        ),
    decreases n,
{
    if n > 0 {
        lemma_all_folded_renumbered(rows, collapses, n - 1, before, revision, cols);
        let earlier = all_folded(rows, collapses, n - 1, before, cols);
        lemma_folded_renumbered(earlier, collapses[n - 1], before, revision, cols);
        lemma_first_touched_same(earlier, collapses[n - 1], revision, 0);
    }
}

/// Rows of the history are no summaries.
proof fn lemma_history_renumbered(
    lines: Seq<Line>,
    first: u64,
    from: int,
    end: int,
    cols: int,
    revision: u64,
)
    ensures
        renumbered(history_rows(lines, first, from, end, cols), revision) == history_rows(
            lines,
            first,
            from,
            end,
            cols,
        ),
    decreases end - from,
{
    let rows = history_rows(lines, first, from, end, cols);
    let next = logical_end(lines, from, end);
    if !(from >= end || next <= from || next > end) {
        lemma_history_renumbered(lines, first, next, end, cols, revision);
        let line = logical_rows(lines, first, from, next, cols);
        let later = history_rows(lines, first, next, end, cols);
        assert forall|r: int| 0 <= r < rows.len() implies #[trigger] renumbered(rows, revision)[r]
            == rows[r] by {
            if r < line.len() {
                assert(line[r].kind is Raw);
            } else {
                assert(renumbered(later, revision)[r - line.len()] == later[r - line.len()]);
            }
        }
    }
    assert(renumbered(rows, revision) =~= rows);
}

/// Documents of the same rows with the same outputs folded, under two
/// revisions of what is folded, are the same but for the revision in their
/// summaries, and fold the same outputs.
pub proof fn refolded_documents_are_alike(
    state: TerminalState,
    cols: usize,
    collapses: Seq<ResolvedCollapse>,
    before: u64,
    a: PlanModel,
    revision: u64,
    b: PlanModel,
)
    requires
        is_plan_of(state, cols, collapses, before, a),
        is_plan_of(state, cols, collapses, revision, b),
    ensures
        b.rows == renumbered(a.rows, revision),
        b.effective_collapsed.to_set() == a.effective_collapsed.to_set(),
{
    let plain = plain_rows(state, cols);
    let history = state.history();
    let first = state.first_line_id() as u64;
    lemma_history_renumbered(history, first, 0, history.len() as int, cols as int, revision);
    let old_rows = history_rows(history, first, 0, history.len() as int, cols as int);
    assert forall|r: int| 0 <= r < plain.len() implies #[trigger] renumbered(plain, revision)[r]
        == plain[r] by {
        if r < old_rows.len() {
            assert(renumbered(old_rows, revision)[r] == old_rows[r]);
        }
    }
    assert(renumbered(plain, revision) =~= plain);
    lemma_all_folded_renumbered(
        plain,
        collapses,
        collapses.len() as int,
        before,
        revision,
        cols as int,
    );
}

/// A reader who follows the bottom of a folded document sees its last rows.
proof fn lemma_bottom_window(
    pre: TerminalState,
    key: PlanKeyModel,
    plan: PlanModel,
    pre_view: ProjectionViewState,
    post: TerminalState,
    post_view: ProjectionViewState,
    view: ProjectedViewport,
)
    requires
        folded_cache_valid(pre),
        pre.caches.plan is Some,
        pre.caches.plan->0.plan@ == plan,
        follows_bottom(pre_view),
        folded_view_requested(pre, key, plan, pre_view, post, post_view, view),
    ensures
        is_folded_view(
            pre,
            plan,
            view.data.key.scroll_offset,
            excess(plan.rows.len() as int, pre.rows()),
            *view.data,
        ),
{
    let start = excess(plan.rows.len() as int, pre.rows());
    let entered = choose|entered: TerminalState|
        {
            &&& #[trigger] folded_selection_entered(pre, plan, entered)
            &&& folded_view_given(entered, key, plan, 0, start, post, view)
            &&& last_key(post_view) == Some(key)
        };
    assert(folded_selection_entered(pre, plan, entered));
    if entered.caches.transformed is Some && is_folded_view_key(
        entered,
        key,
        plan,
        start,
        entered.caches.transformed->0.key,
    ) {
    } else {
        lemma_folded_same(entered, pre, plan, start, view);
    }
}

/// A view of a folded document is that of the last rows of a document as it is
/// now, for a reader who follows the bottom.
proof fn lemma_followed_view(
    pre: TerminalState,
    revision: u64,
    policy_revision: u64,
    ids: Seq<u64>,
    pre_view: ProjectionViewState,
    post: TerminalState,
    post_view: ProjectionViewState,
    view: ProjectedViewport,
) -> (result: (TerminalState, Option<PlanModel>))
    requires
        ids.len() > 0,
        !pre.use_alt_buffer,
        pre.scroll_offset == 0,
        projected_view_requested(
            pre,
            revision,
            true,
            policy_revision,
            ids,
            pre_view,
            post,
            post_view,
            view,
        ),
    ensures
        plan_requested(pre, pre.grid.cols, policy_revision, ids, result.0, result.1),
        match result.1 {
            None => unfolded_view_requested(
                result.0,
                revision,
                pre_view,
                post,
                post_view,
                view,
            ),
            Some(plan) => folded_view_requested(
                result.0,
                plan_key(pre, pre.grid.cols, policy_revision, ids),
                plan,
                pre_view,
                post,
                post_view,
                view,
            ),
        },
{
    let (ready, ready_view) = choose|ready: TerminalState, ready_view: ProjectionViewState|
        {
            &&& #[trigger] reader_enters(pre, revision, pre_view, ready, ready_view)
            &&& document_view_requested(
                ready,
                revision,
                policy_revision,
                ids,
                ready_view,
                post,
                post_view,
                view,
            )
        };
    assert(reader_enters(pre, revision, pre_view, ready, ready_view));
    assert(ready == pre && ready_view == pre_view);
    let (planned, plan) = choose|planned: TerminalState, plan: Option<PlanModel>|
        {
            &&& #[trigger] plan_requested(
                ready,
                ready.grid.cols,
                policy_revision,
                ids,
                planned,
                plan,
            )
            &&& match plan {
                None => unfolded_view_requested(
                    planned,
                    revision,
                    ready_view,
                    post,
                    post_view,
                    view,
                ),
                Some(plan) => folded_view_requested(
                    planned,
                    plan_key(ready, ready.grid.cols, policy_revision, ids),
                    plan,
                    ready_view,
                    post,
                    post_view,
                    view,
                ),
            }
        };
    (planned, plan)
}

/// The view after output that a reader gets who follows the bottom is that of
/// the document as it is now, be it the remembered one, the remembered one
/// advanced or a new one.
proof fn lemma_view_after_output(
    new: TerminalState,
    policy_revision: u64,
    ids: Seq<u64>,
    revision: u64,
    pre_view: ProjectionViewState,
    post: TerminalState,
    post_view: ProjectionViewState,
    view: ProjectedViewport,
) -> (plan: PlanModel)
    requires
        new.core_wf(),
        document_follows(new),
        plan_cache_valid(new),
        caches_valid(new),
        ids.len() > 0,
        !new.use_alt_buffer,
        new.scroll_offset == 0,
        follows_bottom(pre_view),
        view.data.effective_collapsed@.len() > 0,
        projected_view_requested(
            new,
            revision,
            true,
            policy_revision,
            ids,
            pre_view,
            post,
            post_view,
            view,
        ),
    ensures
        is_plan_of(new, new.grid.cols, resolved(new, ids), policy_revision, plan),
        plan.effective_collapsed.len() > 0,
        is_folded_view(
            new,
            plan,
            view.data.key.scroll_offset,
            excess(plan.rows.len() as int, new.rows()),
            *view.data,
        ),
{
    let key = plan_key(new, new.grid.cols, policy_revision, ids);
    let (planned, found) = lemma_followed_view(
        new,
        revision,
        policy_revision,
        ids,
        pre_view,
        post,
        post_view,
        view,
    );
    reveal(ViewCaches::wf);
    lemma_plan_valid(new, new.grid.cols, policy_revision, ids, planned, found);
    if found is None {
        lemma_unfolded_current(planned, revision, pre_view, post, post_view, view);
    }
    let plan = found->0;
    lemma_handed_out(new, new.grid.cols, policy_revision, ids, planned, plan);
    assert(document_width(new.grid.cols) == new.grid.cols);
    requested_documents_are_current(
        new,
        new.grid.cols,
        policy_revision,
        ids,
        planned,
        found,
    );
    lemma_bottom_window(planned, key, plan, pre_view, post, post_view, view);
    lemma_folded_same(
        planned,
        new,
        plan,
        excess(plan.rows.len() as int, planned.rows()),
        view,
    );
    plan
}

/// The view that a reader gets who follows the bottom, under a revision of what
/// is folded for which nothing is remembered, is that of a new document.
proof fn lemma_view_anew(
    pre: TerminalState,
    policy_revision: u64,
    ids: Seq<u64>,
    like: PlanModel,
    revision: u64,
    pre_view: ProjectionViewState,
    post: TerminalState,
    post_view: ProjectionViewState,
    view: ProjectedViewport,
) -> (plan: PlanModel)
    requires
        pre.core_wf(),
        pre.caches.next_plan_revision != 0,
        pre.caches.plan matches Some(cache) ==> cache.key@.policy_revision != policy_revision,
        ids.len() > 0,
        !pre.use_alt_buffer,
        pre.scroll_offset == 0,
        follows_bottom(pre_view),
        like.effective_collapsed.len() > 0,
        exists|before: u64| #[trigger]
            is_plan_of(pre, pre.grid.cols, resolved(pre, ids), before, like),
        projected_view_requested(
            pre,
            revision,
            true,
            policy_revision,
            ids,
            pre_view,
            post,
            post_view,
            view,
        ),
    ensures
        is_plan_of(pre, pre.grid.cols, resolved(pre, ids), policy_revision, plan),
        is_folded_view(
            pre,
            plan,
            view.data.key.scroll_offset,
            excess(plan.rows.len() as int, pre.rows()),
            *view.data,
        ),
{
    let key = plan_key(pre, pre.grid.cols, policy_revision, ids);
    let collapses = resolved(pre, ids);
    let before = choose|before: u64| #[trigger]
        is_plan_of(pre, pre.grid.cols, collapses, before, like);
    let (planned, found) = lemma_followed_view(
        pre,
        revision,
        policy_revision,
        ids,
        pre_view,
        post,
        post_view,
        view,
    );
    assert(document_width(pre.grid.cols) == pre.grid.cols);
    assert(!plan_hit(pre, key) && !plan_advances(pre, key));
    assert(like.effective_collapsed.to_set().contains(like.effective_collapsed[0]));
    assert(collapses.len() > 0);
    let made = choose|made: PlanModel|
        {
            &&& is_plan_of(pre, pre.grid.cols, collapses, policy_revision, made)
            &&& made.plan_revision == 0
            &&& made.incremental_from is None
            &&& made.incremental_appended_rows == 0
            &&& #[trigger] plan_adopted(pre, key, made, planned, found)
        };
    assert(plan_adopted(pre, key, made, planned, found));
    refolded_documents_are_alike(
        pre,
        pre.grid.cols,
        collapses,
        before,
        like,
        policy_revision,
        made,
    );
    assert(made.effective_collapsed.to_set().contains(like.effective_collapsed[0]));
    let plan = found->0;
    reveal(ViewCaches::wf);
    lemma_bottom_window(planned, key, plan, pre_view, post, post_view, view);
    lemma_folded_same(
        planned,
        pre,
        plan,
        excess(plan.rows.len() as int, planned.rows()),
        view,
    );
    plan
}

/// Unfolding outputs and folding them again gives the same view: what a reader
/// who follows the bottom sees after output, with the remembered document
/// advanced, looks like what a reader who follows the bottom sees once the
/// revision of what is folded has changed and the document is made anew. Only
/// the revision in the summaries differs. Neither look changes the rows.
pub proof fn refolded_views_look_alike(
    new: TerminalState,
    before: u64,
    ids: Seq<u64>,
    first_revision: u64,
    first_view: ProjectionViewState,
    mid: TerminalState,
    mid_view: ProjectionViewState,
    v: ProjectedViewport,
    again: TerminalState,
    revision: u64,
    later_revision: u64,
    later_view: ProjectionViewState,
    post: TerminalState,
    post_view: ProjectionViewState,
    w: ProjectedViewport,
)
    requires
        new.core_wf(),
        again.core_wf(),
        document_follows(new),
        plan_cache_valid(new),
        caches_valid(new),
        ids.len() > 0,
        !new.use_alt_buffer,
        new.scroll_offset == 0,
        follows_bottom(first_view),
        projected_view_requested(
            new,
            first_revision,
            true,
            before,
            ids,
            first_view,
            mid,
            mid_view,
            v,
        ),
        v.data.effective_collapsed@.len() > 0,
        only_looked_at(new, again),
        again.scroll_offset == 0,
        again.caches.next_plan_revision != 0,
        again.caches.plan matches Some(cache) ==> cache.key@.policy_revision != revision,
        follows_bottom(later_view),
        projected_view_requested(
            again,
            later_revision,
            true,
            revision,
            ids,
            later_view,
            post,
            post_view,
            w,
        ),
    ensures
        look_alike_but_for_revision(v, w, revision),
        only_looked_at(new, mid),
        only_looked_at(again, post),
{
    looking_changes_nothing(
        new,
        first_revision,
        true,
        before,
        ids,
        first_view,
        mid,
        mid_view,
        v,
    );
    looking_changes_nothing(
        again,
        later_revision,
        true,
        revision,
        ids,
        later_view,
        post,
        post_view,
        w,
    );
    let cols = new.grid.cols;
    let collapses = resolved(new, ids);
    let a = lemma_view_after_output(
        new,
        before,
        ids,
        first_revision,
        first_view,
        mid,
        mid_view,
        v,
    );
    lemma_resolved_same(new, again, ids);
    assert(is_plan_of(again, cols, resolved(again, ids), before, a));
    let b = lemma_view_anew(
        again,
        revision,
        ids,
        a,
        later_revision,
        later_view,
        post,
        post_view,
        w,
    );
    assert(is_plan_of(new, cols, collapses, revision, b));
    refolded_documents_are_alike(new, cols, collapses, before, a, revision, b);
    let height = new.rows();
    let start = excess(a.rows.len() as int, height);
    lemma_folded_same(again, new, b, start, w);
    let rows = window_rows(a, start, height);
    let others = window_rows(b, start, height);
    assert(others =~= renumbered(rows, revision));
    lemma_same_cells(new, a, b, start, v, w);
    assert(w.data.row_kinds@ =~= Seq::new(
        v.data.row_kinds@.len(),
        |r: int| renumbered_kind(v.data.row_kinds@[r], revision),
    ));
}

} // verus!
