//! What is revealed is in the next view.

use vstd::prelude::*;

use crate::advancing::lemma_resolved_same;
use crate::caches::shows_window;
use crate::caches::ViewCaches;
use crate::collapses::resolved;
use crate::locating::anchored_cell;
use crate::locating::current_summary;
use crate::locating::position_revealed;
use crate::locating::reader_at;
use crate::locating::summary_revealed;
use crate::lookup::is_summary_of;
use crate::lookup::summary_position;
use crate::materialize::rows_shown;
use crate::materialize::window_rows;
use crate::plan::PlanModel;
use crate::plan::PlanRowModel;
use crate::planning::document_width;
use crate::planning::is_plan_of;
use crate::planning::lemma_handed_out;
use crate::planning::plan_adopted;
use crate::planning::plan_hit;
use crate::planning::plan_key;
use crate::planning::plan_requested;
use crate::projected::at_most;
use crate::projected::document_view_requested;
use crate::projected::excess;
use crate::projected::folded_selection_entered;
use crate::projected::folded_view_given;
use crate::projected::folded_view_requested;
use crate::projected::last_key;
use crate::projected::lemma_window_shown;
use crate::projected::projected_view_requested;
use crate::projected::reader_enters;
use crate::projected::unfolded_view_requested;
use crate::projection::ProjectedBufferAnchorLocation;
use crate::projection::ProjectedTopAnchor;
use crate::projection::ProjectionViewState;
use crate::provenance::BufferAnchor;
use crate::state::TerminalState;
use crate::viewport::ProjectedViewport;

verus! {

/// The first row of a document of `total` rows in a view of `height` rows that
/// is to show row `row`.
pub open spec fn first_row_shown(total: int, height: int, row: int) -> int {
    at_most(row, excess(total, height))
}

/// A reader who was put at a row of the remembered document sees the window of
/// that row next.
proof fn lemma_reader_sees(
    pre: TerminalState,
    revision: u64,
    policy_revision: u64,
    ids: Seq<u64>,
    plan: PlanModel,
    row: int,
    anchor: ProjectedTopAnchor,
    pre_view: ProjectionViewState,
    post: TerminalState,
    post_view: ProjectionViewState,
    view: ProjectedViewport,
)
    requires
        pre.core_wf(),
        ids.len() > 0,
        !pre.use_alt_buffer,
        pre.provenance.revision != 0,
        pre.caches.plan is Some,
        pre.caches.plan->0.plan@ == plan,
        pre.caches.plan->0.key@ == plan_key(pre, pre.grid.cols, policy_revision, ids),
        plan.effective_collapsed.len() > 0,
        0 <= row,
        reader_at(
            plan,
            plan_key(pre, pre.grid.cols, policy_revision, ids),
            pre.rows(),
            row,
            anchor,
            pre_view,
        ),
        projected_view_requested(
            pre,
            revision,
            true,
            policy_revision,
            ids,
            pre_view,
            post,
            post_view,
            view,
        ),
    ensures
        shows_window(
            plan,
            first_row_shown(plan.rows.len() as int, pre.rows(), row),
            pre.rows(),
            *view.data,
        ),
        post.scroll_offset == pre.scroll_offset,
{
    let key = plan_key(pre, pre.grid.cols, policy_revision, ids);
    let (ready, ready_view) = choose|ready: TerminalState, ready_view: ProjectionViewState|
        {
            &&& #[trigger] reader_enters(pre, revision, pre_view, ready, ready_view)
            &&& document_view_requested(
                ready,
                revision,
                policy_revision,
                ids,
                ready_view,
                post,
                post_view,
                view,
            )
        };
    assert(reader_enters(pre, revision, pre_view, ready, ready_view));
    assert(ready == pre && ready_view == pre_view);
    let (planned, found) = choose|planned: TerminalState, plan: Option<PlanModel>|
        {
            &&& #[trigger] plan_requested(
                ready,
                ready.grid.cols,
                policy_revision,
                ids,
                planned,
                plan,
            )
            &&& match plan {
                None => unfolded_view_requested(
                    planned,
                    revision,
                    ready_view,
                    post,
                    post_view,
                    view,
                ),
                Some(plan) => folded_view_requested(
                    planned,
                    plan_key(ready, ready.grid.cols, policy_revision, ids),
                    plan,
                    ready_view,
                    post,
                    post_view,
                    view,
                ),
            }
        };
    assert(plan_requested(ready, ready.grid.cols, policy_revision, ids, planned, found));
    assert(plan_hit(pre, key));
    assert(planned == pre && found == Some(plan));
    reveal(ViewCaches::wf);
    lemma_window_given(pre, policy_revision, ids, plan, row, pre_view, post, post_view, view);
}

/// The view of a folded document that a reader gets is the window that the
/// reader is at.
proof fn lemma_window_given(
    pre: TerminalState,
    policy_revision: u64,
    ids: Seq<u64>,
    plan: PlanModel,
    row: int,
    pre_view: ProjectionViewState,
    post: TerminalState,
    post_view: ProjectionViewState,
    view: ProjectedViewport,
)
    requires
        pre.caches.transformed matches Some(cache) ==> cache.key.projection_revision
            == plan.plan_revision ==> shows_window(
            plan,
            cache.key.document_start as int,
            cache.key.viewport_rows as int,
            *cache.viewport.data,
        ),
        0 <= row,
        pre_view.offset_from_bottom == excess(plan.rows.len() as int, pre.rows())
            - first_row_shown(plan.rows.len() as int, pre.rows(), row),
        last_key(pre_view) == Some(plan_key(pre, pre.grid.cols, policy_revision, ids)),
        folded_view_requested(
            pre,
            plan_key(pre, pre.grid.cols, policy_revision, ids),
            plan,
            pre_view,
            post,
            post_view,
            view,
        ),
    ensures
        shows_window(
            plan,
            first_row_shown(plan.rows.len() as int, pre.rows(), row),
            pre.rows(),
            *view.data,
        ),
        post.scroll_offset == pre.scroll_offset,
{
    let key = plan_key(pre, pre.grid.cols, policy_revision, ids);
    let offset = pre_view.offset_from_bottom;
    let start = first_row_shown(plan.rows.len() as int, pre.rows(), row);
    let entered = choose|entered: TerminalState|
        {
            &&& #[trigger] folded_selection_entered(pre, plan, entered)
            &&& folded_view_given(entered, key, plan, offset, start, post, view)
            &&& post_view.offset_from_bottom == view.data.key.scroll_offset
            &&& post_view.follow_bottom == (view.data.key.scroll_offset == 0)
            &&& last_key(post_view) == Some(key)
        };
    assert(folded_selection_entered(pre, plan, entered));
    if post.caches != entered.caches || entered.caches.transformed is None {
        lemma_window_shown(entered, plan, offset, start, view);
    }
}

/// A reader who was put at a row of a document that has to be made anew sees
/// the window of that row next.
proof fn lemma_reader_sees_anew(
    pre: TerminalState,
    revision: u64,
    policy_revision: u64,
    ids: Seq<u64>,
    plan: PlanModel,
    row: int,
    anchor: ProjectedTopAnchor,
    pre_view: ProjectionViewState,
    post: TerminalState,
    post_view: ProjectionViewState,
    view: ProjectedViewport,
) -> (anew: PlanModel)
    requires
        pre.core_wf(),
        ids.len() > 0,
        !pre.use_alt_buffer,
        pre.provenance.revision == 0,
        pre.caches.next_plan_revision != 0,
        pre.caches.plan is Some,
        pre.caches.plan->0.key@ == plan_key(pre, pre.grid.cols, policy_revision, ids),
        plan.effective_collapsed.len() > 0,
        is_plan_of(
            pre,
            document_width(pre.grid.cols),
            resolved(pre, ids),
            policy_revision,
            plan,
        ),
        resolved(pre, ids).len() > 0,
        0 <= row,
        reader_at(
            plan,
            plan_key(pre, pre.grid.cols, policy_revision, ids),
            pre.rows(),
            row,
            anchor,
            pre_view,
        ),
        projected_view_requested(
            pre,
            revision,
            true,
            policy_revision,
            ids,
            pre_view,
            post,
            post_view,
            view,
        ),
    ensures
        anew.rows == plan.rows,
        shows_window(
            anew,
            first_row_shown(plan.rows.len() as int, pre.rows(), row),
            pre.rows(),
            *view.data,
        ),
{
    let key = plan_key(pre, pre.grid.cols, policy_revision, ids);
    let (ready, ready_view) = choose|ready: TerminalState, ready_view: ProjectionViewState|
        {
            &&& #[trigger] reader_enters(pre, revision, pre_view, ready, ready_view)
            &&& document_view_requested(
                ready,
                revision,
                policy_revision,
                ids,
                ready_view,
                post,
                post_view,
                view,
            )
        };
    assert(reader_enters(pre, revision, pre_view, ready, ready_view));
    assert(ready == pre && ready_view == pre_view);
    let (planned, found) = choose|planned: TerminalState, plan: Option<PlanModel>|
        {
            &&& #[trigger] plan_requested(
                ready,
                ready.grid.cols,
                policy_revision,
                ids,
                planned,
                plan,
            )
            &&& match plan {
                None => unfolded_view_requested(
                    planned,
                    revision,
                    ready_view,
                    post,
                    post_view,
                    view,
                ),
                Some(plan) => folded_view_requested(
                    planned,
                    plan_key(ready, ready.grid.cols, policy_revision, ids),
                    plan,
                    ready_view,
                    post,
                    post_view,
                    view,
                ),
            }
        };
    assert(plan_requested(pre, pre.grid.cols, policy_revision, ids, planned, found));
    let made = choose|made: PlanModel|
        {
            &&& is_plan_of(
                pre,
                document_width(pre.grid.cols),
                resolved(pre, ids),
                policy_revision,
                made,
            )
            &&& made.plan_revision == 0
            &&& made.incremental_from is None
            &&& made.incremental_appended_rows == 0
            &&& #[trigger] plan_adopted(pre, key, made, planned, found)
        };
    assert(plan_adopted(pre, key, made, planned, found));
    assert(plan.effective_collapsed.to_set().contains(plan.effective_collapsed[0]));
    assert(made.effective_collapsed.to_set().contains(plan.effective_collapsed[0]));
    let anew = found->0;
    reveal(ViewCaches::wf);
    assert(plan_key(planned, planned.grid.cols, policy_revision, ids) == key);
    lemma_window_given(
        planned,
        policy_revision,
        ids,
        anew,
        row,
        pre_view,
        post,
        post_view,
        view,
    );
    anew
}

/// Where changes of outputs are not counted, a document that is handed out is
/// that of the rows as they are.
proof fn lemma_made_anew(
    pre: TerminalState,
    policy_revision: u64,
    ids: Seq<u64>,
    post: TerminalState,
    plan: PlanModel,
)
    requires
        pre.provenance.revision == 0,
        plan_requested(pre, pre.grid.cols, policy_revision, ids, post, Some(plan)),
    ensures
        is_plan_of(
            post,
            document_width(post.grid.cols),
            resolved(post, ids),
            policy_revision,
            plan,
        ),
        resolved(post, ids).len() > 0,
{
    let key = plan_key(pre, pre.grid.cols, policy_revision, ids);
    lemma_handed_out(pre, pre.grid.cols, policy_revision, ids, post, plan);
    lemma_resolved_same(pre, post, ids);
    let made = choose|made: PlanModel|
        {
            &&& is_plan_of(
                pre,
                document_width(pre.grid.cols),
                resolved(pre, ids),
                policy_revision,
                made,
            )
            &&& made.plan_revision == 0
            &&& made.incremental_from is None
            &&& made.incremental_appended_rows == 0
            &&& #[trigger] plan_adopted(pre, key, made, post, Some(plan))
        };
    assert(plan_adopted(pre, key, made, post, Some(plan)));
}

/// What a position was revealed at, the next view of the same document shows:
/// it begins at the row of the position, or as far down as it can. Only a
/// visible position moves the reader, and none moves the terminal.
pub proof fn revealed_positions_are_shown(
    pre: TerminalState,
    revision: u64,
    policy_revision: u64,
    ids: Seq<u64>,
    pre_view: ProjectionViewState,
    anchor: BufferAnchor,
    mid: TerminalState,
    mid_view: ProjectionViewState,
    location: ProjectedBufferAnchorLocation,
    post: TerminalState,
    post_view: ProjectionViewState,
    view: ProjectedViewport,
)
    requires
        mid.core_wf(),
        position_revealed(
            pre,
            policy_revision,
            ids,
            pre_view,
            anchor,
            mid,
            mid_view,
            location,
        ),
        projected_view_requested(
            mid,
            revision,
            true,
            policy_revision,
            ids,
            mid_view,
            post,
            post_view,
            view,
        ),
    ensures
        location matches ProjectedBufferAnchorLocation::Visible { document_row }
            ==> view.data.document_start == at_most(document_row as int, view.scroll_limit())
            && post.scroll_offset == pre.scroll_offset,
        !(location is Visible) ==> mid_view == pre_view,
        mid.scroll_offset == pre.scroll_offset,
{
    if let ProjectedBufferAnchorLocation::Visible { document_row } = location {
        let cell = anchored_cell(pre, anchor)->0;
        let key = plan_key(pre, pre.grid.cols, policy_revision, ids);
        let found = choose|plan: Option<PlanModel>|
            {
                &&& #[trigger] plan_requested(
                    pre,
                    pre.grid.cols,
                    policy_revision,
                    ids,
                    mid,
                    plan,
                )
                &&& plan is Some
                &&& reader_at(
                    plan->0,
                    key,
                    pre.rows(),
                    document_row as int,
                    ProjectedTopAnchor::RawCell(cell),
                    mid_view,
                )
            };
        assert(plan_requested(pre, pre.grid.cols, policy_revision, ids, mid, found));
        let plan = found->0;
        lemma_handed_out(pre, pre.grid.cols, policy_revision, ids, mid, plan);
        assert(plan_key(mid, mid.grid.cols, policy_revision, ids) == key);
        lemma_reader_sees(
            mid,
            revision,
            policy_revision,
            ids,
            plan,
            document_row as int,
            ProjectedTopAnchor::RawCell(cell),
            mid_view,
            post,
            post_view,
            view,
        );
    }
}

/// The first summary of an output is one of its summaries.
proof fn lemma_summary_position(rows: Seq<PlanRowModel>, zone_id: u64, from: int)
    requires
        0 <= from,
        summary_position(rows, zone_id, from) is Some,
    ensures
        from <= summary_position(rows, zone_id, from)->0 < rows.len(),
        is_summary_of(rows[summary_position(rows, zone_id, from)->0], zone_id),
    decreases rows.len() - from,
{
    if !is_summary_of(rows[from], zone_id) {
        lemma_summary_position(rows, zone_id, from + 1);
    }
}

/// The view of a reader who was put at a row of a document is a window of its
/// rows, from that row on or as far down as it can be.
proof fn lemma_next_view(
    pre: TerminalState,
    revision: u64,
    policy_revision: u64,
    ids: Seq<u64>,
    plan: PlanModel,
    row: int,
    anchor: ProjectedTopAnchor,
    pre_view: ProjectionViewState,
    post: TerminalState,
    post_view: ProjectionViewState,
    view: ProjectedViewport,
) -> (shown: PlanModel)
    requires
        pre.core_wf(),
        ids.len() > 0,
        !pre.use_alt_buffer,
        pre.caches.plan is Some,
        pre.caches.plan->0.plan@ == plan,
        pre.caches.plan->0.key@ == plan_key(pre, pre.grid.cols, policy_revision, ids),
        plan.effective_collapsed.len() > 0,
        pre.provenance.revision == 0 ==> {
            &&& pre.caches.next_plan_revision != 0
            &&& is_plan_of(
                pre,
                document_width(pre.grid.cols),
                resolved(pre, ids),
                policy_revision,
                plan,
            )
            &&& resolved(pre, ids).len() > 0
        },
        0 <= row,
        reader_at(
            plan,
            plan_key(pre, pre.grid.cols, policy_revision, ids),
            pre.rows(),
            row,
            anchor,
            pre_view,
        ),
        projected_view_requested(
            pre,
            revision,
            true,
            policy_revision,
            ids,
            pre_view,
            post,
            post_view,
            view,
        ),
    ensures
        shown.rows == plan.rows,
        shows_window(
            shown,
            first_row_shown(plan.rows.len() as int, pre.rows(), row),
            pre.rows(),
            *view.data,
        ),
{
    if pre.provenance.revision != 0 {
        lemma_reader_sees(
            pre,
            revision,
            policy_revision,
            ids,
            plan,
            row,
            anchor,
            pre_view,
            post,
            post_view,
            view,
        );
        plan
    } else {
        lemma_reader_sees_anew(
            pre,
            revision,
            policy_revision,
            ids,
            plan,
            row,
            anchor,
            pre_view,
            post,
            post_view,
            view,
        )
    }
}

/// The row that a window is to show is in it.
proof fn lemma_row_in_window(plan: PlanModel, row: int, height: int, view: ProjectedViewport)
    requires
        0 <= row < plan.rows.len(),
        0 < height,
        shows_window(
            plan,
            first_row_shown(plan.rows.len() as int, height, row),
            height,
            *view.data,
        ),
    ensures
        exists|r: int|
            0 <= r < view.data.row_kinds@.len() && #[trigger] view.data.row_kinds@[r]
                == plan.rows[row].kind,
{
    let start = first_row_shown(plan.rows.len() as int, height, row);
    let up = height - rows_shown(plan.rows.len() as int, start, height);
    let r = up + (row - start);
    assert(window_rows(plan, start, height)[r] == plan.rows[row]);
    assert(view.data.row_kinds@[r] == plan.rows[row].kind);
}

/// A summary that was revealed is in the next view of the same document. Where
/// changes of outputs are no longer counted, the next view is of a document
/// made anew, for which a number must be left. Where nothing is revealed the
/// reader stays.
pub proof fn revealed_summaries_are_shown(
    pre: TerminalState,
    revision: u64,
    policy_revision: u64,
    ids: Seq<u64>,
    pre_view: ProjectionViewState,
    zone_id: u64,
    mid: TerminalState,
    mid_view: ProjectionViewState,
    revealed: bool,
    post: TerminalState,
    post_view: ProjectionViewState,
    view: ProjectedViewport,
)
    requires
        mid.core_wf(),
        pre.provenance.revision != 0 || mid.caches.next_plan_revision != 0,
        summary_revealed(
            pre,
            policy_revision,
            ids,
            pre_view,
            zone_id,
            mid,
            mid_view,
            revealed,
        ),
        projected_view_requested(
            mid,
            revision,
            true,
            policy_revision,
            ids,
            mid_view,
            post,
            post_view,
            view,
        ),
    ensures
        revealed ==> exists|r: int|
            {
                &&& 0 <= r < view.data.row_kinds@.len()
                &&& (#[trigger] view.data.row_kinds@[r]) is CollapsedSummary
                &&& view.data.row_kinds@[r]->key.zone_id == zone_id
            },
        !revealed ==> mid_view == pre_view,
        mid.scroll_offset == pre.scroll_offset,
{
    if revealed {
        let key = plan_key(pre, pre.grid.cols, policy_revision, ids);
        let found = choose|plan: Option<PlanModel>|
            {
                &&& #[trigger] plan_requested(
                    pre,
                    pre.grid.cols,
                    policy_revision,
                    ids,
                    mid,
                    plan,
                )
                &&& plan is Some
                &&& current_summary(plan->0, policy_revision, zone_id) is Some
                &&& reader_at(
                    plan->0,
                    key,
                    pre.rows(),
                    current_summary(plan->0, policy_revision, zone_id)->0,
                    ProjectedTopAnchor::Summary {
                        zone_id,
                        hidden_range: plan->0.rows[current_summary(
                            plan->0,
                            policy_revision,
                            zone_id,
                        )->0].kind->hidden_range,
                    },
                    mid_view,
                )
            };
        assert(plan_requested(pre, pre.grid.cols, policy_revision, ids, mid, found));
        let plan = found->0;
        let row = current_summary(plan, policy_revision, zone_id)->0;
        lemma_summary_position(plan.rows, zone_id, 0);
        lemma_handed_out(pre, pre.grid.cols, policy_revision, ids, mid, plan);
        assert(plan_key(mid, mid.grid.cols, policy_revision, ids) == key);
        if pre.provenance.revision == 0 {
            lemma_made_anew(pre, policy_revision, ids, mid, plan);
        }
        let shown = lemma_next_view(
            mid,
            revision,
            policy_revision,
            ids,
            plan,
            row,
            ProjectedTopAnchor::Summary {
                zone_id,
                hidden_range: plan.rows[row].kind->hidden_range,
            },
            mid_view,
            post,
            post_view,
            view,
        );
        lemma_row_in_window(shown, row, mid.rows(), view);
    }
}

} // verus!
