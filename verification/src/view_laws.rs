//! What looking at a terminal leaves alone.

use vstd::prelude::*;

use crate::folded_selection::line_selected_in;
use crate::folded_selection::selection_moved;
use crate::folded_selection::selection_started;
use crate::folded_selection::word_selected_in;
use crate::lifecycle::ClockReading;
use crate::parser::input_processed;
use crate::plan::PlanModel;
use crate::planning::plan_key;
use crate::planning::plan_requested;
use crate::projected::document_view_requested;
use crate::projected::folded_selection_left;
use crate::projected::folded_view_requested;
use crate::projected::plain_view_given;
use crate::projected::plain_view_key;
use crate::projected::plain_view_requested;
use crate::projected::projected_view_requested;
use crate::projected::reader_enters;
use crate::projected::restored;
use crate::projected::unfolded_view_requested;
use crate::projection::ProjectionViewState;
use crate::resize::size_set;
use crate::setup::history_cleared;
use crate::setup::history_limited;
use crate::setup::oldest_rows_dropped;
use crate::setup::smaller;
use crate::setup::terminal_reset;
use crate::state::SelectionMode;
use crate::state::TerminalState;
use crate::view::unchanged_rows_keep_views_current;
use crate::view::view_cache_valid;
use crate::viewport::ProjectedViewport;

verus! {

/// `post` is `pre` but for what is selected, where the reader is, and what is
/// remembered of views.
pub open spec fn only_looked_at(pre: TerminalState, post: TerminalState) -> bool {
    post == TerminalState {
        selection: post.selection,
        projected_selection: post.projected_selection,
        selection_revision: post.selection_revision,
        scroll_offset: post.scroll_offset,
        caches: post.caches,
        ..pre
    }
}

/// Whether at most one of the two kinds of selection is in place.
pub open spec fn selects_one_way(state: TerminalState) -> bool {
    state.selection is None || state.projected_selection is None
}

/// A view without folding changes nothing but what it is made of.
proof fn lemma_plain_view(
    pre: TerminalState,
    revision: u64,
    block_mode: bool,
    post: TerminalState,
    view: ProjectedViewport,
)
    requires
        plain_view_requested(pre, revision, block_mode, post, view),
    ensures
        only_looked_at(pre, post),
        post.projected_selection is None,
{
    let left = choose|left: TerminalState|
        {
            &&& #[trigger] folded_selection_left(pre, left)
            &&& plain_view_given(left, plain_view_key(left, revision, block_mode), post, view)
        };
    assert(folded_selection_left(pre, left));
}

/// A request for a document changes nothing but what is remembered of it.
proof fn lemma_plan(
    pre: TerminalState,
    cols: usize,
    policy_revision: u64,
    ids: Seq<u64>,
    post: TerminalState,
    result: Option<PlanModel>,
)
    requires
        plan_requested(pre, cols, policy_revision, ids, post, result),
    ensures
        post == (TerminalState { caches: post.caches, ..pre }),
{
}

/// Looking at a terminal, with outputs folded or not, changes neither its
/// screens nor its history nor its log of commands, and leaves at most one of
/// the two kinds of selection in place.
pub proof fn looking_changes_nothing(
    pre: TerminalState,
    revision: u64,
    block_mode: bool,
    policy_revision: u64,
    ids: Seq<u64>,
    pre_view: ProjectionViewState,
    post: TerminalState,
    post_view: ProjectionViewState,
    view: ProjectedViewport,
)
    requires
        projected_view_requested(
            pre,
            revision,
            block_mode,
            policy_revision,
            ids,
            pre_view,
            post,
            post_view,
            view,
        ),
    ensures
        only_looked_at(pre, post),
        selects_one_way(post),
{
    if !block_mode || pre.use_alt_buffer {
        lemma_plain_view(pre, revision, block_mode, post, view);
    } else if ids.len() == 0 {
        lemma_unfolded_view(pre, revision, pre_view, post, post_view, view);
    } else {
        let (ready, ready_view) = choose|ready: TerminalState, ready_view: ProjectionViewState|
            {
                &&& #[trigger] reader_enters(pre, revision, pre_view, ready, ready_view)
                &&& document_view_requested(
                    ready,
                    revision,
                    policy_revision,
                    ids,
                    ready_view,
                    post,
                    post_view,
                    view,
                )
            };
        lemma_reader_enters(pre, revision, pre_view, ready, ready_view);
        lemma_document_view(
            ready,
            revision,
            policy_revision,
            ids,
            ready_view,
            post,
            post_view,
            view,
        );
    }
}

/// Going back to the document without folding changes nothing but the view.
proof fn lemma_unfolded_view(
    pre: TerminalState,
    revision: u64,
    pre_view: ProjectionViewState,
    post: TerminalState,
    post_view: ProjectionViewState,
    view: ProjectedViewport,
)
    requires
        unfolded_view_requested(pre, revision, pre_view, post, post_view, view),
    ensures
        only_looked_at(pre, post),
        post.projected_selection is None,
{
    lemma_plain_view(
        restored(pre, pre_view),
        revision,
        true,
        post,
        view,
    );
}

/// Coming from the document without folding changes nothing but the view.
proof fn lemma_reader_enters(
    pre: TerminalState,
    revision: u64,
    pre_view: ProjectionViewState,
    post: TerminalState,
    post_view: ProjectionViewState,
)
    requires
        reader_enters(pre, revision, pre_view, post, post_view),
    ensures
        only_looked_at(pre, post),
{
    if pre_view.last_plan_key is None && pre.scroll_offset > 0 {
        let view = choose|view: ProjectedViewport| #[trigger]
            plain_view_requested(pre, revision, true, post, view);
        lemma_plain_view(pre, revision, true, post, view);
    }
}

/// Looking at a folded document changes nothing but the view.
proof fn lemma_document_view(
    pre: TerminalState,
    revision: u64,
    policy_revision: u64,
    ids: Seq<u64>,
    pre_view: ProjectionViewState,
    post: TerminalState,
    post_view: ProjectionViewState,
    view: ProjectedViewport,
)
    requires
        document_view_requested(
            pre,
            revision,
            policy_revision,
            ids,
            pre_view,
            post,
            post_view,
            view,
        ),
    ensures
        only_looked_at(pre, post),
        selects_one_way(post),
{
    let (planned, plan) = choose|planned: TerminalState, plan: Option<PlanModel>|
        {
            &&& #[trigger] plan_requested(
                pre,
                pre.grid.cols,
                policy_revision,
                ids,
                planned,
                plan,
            )
            &&& match plan {
                None => unfolded_view_requested(
                    planned,
                    revision,
                    pre_view,
                    post,
                    post_view,
                    view,
                ),
                Some(plan) => folded_view_requested(
                    planned,
                    plan_key(pre, pre.grid.cols, policy_revision, ids),
                    plan,
                    pre_view,
                    post,
                    post_view,
                    view,
                ),
            }
        };
    lemma_plan(pre, pre.grid.cols, policy_revision, ids, planned, plan);
    match plan {
        None => {
            lemma_unfolded_view(planned, revision, pre_view, post, post_view, view);
        },
        Some(_) => {},
    }
}

/// Selecting in a view leaves at most one of the two kinds of selection in
/// place and changes nothing else.
pub proof fn selections_exclude_each_other(
    pre: TerminalState,
    view: ProjectedViewport,
    cell: (usize, usize),
    mode: SelectionMode,
    post: TerminalState,
)
    requires
        selects_one_way(pre),
        selection_started(pre, view, cell, mode, post) || selection_moved(pre, view, cell, post)
            || word_selected_in(pre, view, cell.0, cell.1, post) || line_selected_in(
            pre,
            view,
            cell.0,
            post,
        ),
    ensures
        selects_one_way(post),
        only_looked_at(pre, post),
{
}

/// No operation leaves rows remembered that are not those of their version:
/// input, another size, a shorter history and a reset forget what they make
/// stale.
pub proof fn stale_views_are_forgotten(
    pre: TerminalState,
    data: Seq<u8>,
    now: ClockReading,
    cols: usize,
    rows: usize,
    limit: int,
    post: TerminalState,
)
    requires
        pre.core_wf(),
        view_cache_valid(pre),
        input_processed(pre, data, now, post) || size_set(pre, cols, rows, post) || history_limited(
            pre,
            limit,
            post,
        ) || history_cleared(pre, post) || terminal_reset(pre, post),
    ensures
        view_cache_valid(post),
{
    if history_limited(pre, limit, post) {
        let keep = smaller(pre.history().len() as int, limit);
        let scrolled = TerminalState {
            scroll_offset: smaller(pre.scroll_offset as int, keep) as usize,
            ..pre
        };
        let mid = choose|mid: TerminalState|
            {
                &&& #[trigger] oldest_rows_dropped(
                    scrolled,
                    pre.history().len() - keep,
                    mid,
                )
                &&& post.max_scrollback == limit
                &&& post.caches == if keep < pre.history().len() {
                    mid.caches.views_dropped()
                } else {
                    mid.caches
                }
                &&& post == TerminalState {
                    max_scrollback: post.max_scrollback,
                    caches: post.caches,
                    ..mid
                }
            };
        if keep >= pre.history().len() {
            assert(mid == scrolled);
            unchanged_rows_keep_views_current(pre, post);
        }
    } else if size_set(pre, cols, rows, post) && post == pre {
    } else {
        assert(post.caches.visible_cells is None);
    }
}

} // verus!
