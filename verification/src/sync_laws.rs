//! What synchronized updates leave in the history.

use vstd::prelude::*;

use crate::scrolling::history_full;
use crate::screens::copies_archived;
use crate::screens::copy_archived;
use crate::screens::selection_rebased;
use crate::screens::rows_archived;
use crate::screens::spans_content;
use crate::screens::sync_begun;
use crate::screens::sync_entry_archived;
use crate::state::TerminalState;

verus! {

/// Whether the rows `first..=last` of the screen stand, in order and with the same
/// cells, at the end of what the history became, and rows were lost only from a full
/// history, at its front.
#[verifier::opaque]
pub open spec fn rows_copied_to_history(
    pre: TerminalState,
    first: int,
    last: int,
    post: TerminalState,
) -> bool {
    let n = last - first + 1;
    let lost = pre.history().len() + n - post.history().len();
    &&& 0 <= lost
    &&& lost > 0 ==> post.history().len() >= post.max_scrollback || post.history().len()
        >= usize::MAX / 2
    &&& forall|i: int|
        lost <= i < pre.history().len() ==> post.history()[i - lost] == #[trigger] pre.history()[i]
    &&& forall|r: int|
        first <= r <= last && pre.history().len() + (r - first) >= lost ==> ({
            let copy = post.history()[pre.history().len() + (r - first) - lost];
            &&& copy.cells == (#[trigger] pre.grid@[r]).cells
            &&& copy.wrapped == pre.grid@[r].wrapped
        })
}

/// The history with copies of rows appended.
proof fn lemma_copies(pre: TerminalState, first: int, end: int, post: TerminalState)
    requires
        0 <= first <= end <= pre.grid@.len(),
        pre.max_scrollback >= 1,
        copies_archived(pre, first, end, post),
    ensures
        post.grid == pre.grid,
        post.max_scrollback == pre.max_scrollback,
        rows_copied_to_history(pre, first, end - 1, post),
        history_full(pre) ==> history_full(post),
    decreases end - first,
{
    reveal(rows_copied_to_history);
    assert(post.scrollback@.len() == post.history().len());
    assert(pre.scrollback@.len() == pre.history().len());
    if first < end {
        let mid = choose|mid: TerminalState|
            {
                &&& #[trigger] copy_archived(pre, first, mid)
                &&& copies_archived(mid, first + 1, end, post)
            };
        assert(copy_archived(pre, first, mid));
        assert(mid.scrollback@.len() == mid.history().len());
        lemma_copies(mid, first + 1, end, post);
        let line = mid.history().last();
        assert(line.cells == pre.grid@[first].cells && line.wrapped == pre.grid@[first].wrapped);
        let gone: int = if history_full(pre) {
            1
        } else {
            0
        };
        assert(mid.history().len() == pre.history().len() + 1 - gone);
        assert forall|i: int| gone <= i < pre.history().len() implies mid.history()[i - gone]
            == #[trigger] pre.history()[i] by {}
        let n = end - first;
        let lost = pre.history().len() + n - post.history().len();
        let later = mid.history().len() + (n - 1) - post.history().len();
        assert(lost == later + gone);
        assert forall|i: int| lost <= i < pre.history().len() implies post.history()[i - lost]
            == #[trigger] pre.history()[i] by {
            assert(mid.history()[i - gone] == pre.history()[i]);
        }
        assert forall|r: int|
            first <= r < end && pre.history().len() + (r - first) >= lost implies ({
            let copy = post.history()[pre.history().len() + (r - first) - lost];
            &&& copy.cells == (#[trigger] pre.grid@[r]).cells
            &&& copy.wrapped == pre.grid@[r].wrapped
        }) by {
            if r == first {
                let at = mid.history().len() - 1;
                assert(mid.history()[at] == line);
                assert(post.history()[at - later] == line);
            } else {
                assert(mid.grid@[r] == pre.grid@[r]);
            }
        }
    }
}

/// A synchronized update that begins on the primary screen first keeps what the screen
/// shows: the rows from the first to the last that are not blank are copied to the end
/// of the history, unless the last update left just that. The screen stays as it is.
pub proof fn updates_keep_what_was_shown(
    pre: TerminalState,
    now_ns: u64,
    post: TerminalState,
    first: int,
    last: int,
)
    requires
        pre.core_wf(),
        !pre.use_alt_buffer,
        !pre.sync_output_active,
        spans_content(pre, first, last),
        !crate::screens::is_snapshot(
            pre,
            crate::screens::snapshot_view(pre.last_synced_primary_screen_snapshot@),
        ),
        sync_begun(pre, now_ns, post),
    ensures
        rows_copied_to_history(pre, first, last, post),
        post.grid == pre.grid,
        post.sync_output_active,
        post.sync_output_start == Some(now_ns),
        post.modes.has(2026),
{
    let mid = choose|mid: TerminalState|
        {
            &&& #[trigger] sync_entry_archived(pre, mid)
            &&& post.modes == mid.modes.with(2026, true)
            &&& post == TerminalState {
                modes: post.modes,
                sync_output_active: post.sync_output_active,
                sync_output_start: post.sync_output_start,
                ..mid
            }
        };
    assert(sync_entry_archived(pre, mid));
    crate::modes::modes_are_independent(mid.modes, 2026, true, 2026);
    assert(!crate::screens::screen_is_blank(pre)) by {
        assert(!crate::screens::row_is_blank(pre, first));
    }
    let (a, b) = choose|a: int, b: int| #[trigger]
        spans_content(pre, a, b) && crate::screens::content_archived(pre, a, b, false, mid);
    assert(a == first && b == last) by {
        lemma_one_span(pre, a, b, first, last);
    }
    lemma_rows_archived(pre, first, last, mid);
    lemma_same_history(pre, first, last, mid, post);
}

/// Archiving rows copies them.
proof fn lemma_rows_archived(pre: TerminalState, first: int, last: int, post: TerminalState)
    requires
        0 <= first <= last < pre.grid@.len(),
        pre.max_scrollback >= 1,
        rows_archived(pre, first, last, post),
    ensures
        rows_copied_to_history(pre, first, last, post),
        post.grid == pre.grid,
{
    let copied = choose|copied: TerminalState|
        {
            &&& #[trigger] copies_archived(pre, first, last + 1, copied)
            &&& selection_rebased(
                copied,
                pre.scrollback@.len() as usize,
                copied.scrollback@.len() as usize,
                post,
            )
        };
    lemma_copies(pre, first, last + 1, copied);
    lemma_same_history(pre, first, last, copied, post);
}

/// What was copied is there wherever the history is the same.
proof fn lemma_same_history(
    pre: TerminalState,
    first: int,
    last: int,
    mid: TerminalState,
    post: TerminalState,
)
    requires
        rows_copied_to_history(pre, first, last, mid),
        post.scrollback == mid.scrollback,
        post.max_scrollback == mid.max_scrollback,
    ensures
        rows_copied_to_history(pre, first, last, post),
{
    reveal(rows_copied_to_history);
    assert(post.history() == mid.history());
}

/// There is one span from the first to the last row that is not blank.
proof fn lemma_one_span(state: TerminalState, a: int, b: int, c: int, d: int)
    requires
        spans_content(state, a, b),
        spans_content(state, c, d),
    ensures
        a == c,
        b == d,
{
    if a < c {
        assert(crate::screens::row_is_blank(state, a));
    }
    if c < a {
        assert(crate::screens::row_is_blank(state, c));
    }
    if b < d {
        assert(crate::screens::row_is_blank(state, d));
    }
    if d < b {
        assert(crate::screens::row_is_blank(state, b));
    }
}

} // verus!
