//! Where jumps between prompts lead.

use vstd::prelude::*;

use crate::commands::CommandMark;
use crate::navigation::first_mark_below;
use crate::navigation::jumped_back;
use crate::navigation::jumped_forward;
use crate::navigation::last_mark_above;
use crate::navigation::marks_cleaned;
use crate::navigation::marks_pruned;
use crate::state::TerminalState;

verus! {

/// Number of the line at the top of the view.
pub open spec fn top_line(state: TerminalState) -> int {
    state.total_lines_scrolled - state.scroll_offset
}

/// Number of the oldest line that is retained.
pub open spec fn oldest_line(state: TerminalState) -> int {
    state.total_lines_scrolled - state.scrollback@.len()
}

/// Whether marks come in the order of their lines.
pub open spec fn ascending(marks: Seq<CommandMark>) -> bool {
    forall|i: int, j: int|
        0 <= i < j < marks.len() ==> (#[trigger] marks[i]).line_id <= (#[trigger] marks[j]).line_id
}

/// Pruning drops marks from the front, up to the first that is retained.
proof fn lemma_pruned(marks: Seq<CommandMark>, first: int) -> (k: int)
    ensures
        0 <= k <= marks.len(),
        marks_pruned(marks, first) == marks.skip(k),
        forall|i: int| 0 <= i < k ==> (#[trigger] marks[i]).line_id < first,
        k < marks.len() ==> marks[k].line_id >= first,
    decreases marks.len(),
{
    if marks.len() > 0 && marks[0].line_id < first {
        let rest = marks.drop_first();
        let k = lemma_pruned(rest, first);
        assert(rest.skip(k) =~= marks.skip(k + 1));
        assert forall|i: int| 0 <= i < k + 1 implies (#[trigger] marks[i]).line_id < first by {
            if i > 0 {
                assert(rest[i - 1] == marks[i]);
            }
        }
        k + 1
    } else {
        assert(marks.skip(0) =~= marks);
        0
    }
}

/// The last mark above a line, if any.
proof fn lemma_last_above(marks: Seq<CommandMark>, line_id: u64) -> (i: int)
    ensures
        last_mark_above(marks, line_id) is Some ==> 0 <= i < marks.len()
            && last_mark_above(marks, line_id) == Some(marks[i].line_id) && marks[i].line_id
            < line_id && forall|j: int|
            i < j < marks.len() ==> (#[trigger] marks[j]).line_id >= line_id,
        last_mark_above(marks, line_id) is None ==> forall|j: int|
            0 <= j < marks.len() ==> (#[trigger] marks[j]).line_id >= line_id,
    decreases marks.len(),
{
    if marks.len() == 0 {
        0
    } else if marks.last().line_id < line_id {
        marks.len() - 1
    } else {
        let head = marks.drop_last();
        let i = lemma_last_above(head, line_id);
        assert forall|j: int|
            (last_mark_above(marks, line_id) is Some ==> i < j) && 0 <= j < marks.len() implies (
        #[trigger] marks[j]).line_id >= line_id by {
            if j < head.len() {
                assert(head[j] == marks[j]);
            }
        }
        i
    }
}

/// The first mark below a line, if any.
proof fn lemma_first_below(marks: Seq<CommandMark>, line_id: u64) -> (i: int)
    ensures
        first_mark_below(marks, line_id) is Some ==> 0 <= i < marks.len()
            && first_mark_below(marks, line_id) == Some(marks[i].line_id) && marks[i].line_id
            > line_id && forall|j: int|
            0 <= j < i ==> (#[trigger] marks[j]).line_id <= line_id,
        first_mark_below(marks, line_id) is None ==> forall|j: int|
            0 <= j < marks.len() ==> (#[trigger] marks[j]).line_id <= line_id,
    decreases marks.len(),
{
    if marks.len() == 0 {
        0
    } else if marks[0].line_id > line_id {
        0
    } else {
        let rest = marks.drop_first();
        let i = lemma_first_below(rest, line_id);
        assert forall|j: int|
            (first_mark_below(marks, line_id) is Some ==> j < i + 1) && 0 <= j
                < marks.len() implies (#[trigger] marks[j]).line_id <= line_id by {
            if j > 0 {
                assert(rest[j - 1] == marks[j]);
            }
        }
        i + 1
    }
}

/// A jump back on the primary screen leads to the nearest mark above the view:
/// its line is then at the top, and no mark lies between it and the old top. It
/// fails, and the view stays, only where no retained mark is above the view.
/// Marks come in the order of their lines.
pub proof fn jumping_back_finds_the_nearest_prompt(
    pre: TerminalState,
    found: bool,
    post: TerminalState,
)
    requires
        pre.core_wf(),
        !pre.use_alt_buffer,
        ascending(pre.command_marks@),
        jumped_back(pre, found, post),
    ensures
        found ==> top_line(post) < top_line(pre),
        found ==> exists|i: int|
            0 <= i < pre.command_marks@.len() && (#[trigger] pre.command_marks@[i]).line_id
                == top_line(post),
        found ==> forall|i: int|
            0 <= i < pre.command_marks@.len() ==> !(top_line(post) < (
            #[trigger] pre.command_marks@[i]).line_id < top_line(pre)),
        !found ==> forall|i: int|
            0 <= i < pre.command_marks@.len() ==> !(oldest_line(pre) <= (
            #[trigger] pre.command_marks@[i]).line_id < top_line(pre)),
        !found ==> post.scroll_offset == pre.scroll_offset,
        post == (TerminalState {
            scroll_offset: post.scroll_offset,
            command_marks: post.command_marks,
            ..pre
        }),
{
    let marks = pre.command_marks@;
    let top = top_line(pre) as u64;
    let first = oldest_line(pre);
    let mid = choose|mid: TerminalState|
        {
            &&& #[trigger] marks_cleaned(pre, mid)
            &&& match last_mark_above(mid.command_marks@, top) {
                Some(line_id) => match crate::navigation::offset_of_line(mid, line_id) {
                    Some(offset) => found && crate::navigation::view_moved(mid, offset, post),
                    None => !found && post == mid,
                },
                None => !found && post == mid,
            }
        };
    assert(marks_cleaned(pre, mid));
    let k = lemma_pruned(marks, first);
    let kept = marks.skip(k);
    assert(mid.command_marks@ == kept);
    let i = lemma_last_above(kept, top);
    assert forall|j: int| k <= j < marks.len() implies #[trigger] marks[j] == kept[j - k] by {}
    if last_mark_above(kept, top) is Some {
        assert(kept[i] == marks[k + i]);
        assert(marks[k].line_id <= marks[k + i].line_id);
    }
}

/// A jump forward on the primary screen leads to the nearest mark below the top
/// of the view: its line is then at the top, or the live screen where the mark
/// is on it. No mark lies between it and the old top. Where no mark is below,
/// the view goes to the live screen. It fails only where the view is there
/// already. Marks come in the order of their lines.
pub proof fn jumping_forward_finds_the_nearest_prompt(
    pre: TerminalState,
    found: bool,
    post: TerminalState,
)
    requires
        pre.core_wf(),
        !pre.use_alt_buffer,
        ascending(pre.command_marks@),
        jumped_forward(pre, found, post),
    ensures
        top_line(pre) <= top_line(post) <= pre.total_lines_scrolled,
        forall|i: int|
            0 <= i < pre.command_marks@.len() ==> !(top_line(pre) < (
            #[trigger] pre.command_marks@[i]).line_id < top_line(post)),
        post.scroll_offset > 0 ==> top_line(pre) < top_line(post) && exists|i: int|
            0 <= i < pre.command_marks@.len() && (#[trigger] pre.command_marks@[i]).line_id
                == top_line(post),
        !found ==> pre.scroll_offset == 0 && forall|i: int|
            0 <= i < pre.command_marks@.len() ==> (#[trigger] pre.command_marks@[i]).line_id
                <= top_line(pre),
        post == (TerminalState {
            scroll_offset: post.scroll_offset,
            command_marks: post.command_marks,
            ..pre
        }),
{
    let marks = pre.command_marks@;
    let top = top_line(pre) as u64;
    let first = oldest_line(pre);
    let mid = choose|mid: TerminalState|
        {
            &&& #[trigger] marks_cleaned(pre, mid)
            &&& match first_mark_below(mid.command_marks@, top) {
                Some(line_id) => match crate::navigation::offset_of_line(mid, line_id) {
                    Some(offset) => found && crate::navigation::view_moved(mid, offset, post),
                    None => !found && post == mid,
                },
                None => found == (pre.scroll_offset != 0) && crate::navigation::view_moved(
                    mid,
                    0,
                    post,
                ),
            }
        };
    assert(marks_cleaned(pre, mid));
    let k = lemma_pruned(marks, first);
    let kept = marks.skip(k);
    assert(mid.command_marks@ == kept);
    let i = lemma_first_below(kept, top);
    assert forall|j: int| k <= j < marks.len() implies #[trigger] marks[j] == kept[j - k] by {}
    if first_mark_below(kept, top) is Some {
        assert(kept[i] == marks[k + i]);
    }
}

/// Jumps do nothing on the alternate screen, and marks are dropped only with
/// their lines.
pub proof fn jumps_keep_retained_marks(
    pre: TerminalState,
    back: bool,
    found: bool,
    post: TerminalState,
    i: int,
)
    requires
        pre.core_wf(),
        back ==> jumped_back(pre, found, post),
        !back ==> jumped_forward(pre, found, post),
        0 <= i < pre.command_marks@.len(),
        pre.command_marks@[i].line_id >= oldest_line(pre),
    ensures
        post.command_marks@.contains(pre.command_marks@[i]),
        pre.use_alt_buffer ==> !found && post == pre,
{
    let marks = pre.command_marks@;
    if pre.use_alt_buffer {
        assert(marks[i] == post.command_marks@[i]);
    } else {
        let k = lemma_pruned(marks, oldest_line(pre));
        let mid = choose|mid: TerminalState| #[trigger]
            marks_cleaned(pre, mid) && post.command_marks == mid.command_marks;
        assert(marks_cleaned(pre, mid));
        assert(post.command_marks@[i - k] == marks[i]);
    }
}

} // verus!
