//! Where the view is after scrolling, and how positions are named.

use vstd::prelude::*;

use crate::jump_laws::oldest_line;
use crate::jump_laws::top_line;
use crate::navigation::command_edge;
use crate::navigation::edge_offset;
use crate::navigation::offset_of_line;
use crate::navigation::offset_scrolled;
use crate::navigation::revealing_offset;
use crate::navigation::view_moved;
use crate::provenance::BufferAnchor;
use crate::queries::changed_rows;
use crate::state::TerminalState;

verus! {

/// Scrolling by a number of lines moves the view that many lines back, or forward
/// where it is negative, as far as there is history. Nothing else changes.
pub proof fn scrolling_moves_the_view(pre: TerminalState, lines: int, post: TerminalState)
    requires
        pre.core_wf(),
        view_moved(pre, offset_scrolled(pre, lines), post),
    ensures
        0 <= post.scroll_offset <= pre.history().len(),
        post == (TerminalState { scroll_offset: post.scroll_offset, ..pre }),
        0 <= pre.scroll_offset + lines <= pre.history().len() ==> top_line(post) == top_line(pre)
            - lines,
        pre.scroll_offset + lines > pre.history().len() ==> top_line(post) == oldest_line(pre),
        pre.scroll_offset + lines < 0 ==> post.scroll_offset == 0 && top_line(post)
            == pre.total_lines_scrolled,
{
}

/// Scrolling to a line puts it at the top of the view, or shows the live screen
/// where the line is on it; a line that is no longer retained is not found.
pub proof fn scrolling_to_a_line_shows_it(pre: TerminalState, line_id: u64, post: TerminalState)
    requires
        pre.core_wf(),
        match offset_of_line(pre, line_id) {
            Some(offset) => view_moved(pre, offset, post),
            None => post == pre,
        },
    ensures
        offset_of_line(pre, line_id) is Some <==> line_id >= oldest_line(pre),
        oldest_line(pre) <= line_id <= pre.total_lines_scrolled ==> top_line(post) == line_id,
        line_id >= pre.total_lines_scrolled ==> post.scroll_offset == 0,
        post == (TerminalState { scroll_offset: post.scroll_offset, ..pre }),
{
}

/// Scrolling to a position brings its line into the view, and leaves the view
/// alone where the line is in it already.
pub proof fn scrolling_to_a_position_shows_it(
    pre: TerminalState,
    anchor: BufferAnchor,
    post: TerminalState,
)
    requires
        pre.core_wf(),
        oldest_line(pre) <= anchor.line_id < pre.total_lines_scrolled + pre.rows(),
        pre.absolute_of_line(anchor.line_id) matches Some(absolute) && view_moved(
            pre,
            revealing_offset(pre, absolute),
            post,
        ),
    ensures
        top_line(post) <= anchor.line_id < top_line(post) + pre.rows(),
        top_line(pre) <= anchor.line_id < top_line(pre) + pre.rows() ==> post == pre,
        top_line(pre) > anchor.line_id ==> top_line(post) == anchor.line_id,
{
}

/// The retained lines are those from the oldest of the history to the last row of
/// the screen, and positions are named by their lines and found again by them.
pub proof fn positions_are_found_again(
    state: TerminalState,
    anchor: BufferAnchor,
    cell: Option<(usize, usize)>,
    again: Option<BufferAnchor>,
)
    requires
        state.core_wf(),
        state.total_lines_scrolled + state.rows() <= u64::MAX,
        call_ensures(TerminalState::buffer_anchor_to_absolute, (&state, anchor), cell),
        cell is Some ==> call_ensures(
            TerminalState::absolute_to_buffer_anchor,
            (&state, cell->0),
            again,
        ),
    ensures
        cell is Some <==> oldest_line(state) <= anchor.line_id < state.total_lines_scrolled
            + state.rows(),
        cell matches Some(cell) ==> cell.0 == anchor.line_id - oldest_line(state) && cell.1
            == anchor.column && again == Some(anchor),
{
}

/// The number of the line at the top of the view counts all lines before it, also
/// those that are no longer retained.
pub proof fn the_top_line_is_counted(state: TerminalState, line_id: u64)
    requires
        state.core_wf(),
        call_ensures(TerminalState::viewport_top_line_id, (&state,), line_id),
    ensures
        line_id == top_line(state),
        oldest_line(state) <= line_id <= state.total_lines_scrolled,
        state.scroll_offset == 0 ==> line_id == state.total_lines_scrolled,
        state.scroll_offset == state.history().len() ==> line_id == oldest_line(state),
{
}

/// Rows of the view and of the document are told apart by what is above the view.
pub proof fn rows_of_the_view_are_rows_of_the_document(
    state: TerminalState,
    absolute: usize,
    row: Option<usize>,
)
    requires
        state.core_wf(),
        call_ensures(TerminalState::absolute_row_to_viewport, (&state, absolute), row),
    ensures
        row is Some <==> top_line(state) - oldest_line(state) <= absolute < top_line(state)
            - oldest_line(state) + state.rows(),
        row matches Some(row) ==> row + (top_line(state) - oldest_line(state)) == absolute,
{
}

/// The rows that are listed as changed are those whose version is newer, each once
/// and in order.
pub proof fn listed_rows_are_the_newer_ones(versions: Seq<u64>, since: u64)
    requires
        versions.len() <= usize::MAX,
    ensures
        ({
            let rows = changed_rows(versions, since);
            &&& forall|i: int|
                0 <= i < rows.len() ==> (#[trigger] rows[i]) < versions.len() && versions[rows[i]
                    as int] > since
            &&& forall|i: int, j: int|
                0 <= i < j < rows.len() ==> (#[trigger] rows[i]) < (#[trigger] rows[j])
            &&& forall|r: int|
                0 <= r < versions.len() && #[trigger] versions[r] > since ==> rows.contains(
                    r as usize,
                )
        }),
    decreases versions.len(),
{
    if versions.len() > 0 {
        let head = versions.drop_last();
        listed_rows_are_the_newer_ones(head, since);
        let before = changed_rows(head, since);
        let rows = changed_rows(versions, since);
        assert forall|i: int| 0 <= i < before.len() implies versions[(#[trigger] before[i]) as int]
            > since && before[i] < head.len() by {
            assert(head[before[i] as int] == versions[before[i] as int]);
        }
        assert forall|r: int|
            0 <= r < versions.len() && #[trigger] versions[r] > since implies rows.contains(
            r as usize,
        ) by {
            if r < head.len() {
                assert(head[r] > since);
                let k = choose|k: int| 0 <= k < before.len() && before[k] == r as usize;
                assert(rows[k] == r as usize);
            } else {
                assert(rows[rows.len() - 1] == r as usize);
            }
        }
    }
}

/// The top edge of a command is the line of its prompt, the bottom edge the line
/// before the next prompt, or that of the end of the newest command. A prompt
/// behind the last column begins on the next line. Commands of the alternate
/// screen have no edges.
pub proof fn commands_reach_to_the_next_prompt(
    state: TerminalState,
    id: Seq<char>,
    i: int,
    bottom: bool,
)
    requires
        state.core_wf(),
        !state.use_alt_buffer,
        crate::commands::index_of_id(state.log@.records, id) == Some(i),
        0 <= i < state.log@.records.len(),
        forall|k: int|
            0 <= k < state.log@.records.len() ==> (
            #[trigger] state.log@.records[k]).prompt_start.column < state.cols()
                && state.log@.records[k].prompt_start.line_id > 0,
        state.log@.records[i].end matches Some(end) ==> end.column < state.cols(),
    ensures
        command_edge(state, id, bottom) matches Some(edge) ==> {
            let records = state.log@.records;
            &&& edge.column == 0
            &&& !bottom ==> edge.line_id == records[i].prompt_start.line_id
            &&& bottom && i + 1 < records.len() ==> edge.line_id + 1 == records[i
                + 1].prompt_start.line_id
            &&& bottom && i + 1 == records.len() ==> edge.line_id == match records[i].end {
                Some(end) => end.line_id,
                None => records[i].prompt_start.line_id,
            }
            &&& oldest_line(state) <= edge.line_id < state.total_lines_scrolled + state.rows()
        },
{
}

/// Scrolling to an edge of a command puts the top edge at the top of the view and
/// the bottom edge at the bottom, as far as the history reaches, or shows the live
/// screen where it is on it.
pub proof fn edges_are_scrolled_to(
    pre: TerminalState,
    line_id: u64,
    bottom: bool,
    post: TerminalState,
)
    requires
        pre.core_wf(),
        oldest_line(pre) <= line_id < pre.total_lines_scrolled + pre.rows(),
        edge_offset(pre, line_id, bottom) matches Some(offset) && view_moved(pre, offset, post),
    ensures
        !bottom && line_id < pre.total_lines_scrolled ==> top_line(post) == line_id,
        bottom && line_id - (pre.rows() - 1) >= oldest_line(pre) && line_id - (pre.rows() - 1)
            <= pre.total_lines_scrolled ==> top_line(post) + pre.rows() - 1 == line_id,
        line_id >= pre.total_lines_scrolled && !bottom ==> post.scroll_offset == 0,
        top_line(post) <= line_id < top_line(post) + pre.rows(),
{
}

} // verus!
