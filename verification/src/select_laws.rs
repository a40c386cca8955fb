//! What is selected, and what copying it gives.

use vstd::prelude::*;

use crate::cell::TerminalCell;
use crate::extraction::cell_chars;
use crate::extraction::range_text;
use crate::extraction::row_text;
use crate::extraction::text_before_row;
use crate::extraction::unpadded_end;
use crate::grid::Line;
use crate::selection::copied_before;
use crate::selection::line_selected;
use crate::selection::selection_extended;
use crate::selection::selection_text;
use crate::selection::without_trailing_spaces;
use crate::state::Selection;
use crate::state::SelectionMode;
use crate::state::TerminalState;

verus! {

/// Whether all cells of a row are of single width.
pub open spec fn all_narrow(cells: Seq<TerminalCell>) -> bool {
    forall|c: int| 0 <= c < cells.len() ==> !(#[trigger] cells[c]).flags.spec_continuation()
}

/// The characters of the columns `from..to` of a row of single-width cells.
pub open spec fn characters(cells: Seq<TerminalCell>, from: int, to: int) -> Seq<char> {
    Seq::new((to - from) as nat, |i: int| cells[from + i].character)
}

/// Single-width cells give their characters one by one.
proof fn lemma_characters(cells: Seq<TerminalCell>, from: int, to: int)
    requires
        0 <= from <= to <= cells.len(),
        all_narrow(cells),
    ensures
        cell_chars(cells, from, to) == characters(cells, from, to),
    decreases to - from,
{
    if from < to {
        lemma_characters(cells, from, to - 1);
        assert(characters(cells, from, to) =~= characters(cells, from, to - 1).push(
            cells[to - 1].character,
        ));
    } else {
        assert(characters(cells, from, to) =~= Seq::<char>::empty());
    }
}

/// Right halves give no character of their own.
pub proof fn right_halves_are_not_copied(cells: Seq<TerminalCell>, from: int, to: int)
    requires
        0 <= from < to <= cells.len(),
    ensures
        cells[to - 1].flags.spec_continuation() ==> cell_chars(cells, from, to) == cell_chars(
            cells,
            from,
            to - 1,
        ),
        !cells[to - 1].flags.spec_continuation() ==> cell_chars(cells, from, to) == cell_chars(
            cells,
            from,
            to - 1,
        ).push(cells[to - 1].character),
{
}

/// Copying a selection within one row gives the characters of its columns, the
/// last one included, whichever end was chosen first.
pub proof fn copying_within_a_row(
    state: TerminalState,
    row: usize,
    left: usize,
    right: usize,
    text: Option<String>,
)
    requires
        state.core_wf(),
        state.projected_selection is None,
        state.selection matches Some(selection) && (selection.anchor == (row, left)
            && selection.active == (row, right) || selection.anchor == (row, right)
            && selection.active == (row, left)),
        row < state.document().len(),
        left <= right < state.cols(),
        right < state.document()[row as int].cells.len(),
        all_narrow(state.document()[row as int].cells),
        call_ensures(TerminalState::copy_selection, (&state,), text),
    ensures
        text matches Some(text) && text@ == characters(
            state.document()[row as int].cells,
            left as int,
            right + 1,
        ),
{
    let cells = state.document()[row as int].cells;
    lemma_characters(cells, left as int, right + 1);
    let lines = state.document();
    let start = (row, left);
    let end = (row, right);
    assert(copied_before(lines, state.cols(), start, end, row as int) =~= Seq::<char>::empty());
    assert(selection_text(state, state.selection->0) =~= characters(
        cells,
        left as int,
        right + 1,
    ));
}

/// A text without the spaces at its end is what stands before them.
pub proof fn only_spaces_are_trimmed(text: Seq<char>)
    ensures
        ({
            let kept = without_trailing_spaces(text);
            &&& kept.len() <= text.len()
            &&& kept == text.take(kept.len() as int)
            &&& forall|i: int| kept.len() <= i < text.len() ==> #[trigger] text[i] == ' '
            &&& kept.len() > 0 ==> kept.last() != ' '
        }),
    decreases text.len(),
{
    if text.len() > 0 && text.last() == ' ' {
        let head = text.drop_last();
        only_spaces_are_trimmed(head);
        let kept = without_trailing_spaces(text);
        assert(head.take(kept.len() as int) =~= text.take(kept.len() as int));
        assert forall|i: int| kept.len() <= i < text.len() implies #[trigger] text[i] == ' ' by {
            if i < head.len() {
                assert(head[i] == text[i]);
            }
        }
    } else {
        assert(text.take(text.len() as int) =~= text);
    }
}

/// What is copied behind the first row does not depend on where the selection
/// begins there.
proof fn lemma_copied_behind(
    lines: Seq<Line>,
    cols: int,
    start: (usize, usize),
    end: (usize, usize),
    row: int,
)
    requires
        start.0 < usize::MAX,
        row > start.0,
    ensures
        copied_before(lines, cols, start, end, row) == crate::selection::copied_row(
            lines,
            cols,
            start,
            end,
            start.0 as int,
        ) + copied_before(lines, cols, ((start.0 + 1) as usize, 0), end, row),
    decreases row - start.0,
{
    let next = ((start.0 + 1) as usize, 0usize);
    let first = crate::selection::copied_row(lines, cols, start, end, start.0 as int);
    if row == start.0 + 1 {
        assert(copied_before(lines, cols, start, end, start.0 as int) =~= Seq::<char>::empty());
        assert(copied_before(lines, cols, next, end, row) =~= Seq::<char>::empty());
        assert(copied_before(lines, cols, start, end, row) =~= first);
        assert(first + Seq::<char>::empty() =~= first);
    } else {
        lemma_copied_behind(lines, cols, start, end, row - 1);
        let piece = crate::selection::copied_row(lines, cols, start, end, row - 1);
        assert(piece == crate::selection::copied_row(lines, cols, next, end, row - 1));
        let rest = copied_before(lines, cols, next, end, row - 1);
        assert((first + rest) + piece =~= first + (rest + piece));
    }
}

/// Copying a selection over several rows gives what copying the rest of its first
/// row gives, then a line break, then what copying the rows behind it gives. A
/// row that goes on in the next gets no line break, and spaces at its end are
/// left out.
pub proof fn copying_goes_row_by_row(
    state: TerminalState,
    whole: Selection,
    first: Selection,
    rest: Selection,
)
    requires
        state.core_wf(),
        whole.anchor.0 < whole.active.0 < state.document().len(),
        whole.anchor.0 < usize::MAX,
        first == (Selection {
            active: (whole.anchor.0, (state.cols() - 1) as usize),
            ..whole
        }),
        whole.anchor.1 < state.cols(),
        rest == (Selection { anchor: ((whole.anchor.0 + 1) as usize, 0), ..whole }),
    ensures
        ({
            let line = state.document()[whole.anchor.0 as int];
            let head = selection_text(state, first);
            selection_text(state, whole) == if line.wrapped {
                without_trailing_spaces(head)
            } else {
                head.push('\n')
            } + selection_text(state, rest)
        }),
{
    let lines = state.document();
    let cols = state.cols();
    let start = whole.anchor;
    let end = whole.active;
    lemma_copied_behind(lines, cols, start, end, end.0 + 1);
    assert(copied_before(lines, cols, start, first.active, start.0 as int) =~= Seq::<char>::empty());
    assert(selection_text(state, first) =~= crate::selection::copied_row(
        lines,
        cols,
        start,
        first.active,
        start.0 as int,
    ));
}

/// The columns that a selection covers on a row of the view: within one row those
/// between its ends, over several rows all to the end of the first, from the
/// beginning of the last and whole rows between; a block covers the same columns
/// on each of its rows.
pub proof fn selections_cover_columns(
    state: TerminalState,
    selection: Selection,
    viewport_row: usize,
    absolute: usize,
    covered: Option<(usize, usize)>,
)
    requires
        state.core_wf(),
        state.selection == Some(selection),
        selection.anchor.0 < selection.active.0 || (selection.anchor.0 == selection.active.0
            && selection.anchor.1 <= selection.active.1),
        absolute == state.history().len() - state.scroll_offset + viewport_row,
        call_ensures(TerminalState::row_selection_cols, (&state, viewport_row), covered),
    ensures
        covered is Some <==> selection.anchor.0 <= absolute <= selection.active.0,
        covered matches Some(columns) ==> {
            let first = selection.anchor;
            let last = selection.active;
            if selection.mode == SelectionMode::Block {
                &&& columns.0 <= columns.1
                &&& columns.0 == first.1 && columns.1 == last.1 || columns.0 == last.1 && columns.1
                    == first.1
            } else {
                &&& absolute == first.0 ==> columns.0 == first.1
                &&& absolute > first.0 ==> columns.0 == 0
                &&& absolute == last.0 ==> columns.1 == last.1
                &&& absolute < last.0 ==> columns.1 >= state.cols() - 1
            }
        },
{
}

/// Selecting a row selects it from its first column to the last cell that shows
/// anything; behind it are spaces alone.
pub proof fn rows_are_selected_as_far_as_they_show(
    pre: TerminalState,
    rows: Seq<Seq<TerminalCell>>,
    row: int,
    base: usize,
    post: TerminalState,
)
    requires
        line_selected(pre, rows, row, base, post),
        0 <= row < rows.len(),
        rows[row].len() > 0,
        rows[row].len() <= usize::MAX,
        base + row <= usize::MAX,
    ensures
        post.selection matches Some(selection) && {
            let right = selection.active.1 as int;
            &&& selection.mode == SelectionMode::Normal
            &&& selection.anchor == ((base + row) as usize, 0usize)
            &&& selection.active.0 == base + row
            &&& right < rows[row].len()
            &&& forall|c: int|
                right < c < rows[row].len() ==> (#[trigger] rows[row][c]).character == ' '
                    || rows[row][c].flags.spec_continuation()
            &&& right > 1 ==> rows[row][right].character != ' ' || (rows[row][right
                - 1].flags.spec_wide() && rows[row][right - 1].character != ' ')
        },
{
    let cells = rows[row];
    lemma_last_visible(cells, cells.len() - 1);
}

/// The last cell that shows anything.
proof fn lemma_last_visible(cells: Seq<TerminalCell>, right: int)
    requires
        0 <= right < cells.len(),
    ensures
        ({
            let last = crate::selection::last_visible(cells, 0, right);
            &&& 0 <= last <= right
            &&& forall|c: int|
                last < c <= right ==> (#[trigger] cells[c]).character == ' '
                    || cells[c].flags.spec_continuation()
            &&& last > 0 ==> cells[last].character != ' ' && !cells[last].flags.spec_continuation()
        }),
    decreases right,
{
    if right > 0 && (cells[right].flags.spec_continuation() || cells[right].character == ' ') {
        lemma_last_visible(cells, right - 1);
    }
}

/// Extending a selection moves its second end alone.
pub proof fn extending_keeps_the_first_end(
    pre: TerminalState,
    active: (usize, usize),
    post: TerminalState,
)
    requires
        selection_extended(pre, active, post),
    ensures
        pre.selection matches Some(before) ==> (post.selection matches Some(after) && after.anchor
            == before.anchor && after.mode == before.mode && after.active == active),
        pre.selection is None ==> post == pre,
        post.grid == pre.grid && post.scrollback == pre.scrollback && post.scroll_offset
            == pre.scroll_offset,
{
}

/// The text of a row in the columns `from..to` is that of its cells up to the
/// last that is neither a space nor empty.
pub proof fn rows_are_read_without_padding(cells: Seq<TerminalCell>, from: int, to: int)
    requires
        0 <= from <= to <= cells.len(),
        all_narrow(cells),
    ensures
        ({
            let text = row_text(cells, from, to);
            let end = from + text.len();
            &&& end <= to
            &&& text == characters(cells, from, end)
            &&& forall|c: int|
                end <= c < to ==> (#[trigger] cells[c]).character == ' ' || cells[c].character
                    == '\0'
            &&& text.len() > 0 ==> text.last() != ' ' && text.last() != '\0'
        }),
{
    lemma_unpadded(cells, from, to);
    lemma_characters(cells, from, unpadded_end(cells, from, to));
}

/// Where the padding begins.
proof fn lemma_unpadded(cells: Seq<TerminalCell>, from: int, to: int)
    requires
        0 <= from <= to <= cells.len(),
        all_narrow(cells),
    ensures
        ({
            let end = unpadded_end(cells, from, to);
            &&& from <= end <= to
            &&& forall|c: int|
                end <= c < to ==> (#[trigger] cells[c]).character == ' ' || cells[c].character
                    == '\0'
            &&& end > from ==> cells[end - 1].character != ' ' && cells[end - 1].character != '\0'
        }),
    decreases to - from,
{
    if from < to && (cells[to - 1].character == ' ' || cells[to - 1].character == '\0') {
        assert(!cells[to - 1].flags.spec_continuation());
        lemma_unpadded(cells, from, to - 1);
    } else if from < to {
        assert(!cells[to - 1].flags.spec_continuation());
    }
}

/// What is read behind the first row does not depend on where reading began.
proof fn lemma_read_behind(lines: Seq<Line>, start: (int, int), end: (int, int), to: int)
    requires
        to > start.0,
    ensures
        text_before_row(lines, start, end, to) == crate::extraction::row_piece(
            lines,
            start,
            end,
            start.0,
        ) + text_before_row(lines, (start.0 + 1, 0), end, to),
    decreases to - start.0,
{
    let next = (start.0 + 1, 0int);
    let first = crate::extraction::row_piece(lines, start, end, start.0);
    if to == start.0 + 1 {
        assert(text_before_row(lines, start, end, start.0) =~= Seq::<char>::empty());
        assert(text_before_row(lines, next, end, to) =~= Seq::<char>::empty());
        assert(text_before_row(lines, start, end, to) =~= first);
        assert(first + Seq::<char>::empty() =~= first);
    } else {
        lemma_read_behind(lines, start, end, to - 1);
        let piece = crate::extraction::row_piece(lines, start, end, to - 1);
        assert(crate::extraction::piece_start(lines, next, to - 1)
            == crate::extraction::piece_start(lines, start, to - 1) || lines[to
            - 1].cells.len() == 0);
        assert(piece == crate::extraction::row_piece(lines, next, end, to - 1));
        let rest = text_before_row(lines, next, end, to - 1);
        assert((first + rest) + piece =~= first + (rest + piece));
    }
}

/// The text of a range over several rows is that of the rest of its first row,
/// then a line break unless the row goes on in the next, then that of the rows
/// behind it; that of a range within a row is that of its columns, the last one
/// not included.
pub proof fn ranges_are_read_row_by_row(lines: Seq<Line>, start: (int, int), end: (int, int))
    requires
        0 <= start.0 <= end.0 < lines.len(),
        0 <= start.1 <= lines[start.0].cells.len(),
        0 <= end.1 <= lines[end.0].cells.len(),
    ensures
        start.0 == end.0 ==> range_text(lines, start, end) == row_text(
            lines[start.0].cells,
            start.1,
            end.1,
        ),
        start.0 < end.0 ==> range_text(lines, start, end) == ({
            let head = row_text(
                lines[start.0].cells,
                start.1,
                lines[start.0].cells.len() as int,
            );
            if lines[start.0].wrapped {
                head
            } else {
                head.push('\n')
            }
        }) + range_text(lines, (start.0 + 1, 0), end),
{
    if start.0 < end.0 {
        lemma_read_behind(lines, start, end, end.0 + 1);
    } else {
        assert(text_before_row(lines, start, end, start.0) =~= Seq::<char>::empty());
        assert(range_text(lines, start, end) =~= crate::extraction::row_piece(
            lines,
            start,
            end,
            start.0,
        ));
    }
}

/// A selection that begins at a cell of the view is at the row of the document that the
/// view shows there.
pub proof fn selections_begin_at_rows_of_the_document(state: TerminalState, row: usize)
    requires
        state.core_wf(),
        row < state.rows(),
    ensures
        crate::selection::absolute_row(state, row) == state.history().len() - state.scroll_offset
            + row,
        crate::selection::absolute_row(state, row) < state.document().len(),
{
}

} // verus!
