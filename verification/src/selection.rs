//! Selections in terms of rows of the terminal.

use std::sync::Arc;
use vstd::prelude::*;

use crate::cell::TerminalCell;
use crate::extraction::cell_chars;
use crate::grid::Line;
use crate::navigation::view_top;
use crate::screens::next_selection_revision;
use crate::state::Selection;
use crate::state::SelectionMode;
use crate::state::TerminalState;
use crate::text::string_of;
use crate::view::rows_view;
use crate::view::view_given;
use crate::view::view_requested;
use crate::words::is_uniform;
use crate::words::with_right_half;
use crate::words::word_span;
use crate::words::word_span_in_view;

verus! {

/// The absolute row that row `row` of the view shows; the largest number stands
/// for all beyond it.
pub open spec fn absolute_row(state: TerminalState, row: usize) -> usize {
    if view_top(state) + row > usize::MAX {
        usize::MAX
    } else {
        (view_top(state) + row) as usize
    }
}

/// `post` is `pre` with `selection` selected.
pub open spec fn selected(pre: TerminalState, selection: Selection, post: TerminalState) -> bool {
    &&& post.selection == Some(selection)
    &&& post.projected_selection is None
    &&& post.selection_revision == next_selection_revision(pre.selection_revision)
    &&& post == TerminalState {
        selection: post.selection,
        projected_selection: post.projected_selection,
        selection_revision: post.selection_revision,
        ..pre
    }
}

/// `post` is `pre` with nothing selected.
pub open spec fn selection_cleared(pre: TerminalState, post: TerminalState) -> bool {
    if pre.selection is Some {
        &&& post.selection is None
        &&& post.selection_revision == next_selection_revision(pre.selection_revision)
        &&& post == TerminalState {
            selection: post.selection,
            selection_revision: post.selection_revision,
            ..pre
        }
    } else if pre.projected_selection is Some {
        &&& post.projected_selection is None
        &&& post.selection_revision == next_selection_revision(pre.selection_revision)
        &&& post == TerminalState {
            projected_selection: post.projected_selection,
            selection_revision: post.selection_revision,
            ..pre
        }
    } else {
        post == pre
    }
}

/// `post` is `pre` with the moving end of the selection at `active`.
pub open spec fn selection_extended(
    pre: TerminalState,
    active: (usize, usize),
    post: TerminalState,
) -> bool {
    match pre.selection {
        Some(selection) => {
            &&& post.selection == Some(Selection { active, ..selection })
            &&& post.selection_revision == next_selection_revision(pre.selection_revision)
            &&& post == TerminalState {
                selection: post.selection,
                selection_revision: post.selection_revision,
                ..pre
            }
        },
        None => post == pre,
    }
}

/// A selection of the whole of `span`, given in rows of a view whose first row
/// shows the absolute row `base`.
pub open spec fn span_selection(
    base: usize,
    span: ((int, int), (int, int)),
) -> Selection {
    Selection {
        anchor: (offset_row(base, span.0.0 as usize), span.0.1 as usize),
        active: (offset_row(base, span.1.0 as usize), span.1.1 as usize),
        mode: SelectionMode::Normal,
    }
}

/// `base + row`, or the largest number.
pub open spec fn offset_row(base: usize, row: usize) -> usize {
    if base + row > usize::MAX {
        usize::MAX
    } else {
        (base + row) as usize
    }
}

/// `post` is `pre` with the word or token around a cell of a view selected,
/// where there is one.
pub open spec fn word_selected(
    pre: TerminalState,
    rows: Seq<Seq<TerminalCell>>,
    wrapped: Seq<bool>,
    cell: (int, int),
    base: usize,
    post: TerminalState,
) -> bool {
    match word_span(rows, wrapped, cell.0, cell.1) {
        Some(span) => selected(pre, span_selection(base, span), post),
        None => post == pre,
    }
}

/// The last cell of a line, from cell `right` back, that shows anything; the
/// first cell where none does.
pub open spec fn last_visible(cells: Seq<TerminalCell>, left: int, right: int) -> int
    decreases right - left,
{
    if right <= left {
        right
    } else if cells[right].flags.spec_continuation() || cells[right].character == ' ' {
        last_visible(cells, left, right - 1)
    } else {
        right
    }
}

/// Where the visible part of a line from cell `left` on ends, the right half
/// of a double-width character included.
pub open spec fn line_extent(cells: Seq<TerminalCell>, left: int, right: int) -> int {
    with_right_half(cells, last_visible(cells, left, right))
}

/// `post` is `pre` with a row of a view selected as far as it shows anything.
pub open spec fn line_selected(
    pre: TerminalState,
    rows: Seq<Seq<TerminalCell>>,
    row: int,
    base: usize,
    post: TerminalState,
) -> bool {
    if 0 <= row < rows.len() && rows[row].len() > 0 {
        let right = line_extent(rows[row], 0, rows[row].len() - 1);
        selected(pre, span_selection(base, ((row, 0), (row, right))), post)
    } else {
        post == pre
    }
}

/// The ends of a selection in document order.
pub open spec fn ordered_ends(selection: Selection) -> ((usize, usize), (usize, usize)) {
    let a = selection.anchor;
    let b = selection.active;
    if a.0 < b.0 || (a.0 == b.0 && a.1 <= b.1) {
        (a, b)
    } else {
        (b, a)
    }
}

/// Text without the spaces at its end.
pub open spec fn without_trailing_spaces(text: Seq<char>) -> Seq<char>
    decreases text.len(),
{
    if text.len() > 0 && text.last() == ' ' {
        without_trailing_spaces(text.drop_last())
    } else {
        text
    }
}

/// The characters of `cells` in the columns `from..=last`.
pub open spec fn columns_text(cells: Seq<TerminalCell>, from: int, last: int) -> Seq<char> {
    let end = if last + 1 < cells.len() {
        last + 1
    } else {
        cells.len() as int
    };
    if from < end {
        cell_chars(cells, from, end)
    } else {
        Seq::empty()
    }
}

/// What copying the selection between `start` and `end` takes from row `row`.
pub open spec fn copied_row(
    lines: Seq<Line>,
    cols: int,
    start: (usize, usize),
    end: (usize, usize),
    row: int,
) -> Seq<char> {
    let from = if row == start.0 {
        start.1 as int
    } else {
        0
    };
    let last = if row == end.0 && end.1 < cols - 1 {
        end.1 as int
    } else {
        cols - 1
    };
    let text = columns_text(lines[row].cells, from, last);
    if row >= end.0 {
        text
    } else if lines[row].wrapped {
        without_trailing_spaces(text)
    } else {
        text.push('\n')
    }
}

/// What copying the selection between `start` and `end` takes from the rows
/// before `row`.
pub open spec fn copied_before(
    lines: Seq<Line>,
    cols: int,
    start: (usize, usize),
    end: (usize, usize),
    row: int,
) -> Seq<char>
    decreases row - start.0,
{
    if row <= start.0 {
        Seq::empty()
    } else {
        copied_before(lines, cols, start, end, row - 1) + copied_row(
            lines,
            cols,
            start,
            end,
            row - 1,
        )
    }
}

/// The text of a selection: rows that continue on the next run together, all
/// others end in a line break.
pub open spec fn selection_text(state: TerminalState, selection: Selection) -> Seq<char> {
    let (start, end) = ordered_ends(selection);
    let lines = state.document();
    let rows = if end.0 < lines.len() {
        end.0 + 1
    } else {
        lines.len() as int
    };
    copied_before(lines, state.cols(), start, end, rows)
}

/// The columns that a selection covers on an absolute row.
pub open spec fn selected_columns(selection: Selection, row: usize) -> Option<(usize, usize)> {
    let (start, end) = ordered_ends(selection);
    if row < start.0 || row > end.0 {
        None
    } else if selection.mode == SelectionMode::Block {
        let a = selection.anchor.1;
        let b = selection.active.1;
        Some(
            if a <= b {
                (a, b)
            } else {
                (b, a)
            },
        )
    } else {
        Some(
            (
                if row == start.0 {
                    start.1
                } else {
                    0
                },
                if row == end.0 {
                    end.1
                } else {
                    usize::MAX
                },
            ),
        )
    }
}

/// Finds where the visible part of a line ends.
pub fn find_line_extent(cells: &Vec<TerminalCell>, left: usize, right: usize) -> (extent: usize)
    requires
        left <= right < cells.len(),
    ensures
        extent == line_extent(cells@, left as int, right as int),
        left <= extent < cells@.len(),
{
    let mut last: usize = right;
    while last > left && (cells[last].flags.wide_continuation() || cells[last].character == ' ')
        invariant
            left <= last <= right < cells@.len(),
            last_visible(cells@, left as int, right as int) == last_visible(
                cells@,
                left as int,
                last as int,
            ),
        decreases last,
    {
        last = last - 1;
    }
    if cells[last].flags.wide() && last < cells.len() - 1 {
        last = last + 1;
    }
    last
}

/// The ends of a selection in document order.
fn order_ends(selection: &Selection) -> (ends: ((usize, usize), (usize, usize)))
    ensures
        ends == ordered_ends(*selection),
{
    let a = selection.anchor;
    let b = selection.active;
    if a.0 < b.0 || (a.0 == b.0 && a.1 <= b.1) {
        (a, b)
    } else {
        (b, a)
    }
}

/// Appends the characters of `cells` in the columns `from..=last`.
fn append_columns(text: &mut Vec<char>, cells: &Vec<TerminalCell>, from: usize, last: usize)
    ensures
        final(text)@ == old(text)@ + columns_text(cells@, from as int, last as int),
{
    let total: usize = cells.len();
    let end: usize = if last < total {
        last + 1
    } else {
        total
    };
    let ghost before = text@;
    let mut c: usize = from;
    if from < end {
        assert(before + cell_chars(cells@, from as int, from as int) =~= before);
        while c < end
            invariant
                from <= c <= end <= cells@.len(),
                text@ == before + cell_chars(cells@, from as int, c as int),
            decreases end - c,
        {
            if !cells[c].flags.wide_continuation() {
                text.push(cells[c].character);
            }
            c = c + 1;
            assert(text@ =~= before + cell_chars(cells@, from as int, c as int));
        }
    }
    assert(from >= end ==> text@ =~= before + columns_text(cells@, from as int, last as int));
}

/// Drops the spaces at the end of a text, of which the first `keep` characters
/// stay as they are.
fn drop_trailing_spaces(text: &mut Vec<char>, keep: usize)
    requires
        keep <= old(text).len(),
    ensures
        final(text)@ == old(text)@.take(keep as int) + without_trailing_spaces(
            old(text)@.skip(keep as int),
        ),
{
    let ghost before = text@;
    let ghost tail = before.skip(keep as int);
    assert(before.take(keep as int) + text@.skip(keep as int) =~= text@);
    while text.len() > keep && text[text.len() - 1] == ' '
        invariant
            keep <= text@.len(),
            text@ == before.take(keep as int) + text@.skip(keep as int),
            keep <= before.len(),
            tail == before.skip(keep as int),
            without_trailing_spaces(tail) == without_trailing_spaces(text@.skip(keep as int)),
        decreases text.len(),
    {
        let ghost prior = text@;
        text.pop();
        assert(prior.skip(keep as int).drop_last() =~= text@.skip(keep as int));
        assert(prior.skip(keep as int).last() == prior.last());
        assert(text@ =~= before.take(keep as int) + text@.skip(keep as int));
    }
    assert(text@.skip(keep as int).len() > 0 ==> text@.skip(keep as int).last() == text@.last());
}

impl TerminalState {
    /// Selects between two cells of the terminal.
    pub fn set_raw_selection(&mut self, selection: Selection)
        ensures
            selected(*old(self), selection, *final(self)),
            old(self).core_wf() ==> final(self).core_wf(),
    {
        self.projected_selection = None;
        self.selection = Some(selection);
        self.bump_selection_revision();
    }

    /// Selects nothing.
    pub fn clear_text_selection(&mut self)
        ensures
            selection_cleared(*old(self), *final(self)),
            old(self).core_wf() ==> final(self).core_wf(),
    {
        if self.selection.is_some() {
            self.selection = None;
            self.bump_selection_revision();
        } else if self.projected_selection.is_some() {
            self.projected_selection = None;
            self.bump_selection_revision();
        }
    }

    /// Whether anything is selected.
    pub fn has_text_selection(&self) -> (yes: bool)
        ensures
            yes == (self.selection is Some || self.projected_selection is Some),
    {
        self.selection.is_some() || self.projected_selection.is_some()
    }

    /// Begins a selection at a cell of the view.
    pub fn start_selection(&mut self, viewport_pos: (usize, usize))
        requires
            old(self).core_wf(),
        ensures
            final(self).core_wf(),
            ({
                let cell = (absolute_row(*old(self), viewport_pos.0), viewport_pos.1);
                selected(
                    *old(self),
                    Selection { anchor: cell, active: cell, mode: SelectionMode::Normal },
                    *final(self),
                )
            }),
    {
        self.start_selection_with_mode(viewport_pos, SelectionMode::Normal);
    }

    /// Begins a rectangular selection at a cell of the view.
    pub fn start_block_selection(&mut self, viewport_pos: (usize, usize))
        requires
            old(self).core_wf(),
        ensures
            final(self).core_wf(),
            ({
                let cell = (absolute_row(*old(self), viewport_pos.0), viewport_pos.1);
                selected(
                    *old(self),
                    Selection { anchor: cell, active: cell, mode: SelectionMode::Block },
                    *final(self),
                )
            }),
    {
        self.start_selection_with_mode(viewport_pos, SelectionMode::Block);
    }

    /// Begins a selection at a cell of the view.
    pub fn start_selection_with_mode(&mut self, viewport_pos: (usize, usize), mode: SelectionMode)
        requires
            old(self).core_wf(),
        ensures
            final(self).core_wf(),
            ({
                let cell = (absolute_row(*old(self), viewport_pos.0), viewport_pos.1);
                selected(*old(self), Selection { anchor: cell, active: cell, mode }, *final(self))
            }),
    {
        let row: usize = self.viewport_row_to_absolute(viewport_pos.0);
        let cell = (row, viewport_pos.1);
        self.set_raw_selection(Selection { anchor: cell, active: cell, mode });
    }

    /// Moves the active end of the selection to a given cell.
    pub fn extend_selection(&mut self, active: (usize, usize))
        ensures
            selection_extended(*old(self), active, *final(self)),
            old(self).core_wf() ==> final(self).core_wf(),
    {
        if let Some(selection) = self.selection {
            self.selection = Some(Selection { active, ..selection });
            self.bump_selection_revision();
        }
    }

    /// Moves the active end of the selection to a cell of the view.
    pub fn update_selection(&mut self, viewport_pos: (usize, usize))
        requires
            old(self).core_wf(),
        ensures
            final(self).core_wf(),
            selection_extended(
                *old(self),
                (absolute_row(*old(self), viewport_pos.0), viewport_pos.1),
                *final(self),
            ),
    {
        let row: usize = self.viewport_row_to_absolute(viewport_pos.0);
        self.extend_selection((row, viewport_pos.1));
    }

    /// Selects the word or token around a cell of a view whose first row shows
    /// the absolute row `base`.
    pub fn select_word_in_view(
        &mut self,
        rows: &Vec<Vec<TerminalCell>>,
        wrapped: &Vec<bool>,
        row: usize,
        col: usize,
        base: usize,
    )
        requires
            old(self).core_wf(),
            is_uniform(rows_view(rows@)),
        ensures
            final(self).core_wf(),
            word_selected(
                *old(self),
                rows_view(rows@),
                wrapped@,
                (row as int, col as int),
                base,
                *final(self),
            ),
    {
        if let Some((start, end)) = word_span_in_view(rows, wrapped, row, col) {
            self.set_raw_selection(
                Selection {
                    anchor: (base.saturating_add(start.0), start.1),
                    active: (base.saturating_add(end.0), end.1),
                    mode: SelectionMode::Normal,
                },
            );
        }
    }

    /// Selects the word or token around a cell of the view.
    pub fn select_word_at(&mut self, row: usize, col: usize)
        requires
            old(self).core_wf(),
        ensures
            final(self).core_wf(),
            exists|mid: TerminalState|
                {
                    &&& #[trigger] view_requested(*old(self), mid)
                    &&& word_selected(
                        mid,
                        view_given(*old(self)),
                        wrapped_in_view(*old(self)),
                        (row as int, col as int),
                        view_top(*old(self)) as usize,
                        *final(self),
                    )
                },
    {
        let cells = self.get_visible_cells();
        let ghost mid = *self;
        assert(view_requested(*old(self), mid));
        let wrapped = self.get_visible_row_wrapped();
        assert(wrapped@ =~= wrapped_in_view(*old(self)));
        let base: usize = self.viewport_row_to_absolute(0);
        self.select_word_in_view(cells_of_view(&cells), &wrapped, row, col, base);
    }

    /// Selects a row of a view, whose first row shows the absolute row `base`,
    /// as far as it shows anything.
    pub fn select_line_in_view(
        &mut self,
        rows: &Vec<Vec<TerminalCell>>,
        row: usize,
        base: usize,
    )
        requires
            old(self).core_wf(),
        ensures
            final(self).core_wf(),
            line_selected(*old(self), rows_view(rows@), row as int, base, *final(self)),
    {
        if row >= rows.len() || rows[row].len() == 0 {
            return;
        }
        let right: usize = find_line_extent(&rows[row], 0, rows[row].len() - 1);
        let absolute: usize = base.saturating_add(row);
        self.set_raw_selection(
            Selection {
                anchor: (absolute, 0),
                active: (absolute, right),
                mode: SelectionMode::Normal,
            },
        );
    }

    /// Selects a row of the view as far as it shows anything.
    pub fn select_line_at(&mut self, row: usize)
        requires
            old(self).core_wf(),
        ensures
            final(self).core_wf(),
            exists|mid: TerminalState|
                {
                    &&& #[trigger] view_requested(*old(self), mid)
                    &&& line_selected(
                        mid,
                        view_given(*old(self)),
                        row as int,
                        view_top(*old(self)) as usize,
                        *final(self),
                    )
                },
    {
        let cells = self.get_visible_cells();
        let ghost mid = *self;
        assert(view_requested(*old(self), mid));
        let base: usize = self.viewport_row_to_absolute(0);
        self.select_line_in_view(cells_of_view(&cells), row, base);
    }

    /// The text of a selection.
    pub fn raw_selection_text(&self, selection: &Selection) -> (text: String)
        requires
            self.core_wf(),
        ensures
            text@ == selection_text(*self, *selection),
    {
        let (start, end) = order_ends(selection);
        let history: usize = self.scrollback.len();
        let height: usize = self.grid.rows();
        let cols: usize = self.grid.row_len();
        let total: usize = history + height;
        let ghost lines = self.document();
        let rows: usize = if end.0 < total {
            end.0 + 1
        } else {
            total
        };
        let mut text: Vec<char> = Vec::new();
        let mut row: usize = start.0;
        while row < rows
            invariant
                self.core_wf(),
                lines == self.document(),
                history == self.scrollback@.len(),
                height == self.rows(),
                cols == self.cols(),
                rows <= total == history + height,
                total == lines.len(),
                rows <= end.0 + 1,
                start.0 <= row,
                row <= rows || row == start.0,
                text@ == copied_before(lines, cols as int, start, end, row as int),
            decreases rows - row,
        {
            let from: usize = if row == start.0 {
                start.1
            } else {
                0
            };
            let last: usize = if row == end.0 && end.1 < cols - 1 {
                end.1
            } else {
                cols - 1
            };
            let keep: usize = text.len();
            let ghost before = text@;
            let wrapped: bool;
            if row < history {
                let line = &self.scrollback[row];
                assert(lines[row as int] == line@);
                wrapped = line.is_wrapped;
                append_columns(&mut text, &line.cells, from, last);
            } else {
                assert(lines[row as int] == self.grid@[row - history]);
                wrapped = self.grid.row_wrapped(row - history);
                append_columns(&mut text, &self.grid.rows[row - history].cells, from, last);
            }
            assert(text@.take(keep as int) =~= before);
            assert(text@.skip(keep as int) =~= columns_text(
                lines[row as int].cells,
                from as int,
                last as int,
            ));
            let ghost full = text@;
            if row < end.0 {
                if wrapped {
                    drop_trailing_spaces(&mut text, keep);
                } else {
                    text.push('\n');
                    assert(text@ =~= before + full.skip(keep as int).push('\n'));
                }
            }
            row = row + 1;
            assert(text@ =~= before + copied_row(lines, cols as int, start, end, row - 1));
        }
        assert(row > rows ==> copied_before(lines, cols as int, start, end, rows as int)
            =~= Seq::<char>::empty());
        string_of(&text)
    }

    /// The columns that the selection covers on an absolute row.
    pub fn row_selection_cols_at_absolute(&self, abs_row: usize) -> (cols: Option<(usize, usize)>)
        ensures
            cols == match self.selection {
                Some(selection) => selected_columns(selection, abs_row),
                None => None,
            },
    {
        match &self.selection {
            Some(selection) => {
                let (start, end) = order_ends(selection);
                if abs_row < start.0 || abs_row > end.0 {
                    return None;
                }
                if selection.mode == SelectionMode::Block {
                    let a: usize = selection.anchor.1;
                    let b: usize = selection.active.1;
                    return Some(
                        if a <= b {
                            (a, b)
                        } else {
                            (b, a)
                        },
                    );
                }
                let first: usize = if abs_row == start.0 {
                    start.1
                } else {
                    0
                };
                let last: usize = if abs_row == end.0 {
                    end.1
                } else {
                    usize::MAX
                };
                Some((first, last))
            },
            None => None,
        }
    }

    /// The columns that the selection covers on a row of the view.
    pub fn row_selection_cols(&self, viewport_row: usize) -> (cols: Option<(usize, usize)>)
        requires
            self.core_wf(),
        ensures
            cols == match self.selection {
                Some(selection) => selected_columns(
                    selection,
                    absolute_row(*self, viewport_row),
                ),
                None => None,
            },
    {
        let row: usize = self.viewport_row_to_absolute(viewport_row);
        self.row_selection_cols_at_absolute(row)
    }
}

/// Which rows of the view continue on the next.
pub open spec fn wrapped_in_view(state: TerminalState) -> Seq<bool> {
    Seq::new(
        state.grid@.len(),
        |r: int| state.scroll_offset == 0 && state.grid@[r].wrapped,
    )
}

/// The rows behind a shared pointer.
fn cells_of_view(cells: &Arc<Vec<Vec<TerminalCell>>>) -> (rows: &Vec<Vec<TerminalCell>>)
    ensures
        rows@ == cells@,
{
    cells
}

/// The number of the selection is never zero once something was selected.
pub proof fn selecting_gives_a_number(pre: TerminalState, selection: Selection, post: TerminalState)
    requires
        selected(pre, selection, post),
    ensures
        post.selection_revision != 0,
        post.selection_revision != pre.selection_revision,
{
}

/// A rectangular selection covers the same columns on every row it reaches.
pub proof fn blocks_are_rectangular(selection: Selection, a: usize, b: usize)
    requires
        selection.mode == SelectionMode::Block,
        selected_columns(selection, a) is Some,
        selected_columns(selection, b) is Some,
    ensures
        selected_columns(selection, a) == selected_columns(selection, b),
{
}

/// It makes no difference which end of a selection moves.
pub proof fn selections_have_no_direction(state: TerminalState, selection: Selection)
    ensures
        selection_text(
            state,
            (Selection { anchor: selection.active, active: selection.anchor, ..selection }),
        ) == selection_text(state, selection),
        forall|row: usize| #[trigger]
            selected_columns(
                (Selection { anchor: selection.active, active: selection.anchor, ..selection }),
                row,
            ) == selected_columns(selection, row),
{
}

} // verus!
