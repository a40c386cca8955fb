//! Printing characters.

use vstd::prelude::*;

use crate::cell::char_width;
use crate::cell::halves_fit;
use crate::cell::paired;
use crate::cell::spec_char_width;
use crate::cell::CellRole;
use crate::cell::TerminalCell;
use crate::grid::dangling_cleared;
use crate::grid::with_cells;
use crate::grid::Line;
use crate::output::noted_wrap;
use crate::output::noted_write;
use crate::output::only_active_changed;
use crate::provenance::RowSpan;
use crate::scrolling::region_scrolled_up;
use crate::scrolling::spans_invalidated;
use crate::state::ids_allocated;
use crate::state::lemma_names_kept;
use crate::state::lemma_with_cells;
use crate::state::rows_paired;
use crate::state::stamped;
use crate::state::Charset;
use crate::state::TerminalState;
use crate::text::compose;
use crate::text::composition;

verus! {

/// `cells` with the double-width halves blanked that lose their other half
/// when `start..end` is overwritten.
pub open spec fn pairs_split(
    cells: Seq<TerminalCell>,
    start: int,
    end: int,
    blank: TerminalCell,
) -> Seq<TerminalCell> {
    if start >= end || start >= cells.len() {
        cells
    } else {
        Seq::new(
            cells.len(),
            |i: int|
                if (i == start - 1 && cells[i].flags.spec_wide()) || (i == end
                    && cells[i].flags.spec_continuation()) {
                    blank
                } else {
                    cells[i]
                },
        )
    }
}

/// `start..end`, clipped to the row and widened to whole characters.
pub open spec fn whole_span(cells: Seq<TerminalCell>, start: int, end: int) -> (int, int) {
    let len = cells.len() as int;
    let s = if start < len {
        start
    } else {
        len
    };
    let e = if end < len {
        end
    } else {
        len
    };
    if s >= e {
        (s, e)
    } else {
        (
            if s > 0 && cells[s - 1].flags.spec_wide() {
                s - 1
            } else {
                s
            },
            if e < len && cells[e].flags.spec_continuation() {
                e + 1
            } else {
                e
            },
        )
    }
}

/// `cells` with `n` blanks inserted at `col`; what no longer fits is lost.
pub open spec fn shifted_right(
    cells: Seq<TerminalCell>,
    col: int,
    n: int,
    blank: TerminalCell,
) -> Seq<TerminalCell> {
    Seq::new(
        cells.len(),
        |i: int|
            if i < col {
                cells[i]
            } else if i < col + n {
                blank
            } else {
                cells[i - n]
            },
    )
}

/// A row after `glyph` was written at `col`, followed by `rest` when it is
/// two columns wide. With `insert` the old cells first move right.
pub open spec fn glyph_placed(
    cells: Seq<TerminalCell>,
    col: int,
    width: int,
    insert: bool,
    glyph: TerminalCell,
    rest: TerminalCell,
    blank: TerminalCell,
) -> Seq<TerminalCell> {
    let moved = if insert {
        dangling_cleared(shifted_right(cells, col, width, blank), blank)
    } else {
        cells
    };
    let split = pairs_split(moved, col, col + width, blank);
    if width == 2 && col + 1 < cells.len() {
        split.update(col, glyph).update(col + 1, rest)
    } else {
        split.update(col, glyph)
    }
}

/// Writing a whole character leaves only whole characters.
pub proof fn lemma_glyph_placed_paired(
    cells: Seq<TerminalCell>,
    col: int,
    width: int,
    insert: bool,
    glyph: TerminalCell,
    rest: TerminalCell,
    blank: TerminalCell,
)
    requires
        paired(cells),
        1 <= width <= 2,
        0 <= col,
        col + width <= cells.len() || (col == 0 && cells.len() == 1),
        blank.flags.role == CellRole::Single,
        glyph.flags.role == if width == 2 {
            CellRole::Wide
        } else {
            CellRole::Single
        },
        rest.flags.role == CellRole::Continuation,
    ensures
        paired(glyph_placed(cells, col, width, insert, glyph, rest, blank)),
{
    let len = cells.len() as int;
    let shifted = shifted_right(cells, col, width, blank);
    let moved = if insert {
        dangling_cleared(shifted, blank)
    } else {
        cells
    };
    let out = glyph_placed(cells, col, width, insert, glyph, rest, blank);
    assert forall|i: int, j: int|
        #![trigger out[i], out[j]]
        0 <= i && j == i + 1 && j < out.len() implies halves_fit(out[i], out[j]) by {
        if insert {
            if i >= col + width {
                assert(shifted[i] == cells[i - width]);
                assert(shifted[j] == cells[j - width]);
            } else if j < col {
                assert(shifted[i] == cells[i]);
                assert(shifted[j] == cells[j]);
            }
        } else {
            assert(moved[i] == cells[i]);
            assert(moved[j] == cells[j]);
        }
    }
    assert(!out[0].flags.spec_continuation()) by {
        assert(!cells[0].flags.spec_continuation());
    }
    assert(len > 1 ==> !out[len - 1].flags.spec_wide()) by {
        if insert && len - 1 >= col + width {
            assert(shifted[len - 1] == cells[len - 1 - width]);
        }
    }
}

/// The DEC special graphics glyph for a character of the alternate set.
pub open spec fn dec_special_graphic(ch: char) -> char {
    if ch == '`' {
        '◆'
    } else if ch == 'a' {
        '▒'
    } else if ch == 'f' {
        '°'
    } else if ch == 'g' {
        '±'
    } else if ch == 'j' {
        '┘'
    } else if ch == 'k' {
        '┐'
    } else if ch == 'l' {
        '┌'
    } else if ch == 'm' {
        '└'
    } else if ch == 'n' {
        '┼'
    } else if ch == 'o' {
        '⎺'
    } else if ch == 'p' {
        '⎻'
    } else if ch == 'q' {
        '─'
    } else if ch == 'r' {
        '⎼'
    } else if ch == 's' {
        '⎽'
    } else if ch == 't' {
        '├'
    } else if ch == 'u' {
        '┤'
    } else if ch == 'v' {
        '┴'
    } else if ch == 'w' {
        '┬'
    } else if ch == 'x' {
        '│'
    } else if ch == 'y' {
        '≤'
    } else if ch == 'z' {
        '≥'
    } else if ch == '{' {
        'π'
    } else if ch == '|' {
        '≠'
    } else if ch == '}' {
        '£'
    } else if ch == '~' {
        '·'
    } else {
        ch
    }
}

/// The character that the active set shows for `ch`.
pub open spec fn translated(charset: Charset, ch: char) -> char {
    match charset {
        Charset::Ascii => ch,
        Charset::DecSpecialGraphics => dec_special_graphic(ch),
    }
}

impl TerminalState {
    /// Where automatic wrapping is on.
    pub open spec fn autowraps(self) -> bool {
        self.modes.has(7)
    }

    /// The cell that printing `ch`, `width` columns wide, writes.
    pub open spec fn glyph(self, ch: char, width: int) -> TerminalCell {
        TerminalCell {
            character: ch,
            foreground: self.current_fg,
            background: self.current_bg,
            flags: self.current_flags.spec_with_role(
                if width == 2 {
                    CellRole::Wide
                } else {
                    CellRole::Single
                },
            ),
            hyperlink_id: self.current_hyperlink,
        }
    }

    /// The right half that goes with a double-width glyph.
    pub open spec fn glyph_rest(self) -> TerminalCell {
        TerminalCell {
            hyperlink_id: self.current_hyperlink,
            flags: self.blank().flags.spec_with_role(CellRole::Continuation),
            ..self.blank()
        }
    }
}

/// `post` is `pre` after the cursor row was marked as continuing on the next
/// row and the cursor went to its start.
pub open spec fn wrap_marked(pre: TerminalState, post: TerminalState) -> bool {
    let row = pre.cursor_row as int;
    &&& post.grid.cols == pre.grid.cols
    &&& post.grid@ == pre.grid@.update(row, Line { wrapped: true, ..pre.grid@[row] })
    &&& post.cursor_col == 0
    &&& post == TerminalState { grid: post.grid, cursor_col: post.cursor_col, ..pre }
}

/// `post` is `pre` after the cursor moved to the next row; at the bottom of
/// the scroll region the region scrolls instead.
pub open spec fn moved_to_next_row(pre: TerminalState, post: TerminalState) -> bool {
    if pre.cursor_row == pre.scroll_region_bottom {
        region_scrolled_up(
            pre,
            pre.scroll_region_top as int,
            pre.scroll_region_bottom as int,
            post,
        )
    } else if pre.cursor_row + 1 < pre.rows() {
        &&& post.cursor_row == pre.cursor_row + 1
        &&& post == TerminalState { cursor_row: post.cursor_row, ..pre }
    } else {
        post == pre
    }
}

/// `post` is `pre` after an automatic wrap.
pub open spec fn wrapped(pre: TerminalState, post: TerminalState) -> bool {
    exists|marked: TerminalState, moved: TerminalState|
        {
            &&& #[trigger] wrap_marked(pre, marked)
            &&& #[trigger] moved_to_next_row(marked, moved)
            &&& only_active_changed(
                moved,
                noted_wrap(moved, pre.grid@[pre.cursor_row as int].id),
                post,
            )
        }
}

/// `post` is `pre` after a wrap deferred at the right edge was carried out.
pub open spec fn deferred_wrap_settled(pre: TerminalState, post: TerminalState) -> bool {
    let settled = TerminalState { pending_wrap: false, ..pre };
    if pre.pending_wrap && pre.autowraps() {
        wrapped(settled, post)
    } else {
        post == settled
    }
}

/// `post` is `pre` after room for `width` columns was made: by a wrap, or with
/// wrapping off by moving back from the right edge.
pub open spec fn room_made(pre: TerminalState, width: int, post: TerminalState) -> bool {
    if pre.cursor_col + width > pre.cols() {
        if pre.autowraps() {
            wrapped(pre, post)
        } else {
            &&& post.cursor_col == if pre.cols() > width {
                pre.cols() - width
            } else {
                0
            }
            &&& post == TerminalState { cursor_col: post.cursor_col, ..pre }
        }
    } else {
        post == pre
    }
}

/// The columns that change when a glyph is written at the cursor, on their
/// physical row.
pub open spec fn glyph_span(pre: TerminalState, width: int) -> RowSpan {
    let row = pre.cursor_row as int;
    let end = if pre.insert_mode {
        pre.cols()
    } else {
        pre.cursor_col + width
    };
    let span = whole_span(pre.row_cells(row), pre.cursor_col as int, end);
    (pre.grid@[row].id, span.0 as usize, span.1 as usize)
}

/// `post` is `pre` after `shown` was drawn at the cursor and the cursor
/// advanced; in the last column the wrap is deferred.
pub open spec fn glyph_drawn(
    pre: TerminalState,
    typed: char,
    shown: char,
    width: int,
    post: TerminalState,
) -> bool {
    let row = pre.cursor_row as int;
    let col = pre.cursor_col as int;
    let full = col + width >= pre.cols();
    &&& post.grid.cols == pre.grid.cols
    &&& post.grid@ == with_cells(
        pre.grid@,
        row,
        glyph_placed(
            pre.row_cells(row),
            col,
            width,
            pre.insert_mode,
            pre.glyph(shown, width),
            pre.glyph_rest(),
            pre.blank(),
        ),
    )
    &&& post.cursor_col == if full {
        if pre.cols() > width {
            pre.cols() - width
        } else {
            0
        }
    } else {
        col + width
    }
    &&& post.pending_wrap == (pre.pending_wrap || full && pre.autowraps())
    &&& post.dirty_region == pre.dirty_region.marked(pre.cursor_row, pre.cursor_row)
    &&& post.row_versions@ == stamped(pre.row_versions@, row, row, pre.grid_version)
    &&& post.last_printed_char == Some(typed)
    &&& post == TerminalState {
        grid: post.grid,
        cursor_col: post.cursor_col,
        pending_wrap: post.pending_wrap,
        dirty_region: post.dirty_region,
        row_versions: post.row_versions,
        last_printed_char: post.last_printed_char,
        ..pre
    }
}

/// `post` is `pre` after `shown` was written at the cursor: finished outputs
/// that owned the columns are forgotten, and the running output grows.
pub open spec fn glyph_written(
    pre: TerminalState,
    typed: char,
    shown: char,
    width: int,
    post: TerminalState,
) -> bool {
    exists|cleared: TerminalState, drawn: TerminalState|
        {
            &&& #[trigger] spans_invalidated(pre, seq![glyph_span(pre, width)], cleared)
            &&& #[trigger] glyph_drawn(cleared, typed, shown, width, drawn)
            &&& only_active_changed(
                drawn,
                noted_write(
                    drawn,
                    pre.cursor_row as int,
                    pre.grid@[pre.cursor_row as int].id,
                    pre.cursor_col,
                    (pre.cursor_col + width) as usize,
                ),
                post,
            )
        }
}

/// Column of the glyph that a combining mark would join.
pub open spec fn combining_base(pre: TerminalState) -> Option<int> {
    let cells = pre.row_cells(pre.cursor_row as int);
    let left = if pre.pending_wrap {
        pre.cursor_col as int
    } else {
        pre.cursor_col - 1
    };
    if left < 0 {
        None
    } else if cells[left].flags.spec_continuation() {
        if left == 0 {
            None
        } else {
            Some(left - 1)
        }
    } else {
        Some(left)
    }
}

/// `post` is `pre` with the character at `col` of the cursor row replaced.
pub open spec fn character_replaced(
    pre: TerminalState,
    col: int,
    ch: char,
    post: TerminalState,
) -> bool {
    let row = pre.cursor_row as int;
    let cells = pre.row_cells(row);
    &&& post.grid.cols == pre.grid.cols
    &&& post.grid@ == with_cells(
        pre.grid@,
        row,
        cells.update(col, TerminalCell { character: ch, ..cells[col] }),
    )
    &&& post.dirty_region == pre.dirty_region.marked(pre.cursor_row, pre.cursor_row)
    &&& post.row_versions@ == stamped(pre.row_versions@, row, row, pre.grid_version)
    &&& post == TerminalState {
        grid: post.grid,
        dirty_region: post.dirty_region,
        row_versions: post.row_versions,
        ..pre
    }
}

/// `post` is `pre` after the glyph at `col` of the cursor row became `ch`.
pub open spec fn recomposed(
    pre: TerminalState,
    col: int,
    ch: char,
    post: TerminalState,
) -> bool {
    let row = pre.cursor_row as int;
    let id = pre.grid@[row].id;
    exists|cleared: TerminalState, drawn: TerminalState|
        {
            &&& #[trigger] spans_invalidated(
                pre,
                seq![(id, col as usize, (col + 1) as usize)],
                cleared,
            )
            &&& #[trigger] character_replaced(cleared, col, ch, drawn)
            &&& only_active_changed(
                drawn,
                noted_write(drawn, row, id, col as usize, (col + 1) as usize),
                post,
            )
        }
}

/// `post` is `pre` after a combining mark arrived: it joins the glyph before
/// the cursor where the two have a single composed form, and is dropped
/// otherwise.
pub open spec fn mark_combined(pre: TerminalState, mark: char, post: TerminalState) -> bool {
    match combining_base(pre) {
        None => post == pre,
        Some(col) => {
            let base = pre.row_cells(pre.cursor_row as int)[col].character;
            if base == ' ' || base == '\0' {
                post == pre
            } else {
                match composition(base, mark) {
                    Some(ch) => recomposed(pre, col, ch, post),
                    None => post == pre,
                }
            }
        },
    }
}

/// `post` is `pre` after `typed` was printed.
pub open spec fn char_printed(pre: TerminalState, typed: char, post: TerminalState) -> bool {
    let shown = translated(pre.active_charset, typed);
    let width = spec_char_width(shown);
    if width == 0 {
        mark_combined(pre, shown, post)
    } else {
        exists|settled: TerminalState, roomy: TerminalState|
            {
                &&& #[trigger] deferred_wrap_settled(pre, settled)
                &&& #[trigger] room_made(settled, width, roomy)
                &&& glyph_written(roomy, typed, shown, width, post)
            }
    }
}

impl TerminalState {
    /// The character that the active set shows for `ch`.
    pub fn translate_char(&self, ch: char) -> (shown: char)
        ensures
            shown == translated(self.active_charset, ch),
    {
        match self.active_charset {
            Charset::Ascii => ch,
            Charset::DecSpecialGraphics => match ch {
                '`' => '◆',
                'a' => '▒',
                'f' => '°',
                'g' => '±',
                'j' => '┘',
                'k' => '┐',
                'l' => '┌',
                'm' => '└',
                'n' => '┼',
                'o' => '⎺',
                'p' => '⎻',
                'q' => '─',
                'r' => '⎼',
                's' => '⎽',
                't' => '├',
                'u' => '┤',
                'v' => '┴',
                'w' => '┬',
                'x' => '│',
                'y' => '≤',
                'z' => '≥',
                '{' => 'π',
                '|' => '≠',
                '}' => '£',
                '~' => '·',
                _ => ch,
            },
        }
    }

    /// Blanks the double-width halves of a screen row that lose their other
    /// half when `start..end` is overwritten.
    pub fn split_wide_pairs_around(&mut self, row: usize, start: usize, end: usize)
        requires
            old(self).grid.wf(),
            row < old(self).rows(),
        ensures
            final(self).grid.wf(),
            final(self).grid.cols == old(self).grid.cols,
            final(self).grid@ == with_cells(
                old(self).grid@,
                row as int,
                pairs_split(
                    old(self).row_cells(row as int),
                    start as int,
                    end as int,
                    old(self).blank(),
                ),
            ),
            *final(self) == (TerminalState { grid: final(self).grid, ..*old(self) }),
    {
        let cols: usize = self.grid.row_len();
        let ghost cells = self.row_cells(row as int);
        let ghost target = pairs_split(cells, start as int, end as int, self.blank());
        if start < end && start < cols {
            let blank = self.create_blank_cell();
            if start > 0 && self.grid.get(row, start - 1).flags.wide() {
                self.grid.set(row, start - 1, blank);
            }
            if end < cols && self.grid.get(row, end).flags.wide_continuation() {
                self.grid.set(row, end, blank);
            }
        }
        assert(self.grid@ =~~= with_cells(old(self).grid@, row as int, target));
    }

    /// `start..end` of a screen row, clipped and widened to whole characters.
    pub fn expanded_cell_mutation_span(&self, row: usize, start: usize, end: usize) -> (span: (
        usize,
        usize,
    ))
        requires
            self.grid.wf(),
            row < self.rows(),
        ensures
            (span.0 as int, span.1 as int) == whole_span(
                self.row_cells(row as int),
                start as int,
                end as int,
            ),
    {
        let cols: usize = self.grid.row_len();
        let s: usize = if start < cols {
            start
        } else {
            cols
        };
        let e: usize = if end < cols {
            end
        } else {
            cols
        };
        if s >= e {
            return (s, e);
        }
        let first: usize = if s > 0 && self.grid.get(row, s - 1).flags.wide() {
            s - 1
        } else {
            s
        };
        let last: usize = if e < cols && self.grid.get(row, e).flags.wide_continuation() {
            e + 1
        } else {
            e
        };
        (first, last)
    }

    /// Columns of a screen row change: forgets the finished outputs that own
    /// one of them.
    pub fn invalidate_finished_output_span(&mut self, row: usize, start_col: usize, end_col: usize)
        requires
            old(self).core_wf(),
            row < old(self).rows(),
        ensures
            final(self).core_wf(),
            spans_invalidated(
                *old(self),
                seq![(old(self).grid@[row as int].id, start_col, end_col)],
                *final(self),
            ),
    {
        let mut spans: Vec<RowSpan> = Vec::new();
        spans.push((self.grid.row_id(row), start_col, end_col));
        assert(spans@ =~= seq![(self.grid@[row as int].id, start_col, end_col)]);
        self.invalidate_finished_output_spans(&spans);
    }

    /// Continues on the next row, which the current one is marked to wrap
    /// into.
    pub fn wrap_to_next_line(&mut self)
        requires
            old(self).core_wf(),
        ensures
            final(self).core_wf(),
            final(self).cursor_col == 0,
            final(self).grid.cols == old(self).grid.cols,
            wrapped(*old(self), *final(self)),
    {
        let departed = self.grid.row_id(self.cursor_row);
        self.grid.set_row_wrapped(self.cursor_row, true);
        self.cursor_col = 0;
        proof {
            reveal(ids_allocated);
            reveal(rows_paired);
            lemma_names_kept(self.history(), old(self).grid@, self.alt_grid@, self.grid@);
        }
        let ghost marked = *self;
        assert(wrap_marked(*old(self), marked));
        if self.cursor_row == self.scroll_region_bottom {
            self.scroll_region_up(self.scroll_region_top, self.scroll_region_bottom);
        } else if self.cursor_row + 1 < self.grid.rows() {
            self.cursor_row = self.cursor_row + 1;
        }
        assert(moved_to_next_row(marked, *self));
        self.rebase_active_output_start_after_initial_wrap(departed);
    }

    /// Carries out a wrap deferred at the right edge.
    fn settle_deferred_wrap(&mut self)
        requires
            old(self).core_wf(),
        ensures
            final(self).core_wf(),
            !final(self).pending_wrap,
            deferred_wrap_settled(*old(self), *final(self)),
    {
        if self.pending_wrap {
            self.pending_wrap = false;
            if self.modes.contains(7) {
                self.wrap_to_next_line();
            }
        }
    }
}

impl TerminalState {
    /// Makes room for `width` columns at the cursor.
    fn make_room(&mut self, width: usize)
        requires
            old(self).core_wf(),
            1 <= width <= 2,
        ensures
            final(self).core_wf(),
            final(self).cursor_col + width <= final(self).cols() || final(self).cols() == 1,
            room_made(*old(self), width as int, *final(self)),
    {
        let cols: usize = self.grid.row_len();
        if self.cursor_col + width > cols {
            if self.modes.contains(7) {
                self.wrap_to_next_line();
            } else {
                self.cursor_col = cols.saturating_sub(width);
            }
        }
    }

    /// Opens a gap of `width` blanks at the cursor.
    fn shift_right_at_cursor(&mut self, width: usize)
        requires
            old(self).core_wf(),
            1 <= width <= 2,
        ensures
            final(self).grid.wf(),
            final(self).grid.cols == old(self).grid.cols,
            final(self).grid@ == with_cells(
                old(self).grid@,
                old(self).cursor_row as int,
                dangling_cleared(
                    shifted_right(
                        old(self).row_cells(old(self).cursor_row as int),
                        old(self).cursor_col as int,
                        width as int,
                        old(self).blank(),
                    ),
                    old(self).blank(),
                ),
            ),
            *final(self) == (TerminalState { grid: final(self).grid, ..*old(self) }),
    {
        let blank = self.create_blank_cell();
        let row: usize = self.cursor_row;
        let col: usize = self.cursor_col;
        let ghost cells = self.row_cells(row as int);
        self.grid.insert_cell_in_row(row, col, blank);
        assert(self.grid@ =~~= with_cells(
            old(self).grid@,
            row as int,
            shifted_right(cells, col as int, 1, blank),
        ));
        if width == 2 {
            self.grid.insert_cell_in_row(row, col, blank);
            assert(self.grid@ =~~= with_cells(
                old(self).grid@,
                row as int,
                shifted_right(cells, col as int, 2, blank),
            ));
        }
        self.grid.clear_dangling_wide_at_row_end(row, blank);
        assert(self.grid@ =~~= with_cells(
            old(self).grid@,
            row as int,
            dangling_cleared(shifted_right(cells, col as int, width as int, blank), blank),
        ));
    }

    /// Puts a glyph into the cells at the cursor.
    fn place_glyph(&mut self, shown: char, width: usize)
        requires
            old(self).core_wf(),
            1 <= width <= 2,
            old(self).cursor_col + width <= old(self).cols() || old(self).cols() == 1,
        ensures
            final(self).core_wf(),
            final(self).grid.cols == old(self).grid.cols,
            final(self).grid@ == with_cells(
                old(self).grid@,
                old(self).cursor_row as int,
                glyph_placed(
                    old(self).row_cells(old(self).cursor_row as int),
                    old(self).cursor_col as int,
                    width as int,
                    old(self).insert_mode,
                    old(self).glyph(shown, width as int),
                    old(self).glyph_rest(),
                    old(self).blank(),
                ),
            ),
            *final(self) == (TerminalState { grid: final(self).grid, ..*old(self) }),
    {
        let cols: usize = self.grid.row_len();
        let row: usize = self.cursor_row;
        let col: usize = self.cursor_col;
        let ghost cells = self.row_cells(row as int);
        if self.insert_mode {
            self.shift_right_at_cursor(width);
        }
        self.split_wide_pairs_around(row, col, col + width);
        let role = if width == 2 {
            CellRole::Wide
        } else {
            CellRole::Single
        };
        let glyph = TerminalCell {
            character: shown,
            foreground: self.current_fg,
            background: self.current_bg,
            flags: self.current_flags.with_role(role),
            hyperlink_id: self.current_hyperlink,
        };
        self.grid.set(row, col, glyph);
        let blank = self.create_blank_cell();
        let rest = TerminalCell {
            hyperlink_id: self.current_hyperlink,
            flags: blank.flags.with_role(CellRole::Continuation),
            ..blank
        };
        if width == 2 && col + 1 < cols {
            self.grid.set(row, col + 1, rest);
        }
        proof {
            let out = glyph_placed(
                cells,
                col as int,
                width as int,
                old(self).insert_mode,
                glyph,
                rest,
                blank,
            );
            assert(self.grid@ =~~= with_cells(old(self).grid@, row as int, out));
            reveal(rows_paired);
            lemma_glyph_placed_paired(
                cells,
                col as int,
                width as int,
                old(self).insert_mode,
                glyph,
                rest,
                blank,
            );
            lemma_with_cells(old(self).grid@, row as int, out, self.next_raw_row_id);
            lemma_names_kept(
                self.history(),
                old(self).grid@,
                self.alt_grid@,
                with_cells(old(self).grid@, row as int, out),
            );
        }
    }

    /// Draws a glyph at the cursor and advances the cursor.
    #[verifier::rlimit(40)]
    fn draw_glyph(&mut self, typed: char, shown: char, width: usize)
        requires
            old(self).core_wf(),
            1 <= width <= 2,
            old(self).cursor_col + width <= old(self).cols() || old(self).cols() == 1,
        ensures
            final(self).core_wf(),
            glyph_drawn(*old(self), typed, shown, width as int, *final(self)),
    {
        let cols: usize = self.grid.row_len();
        let row: usize = self.cursor_row;
        let col: usize = self.cursor_col;
        self.place_glyph(shown, width);
        if col + width >= cols {
            self.cursor_col = cols.saturating_sub(width);
            if self.modes.contains(7) {
                self.pending_wrap = true;
            }
        } else {
            self.cursor_col = col + width;
        }
        self.dirty_region.mark_row(row);
        self.mark_row_dirty(row);
        self.last_printed_char = Some(typed);
    }

    /// Writes a glyph at the cursor.
    fn write_glyph(&mut self, typed: char, shown: char, width: usize)
        requires
            old(self).core_wf(),
            1 <= width <= 2,
            old(self).cursor_col + width <= old(self).cols() || old(self).cols() == 1,
        ensures
            final(self).core_wf(),
            glyph_written(*old(self), typed, shown, width as int, *final(self)),
    {
        let row: usize = self.cursor_row;
        let col: usize = self.cursor_col;
        let end: usize = if self.insert_mode {
            self.grid.row_len()
        } else {
            col + width
        };
        let span = self.expanded_cell_mutation_span(row, col, end);
        self.invalidate_finished_output_span(row, span.0, span.1);
        assert(spans_invalidated(*old(self), seq![glyph_span(*old(self), width as int)], *self));
        let row_id = self.grid.row_id(row);
        self.draw_glyph(typed, shown, width);
        self.note_output_write(row, row_id, col, col + width);
    }

    /// Joins a combining mark with the glyph before the cursor.
    pub fn apply_combining_mark(&mut self, mark: char)
        requires
            old(self).core_wf(),
        ensures
            final(self).core_wf(),
            mark_combined(*old(self), mark, *final(self)),
    {
        let row: usize = self.cursor_row;
        let mut col: usize = self.cursor_col;
        if !self.pending_wrap {
            if col == 0 {
                return;
            }
            col = col - 1;
        }
        if self.grid.get(row, col).flags.wide_continuation() {
            if col == 0 {
                return;
            }
            col = col - 1;
        }
        let cell = self.grid.get(row, col);
        if cell.character == ' ' || cell.character == '\0' {
            return;
        }
        if let Some(ch) = compose(cell.character, mark) {
            self.replace_glyph(col, ch);
        }
    }

    /// Replaces the character at `col` of the cursor row.
    fn replace_character(&mut self, col: usize, ch: char)
        requires
            old(self).core_wf(),
            col < old(self).cols(),
        ensures
            final(self).core_wf(),
            character_replaced(*old(self), col as int, ch, *final(self)),
    {
        let row: usize = self.cursor_row;
        let ghost cells = self.row_cells(row as int);
        let cell = self.grid.get(row, col);
        let replaced = TerminalCell { character: ch, ..cell };
        self.grid.set(row, col, replaced);
        proof {
            let out = cells.update(col as int, replaced);
            reveal(rows_paired);
            assert(paired(cells));
            assert(forall|i: int|
                0 <= i < cells.len() ==> (#[trigger] out[i]).flags == cells[i].flags);
            assert(paired(out));
            lemma_with_cells(old(self).grid@, row as int, out, self.next_raw_row_id);
            lemma_names_kept(
                self.history(),
                old(self).grid@,
                self.alt_grid@,
                with_cells(old(self).grid@, row as int, out),
            );
        }
        self.dirty_region.mark_row(row);
        self.mark_row_dirty(row);
    }

    /// Replaces the glyph at `col` of the cursor row.
    fn replace_glyph(&mut self, col: usize, ch: char)
        requires
            old(self).core_wf(),
            col < old(self).cols(),
        ensures
            final(self).core_wf(),
            recomposed(*old(self), col as int, ch, *final(self)),
    {
        let row: usize = self.cursor_row;
        let row_id = self.grid.row_id(row);
        self.invalidate_finished_output_span(row, col, col + 1);
        self.replace_character(col, ch);
        self.note_output_write(row, row_id, col, col + 1);
    }

    /// Prints a character at the cursor.
    pub fn put_char(&mut self, ch: char)
        requires
            old(self).core_wf(),
        ensures
            final(self).core_wf(),
            char_printed(*old(self), ch, *final(self)),
    {
        let shown = self.translate_char(ch);
        let width: usize = char_width(shown);
        if width == 0 {
            self.apply_combining_mark(shown);
            return;
        }
        self.settle_deferred_wrap();
        self.make_room(width);
        self.write_glyph(ch, shown, width);
    }
}

/// `cells` after the glyphs were written over the cells from `col` on.
pub open spec fn glyphs_placed(
    cells: Seq<TerminalCell>,
    col: int,
    glyphs: Seq<TerminalCell>,
    blank: TerminalCell,
) -> Seq<TerminalCell> {
    let split = pairs_split(cells, col, col + glyphs.len(), blank);
    Seq::new(
        cells.len(),
        |i: int|
            if col <= i < col + glyphs.len() {
                glyphs[i - col]
            } else {
                split[i]
            },
    )
}

/// Overwriting with single-width glyphs leaves only whole characters.
pub proof fn lemma_glyphs_placed_paired(
    cells: Seq<TerminalCell>,
    col: int,
    glyphs: Seq<TerminalCell>,
    blank: TerminalCell,
)
    requires
        paired(cells),
        0 <= col,
        col + glyphs.len() <= cells.len(),
        glyphs.len() > 0,
        blank.flags.role == CellRole::Single,
        forall|k: int|
            0 <= k < glyphs.len() ==> (#[trigger] glyphs[k]).flags.role == CellRole::Single,
    ensures
        paired(glyphs_placed(cells, col, glyphs, blank)),
{
    let out = glyphs_placed(cells, col, glyphs, blank);
    assert forall|i: int, j: int|
        #![trigger out[i], out[j]]
        0 <= i && j == i + 1 && j < out.len() implies halves_fit(out[i], out[j]) by {
        assert(halves_fit(cells[i], cells[j]));
        if col <= i < col + glyphs.len() {
            assert(out[i] == glyphs[i - col]);
        }
        if col <= j < col + glyphs.len() {
            assert(out[j] == glyphs[j - col]);
        }
    }
    assert(out[0].flags.spec_continuation() ==> cells[0].flags.spec_continuation()) by {
        if col == 0 {
            assert(out[0] == glyphs[0]);
        }
    }
    let last = cells.len() - 1;
    assert(out[last].flags.spec_wide() ==> cells[last].flags.spec_wide()) by {
        if last < col + glyphs.len() {
            assert(out[last] == glyphs[last - col]);
        }
    }
}

/// The glyphs of plain ASCII bytes.
pub open spec fn ascii_glyphs(state: TerminalState, bytes: Seq<u8>) -> Seq<TerminalCell> {
    Seq::new(bytes.len(), |k: int| state.glyph(bytes[k] as char, 1))
}

/// `post` is `pre` after ASCII bytes that fit on the row were drawn at the
/// cursor.
pub open spec fn ascii_drawn(pre: TerminalState, bytes: Seq<u8>, post: TerminalState) -> bool {
    let row = pre.cursor_row as int;
    let col = pre.cursor_col as int;
    let full = col + bytes.len() >= pre.cols();
    &&& post.grid.cols == pre.grid.cols
    &&& post.grid@ == with_cells(
        pre.grid@,
        row,
        glyphs_placed(pre.row_cells(row), col, ascii_glyphs(pre, bytes), pre.blank()),
    )
    &&& post.cursor_col == if full {
        pre.cols() - 1
    } else {
        col + bytes.len()
    }
    &&& post.pending_wrap == (pre.pending_wrap || full && pre.autowraps())
    &&& post.dirty_region == pre.dirty_region.marked(pre.cursor_row, pre.cursor_row)
    &&& post.row_versions@ == stamped(pre.row_versions@, row, row, pre.grid_version)
    &&& post.last_printed_char == Some(bytes.last() as char)
    &&& post == TerminalState {
        grid: post.grid,
        cursor_col: post.cursor_col,
        pending_wrap: post.pending_wrap,
        dirty_region: post.dirty_region,
        row_versions: post.row_versions,
        last_printed_char: post.last_printed_char,
        ..pre
    }
}

/// `post` is `pre` after ASCII bytes that fit on the row were written at the
/// cursor.
pub open spec fn ascii_written(pre: TerminalState, bytes: Seq<u8>, post: TerminalState) -> bool {
    let row = pre.cursor_row as int;
    let id = pre.grid@[row].id;
    let end = (pre.cursor_col + bytes.len()) as usize;
    let span = whole_span(pre.row_cells(row), pre.cursor_col as int, end as int);
    exists|cleared: TerminalState, drawn: TerminalState|
        {
            &&& #[trigger] spans_invalidated(
                pre,
                seq![(id, span.0 as usize, span.1 as usize)],
                cleared,
            )
            &&& #[trigger] ascii_drawn(cleared, bytes, drawn)
            &&& only_active_changed(drawn, noted_write(drawn, row, id, pre.cursor_col, end), post)
        }
}

/// Number of bytes that fit on the cursor row, at least one.
pub open spec fn fitting(state: TerminalState, bytes: Seq<u8>) -> int {
    let room = state.cols() - state.cursor_col;
    if room < 1 {
        1
    } else if room < bytes.len() {
        room
    } else {
        bytes.len() as int
    }
}

/// `post` is `pre` after a run of ASCII bytes was printed by overwriting, row
/// by row.
pub open spec fn ascii_run_overwritten(
    pre: TerminalState,
    bytes: Seq<u8>,
    post: TerminalState,
) -> bool
    decreases bytes.len(),
{
    if bytes.len() == 0 {
        post == pre
    } else {
        exists|settled: TerminalState, written: TerminalState|
            {
                &&& #[trigger] deferred_wrap_settled(pre, settled)
                &&& #[trigger] ascii_written(
                    settled,
                    bytes.take(fitting(settled, bytes)),
                    written,
                )
                &&& ascii_run_overwritten(written, bytes.skip(fitting(settled, bytes)), post)
            }
    }
}

/// `post` is `pre` after characters were printed one by one.
pub open spec fn chars_printed(pre: TerminalState, chars: Seq<char>, post: TerminalState) -> bool
    decreases chars.len(),
{
    if chars.len() == 0 {
        post == pre
    } else {
        exists|mid: TerminalState|
            {
                &&& #[trigger] char_printed(pre, chars[0], mid)
                &&& chars_printed(mid, chars.drop_first(), post)
            }
    }
}

/// `post` is `pre` after a run of ASCII bytes was printed.
pub open spec fn ascii_run_printed(pre: TerminalState, bytes: Seq<u8>, post: TerminalState) -> bool {
    if pre.insert_mode {
        chars_printed(pre, bytes.map_values(|b: u8| b as char), post)
    } else {
        ascii_run_overwritten(pre, bytes, post)
    }
}

impl TerminalState {
    /// Puts ASCII glyphs into the cells at the cursor.
    fn place_ascii(&mut self, bytes: &[u8], from: usize, n: usize)
        requires
            old(self).core_wf(),
            1 <= n <= old(self).cols() - old(self).cursor_col,
            from + n <= bytes@.len(),
        ensures
            final(self).core_wf(),
            final(self).grid.cols == old(self).grid.cols,
            final(self).grid@ == with_cells(
                old(self).grid@,
                old(self).cursor_row as int,
                glyphs_placed(
                    old(self).row_cells(old(self).cursor_row as int),
                    old(self).cursor_col as int,
                    ascii_glyphs(*old(self), bytes@.subrange(from as int, from + n)),
                    old(self).blank(),
                ),
            ),
            *final(self) == (TerminalState { grid: final(self).grid, ..*old(self) }),
    {
        let row: usize = self.cursor_row;
        let col: usize = self.cursor_col;
        let ghost cells = self.row_cells(row as int);
        let ghost blank = self.blank();
        let ghost chunk = bytes@.subrange(from as int, from + n);
        let ghost glyphs = ascii_glyphs(*self, chunk);
        self.split_wide_pairs_around(row, col, col + n);
        let flags = self.current_flags.with_role(CellRole::Single);
        let end: usize = bytes.len();
        let mut k: usize = 0;
        assert(self.grid@ =~~= with_cells(
            old(self).grid@,
            row as int,
            partly_placed(cells, col as int, glyphs, 0, blank),
        ));
        while k < n
            invariant
                k <= n,
                self.grid.wf(),
                self.grid.cols == old(self).grid.cols,
                row == old(self).cursor_row,
                col == old(self).cursor_col,
                row < old(self).grid@.len(),
                n <= old(self).cols() - col,
                from + n <= end,
                end == bytes@.len(),
                chunk == bytes@.subrange(from as int, from + n),
                glyphs == ascii_glyphs(*old(self), chunk),
                flags == old(self).current_flags.spec_with_role(CellRole::Single),
                cells == old(self).row_cells(row as int),
                cells.len() == self.grid.cols,
                *self == (TerminalState { grid: self.grid, ..*old(self) }),
                self.grid@ == with_cells(
                    old(self).grid@,
                    row as int,
                    partly_placed(cells, col as int, glyphs, k as int, blank),
                ),
            decreases n - k,
        {
            let glyph = TerminalCell {
                character: bytes[from + k] as char,
                foreground: self.current_fg,
                background: self.current_bg,
                flags,
                hyperlink_id: self.current_hyperlink,
            };
            assert(glyph == glyphs[k as int]);
            self.grid.set(row, col + k, glyph);
            k = k + 1;
            assert(self.grid@ =~~= with_cells(
                old(self).grid@,
                row as int,
                partly_placed(cells, col as int, glyphs, k as int, blank),
            ));
        }
        proof {
            let out = glyphs_placed(cells, col as int, glyphs, blank);
            assert(out =~= partly_placed(cells, col as int, glyphs, n as int, blank));
            reveal(rows_paired);
            lemma_glyphs_placed_paired(cells, col as int, glyphs, blank);
            lemma_with_cells(old(self).grid@, row as int, out, self.next_raw_row_id);
            lemma_names_kept(
                self.history(),
                old(self).grid@,
                self.alt_grid@,
                with_cells(old(self).grid@, row as int, out),
            );
        }
    }

    /// Draws ASCII bytes at the cursor and advances the cursor.
    fn draw_ascii(&mut self, bytes: &[u8], from: usize, n: usize)
        requires
            old(self).core_wf(),
            1 <= n <= old(self).cols() - old(self).cursor_col,
            from + n <= bytes@.len(),
        ensures
            final(self).core_wf(),
            ascii_drawn(*old(self), bytes@.subrange(from as int, from + n), *final(self)),
    {
        let cols: usize = self.grid.row_len();
        let row: usize = self.cursor_row;
        let col: usize = self.cursor_col;
        self.place_ascii(bytes, from, n);
        if col + n >= cols {
            self.cursor_col = cols - 1;
            if self.modes.contains(7) {
                self.pending_wrap = true;
            }
        } else {
            self.cursor_col = col + n;
        }
        self.dirty_region.mark_row(row);
        self.mark_row_dirty(row);
        let end: usize = bytes.len();
        assert(from + n <= end);
        self.last_printed_char = Some(bytes[from + n - 1] as char);
    }

    /// Writes ASCII bytes that fit on the row.
    fn write_ascii(&mut self, bytes: &[u8], from: usize, n: usize)
        requires
            old(self).core_wf(),
            1 <= n <= old(self).cols() - old(self).cursor_col,
            from + n <= bytes@.len(),
        ensures
            final(self).core_wf(),
            ascii_written(*old(self), bytes@.subrange(from as int, from + n), *final(self)),
    {
        let row: usize = self.cursor_row;
        let col: usize = self.cursor_col;
        let row_id = self.grid.row_id(row);
        let span = self.expanded_cell_mutation_span(row, col, col + n);
        self.invalidate_finished_output_span(row, span.0, span.1);
        self.draw_ascii(bytes, from, n);
        self.note_output_write(row, row_id, col, col + n);
    }

    /// Prints a run of ASCII bytes.
    pub fn put_ascii_run(&mut self, bytes: &[u8])
        requires
            old(self).core_wf(),
        ensures
            final(self).core_wf(),
            ascii_run_printed(*old(self), bytes@, *final(self)),
    {
        if self.insert_mode {
            self.put_ascii_chars(bytes);
            return;
        }
        let mut pos: usize = 0;
        assert(bytes@.skip(0) =~= bytes@);
        while pos < bytes.len()
            invariant
                self.core_wf(),
                pos <= bytes@.len(),
                forall|post: TerminalState| #[trigger]
                    ascii_run_overwritten(*self, bytes@.skip(pos as int), post)
                        ==> ascii_run_overwritten(*old(self), bytes@, post),
            decreases bytes.len() - pos,
        {
            let ghost before = *self;
            let ghost rest = bytes@.skip(pos as int);
            self.settle_deferred_wrap();
            let ghost settled = *self;
            let room: usize = self.grid.row_len() - self.cursor_col;
            let left: usize = bytes.len() - pos;
            let n: usize = if left < room {
                left
            } else {
                room
            };
            self.write_ascii(bytes, pos, n);
            proof {
                assert(fitting(settled, rest) == n);
                assert(rest.take(n as int) =~= bytes@.subrange(pos as int, pos + n));
                assert(rest.skip(n as int) =~= bytes@.skip(pos + n));
                assert forall|post: TerminalState| #[trigger]
                    ascii_run_overwritten(
                        *self,
                        bytes@.skip(pos + n),
                        post,
                    ) implies ascii_run_overwritten(*old(self), bytes@, post) by {
                    assert(deferred_wrap_settled(before, settled));
                    assert(ascii_written(settled, rest.take(fitting(settled, rest)), *self));
                    assert(ascii_run_overwritten(before, rest, post));
                }
            }
            pos = pos + n;
        }
        assert(bytes@.skip(pos as int) =~= Seq::<u8>::empty());
        assert(ascii_run_overwritten(*self, bytes@.skip(pos as int), *self));
    }

    /// Prints ASCII bytes one by one.
    fn put_ascii_chars(&mut self, bytes: &[u8])
        requires
            old(self).core_wf(),
        ensures
            final(self).core_wf(),
            chars_printed(*old(self), bytes@.map_values(|b: u8| b as char), *final(self)),
    {
        let ghost chars = bytes@.map_values(|b: u8| b as char);
        let mut pos: usize = 0;
        assert(chars.skip(0) =~= chars);
        while pos < bytes.len()
            invariant
                self.core_wf(),
                pos <= bytes@.len(),
                chars == bytes@.map_values(|b: u8| b as char),
                forall|post: TerminalState| #[trigger]
                    chars_printed(*self, chars.skip(pos as int), post) ==> chars_printed(
                        *old(self),
                        chars,
                        post,
                    ),
            decreases bytes.len() - pos,
        {
            let ghost before = *self;
            let ghost rest = chars.skip(pos as int);
            self.put_char(bytes[pos] as char);
            proof {
                assert(rest[0] == bytes@[pos as int] as char);
                assert(rest.drop_first() =~= chars.skip(pos + 1));
                assert forall|post: TerminalState| #[trigger]
                    chars_printed(*self, chars.skip(pos + 1), post) implies chars_printed(
                    *old(self),
                    chars,
                    post,
                ) by {
                    assert(char_printed(before, rest[0], *self));
                    assert(chars_printed(before, rest, post));
                }
            }
            pos = pos + 1;
        }
        assert(chars.skip(pos as int) =~= Seq::<char>::empty());
        assert(chars_printed(*self, chars.skip(pos as int), *self));
    }
}

/// `cells` after the first `n` of the glyphs were written.
spec fn partly_placed(
    cells: Seq<TerminalCell>,
    col: int,
    glyphs: Seq<TerminalCell>,
    n: int,
    blank: TerminalCell,
) -> Seq<TerminalCell> {
    let split = pairs_split(cells, col, col + glyphs.len(), blank);
    Seq::new(
        cells.len(),
        |i: int|
            if col <= i < col + n {
                glyphs[i - col]
            } else {
                split[i]
            },
    )
}

/// A printed character stands where the cursor was, with the attributes in
/// force, and the cursor moves on or waits at the edge. In overwrite mode every
/// other row stays as it was, and so does every cell of this row but the other
/// half of a character that was cut in two.
pub proof fn printing_shows_the_character(pre: TerminalState, typed: char, post: TerminalState)
    requires
        pre.core_wf(),
        char_printed(pre, typed, post),
        spec_char_width(translated(pre.active_charset, typed)) == 1,
        !pre.pending_wrap,
    ensures
        ({
            let row = pre.cursor_row as int;
            let col = pre.cursor_col as int;
            let shown = translated(pre.active_charset, typed);
            &&& post.grid@[row].cells[col] == pre.glyph(shown, 1)
            &&& post.cursor_row == pre.cursor_row
            &&& post.cursor_col == if col + 1 < pre.cols() {
                col + 1
            } else {
                col
            }
            &&& post.grid@.len() == pre.grid@.len()
            &&& forall|r: int|
                0 <= r < pre.grid@.len() && r != row ==> #[trigger] post.grid@[r] == pre.grid@[r]
            &&& !pre.insert_mode ==> forall|c: int|
                0 <= c < pre.cols() && c != col && c != col - 1 && c != col + 1 ==> (
                #[trigger] post.grid@[row].cells[c]) == pre.grid@[row].cells[c]
        }),
{
    let shown = translated(pre.active_charset, typed);
    let (settled, roomy) = choose|settled: TerminalState, roomy: TerminalState|
        {
            &&& #[trigger] deferred_wrap_settled(pre, settled)
            &&& #[trigger] room_made(settled, 1, roomy)
            &&& glyph_written(roomy, typed, shown, 1, post)
        };
    assert(deferred_wrap_settled(pre, settled));
    assert(room_made(settled, 1, roomy));
    assert(roomy == settled);
    let (cleared, drawn) = choose|cleared: TerminalState, drawn: TerminalState|
        {
            &&& #[trigger] spans_invalidated(roomy, seq![glyph_span(roomy, 1)], cleared)
            &&& #[trigger] glyph_drawn(cleared, typed, shown, 1, drawn)
            &&& only_active_changed(
                drawn,
                noted_write(
                    drawn,
                    roomy.cursor_row as int,
                    roomy.grid@[roomy.cursor_row as int].id,
                    roomy.cursor_col,
                    (roomy.cursor_col + 1) as usize,
                ),
                post,
            )
        };
    assert(spans_invalidated(roomy, seq![glyph_span(roomy, 1)], cleared));
    assert(glyph_drawn(cleared, typed, shown, 1, drawn));
    assert(pre.grid@[pre.cursor_row as int].cells.len() == pre.cols());
}

} // verus!
