//! Changing the size of the screen.

use vstd::prelude::*;

use crate::cell::blank_cell;
use crate::cell::halves_fit;
use crate::cell::paired;
use crate::cell::CellRole;
use crate::cell::Color;
use crate::cell::TerminalCell;
use crate::cursor::below;
use crate::cursor::clamp_below;
use crate::grid::blank_line;
use crate::grid::clamp_terminal_dimensions;
use crate::grid::dangling_cleared;
use crate::grid::fitted;
use crate::grid::resized;
use crate::grid::spec_clamp;
use crate::grid::Line;
use crate::grid::RawRowId;
use crate::grid::TerminalGrid;
use crate::grid::MAX_TERMINAL_COLS;
use crate::grid::MAX_TERMINAL_ROWS;
use crate::history::ScrollbackLine;
use crate::provenance::revision_after;
use crate::provenance::FinishedOutputOwner;
use crate::provenance::FinishedOutputProvenance;
use crate::scrolling::lemma_archived_names;
use crate::scrolling::line_archived;
use crate::setup::after_naming;
use crate::setup::lemma_named;
use crate::setup::lemma_named_paired;
use crate::setup::lemma_names_named;
use crate::setup::name_rows;
use crate::setup::named;
use crate::state::ids_allocated;
use crate::state::lemma_blank_paired;
use crate::state::lemma_id_allocated;
use crate::state::lemma_names_exchanged;
use crate::state::lemma_names_handed_over;
use crate::state::lemma_names_kept;
use crate::state::rows_named_once;
use crate::state::rows_paired;
use crate::state::saturating_sum;
use crate::state::wrapping_next;
use crate::state::SavedCursorState;
use crate::state::SavedCursors;
use crate::state::TerminalState;

verus! {

/// A row cut or extended to `cols` cells, without half a character at its end.
pub open spec fn row_fitted(cells: Seq<TerminalCell>, cols: int, blank: TerminalCell) -> Seq<
    TerminalCell,
> {
    dangling_cleared(fitted(cells, cols, blank), blank)
}

/// `lines` cut or extended to `rows` rows of `cols` cells, with identities for
/// the added rows.
pub open spec fn screen_fitted(
    lines: Seq<Line>,
    rows: int,
    cols: int,
    blank: TerminalCell,
    next: u64,
) -> Seq<Line> {
    named(
        Seq::new(
            rows as nat,
            |r: int|
                if r < lines.len() {
                    Line { cells: row_fitted(lines[r].cells, cols, blank), ..lines[r] }
                } else {
                    blank_line(cols, blank, RawRowId { raw: 0 })
                },
        ),
        next,
    )
}

/// Where the allocator stands after `lines` were cut or extended.
pub open spec fn after_fitting(
    lines: Seq<Line>,
    rows: int,
    cols: int,
    blank: TerminalCell,
    next: u64,
) -> u64 {
    after_naming(
        Seq::new(
            rows as nat,
            |r: int|
                if r < lines.len() {
                    Line { cells: row_fitted(lines[r].cells, cols, blank), ..lines[r] }
                } else {
                    blank_line(cols, blank, RawRowId { raw: 0 })
                },
        ),
        next,
    )
}

/// Cutting or extending a row leaves no right half alone.
proof fn lemma_row_fitted(cells: Seq<TerminalCell>, cols: int, blank: TerminalCell)
    requires
        cells.len() >= 1,
        paired(cells),
        blank.flags.role == CellRole::Single,
        cols >= 1,
    ensures
        paired(row_fitted(cells, cols, blank)),
{
    let cut = fitted(cells, cols, blank);
    let out = dangling_cleared(cut, blank);
    assert forall|i: int, j: int|
        #![trigger out[i], out[j]]
        0 <= i && j == i + 1 && j < out.len() implies halves_fit(out[i], out[j]) by {
        if j < cells.len() {
            assert(halves_fit(cells[i], cells[j]));
        }
    }
    assert(!cells[0].flags.spec_continuation());
}

/// Cuts or extends the rows of a screen.
fn fit_screen(grid: &mut TerminalGrid, rows: usize, cols: usize, blank: TerminalCell, next: &mut u64)
    requires
        old(grid).wf(),
        1 <= rows <= MAX_TERMINAL_ROWS,
        1 <= cols <= MAX_TERMINAL_COLS,
        ids_allocated(old(grid)@, *old(next)),
        rows_paired(old(grid)@),
        blank.flags.role == CellRole::Single,
    ensures
        final(grid).wf(),
        final(grid).cols == cols,
        final(grid)@ == screen_fitted(old(grid)@, rows as int, cols as int, blank, *old(next)),
        *final(next) == after_fitting(old(grid)@, rows as int, cols as int, blank, *old(next)),
        ids_allocated(final(grid)@, *final(next)),
        rows_paired(final(grid)@),
{
    let ghost lines = grid@;
    grid.resize(rows, cols, blank);
    let ghost cut = grid@;
    assert(cut == resized(lines, rows as int, cols as int, blank));
    let ghost target = Seq::new(
        rows as nat,
        |r: int|
            if r < lines.len() {
                Line { cells: row_fitted(lines[r].cells, cols as int, blank), ..lines[r] }
            } else {
                blank_line(cols as int, blank, RawRowId { raw: 0 })
            },
    );
    let mut r: usize = 0;
    while r < rows
        invariant
            r <= rows,
            grid.wf(),
            grid.cols == cols,
            grid@.len() == rows,
            target.len() == rows,
            cut.len() == rows,
            blank.flags.role == CellRole::Single,
            forall|k: int|
                0 <= k < rows ==> (#[trigger] target[k]) == (Line {
                    cells: dangling_cleared(cut[k].cells, blank),
                    ..cut[k]
                }),
            forall|k: int|
                0 <= k < rows ==> #[trigger] grid@[k] == if k < r {
                    target[k]
                } else {
                    cut[k]
                },
        decreases rows - r,
    {
        let ghost before = grid@;
        grid.clear_dangling_wide_at_row_end(r, blank);
        assert(forall|k: int| 0 <= k < rows && k != r ==> grid@[k] == #[trigger] before[k]);
        assert(before[r as int] == cut[r as int]);
        assert(grid@[r as int] == target[r as int]);
        r = r + 1;
    }
    assert(grid@ =~= target);
    proof {
        reveal(ids_allocated);
        reveal(rows_paired);
        assert forall|k: int| 0 <= k < target.len() implies paired(
            (#[trigger] target[k]).cells,
        ) by {
            if k < lines.len() {
                lemma_row_fitted(lines[k].cells, cols as int, blank);
            } else {
                lemma_blank_paired(cols as int, blank);
            }
        }
        assert(ids_allocated(target, *next));
        lemma_named(target, target, *next);
        lemma_named_paired(target, *next);
    }
    name_rows(grid, next);
}


/// `post` is `pre` after the rows `i..n` of its screen entered the history.
pub open spec fn top_rows_archived(
    pre: TerminalState,
    i: int,
    n: int,
    post: TerminalState,
) -> bool
    decreases n - i,
{
    if i >= n {
        post == pre
    } else {
        exists|mid: TerminalState| #[trigger]
            line_archived(pre, pre.grid@[i], mid) && top_rows_archived(mid, i + 1, n, post)
    }
}

/// `post` is `pre` before its rows change shape: what is known of outputs is
/// forgotten, and views with it.
pub open spec fn reshaping_prepared(pre: TerminalState, post: TerminalState) -> bool {
    let known = pre.provenance.zones@.dom().len() > 0 || pre.provenance.owner_map().dom().len() > 0;
    &&& post.provenance.zones@ == Map::<u64, FinishedOutputProvenance>::empty()
    &&& post.provenance.owner_map() == Map::<u64, Seq<FinishedOutputOwner>>::empty()
    &&& post.provenance.revision == if known {
        revision_after(pre.provenance.revision, 1)
    } else {
        pre.provenance.revision
    }
    &&& post.provenance.active is None
    &&& post.caches == if known {
        pre.caches.plans_dropped().views_dropped()
    } else {
        pre.caches.views_dropped()
    }
    &&& post.grid_version == saturating_sum(pre.grid_version, 1)
    &&& post == TerminalState {
        provenance: post.provenance,
        caches: post.caches,
        grid_version: post.grid_version,
        ..pre
    }
}

/// How many rows leave at the top when the screen becomes `rows` high: the
/// cursor row stays.
pub open spec fn leaving_rows(pre: TerminalState, rows: int) -> int {
    if pre.use_alt_buffer || rows >= pre.rows() {
        0
    } else if pre.rows() - rows < pre.cursor_row {
        pre.rows() - rows
    } else {
        pre.cursor_row as int
    }
}

/// A saved cursor brought into a screen.
pub open spec fn saved_within(saved: Option<SavedCursorState>, cols: int, rows: int) -> Option<
    SavedCursorState,
> {
    match saved {
        Some(cursor) => Some(
            SavedCursorState {
                row: below(cursor.row, rows) as usize,
                col: below(cursor.col, cols) as usize,
                ..cursor
            },
        ),
        None => None,
    }
}

/// Tab stops cut or extended: added columns have one every eighth column.
pub open spec fn stops_fitted(stops: Seq<bool>, cols: int) -> Seq<bool> {
    Seq::new(
        cols as nat,
        |c: int|
            if c < stops.len() {
                stops[c]
            } else {
                c % 8 == 0
            },
    )
}

/// The scroll region of a screen that becomes `rows` high.
pub open spec fn region_fitted(pre: TerminalState, rows: int) -> (int, int) {
    if pre.scroll_region_top == 0 && pre.scroll_region_bottom + 1 >= pre.rows() {
        (0, rows - 1)
    } else {
        let top = below(pre.scroll_region_top, rows);
        let bottom = below(pre.scroll_region_bottom, rows);
        if top > bottom {
            (0, rows - 1)
        } else {
            (top, bottom)
        }
    }
}

/// Both screens after `gone` rows left at the top of the visible one and both
/// were cut or extended.
pub open spec fn screens_fitted(
    pre: TerminalState,
    gone: int,
    cols: int,
    rows: int,
    post: TerminalState,
) -> bool {
    let kept = pre.grid@.skip(gone);
    let mid = after_fitting(kept, rows, cols, pre.blank(), pre.next_raw_row_id);
    &&& post.grid.cols == cols
    &&& post.alt_grid.cols == cols
    &&& post.grid@ == screen_fitted(kept, rows, cols, pre.blank(), pre.next_raw_row_id)
    &&& post.alt_grid@ == screen_fitted(
        pre.alt_grid@,
        rows,
        cols,
        blank_cell(Color::Default),
        mid,
    )
    &&& post.next_raw_row_id == after_fitting(
        pre.alt_grid@,
        rows,
        cols,
        blank_cell(Color::Default),
        mid,
    )
}

/// Cursors, tab stops and scroll region brought into the new size.
pub open spec fn positions_fitted(
    pre: TerminalState,
    gone: int,
    cols: int,
    rows: int,
    post: TerminalState,
) -> bool {
    &&& !post.pending_wrap
    &&& post.cursor_row == below((pre.cursor_row - gone) as usize, rows)
    &&& post.cursor_col == below(pre.cursor_col, cols)
    &&& post.saved == (SavedCursors {
        requested: saved_within(pre.saved.requested, cols, rows),
        primary: pre.saved.primary,
        alt_row: below(pre.saved.alt_row, rows) as usize,
        alt_col: below(pre.saved.alt_col, cols) as usize,
    })
    &&& post.tab_stops@ == stops_fitted(pre.tab_stops@, cols)
    &&& post.scroll_region_top == region_fitted(pre, rows).0
    &&& post.scroll_region_bottom == region_fitted(pre, rows).1
}

/// `post` is `pre` after its rows changed shape.
pub open spec fn reshaped(
    pre: TerminalState,
    gone: int,
    cols: int,
    rows: int,
    post: TerminalState,
) -> bool {
    &&& screens_fitted(pre, gone, cols, rows, post)
    &&& positions_fitted(pre, gone, cols, rows, post)
    &&& post.row_identity_revision == wrapping_next(pre.row_identity_revision)
    &&& post.caches == pre.caches.views_dropped()
    &&& post.row_versions@ == Seq::new(rows as nat, |r: int| pre.grid_version)
    &&& post.dirty_region == pre.dirty_region.marked(0, (rows - 1) as usize)
    &&& post == TerminalState {
        grid: post.grid,
        alt_grid: post.alt_grid,
        next_raw_row_id: post.next_raw_row_id,
        pending_wrap: post.pending_wrap,
        cursor_row: post.cursor_row,
        cursor_col: post.cursor_col,
        saved: post.saved,
        tab_stops: post.tab_stops,
        scroll_region_top: post.scroll_region_top,
        scroll_region_bottom: post.scroll_region_bottom,
        row_identity_revision: post.row_identity_revision,
        caches: post.caches,
        row_versions: post.row_versions,
        dirty_region: post.dirty_region,
        ..pre
    }
}

/// `post` is `pre` after its size was set. A zero size and the current size
/// change nothing.
pub open spec fn size_set(pre: TerminalState, cols: usize, rows: usize, post: TerminalState) -> bool {
    let new_cols = spec_clamp(cols, MAX_TERMINAL_COLS) as int;
    let new_rows = spec_clamp(rows, MAX_TERMINAL_ROWS) as int;
    if cols == 0 || rows == 0 || (new_cols == pre.cols() && new_rows == pre.rows()) {
        post == pre
    } else {
        let gone = leaving_rows(pre, new_rows);
        exists|ready: TerminalState, mid: TerminalState|
            {
                &&& #[trigger] reshaping_prepared(pre, ready)
                &&& #[trigger] top_rows_archived(ready, 0, gone, mid)
                &&& reshaped(mid, gone, new_cols, new_rows, post)
            }
    }
}

/// Setting the size that the screen has changes nothing.
pub proof fn same_size_changes_nothing(pre: TerminalState, post: TerminalState)
    requires
        pre.core_wf(),
        size_set(pre, pre.grid.cols, pre.grid@.len() as usize, post),
    ensures
        post == pre,
{
}

impl TerminalState {
    /// Forgets what a change of shape makes stale.
    fn prepare_reshaping(&mut self)
        requires
            old(self).core_wf(),
        ensures
            final(self).core_wf(),
            reshaping_prepared(*old(self), *final(self)),
    {
        if self.provenance.clear_finished() {
            self.caches.drop_plans();
        }
        self.provenance.active = None;
        self.grid_version = self.grid_version.saturating_add(1);
        self.caches.drop_views();
    }

    /// Moves the top `n` rows of the screen into the history; the screen
    /// itself stays as it is.
    fn archive_top_rows(&mut self, n: usize)
        requires
            old(self).core_wf(),
            n <= old(self).rows(),
            n > 0 ==> !old(self).use_alt_buffer,
        ensures
            final(self).loose_wf(),
            rows_named_once(
                final(self).history(),
                final(self).grid@.skip(n as int),
                final(self).alt_grid@,
            ),
            top_rows_archived(*old(self), 0, n as int, *final(self)),
            final(self).grid == old(self).grid,
    {
        let ghost start = *self;
        let mut r: usize = 0;
        assert(self.grid@.skip(0) =~= self.grid@);
        while r < n
            invariant
                r <= n <= self.rows(),
                self.loose_wf(),
                rows_named_once(self.history(), self.grid@.skip(r as int), self.alt_grid@),
                self.grid == start.grid,
                n > 0 ==> !self.use_alt_buffer,
                forall|post: TerminalState|
                    #[trigger] top_rows_archived(*self, r as int, n as int, post)
                        ==> top_rows_archived(start, 0, n as int, post),
            decreases n - r,
        {
            let ghost before = *self;
            proof {
                lemma_id_allocated(self.grid@, r as int, self.next_raw_row_id);
            }
            let mut line = ScrollbackLine::compress(
                &self.grid.rows[r].cells,
                self.grid.rows[r].wrapped,
            );
            line.set_raw_row_id(self.grid.rows[r].id);
            assert(line@ == self.grid@[r as int]);
            proof {
                let screen = self.grid@.skip(r as int);
                lemma_names_handed_over(self.history(), screen, self.alt_grid@);
                assert(screen[0] == self.grid@[r as int]);
                assert(screen.drop_first() =~= self.grid@.skip(r + 1));
            }
            self.append_history_line(line);
            proof {
                lemma_archived_names(
                    before,
                    self.grid@.skip(r + 1),
                    before.grid@[r as int],
                    *self,
                );
            }
            r = r + 1;
            assert forall|post: TerminalState| #[trigger]
                top_rows_archived(*self, r as int, n as int, post) implies top_rows_archived(
                start,
                0,
                n as int,
                post,
            ) by {
                assert(line_archived(before, before.grid@[r - 1], *self));
                assert(top_rows_archived(before, r - 1, n as int, post));
            }
        }
        assert(top_rows_archived(*self, n as int, n as int, *self));
    }
}

/// Tab stops cut or extended.
fn fit_tab_stops(stops: &Vec<bool>, cols: usize) -> (out: Vec<bool>)
    ensures
        out@ == stops_fitted(stops@, cols as int),
{
    let mut out: Vec<bool> = Vec::new();
    let mut c: usize = 0;
    while c < cols
        invariant
            c <= cols,
            out@ == stops_fitted(stops@, cols as int).take(c as int),
        decreases cols - c,
    {
        out.push(
            if c < stops.len() {
                stops[c]
            } else {
                c % 8 == 0
            },
        );
        c = c + 1;
        assert(out@ =~= stops_fitted(stops@, cols as int).take(c as int));
    }
    assert(stops_fitted(stops@, cols as int).take(c as int) =~= stops_fitted(stops@, cols as int));
    out
}

/// A saved cursor brought into a screen.
fn fit_saved(saved: &Option<SavedCursorState>, cols: usize, rows: usize) -> (out: Option<
    SavedCursorState,
>)
    requires
        cols > 0,
        rows > 0,
    ensures
        out == saved_within(*saved, cols as int, rows as int),
{
    match saved {
        Some(cursor) => Some(
            SavedCursorState {
                row: clamp_below(cursor.row, rows),
                col: clamp_below(cursor.col, cols),
                ..*cursor
            },
        ),
        None => None,
    }
}

impl TerminalState {
    /// The scroll region of a screen that becomes `rows` high.
    fn fit_region(&self, rows: usize) -> (region: (usize, usize))
        requires
            self.loose_wf(),
            rows > 0,
        ensures
            region.0 == region_fitted(*self, rows as int).0,
            region.1 == region_fitted(*self, rows as int).1,
            region.0 <= region.1 < rows,
    {
        if self.scroll_region_top == 0 && self.scroll_region_bottom + 1 >= self.grid.rows.len() {
            return (0, rows - 1);
        }
        let top: usize = clamp_below(self.scroll_region_top, rows);
        let bottom: usize = clamp_below(self.scroll_region_bottom, rows);
        if top > bottom {
            (0, rows - 1)
        } else {
            (top, bottom)
        }
    }

    /// Cuts or extends both screens, `gone` rows having left at the top of
    /// the visible one.
    fn fit_screens(&mut self, gone: usize, cols: usize, rows: usize)
        requires
            old(self).loose_wf(),
            rows_named_once(
                old(self).history(),
                old(self).grid@.skip(gone as int),
                old(self).alt_grid@,
            ),
            gone < old(self).rows(),
            1 <= rows <= MAX_TERMINAL_ROWS,
            1 <= cols <= MAX_TERMINAL_COLS,
        ensures
            screens_fitted(*old(self), gone as int, cols as int, rows as int, *final(self)),
            final(self).grid.wf(),
            final(self).alt_grid.wf(),
            ids_allocated(final(self).grid@, final(self).next_raw_row_id),
            ids_allocated(final(self).alt_grid@, final(self).next_raw_row_id),
            ids_allocated(final(self).history(), final(self).next_raw_row_id),
            rows_paired(final(self).grid@),
            rows_paired(final(self).alt_grid@),
            rows_named_once(final(self).history(), final(self).grid@, final(self).alt_grid@),
            *final(self) == (TerminalState {
                grid: final(self).grid,
                alt_grid: final(self).alt_grid,
                next_raw_row_id: final(self).next_raw_row_id,
                ..*old(self)
            }),
    {
        let blank = self.create_blank_cell();
        let ghost lines = self.grid@;
        let ghost history = self.history();
        let mut i: usize = 0;
        while i < gone
            invariant
                i <= gone < lines.len(),
                self.grid.wf(),
                self.grid@ == lines.skip(i as int),
                *self == (TerminalState { grid: self.grid, ..*old(self) }),
                self.grid.cols == old(self).grid.cols,
            decreases gone - i,
        {
            let ghost before = self.grid@;
            let _row = self.grid.rows.remove(0);
            assert(self.grid@ =~= before.drop_first());
            i = i + 1;
            assert(self.grid@ =~= lines.skip(i as int));
            assert(forall|k: int| 0 <= k < self.grid@.len() ==> #[trigger] self.grid@[k] == before[k + 1]);
        }
        let ghost kept = self.grid@;
        proof {
            reveal(ids_allocated);
            reveal(rows_paired);
            assert(forall|k: int| 0 <= k < kept.len() ==> #[trigger] kept[k] == lines[k + gone]);
        }
        let mut next: u64 = self.next_raw_row_id;
        let ghost first = next;
        fit_screen(&mut self.grid, rows, cols, blank, &mut next);
        let ghost mid = next;
        proof {
            lemma_fitting_keeps(kept, rows as int, cols as int, blank, first, old(self).alt_grid@);
            lemma_fitting_keeps(kept, rows as int, cols as int, blank, first, history);
            lemma_fitting_names(
                history,
                kept,
                old(self).alt_grid@,
                rows as int,
                cols as int,
                blank,
                first,
            );
            lemma_names_exchanged(history, self.grid@, old(self).alt_grid@);
        }
        let plain = TerminalCell::blank(Color::Default);
        fit_screen(&mut self.alt_grid, rows, cols, plain, &mut next);
        proof {
            lemma_fitting_keeps(
                old(self).alt_grid@,
                rows as int,
                cols as int,
                plain,
                mid,
                self.grid@,
            );
            lemma_fitting_keeps(old(self).alt_grid@, rows as int, cols as int, plain, mid, history);
            lemma_fitting_names(
                history,
                old(self).alt_grid@,
                self.grid@,
                rows as int,
                cols as int,
                plain,
                mid,
            );
            lemma_names_exchanged(history, self.alt_grid@, self.grid@);
        }
        self.next_raw_row_id = next;
    }

    /// Changes the shape of the rows.
    fn reshape(&mut self, gone: usize, cols: usize, rows: usize)
        requires
            old(self).loose_wf(),
            rows_named_once(
                old(self).history(),
                old(self).grid@.skip(gone as int),
                old(self).alt_grid@,
            ),
            gone <= old(self).cursor_row,
            1 <= rows <= MAX_TERMINAL_ROWS,
            1 <= cols <= MAX_TERMINAL_COLS,
        ensures
            final(self).core_wf(),
            reshaped(*old(self), gone as int, cols as int, rows as int, *final(self)),
    {
        let region = self.fit_region(rows);
        self.fit_screens(gone, cols, rows);
        self.mark_row_identity_changed();
        self.row_versions = vec![self.grid_version; rows];
        assert(self.row_versions@ =~= Seq::new(rows as nat, |r: int| old(self).grid_version));
        self.dirty_region.mark_all(rows);
        self.pending_wrap = false;
        self.cursor_row = clamp_below(self.cursor_row - gone, rows);
        self.cursor_col = clamp_below(self.cursor_col, cols);
        self.saved = SavedCursors {
            requested: fit_saved(&self.saved.requested, cols, rows),
            primary: self.saved.primary,
            alt_row: clamp_below(self.saved.alt_row, rows),
            alt_col: clamp_below(self.saved.alt_col, cols),
        };
        self.tab_stops = fit_tab_stops(&self.tab_stops, cols);
        self.scroll_region_top = region.0;
        self.scroll_region_bottom = region.1;
    }

    /// Sets the size of the screen. A lower screen keeps its cursor row and
    /// what is above it goes to the history.
    pub fn on_resize(&mut self, cols: usize, rows: usize)
        requires
            old(self).core_wf(),
        ensures
            final(self).core_wf(),
            size_set(*old(self), cols, rows, *final(self)),
    {
        if cols == 0 || rows == 0 {
            return ;
        }
        let ghost asked = (cols, rows);
        let (cols, rows) = clamp_terminal_dimensions(cols, rows);
        let old_rows: usize = self.grid.rows.len();
        if cols == self.grid.cols && rows == old_rows {
            return ;
        }
        let gone: usize = if self.use_alt_buffer || rows >= old_rows {
            0
        } else if old_rows - rows < self.cursor_row {
            old_rows - rows
        } else {
            self.cursor_row
        };
        self.prepare_reshaping();
        let ghost ready = *self;
        self.archive_top_rows(gone);
        let ghost mid = *self;
        assert(top_rows_archived(ready, 0, gone as int, mid));
        proof {
            lemma_archiving_keeps_cursor(ready, 0, gone as int, mid);
        }
        self.reshape(gone, cols, rows);
        assert(gone == leaving_rows(*old(self), rows as int));
        assert(reshaped(mid, gone as int, cols as int, rows as int, *self));
        assert(reshaping_prepared(*old(self), ready));
        assert(size_set(*old(self), asked.0, asked.1, *self));
    }
}

/// Archiving rows leaves the cursor where it is.
proof fn lemma_archiving_keeps_cursor(pre: TerminalState, i: int, n: int, post: TerminalState)
    requires
        top_rows_archived(pre, i, n, post),
    ensures
        post.cursor_row == pre.cursor_row,
    decreases n - i,
{
    if i < n {
        let mid = choose|mid: TerminalState| #[trigger]
            line_archived(pre, pre.grid@[i], mid) && top_rows_archived(mid, i + 1, n, post);
        lemma_archiving_keeps_cursor(mid, i + 1, n, post);
    }
}

/// Identities handed out before a screen was fitted stay allocated.
proof fn lemma_fitting_keeps(
    lines: Seq<Line>,
    rows: int,
    cols: int,
    blank: TerminalCell,
    next: u64,
    others: Seq<Line>,
)
    requires
        ids_allocated(lines, next),
        ids_allocated(others, next),
        rows >= 0,
    ensures
        ids_allocated(others, after_fitting(lines, rows, cols, blank, next)),
{
    let target = Seq::new(
        rows as nat,
        |r: int|
            if r < lines.len() {
                Line { cells: row_fitted(lines[r].cells, cols, blank), ..lines[r] }
            } else {
                blank_line(cols, blank, RawRowId { raw: 0 })
            },
    );
    assert(ids_allocated(target, next)) by {
        reveal(ids_allocated);
    }
    lemma_named(target, others, next);
}

/// Cutting or extending a screen leaves each row an identity of its own.
proof fn lemma_fitting_names(
    history: Seq<Line>,
    lines: Seq<Line>,
    hidden: Seq<Line>,
    rows: int,
    cols: int,
    blank: TerminalCell,
    next: u64,
)
    requires
        rows_named_once(history, lines, hidden),
        ids_allocated(history, next),
        ids_allocated(lines, next),
        ids_allocated(hidden, next),
        rows >= 0,
    ensures
        rows_named_once(history, screen_fitted(lines, rows, cols, blank, next), hidden),
{
    let target = Seq::new(
        rows as nat,
        |r: int|
            if r < lines.len() {
                Line { cells: row_fitted(lines[r].cells, cols, blank), ..lines[r] }
            } else {
                blank_line(cols, blank, RawRowId { raw: 0 })
            },
    );
    assert(ids_allocated(target, next)) by {
        reveal(ids_allocated);
    }
    lemma_names_kept(history, lines, hidden, target);
    lemma_names_named(history, target, hidden, next);
}

} // verus!
