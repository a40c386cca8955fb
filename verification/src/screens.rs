//! The two screens, snapshots of them and synchronized output.

use vstd::prelude::*;

use crate::cell::blank_cell;
use crate::cell::Color;
use crate::cell::TerminalCell;
use crate::cursor::below;
use crate::cursor::captured_cursor;
use crate::cursor::clamp_below;
use crate::cursor::cursor_put_back;
use crate::fields::same_chars;
use crate::grid::make_blank_row;
use crate::grid::repeated;
use crate::grid::Line;
use crate::grid::RawRowId;
use crate::grid::TerminalGrid;
use crate::history::ScrollbackLine;
use crate::modes::modes_are_independent;
use crate::provenance::BufferAnchor;
use crate::scrolling::line_archived;
use crate::state::ids_allocated;
use crate::state::lemma_blank_paired;
use crate::state::lemma_names_exchanged;
use crate::state::lemma_names_kept;
use crate::state::next_id_after;
use crate::state::rows_paired;
use crate::state::saturating_sum;
use crate::state::stamped;
use crate::state::wrapping_next;
use crate::state::KeyboardState;
use crate::state::SavedCursors;
use crate::state::Selection;
use crate::state::TerminalState;

verus! {

/// The selection counter after a change; it never returns to zero.
pub open spec fn next_selection_revision(revision: u64) -> u64 {
    if wrapping_next(revision) == 0 {
        1
    } else {
        wrapping_next(revision)
    }
}

/// A point that moves along with the screen when the history before it grows
/// or shrinks.
pub open spec fn rebased_point(point: (usize, usize), old_base: usize, new_base: usize) -> (
    usize,
    usize,
) {
    if point.0 < old_base {
        point
    } else if new_base >= old_base {
        (
            if point.0 + (new_base - old_base) > usize::MAX {
                usize::MAX
            } else {
                (point.0 + (new_base - old_base)) as usize
            },
            point.1,
        )
    } else {
        (
            if point.0 >= old_base - new_base {
                (point.0 - (old_base - new_base)) as usize
            } else {
                0
            },
            point.1,
        )
    }
}

/// `post` is `pre` after the history before the screen changed its length.
pub open spec fn selection_rebased(
    pre: TerminalState,
    old_base: usize,
    new_base: usize,
    post: TerminalState,
) -> bool {
    match pre.selection {
        None => post == pre,
        Some(selection) => {
            &&& post.selection == Some(
                Selection {
                    anchor: rebased_point(selection.anchor, old_base, new_base),
                    active: rebased_point(selection.active, old_base, new_base),
                    ..selection
                },
            )
            &&& post.selection_revision == next_selection_revision(pre.selection_revision)
            &&& post == TerminalState {
                selection: post.selection,
                selection_revision: post.selection_revision,
                ..pre
            }
        },
    }
}

/// Whether every cell of a row equals `blank`.
pub open spec fn all_blank(cells: Seq<TerminalCell>, blank: TerminalCell) -> bool {
    forall|i: int| 0 <= i < cells.len() ==> #[trigger] cells[i] == blank
}

/// Whether a screen row is blank.
pub open spec fn row_is_blank(state: TerminalState, r: int) -> bool {
    all_blank(state.row_cells(r), state.blank())
}

/// Whether `first..=last` spans exactly the rows from the first to the last
/// that is not blank.
pub open spec fn spans_content(state: TerminalState, first: int, last: int) -> bool {
    &&& 0 <= first <= last < state.rows()
    &&& !row_is_blank(state, first)
    &&& !row_is_blank(state, last)
    &&& forall|r: int| 0 <= r < first ==> row_is_blank(state, r)
    &&& forall|r: int| last < r < state.rows() ==> row_is_blank(state, r)
}

/// Whether the whole screen is blank.
pub open spec fn screen_is_blank(state: TerminalState) -> bool {
    forall|r: int| 0 <= r < state.rows() ==> row_is_blank(state, r)
}

/// The characters of a row.
pub open spec fn row_chars(cells: Seq<TerminalCell>) -> Seq<char> {
    Seq::new(cells.len(), |i: int| cells[i].character)
}

/// The characters of rows `first..=last`.
pub open spec fn rows_chars(state: TerminalState, first: int, last: int) -> Seq<Seq<char>> {
    Seq::new((last - first + 1) as nat, |k: int| row_chars(state.row_cells(first + k)))
}

/// Rows of characters as values.
pub open spec fn snapshot_view(snapshot: Seq<Vec<char>>) -> Seq<Seq<char>> {
    Seq::new(snapshot.len(), |i: int| snapshot[i]@)
}

/// `snapshot` holds the characters of the rows that are not blank around.
pub open spec fn is_snapshot(state: TerminalState, snapshot: Seq<Seq<char>>) -> bool {
    exists|first: int, last: int| #[trigger]
        spans_content(state, first, last) && snapshot == rows_chars(state, first, last)
}

/// `post` is `pre` after a copy of screen row `r` entered the history under a
/// fresh identity.
pub open spec fn copy_archived(pre: TerminalState, r: int, post: TerminalState) -> bool {
    let numbered = TerminalState { next_raw_row_id: next_id_after(pre.next_raw_row_id), ..pre };
    line_archived(
        numbered,
        Line { id: RawRowId { raw: pre.next_raw_row_id }, ..pre.grid@[r] },
        post,
    )
}

/// `post` is `pre` after copies of screen rows `first..end` entered the
/// history.
pub open spec fn copies_archived(
    pre: TerminalState,
    first: int,
    end: int,
    post: TerminalState,
) -> bool
    decreases end - first,
{
    if first >= end {
        post == pre
    } else {
        exists|mid: TerminalState|
            {
                &&& #[trigger] copy_archived(pre, first, mid)
                &&& copies_archived(mid, first + 1, end, post)
            }
    }
}

/// `post` is `pre` after copies of rows `first..=last` entered the history and
/// the selection moved along with the screen.
pub open spec fn rows_archived(
    pre: TerminalState,
    first: int,
    last: int,
    post: TerminalState,
) -> bool {
    exists|mid: TerminalState|
        {
            &&& #[trigger] copies_archived(pre, first, last + 1, mid)
            &&& selection_rebased(
                mid,
                pre.scrollback@.len() as usize,
                mid.scrollback@.len() as usize,
                post,
            )
        }
}

impl TerminalState {
    /// Counts a change of the selection.
    pub fn bump_selection_revision(&mut self)
        ensures
            *final(self) == (TerminalState {
                selection_revision: next_selection_revision(old(self).selection_revision),
                ..*old(self)
            }),
    {
        let next: u64 = self.selection_revision.wrapping_add(1);
        self.selection_revision = if next == 0 {
            1
        } else {
            next
        };
    }

    /// Moves the selection along with the screen.
    fn rebase_raw_selection_for_grid_base_change(&mut self, old_base: usize, new_base: usize)
        requires
            old(self).core_wf(),
        ensures
            final(self).core_wf(),
            selection_rebased(*old(self), old_base, new_base, *final(self)),
    {
        if let Some(selection) = self.selection {
            let anchor = rebase_point(selection.anchor, old_base, new_base);
            let active = rebase_point(selection.active, old_base, new_base);
            self.selection = Some(Selection { anchor, active, ..selection });
            self.bump_selection_revision();
        }
    }

    /// Whether a screen row is blank.
    pub fn line_is_blank(&self, row: usize) -> (blank: bool)
        requires
            self.core_wf(),
            row < self.rows(),
        ensures
            blank == row_is_blank(*self, row as int),
    {
        let blank = self.create_blank_cell();
        let ghost cells = self.row_cells(row as int);
        let cols: usize = self.grid.row_len();
        let mut i: usize = 0;
        while i < cols
            invariant
                self.core_wf(),
                row < self.rows(),
                i <= cols,
                cols == self.cols(),
                blank == self.blank(),
                cells == self.row_cells(row as int),
                forall|k: int| 0 <= k < i ==> #[trigger] cells[k] == blank,
            decreases cols - i,
        {
            if self.grid.get(row, i) != blank {
                assert(cells[i as int] != blank);
                return false;
            }
            i = i + 1;
        }
        true
    }

    /// The first and the last row that is not blank.
    pub fn content_span(&self) -> (span: Option<(usize, usize)>)
        requires
            self.core_wf(),
        ensures
            match span {
                Some((first, last)) => spans_content(*self, first as int, last as int),
                None => screen_is_blank(*self),
            },
    {
        let rows: usize = self.grid.rows();
        let mut first: usize = 0;
        while first < rows && self.line_is_blank(first)
            invariant
                self.core_wf(),
                first <= rows,
                rows == self.rows(),
                forall|r: int| 0 <= r < first ==> row_is_blank(*self, r),
            decreases rows - first,
        {
            first = first + 1;
        }
        if first == rows {
            return None;
        }
        let mut end: usize = rows;
        while end > first + 1 && self.line_is_blank(end - 1)
            invariant
                self.core_wf(),
                first < end <= rows,
                rows == self.rows(),
                !row_is_blank(*self, first as int),
                forall|r: int| end <= r < rows ==> row_is_blank(*self, r),
            decreases end,
        {
            end = end - 1;
        }
        Some((first, end - 1))
    }

    /// The characters of rows `first..=last`.
    fn snapshot_rows(&self, first: usize, last: usize) -> (snapshot: Vec<Vec<char>>)
        requires
            self.core_wf(),
            first <= last < self.rows(),
        ensures
            snapshot_view(snapshot@) == rows_chars(*self, first as int, last as int),
    {
        let mut snapshot: Vec<Vec<char>> = Vec::new();
        let mut row: usize = first;
        while row <= last
            invariant
                self.core_wf(),
                first <= row <= last + 1,
                last < self.rows(),
                snapshot@.len() == row - first,
                forall|k: int|
                    0 <= k < row - first ==> (#[trigger] snapshot@[k])@ == row_chars(
                        self.row_cells(first + k),
                    ),
            decreases last + 1 - row,
        {
            let cells = &self.grid.rows[row].cells;
            let mut chars: Vec<char> = Vec::new();
            let mut i: usize = 0;
            while i < cells.len()
                invariant
                    i <= cells@.len(),
                    chars@ == row_chars(cells@).take(i as int),
                decreases cells.len() - i,
            {
                chars.push(cells[i].character);
                i = i + 1;
                assert(chars@ =~= row_chars(cells@).take(i as int));
            }
            assert(chars@ =~= row_chars(cells@));
            assert(cells@ == self.row_cells(row as int));
            snapshot.push(chars);
            row = row + 1;
        }
        assert(snapshot_view(snapshot@) =~= rows_chars(*self, first as int, last as int));
        snapshot
    }

    /// The characters of the screen without the blank rows around them.
    pub fn visible_screen_snapshot(&self) -> (snapshot: Option<Vec<Vec<char>>>)
        requires
            self.core_wf(),
        ensures
            match snapshot {
                Some(snapshot) => is_snapshot(*self, snapshot_view(snapshot@)),
                None => screen_is_blank(*self),
            },
    {
        match self.content_span() {
            Some((first, last)) => {
                let snapshot = self.snapshot_rows(first, last);
                assert(spans_content(*self, first as int, last as int));
                Some(snapshot)
            },
            None => None,
        }
    }

    /// Copies screen row `row` into the history.
    fn archive_row(&mut self, row: usize)
        requires
            old(self).core_wf(),
            row < old(self).rows(),
        ensures
            final(self).core_wf(),
            final(self).rows() == old(self).rows(),
            copy_archived(*old(self), row as int, *final(self)),
    {
        let line = ScrollbackLine::compress(
            &self.grid.rows[row].cells,
            self.grid.rows[row].wrapped,
        );
        self.push_scrollback_compressed_with_options(line, true);
    }

    /// Copies rows `first..=last` into the history.
    fn archive_rows(&mut self, first: usize, last: usize)
        requires
            old(self).core_wf(),
            first <= last < old(self).rows(),
        ensures
            final(self).core_wf(),
            rows_archived(*old(self), first as int, last as int, *final(self)),
    {
        let old_base: usize = self.scrollback.len();
        let mut row: usize = first;
        while row <= last
            invariant
                self.core_wf(),
                first <= row <= last + 1,
                last < self.rows(),
                forall|post: TerminalState| #[trigger]
                    copies_archived(*self, row as int, last + 1, post) ==> copies_archived(
                        *old(self),
                        first as int,
                        last + 1,
                        post,
                    ),
            decreases last + 1 - row,
        {
            let ghost before = *self;
            self.archive_row(row);
            row = row + 1;
            proof {
                assert forall|post: TerminalState| #[trigger]
                    copies_archived(*self, row as int, last + 1, post) implies copies_archived(
                    *old(self),
                    first as int,
                    last + 1,
                    post,
                ) by {
                    assert(copy_archived(before, row - 1, *self));
                    assert(copies_archived(before, row - 1, last + 1, post));
                }
            }
        }
        let ghost mid = *self;
        assert(copies_archived(mid, row as int, last + 1, mid));
        let new_base: usize = self.scrollback.len();
        self.rebase_raw_selection_for_grid_base_change(old_base, new_base);
    }
}

/// A point that moves along with the screen.
fn rebase_point(point: (usize, usize), old_base: usize, new_base: usize) -> (moved: (usize, usize))
    ensures
        moved == rebased_point(point, old_base, new_base),
{
    if point.0 < old_base {
        point
    } else if new_base >= old_base {
        (point.0.saturating_add(new_base - old_base), point.1)
    } else {
        (point.0.saturating_sub(old_base - new_base), point.1)
    }
}

/// Whether two snapshots are equal.
pub fn same_snapshot(a: &Vec<Vec<char>>, b: &Vec<Vec<char>>) -> (same: bool)
    ensures
        same == (snapshot_view(a@) == snapshot_view(b@)),
{
    if a.len() != b.len() {
        assert(snapshot_view(a@).len() != snapshot_view(b@).len());
        return false;
    }
    let mut i: usize = 0;
    while i < a.len()
        invariant
            i <= a@.len(),
            a@.len() == b@.len(),
            forall|k: int| 0 <= k < i ==> (#[trigger] a@[k])@ == b@[k]@,
        decreases a.len() - i,
    {
        if !same_chars(&a[i], &b[i]) {
            assert(snapshot_view(a@)[i as int] != snapshot_view(b@)[i as int]);
            return false;
        }
        i = i + 1;
    }
    assert(snapshot_view(a@) =~= snapshot_view(b@));
    true
}

/// `post` is `pre` with another remembered snapshot of what was archived.
pub open spec fn archive_remembered(
    pre: TerminalState,
    snapshot: Seq<Seq<char>>,
    post: TerminalState,
) -> bool {
    &&& snapshot_view(post.last_archived_screen_snapshot@) == snapshot
    &&& post == TerminalState {
        last_archived_screen_snapshot: post.last_archived_screen_snapshot,
        ..pre
    }
}

/// `post` is `pre` after the content of the screen, rows `first..=last`, was
/// archived. With `dedupe` the same content is not archived twice in a row.
pub open spec fn content_archived(
    pre: TerminalState,
    first: int,
    last: int,
    dedupe: bool,
    post: TerminalState,
) -> bool {
    let snapshot = rows_chars(pre, first, last);
    if !dedupe {
        rows_archived(pre, first, last, post)
    } else if snapshot_view(pre.last_archived_screen_snapshot@) == snapshot {
        post == pre
    } else {
        exists|mid: TerminalState|
            {
                &&& #[trigger] archive_remembered(pre, snapshot, mid)
                &&& rows_archived(mid, first, last, post)
            }
    }
}

/// `post` is `pre` after the screen was archived. The alternate screen is only
/// archived where that is allowed.
pub open spec fn screen_archived(
    pre: TerminalState,
    allow_alt: bool,
    dedupe: bool,
    post: TerminalState,
) -> bool {
    if (pre.use_alt_buffer && !allow_alt) || screen_is_blank(pre) {
        post == pre
    } else {
        exists|first: int, last: int| #[trigger]
            spans_content(pre, first, last) && content_archived(pre, first, last, dedupe, post)
    }
}

/// `post` is `pre` after the primary screen was archived, unless it still
/// shows what the last synchronized update left.
pub open spec fn unsynced_screen_archived(pre: TerminalState, post: TerminalState) -> bool {
    if screen_is_blank(pre) || is_snapshot(
        pre,
        snapshot_view(pre.last_synced_primary_screen_snapshot@),
    ) {
        post == pre
    } else {
        screen_archived(pre, false, false, post)
    }
}

/// `post` is `pre` after a synchronized update began.
pub open spec fn sync_begun(pre: TerminalState, now_ns: u64, post: TerminalState) -> bool {
    exists|mid: TerminalState|
        {
            &&& #[trigger] sync_entry_archived(pre, mid)
            &&& post.modes == mid.modes.with(2026, true)
            &&& post.sync_output_active
            &&& post.sync_output_start == Some(now_ns)
            &&& post == TerminalState {
                modes: post.modes,
                sync_output_active: post.sync_output_active,
                sync_output_start: post.sync_output_start,
                ..mid
            }
        }
}

/// `post` is `pre` after the primary screen was archived on entry to a
/// synchronized update.
pub open spec fn sync_entry_archived(pre: TerminalState, post: TerminalState) -> bool {
    if pre.sync_output_active || pre.use_alt_buffer {
        post == pre
    } else {
        unsynced_screen_archived(pre, post)
    }
}

/// `post` is `pre` after the frame of a synchronized update was kept: the
/// alternate screen is archived, the primary one remembered.
pub open spec fn sync_frame_kept(pre: TerminalState, post: TerminalState) -> bool {
    if pre.use_alt_buffer {
        screen_archived(pre, true, true, post)
    } else {
        &&& if screen_is_blank(pre) {
            snapshot_view(post.last_synced_primary_screen_snapshot@) == Seq::<Seq<char>>::empty()
        } else {
            is_snapshot(pre, snapshot_view(post.last_synced_primary_screen_snapshot@))
        }
        &&& post == TerminalState {
            last_synced_primary_screen_snapshot: post.last_synced_primary_screen_snapshot,
            ..pre
        }
    }
}

/// `post` is `pre` after synchronized output was switched off and the whole
/// screen marked for redrawing.
pub open spec fn sync_switched_off(pre: TerminalState, post: TerminalState) -> bool {
    &&& post.modes == pre.modes.with(2026, false)
    &&& !post.sync_output_active
    &&& post.sync_output_start is None
    &&& post.dirty_region == pre.dirty_region.marked(0, (pre.rows() - 1) as usize)
    &&& post.row_versions@ == stamped(pre.row_versions@, 0, pre.rows() - 1, pre.grid_version)
    &&& post == TerminalState {
        modes: post.modes,
        sync_output_active: post.sync_output_active,
        sync_output_start: post.sync_output_start,
        dirty_region: post.dirty_region,
        row_versions: post.row_versions,
        ..pre
    }
}

/// `post` is `pre` after a synchronized update ended.
pub open spec fn sync_ended(pre: TerminalState, post: TerminalState) -> bool {
    if !pre.sync_output_active {
        &&& post.modes == pre.modes.with(2026, false)
        &&& post == TerminalState { modes: post.modes, ..pre }
    } else {
        exists|mid: TerminalState|
            {
                &&& #[trigger] sync_frame_kept(pre, mid)
                &&& sync_switched_off(mid, post)
            }
    }
}

/// A synchronized update is given up after this time.
pub const SYNC_TIMEOUT_NS: u64 = 1_000_000_000;

/// Whether a synchronized update has gone on for too long.
pub open spec fn sync_overdue(state: TerminalState, now_ns: u64) -> bool {
    &&& state.sync_output_active
    &&& state.sync_output_start is Some
    &&& now_ns - state.sync_output_start->0 > SYNC_TIMEOUT_NS
}

impl TerminalState {
    /// Archives the content of the screen, rows `first..=last`.
    fn archive_content(&mut self, first: usize, last: usize, dedupe: bool)
        requires
            old(self).core_wf(),
            first <= last < old(self).rows(),
        ensures
            final(self).core_wf(),
            content_archived(*old(self), first as int, last as int, dedupe, *final(self)),
    {
        if dedupe {
            let snapshot = self.snapshot_rows(first, last);
            if same_snapshot(&snapshot, &self.last_archived_screen_snapshot) {
                return;
            }
            self.last_archived_screen_snapshot = snapshot;
            let ghost mid = *self;
            assert(archive_remembered(
                *old(self),
                rows_chars(*old(self), first as int, last as int),
                mid,
            ));
            self.archive_rows(first, last);
        } else {
            self.archive_rows(first, last);
        }
    }

    /// Archives the screen.
    pub fn archive_visible_screen_to_scrollback_with_options(
        &mut self,
        allow_alt_buffer: bool,
        dedupe_snapshot: bool,
    )
        requires
            old(self).core_wf(),
        ensures
            final(self).core_wf(),
            screen_archived(*old(self), allow_alt_buffer, dedupe_snapshot, *final(self)),
    {
        if self.use_alt_buffer && !allow_alt_buffer {
            return;
        }
        if let Some((first, last)) = self.content_span() {
            assert(!row_is_blank(*self, first as int));
            self.archive_content(first, last, dedupe_snapshot);
            assert(spans_content(*old(self), first as int, last as int));
        }
    }

    /// Archives the primary screen.
    pub fn archive_visible_screen_to_scrollback(&mut self)
        requires
            old(self).core_wf(),
        ensures
            final(self).core_wf(),
            screen_archived(*old(self), false, false, *final(self)),
    {
        self.archive_visible_screen_to_scrollback_with_options(false, false);
    }

    /// Archives the primary screen, unless it still shows what the last
    /// synchronized update left.
    pub fn archive_primary_screen_unless_last_synced_snapshot(&mut self)
        requires
            old(self).core_wf(),
        ensures
            final(self).core_wf(),
            unsynced_screen_archived(*old(self), *final(self)),
    {
        if let Some((first, last)) = self.content_span() {
            let snapshot = self.snapshot_rows(first, last);
            proof {
                assert(!row_is_blank(*self, first as int));
                assert(spans_content(*self, first as int, last as int));
                lemma_snapshot_unique(*self, first as int, last as int);
            }
            if same_snapshot(&snapshot, &self.last_synced_primary_screen_snapshot) {
                return;
            }
            self.archive_visible_screen_to_scrollback();
        }
    }

    /// Begins a synchronized update.
    pub fn begin_sync(&mut self, now_ns: u64)
        requires
            old(self).core_wf(),
        ensures
            final(self).core_wf(),
            sync_begun(*old(self), now_ns, *final(self)),
    {
        if !self.sync_output_active && !self.use_alt_buffer {
            self.archive_primary_screen_unless_last_synced_snapshot();
        }
        let ghost mid = *self;
        assert(sync_entry_archived(*old(self), mid));
        self.modes.insert(2026);
        self.sync_output_active = true;
        self.sync_output_start = Some(now_ns);
    }

    /// Keeps the frame of a synchronized update.
    fn keep_sync_frame(&mut self)
        requires
            old(self).core_wf(),
        ensures
            final(self).core_wf(),
            sync_frame_kept(*old(self), *final(self)),
    {
        if self.use_alt_buffer {
            self.archive_visible_screen_to_scrollback_with_options(true, true);
        } else {
            let snapshot: Vec<Vec<char>> = match self.visible_screen_snapshot() {
                Some(snapshot) => {
                    proof {
                        let (first, last) = choose|first: int, last: int| #[trigger]
                            spans_content(*self, first, last) && snapshot_view(snapshot@)
                                == rows_chars(*self, first, last);
                        assert(!row_is_blank(*self, first));
                    }
                    snapshot
                },
                None => {
                    let empty: Vec<Vec<char>> = Vec::new();
                    assert(snapshot_view(empty@) =~= Seq::<Seq<char>>::empty());
                    empty
                },
            };
            self.last_synced_primary_screen_snapshot = snapshot;
        }
    }

    /// Switches synchronized output off.
    fn switch_sync_off(&mut self)
        requires
            old(self).core_wf(),
        ensures
            final(self).core_wf(),
            sync_switched_off(*old(self), *final(self)),
    {
        let rows: usize = self.grid.rows();
        self.sync_output_active = false;
        self.sync_output_start = None;
        self.modes.remove(2026);
        self.dirty_region.mark_all(rows);
        self.mark_rows_dirty(0, rows - 1);
    }

    /// Ends a synchronized update.
    pub fn end_sync(&mut self)
        requires
            old(self).core_wf(),
        ensures
            final(self).core_wf(),
            sync_ended(*old(self), *final(self)),
    {
        if self.sync_output_active {
            self.keep_sync_frame();
            let ghost mid = *self;
            assert(sync_frame_kept(*old(self), mid));
            self.switch_sync_off();
        } else {
            self.modes.remove(2026);
        }
    }

    /// Ends a synchronized update that has gone on for too long.
    pub fn check_sync_output_timeout_at(&mut self, now_ns: u64)
        requires
            old(self).core_wf(),
        ensures
            final(self).core_wf(),
            if sync_overdue(*old(self), now_ns) {
                sync_ended(*old(self), *final(self))
            } else {
                *final(self) == *old(self)
            },
    {
        if self.sync_output_active {
            if let Some(start) = self.sync_output_start {
                if now_ns > start && now_ns - start > SYNC_TIMEOUT_NS {
                    self.end_sync();
                }
            }
        }
    }
}

/// A screen has one snapshot.
proof fn lemma_snapshot_unique(state: TerminalState, first: int, last: int)
    requires
        spans_content(state, first, last),
    ensures
        forall|snapshot: Seq<Seq<char>>| #[trigger]
            is_snapshot(state, snapshot) ==> snapshot == rows_chars(state, first, last),
{
    assert forall|snapshot: Seq<Seq<char>>| #[trigger]
        is_snapshot(state, snapshot) implies snapshot == rows_chars(state, first, last) by {
        let (a, b) = choose|a: int, b: int| #[trigger]
            spans_content(state, a, b) && snapshot == rows_chars(state, a, b);
        assert(!row_is_blank(state, a) && !row_is_blank(state, b));
        assert(!row_is_blank(state, first) && !row_is_blank(state, last));
        assert(a == first);
        assert(b == last);
    }
}

/// A screen row emptied of its content.
pub open spec fn emptied(line: Line) -> Line {
    Line {
        cells: repeated(blank_cell(Color::Default), line.cells.len() as int),
        wrapped: false,
        id: line.id,
    }
}

/// A screen emptied of its content; the rows keep their identities.
pub open spec fn screen_emptied(lines: Seq<Line>) -> Seq<Line> {
    Seq::new(lines.len(), |r: int| emptied(lines[r]))
}

/// `post` is `pre` with the two screens exchanged. The scroll region becomes
/// the whole screen, and the selection and the scroll position are dropped.
pub open spec fn screens_exchanged(pre: TerminalState, post: TerminalState) -> bool {
    &&& post.grid == pre.alt_grid
    &&& post.alt_grid == pre.grid
    &&& post.use_alt_buffer == !pre.use_alt_buffer
    &&& post.modes == pre.modes.with(1049, !pre.use_alt_buffer)
    &&& post.scroll_region_top == 0
    &&& post.scroll_region_bottom == pre.rows() - 1
    &&& post.scroll_offset == 0
    &&& post.selection is None
    &&& post.selection_revision == if pre.selection is Some {
        next_selection_revision(pre.selection_revision)
    } else {
        pre.selection_revision
    }
    &&& post.row_identity_revision == wrapping_next(pre.row_identity_revision)
    &&& post.caches == pre.caches.views_dropped()
    &&& post.dirty_region == pre.dirty_region.marked(0, (pre.rows() - 1) as usize)
    &&& post.row_versions@ == stamped(pre.row_versions@, 0, pre.rows() - 1, pre.grid_version)
    &&& post.keyboard == KeyboardState {
        enhancement_flags: pre.keyboard.hidden_flags,
        enhancement_stack: pre.keyboard.hidden_stack,
        hidden_flags: pre.keyboard.enhancement_flags,
        hidden_stack: pre.keyboard.enhancement_stack,
        ..pre.keyboard
    }
    &&& post == TerminalState {
        grid: post.grid,
        alt_grid: post.alt_grid,
        use_alt_buffer: post.use_alt_buffer,
        modes: post.modes,
        scroll_region_top: post.scroll_region_top,
        scroll_region_bottom: post.scroll_region_bottom,
        scroll_offset: post.scroll_offset,
        selection: post.selection,
        selection_revision: post.selection_revision,
        row_identity_revision: post.row_identity_revision,
        caches: post.caches,
        dirty_region: post.dirty_region,
        row_versions: post.row_versions,
        keyboard: post.keyboard,
        ..pre
    }
}

/// `post` is `pre`, in which the primary screen is hidden, with the alternate
/// screen emptied and the cursor where it left off there.
pub open spec fn alternate_prepared(
    pre: TerminalState,
    saved: SavedCursors,
    clear: bool,
    post: TerminalState,
) -> bool {
    &&& post.grid@ == if clear {
        screen_emptied(pre.grid@)
    } else {
        pre.grid@
    }
    &&& post.grid.cols == pre.grid.cols
    &&& post.saved == saved
    &&& post.cursor_row == below(saved.alt_row, pre.rows())
    &&& post.cursor_col == below(saved.alt_col, pre.cols())
    &&& !post.pending_wrap
    &&& post == TerminalState {
        grid: post.grid,
        saved: post.saved,
        cursor_row: post.cursor_row,
        cursor_col: post.cursor_col,
        pending_wrap: post.pending_wrap,
        ..pre
    }
}

/// `post` is `pre` after the alternate screen was shown.
pub open spec fn alternate_entered(pre: TerminalState, clear: bool, post: TerminalState) -> bool {
    if pre.use_alt_buffer {
        post == pre
    } else {
        let saved = SavedCursors { primary: Some(captured_cursor(pre)), ..pre.saved };
        exists|mid: TerminalState|
            {
                &&& #[trigger] screens_exchanged(pre, mid)
                &&& alternate_prepared(mid, saved, clear, post)
            }
    }
}

/// `post` is `pre` with the cursor of the primary screen put back, where one
/// was saved.
pub open spec fn primary_cursor_back(
    pre: TerminalState,
    saved: SavedCursors,
    post: TerminalState,
) -> bool {
    match saved.primary {
        Some(cursor) => cursor_put_back(pre, cursor, post),
        None => post == pre,
    }
}

/// `post` is `pre` after the primary screen was shown again.
pub open spec fn alternate_left(pre: TerminalState, post: TerminalState) -> bool {
    if !pre.use_alt_buffer {
        post == pre
    } else {
        let left = TerminalState {
            saved: SavedCursors {
                primary: None,
                alt_row: pre.cursor_row,
                alt_col: pre.cursor_col,
                ..pre.saved
            },
            ..pre
        };
        exists|mid: TerminalState|
            {
                &&& #[trigger] screens_exchanged(left, mid)
                &&& primary_cursor_back(mid, pre.saved, post)
            }
    }
}

impl TerminalGrid {
    /// Empties every row; the rows keep their identities.
    pub fn empty_rows(&mut self)
        requires
            old(self).wf(),
        ensures
            final(self).wf(),
            final(self).cols == old(self).cols,
            final(self)@ == screen_emptied(old(self)@),
    {
        let ghost before = self@;
        let mut r: usize = 0;
        while r < self.rows.len()
            invariant
                r <= self.rows@.len(),
                self.rows@.len() == before.len(),
                self.wf(),
                self.cols == old(self).cols,
                forall|k: int| 0 <= k < r ==> (#[trigger] self.rows@[k])@ == emptied(before[k]),
                forall|k: int|
                    r <= k < self.rows@.len() ==> (#[trigger] self.rows@[k])@ == before[k],
            decreases self.rows.len() - r,
        {
            let id = self.rows[r].id;
            assert(self.rows@[r as int]@ == before[r as int]);
            let row = make_blank_row(self.cols, TerminalCell::blank(Color::Default), id);
            assert(row@.cells.len() == self.cols);
            self.rows.set(r, row);
            r = r + 1;
        }
        assert(self@ =~= screen_emptied(before));
    }
}

impl TerminalState {
    /// Exchanges the two screens.
    fn exchange_screens(&mut self)
        requires
            old(self).core_wf(),
        ensures
            final(self).core_wf(),
            screens_exchanged(*old(self), *final(self)),
    {
        let rows: usize = self.grid.rows();
        let entering = !self.use_alt_buffer;
        proof {
            lemma_names_exchanged(self.history(), self.grid@, self.alt_grid@);
        }
        std::mem::swap(&mut self.grid, &mut self.alt_grid);
        self.use_alt_buffer = entering;
        self.modes.assign(1049, entering);
        self.scroll_region_top = 0;
        self.scroll_region_bottom = rows - 1;
        self.scroll_offset = 0;
        std::mem::swap(
            &mut self.keyboard.enhancement_flags,
            &mut self.keyboard.hidden_flags,
        );
        std::mem::swap(
            &mut self.keyboard.enhancement_stack,
            &mut self.keyboard.hidden_stack,
        );
        self.drop_raw_selection();
        self.mark_row_identity_changed();
        self.dirty_region.mark_all(rows);
        self.mark_rows_dirty(0, rows - 1);
    }

    /// Drops the selection.
    pub fn drop_raw_selection(&mut self)
        ensures
            final(self).selection is None,
            final(self).selection_revision == if old(self).selection is Some {
                next_selection_revision(old(self).selection_revision)
            } else {
                old(self).selection_revision
            },
            *final(self) == (TerminalState {
                selection: final(self).selection,
                selection_revision: final(self).selection_revision,
                ..*old(self)
            }),
    {
        if self.selection.is_some() {
            self.selection = None;
            self.bump_selection_revision();
        }
    }

    /// Prepares the alternate screen.
    fn prepare_alternate(&mut self, saved: SavedCursors, clear: bool)
        requires
            old(self).core_wf(),
        ensures
            final(self).core_wf(),
            alternate_prepared(*old(self), saved, clear, *final(self)),
    {
        let row: usize = clamp_below(saved.alt_row, self.grid.rows());
        let col: usize = clamp_below(saved.alt_col, self.grid.row_len());
        if clear {
            self.grid.empty_rows();
        }
        proof {
            reveal(ids_allocated);
            reveal(rows_paired);
            lemma_blank_paired(self.cols(), blank_cell(Color::Default));
            lemma_names_kept(self.history(), old(self).grid@, self.alt_grid@, self.grid@);
        }
        self.saved = saved;
        self.cursor_row = row;
        self.cursor_col = col;
        self.pending_wrap = false;
    }

    /// Shows the alternate screen.
    pub fn enter_alternate_screen(&mut self, clear: bool)
        requires
            old(self).core_wf(),
        ensures
            final(self).core_wf(),
            alternate_entered(*old(self), clear, *final(self)),
    {
        if self.use_alt_buffer {
            return;
        }
        let saved = SavedCursors { primary: Some(self.capture_cursor()), ..self.saved };
        self.exchange_screens();
        let ghost mid = *self;
        assert(screens_exchanged(*old(self), mid));
        self.prepare_alternate(saved, clear);
    }

    /// Shows the primary screen again.
    pub fn leave_alternate_screen(&mut self)
        requires
            old(self).core_wf(),
        ensures
            final(self).core_wf(),
            alternate_left(*old(self), *final(self)),
    {
        if !self.use_alt_buffer {
            return;
        }
        let saved = self.saved;
        self.saved = SavedCursors {
            primary: None,
            alt_row: self.cursor_row,
            alt_col: self.cursor_col,
            ..saved
        };
        let ghost left = *self;
        self.exchange_screens();
        let ghost mid = *self;
        assert(screens_exchanged(left, mid));
        if let Some(cursor) = saved.primary {
            self.put_cursor_back(&cursor);
        }
    }
}

/// The last row of `from..end` that is not blank.
pub open spec fn last_content(state: TerminalState, from: int, end: int) -> Option<int>
    decreases end - from,
{
    if end <= from {
        None
    } else if !row_is_blank(state, end - 1) {
        Some(end - 1)
    } else {
        last_content(state, from, end - 1)
    }
}

/// The first screen row at or behind a stable line number, or the height.
pub open spec fn row_at_or_behind(state: TerminalState, line_id: u64) -> int {
    if line_id <= state.total_lines_scrolled {
        0
    } else if line_id - state.total_lines_scrolled < state.rows() {
        line_id - state.total_lines_scrolled
    } else {
        state.rows()
    }
}

impl TerminalState {
    /// The stable number of the last row of the primary screen at or behind a
    /// position that is not blank.
    pub fn primary_content_extent_from(&self, start: BufferAnchor) -> (line_id: Option<u64>)
        requires
            self.core_wf(),
        ensures
            line_id == if self.use_alt_buffer {
                None
            } else {
                match last_content(*self, row_at_or_behind(*self, start.line_id), self.rows()) {
                    Some(row) => Some(saturating_sum(self.total_lines_scrolled, row)),
                    None => None,
                }
            },
    {
        if self.use_alt_buffer {
            return None;
        }
        let rows: usize = self.grid.rows();
        let behind: u64 = start.line_id.saturating_sub(self.total_lines_scrolled);
        let first: usize = if behind < rows as u64 {
            behind as usize
        } else {
            rows
        };
        let mut row: usize = rows;
        while row > first
            invariant
                self.core_wf(),
                !self.use_alt_buffer,
                first == row_at_or_behind(*self, start.line_id),
                first <= row <= self.rows(),
                last_content(*self, first as int, self.rows()) == last_content(
                    *self,
                    first as int,
                    row as int,
                ),
            decreases row,
        {
            row = row - 1;
            if !self.line_is_blank(row) {
                return Some(self.total_lines_scrolled.saturating_add(row as u64));
            }
        }
        None
    }
}

/// What an application does on the alternate screen leaves no trace: when it
/// is left, the primary screen is as it was, and so are the cursor and the
/// attributes.
pub proof fn alternate_screen_round_trip(
    pre: TerminalState,
    clear: bool,
    entered: TerminalState,
    later: TerminalState,
    post: TerminalState,
)
    requires
        pre.core_wf(),
        !pre.use_alt_buffer,
        alternate_entered(pre, clear, entered),
        later.use_alt_buffer,
        later.alt_grid == entered.alt_grid,
        later.saved.primary == entered.saved.primary,
        alternate_left(later, post),
    ensures
        !post.use_alt_buffer,
        post.grid == pre.grid,
        captured_cursor(post) == captured_cursor(pre),
{
    let saved = SavedCursors { primary: Some(captured_cursor(pre)), ..pre.saved };
    let mid = choose|mid: TerminalState|
        {
            &&& #[trigger] screens_exchanged(pre, mid)
            &&& alternate_prepared(mid, saved, clear, entered)
        };
    assert(screens_exchanged(pre, mid));
    let left = TerminalState {
        saved: SavedCursors {
            primary: None,
            alt_row: later.cursor_row,
            alt_col: later.cursor_col,
            ..later.saved
        },
        ..later
    };
    let back = choose|back: TerminalState|
        {
            &&& #[trigger] screens_exchanged(left, back)
            &&& primary_cursor_back(back, later.saved, post)
        };
    assert(screens_exchanged(left, back));
    let cursor = captured_cursor(pre);
    assert(cursor_put_back(back, cursor, post));
    modes_are_independent(back.modes, 7, cursor.autowrap, 7);
}

} // verus!
