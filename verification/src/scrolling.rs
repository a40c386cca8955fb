//! Row identity, history and scroll regions.

use vstd::prelude::*;

use crate::caches::ViewCaches;
use crate::cell::TerminalCell;
use crate::grid::blank_line;
use crate::grid::scrolled_down;
use crate::grid::scrolled_up;
use crate::grid::GridRow;
use crate::grid::Line;
use crate::grid::RawRowId;
use crate::history::history_advanced;
use crate::history::ScrollbackLine;
use crate::provenance::known_count;
use crate::provenance::outputs_dropped;
use crate::provenance::revision_after;
use crate::provenance::row_forgotten;
use crate::provenance::zones_hit;
use crate::provenance::zones_losing_row;
use crate::provenance::OutputProvenance;
use crate::provenance::RowSpan;
use crate::state::allocate_raw_row_id_from;
use crate::state::is_free;
use crate::state::lemma_free_dropped;
use crate::state::lemma_id_allocated;
use crate::state::lemma_ids_advance;
use crate::state::lemma_ids_drop_first;
use crate::state::lemma_ids_push;
use crate::state::lemma_names_dropped;
use crate::state::lemma_names_pushed;
use crate::state::lemma_names_replaced;
use crate::state::lemma_next_is_free;
use crate::state::lemma_scrolled_down;
use crate::state::lemma_scrolled_up;
use crate::state::next_id_after;
use crate::state::rows_named_once;
use crate::state::saturating_sum;
use crate::state::stamped;
use crate::state::wrapping_next;
use crate::state::TerminalState;
use crate::state::MAX_HISTORY_ROWS;

verus! {

/// The caches after the outputs `gone` were forgotten.
pub open spec fn caches_without(
    caches: ViewCaches,
    pre: OutputProvenance,
    gone: Set<u64>,
) -> ViewCaches {
    if known_count(pre.zones@, gone) > 0 {
        caches.plans_dropped()
    } else {
        caches
    }
}

/// `post` is `pre` after columns of physical rows changed: every finished
/// output that owns one of them is forgotten. The hidden alternate screen owns
/// none.
pub open spec fn spans_invalidated(
    pre: TerminalState,
    spans: Seq<RowSpan>,
    post: TerminalState,
) -> bool {
    if pre.use_alt_buffer {
        post == pre
    } else {
        let gone = zones_hit(pre.provenance.owner_map(), spans);
        &&& post == TerminalState { provenance: post.provenance, caches: post.caches, ..pre }
        &&& post.caches == caches_without(pre.caches, pre.provenance, gone)
        &&& post.provenance.active == pre.provenance.active
        &&& outputs_dropped(pre.provenance, gone, post.provenance)
    }
}

/// `post` is `pre` after physical row `id` disappeared.
pub open spec fn row_lost(pre: TerminalState, id: RawRowId, post: TerminalState) -> bool {
    &&& post == TerminalState { provenance: post.provenance, caches: post.caches, ..pre }
    &&& post.caches == caches_without(
        pre.caches,
        pre.provenance,
        zones_losing_row(pre.provenance, id),
    )
    &&& row_forgotten(pre.provenance, id, post.provenance)
}

/// Whether appending a row to the history pushes its oldest row out: it holds
/// as many rows as it may, or as can be counted.
pub open spec fn history_full(pre: TerminalState) -> bool {
    pre.scrollback@.len() >= pre.max_scrollback || pre.scrollback@.len() >= MAX_HISTORY_ROWS
}

/// `post` is `pre` after `line` entered the history. A reader above the live
/// edge keeps seeing the same rows.
pub open spec fn line_archived(pre: TerminalState, line: Line, post: TerminalState) -> bool {
    let full = history_full(pre);
    let kept = if full {
        pre.history().drop_first()
    } else {
        pre.history()
    };
    let lost = pre.history()[0].id;
    &&& post.history() == kept.push(line)
    &&& if full {
        row_forgotten(pre.provenance, lost, post.provenance)
    } else {
        post.provenance == pre.provenance
    }
    &&& post.total_lines_scrolled == saturating_sum(pre.total_lines_scrolled, 1)
    &&& post.scroll_offset == if pre.scroll_offset == 0 {
        0
    } else if pre.scroll_offset < post.scrollback@.len() {
        pre.scroll_offset + 1
    } else {
        post.scrollback@.len() as int
    }
    &&& post.row_identity_revision == wrapping_next(pre.row_identity_revision)
    &&& post.caches == if full {
        caches_without(
            pre.caches,
            pre.provenance,
            zones_losing_row(pre.provenance, lost),
        ).views_dropped()
    } else {
        pre.caches.views_dropped()
    }
    &&& post == TerminalState {
        scrollback: post.scrollback,
        provenance: post.provenance,
        total_lines_scrolled: post.total_lines_scrolled,
        scroll_offset: post.scroll_offset,
        row_identity_revision: post.row_identity_revision,
        caches: post.caches,
        ..pre
    }
}

/// Whether scrolling up at `top` moves rows into the history: only rows that
/// leave the top of the screen, and on the alternate screen only while
/// synchronized output is on.
pub open spec fn archives_rows(pre: TerminalState, top: int) -> bool {
    top == 0 && (!pre.use_alt_buffer || pre.sync_output_active)
}

/// `post` is `pre` after rows `top..=bottom` of the screen itself moved up by
/// one.
pub open spec fn grid_moved_up(
    pre: TerminalState,
    top: int,
    bottom: int,
    post: TerminalState,
) -> bool {
    &&& post.grid.cols == pre.grid.cols
    &&& post.grid@ == scrolled_up(
        pre.grid@,
        top,
        bottom,
        blank_line(pre.cols(), pre.blank(), RawRowId { raw: pre.next_raw_row_id }),
    )
    &&& post.row_versions@ == stamped(pre.row_versions@, top, bottom, pre.grid_version)
    &&& post.next_raw_row_id == next_id_after(pre.next_raw_row_id)
    &&& post.row_identity_revision == wrapping_next(pre.row_identity_revision)
    &&& post.caches == pre.caches.views_dropped()
    &&& post.dirty_region == pre.dirty_region.marked(top as usize, bottom as usize)
    &&& post == TerminalState {
        grid: post.grid,
        row_versions: post.row_versions,
        next_raw_row_id: post.next_raw_row_id,
        row_identity_revision: post.row_identity_revision,
        caches: post.caches,
        dirty_region: post.dirty_region,
        ..pre
    }
}

/// `post` is `pre` after rows `top..=bottom` of the screen itself moved down
/// by one.
pub open spec fn grid_moved_down(
    pre: TerminalState,
    top: int,
    bottom: int,
    post: TerminalState,
) -> bool {
    &&& post.grid.cols == pre.grid.cols
    &&& post.grid@ == scrolled_down(
        pre.grid@,
        top,
        bottom,
        blank_line(pre.cols(), pre.blank(), RawRowId { raw: pre.next_raw_row_id }),
    )
    &&& post.row_versions@ == stamped(pre.row_versions@, top, bottom, pre.grid_version)
    &&& post.next_raw_row_id == next_id_after(pre.next_raw_row_id)
    &&& post.row_identity_revision == wrapping_next(pre.row_identity_revision)
    &&& post.caches == pre.caches.views_dropped()
    &&& post.dirty_region == pre.dirty_region.marked(top as usize, bottom as usize)
    &&& post == TerminalState {
        grid: post.grid,
        row_versions: post.row_versions,
        next_raw_row_id: post.next_raw_row_id,
        row_identity_revision: post.row_identity_revision,
        caches: post.caches,
        dirty_region: post.dirty_region,
        ..pre
    }
}

/// `post` is `pre` after rows `top..=bottom` scrolled up by one.
pub open spec fn region_scrolled_up(
    pre: TerminalState,
    top: int,
    bottom: int,
    post: TerminalState,
) -> bool {
    if bottom >= pre.rows() || top > bottom {
        post == pre
    } else if archives_rows(pre, top) {
        exists|mid: TerminalState|
            {
                &&& #[trigger] grid_moved_up(pre, top, bottom, mid)
                &&& archived_and_counted(mid, pre.grid@[top], bottom, post)
            }
    } else {
        exists|mid: TerminalState|
            {
                &&& #[trigger] row_lost(pre, pre.grid@[top].id, mid)
                &&& grid_moved_up(mid, top, bottom, post)
            }
    }
}

/// `post` is `pre` after `line` entered the history; a scroll of the whole
/// primary screen is counted.
pub open spec fn archived_and_counted(
    pre: TerminalState,
    line: Line,
    bottom: int,
    post: TerminalState,
) -> bool {
    let whole = !pre.use_alt_buffer && bottom + 1 == pre.rows();
    let counted = TerminalState {
        full_screen_scroll_revision: if whole {
            revision_after(pre.full_screen_scroll_revision, 1)
        } else {
            pre.full_screen_scroll_revision
        },
        ..pre
    };
    line_archived(counted, line, post)
}

/// `post` is `pre` after rows `top..=bottom` scrolled down by one; the bottom
/// row is lost.
pub open spec fn region_scrolled_down(
    pre: TerminalState,
    top: int,
    bottom: int,
    post: TerminalState,
) -> bool {
    if bottom >= pre.rows() || top > bottom {
        post == pre
    } else {
        exists|mid: TerminalState|
            {
                &&& #[trigger] row_lost(pre, pre.grid@[bottom].id, mid)
                &&& grid_moved_down(mid, top, bottom, post)
            }
    }
}

impl TerminalState {
    /// Hands out a row identity that no row has.
    pub fn fresh_raw_row_id(&mut self) -> (id: RawRowId)
        ensures
            id == (RawRowId { raw: old(self).next_raw_row_id }),
            *final(self) == (TerminalState {
                next_raw_row_id: next_id_after(old(self).next_raw_row_id),
                ..*old(self)
            }),
    {
        allocate_raw_row_id_from(&mut self.next_raw_row_id)
    }

    /// Stamps `row` with the current version.
    pub fn mark_row_dirty(&mut self, row: usize)
        ensures
            final(self).row_versions@ == stamped(
                old(self).row_versions@,
                row as int,
                row as int,
                old(self).grid_version,
            ),
            *final(self) == (TerminalState {
                row_versions: final(self).row_versions,
                ..*old(self)
            }),
    {
        if row < self.row_versions.len() {
            self.row_versions[row] = self.grid_version;
        }
        assert(self.row_versions@ =~= stamped(
            old(self).row_versions@,
            row as int,
            row as int,
            old(self).grid_version,
        ));
    }

    /// Stamps rows `start..=end` with the current version.
    pub fn mark_rows_dirty(&mut self, start: usize, end: usize)
        ensures
            final(self).row_versions@ == stamped(
                old(self).row_versions@,
                start as int,
                end as int,
                old(self).grid_version,
            ),
            *final(self) == (TerminalState {
                row_versions: final(self).row_versions,
                ..*old(self)
            }),
    {
        let mut row: usize = start;
        while row < self.row_versions.len() && row <= end
            invariant
                start <= row,
                row <= end + 1 || row == start,
                self.row_versions@ == stamped(
                    old(self).row_versions@,
                    start as int,
                    row - 1,
                    old(self).grid_version,
                ),
                self.grid_version == old(self).grid_version,
                *self == (TerminalState { row_versions: self.row_versions, ..*old(self) }),
            decreases self.row_versions@.len() - row,
        {
            self.row_versions[row] = self.grid_version;
            row = row + 1;
            assert(self.row_versions@ =~= stamped(
                old(self).row_versions@,
                start as int,
                row - 1,
                old(self).grid_version,
            ));
        }
        assert(self.row_versions@ =~= stamped(
            old(self).row_versions@,
            start as int,
            end as int,
            old(self).grid_version,
        ));
    }

    /// Records that rows moved or were replaced.
    pub fn mark_row_identity_changed(&mut self)
        ensures
            *final(self) == (TerminalState {
                row_identity_revision: wrapping_next(old(self).row_identity_revision),
                caches: old(self).caches.views_dropped(),
                ..*old(self)
            }),
            old(self).caches.wf() ==> final(self).caches.wf(),
    {
        self.row_identity_revision = self.row_identity_revision.wrapping_add(1);
        self.caches.drop_views();
    }

    /// Columns of physical rows change: forgets the finished outputs that own
    /// one of them.
    pub fn invalidate_finished_output_spans(&mut self, spans: &Vec<RowSpan>)
        requires
            old(self).provenance.wf(),
        ensures
            final(self).provenance.wf(),
            spans_invalidated(*old(self), spans@, *final(self)),
            old(self).caches.wf() ==> final(self).caches.wf(),
    {
        if self.use_alt_buffer {
            return;
        }
        let list = self.provenance.zones_overlapping(spans);
        if self.provenance.unregister_all(&list) {
            self.caches.drop_plans();
        }
    }

    /// Forgets what is known of the output on physical row `id`.
    pub fn forget_output_provenance_for_raw_row(&mut self, id: RawRowId)
        requires
            old(self).provenance.wf(),
        ensures
            final(self).provenance.wf(),
            row_lost(*old(self), id, *final(self)),
            old(self).caches.wf() ==> final(self).caches.wf(),
    {
        if self.provenance.forget_row(id) {
            self.caches.drop_plans();
        }
    }

    /// Drops the oldest row of a history that is full.
    fn make_room_in_history(&mut self)
        requires
            old(self).loose_wf(),
        ensures
            final(self).history() == if history_full(*old(self)) {
                old(self).history().drop_first()
            } else {
                old(self).history()
            },
            final(self).provenance.wf(),
            final(self).caches.wf(),
            if history_full(*old(self)) {
                &&& row_forgotten(
                    old(self).provenance,
                    old(self).history()[0].id,
                    final(self).provenance,
                )
                &&& final(self).caches == caches_without(
                    old(self).caches,
                    old(self).provenance,
                    zones_losing_row(old(self).provenance, old(self).history()[0].id),
                )
            } else {
                &&& final(self).provenance == old(self).provenance
                &&& final(self).caches == old(self).caches
            },
            *final(self) == (TerminalState {
                scrollback: final(self).scrollback,
                provenance: final(self).provenance,
                caches: final(self).caches,
                ..*old(self)
            }),
    {
        let ghost before = self.history();
        if self.scrollback.len() >= self.max_scrollback || self.scrollback.len()
            >= MAX_HISTORY_ROWS {
            if let Some(evicted) = self.scrollback.pop_front() {
                assert(evicted@ == before[0]);
                assert(self.history() =~= before.drop_first());
                let id = evicted.raw_row_id();
                self.forget_output_provenance_for_raw_row(id);
            }
        }
    }

    /// Appends `line` to the history. Its identity may still belong to a row
    /// of the screen.
    #[verifier::rlimit(40)]
    pub(crate) fn append_history_line(&mut self, line: ScrollbackLine)
        requires
            old(self).loose_wf(),
            old(self).next_raw_row_id == 0 || line@.id.raw < old(self).next_raw_row_id,
        ensures
            final(self).loose_wf(),
            line_archived(*old(self), line@, *final(self)),
    {
        let ghost before = self.history();
        self.make_room_in_history();
        let ghost kept = self.history();
        proof {
            if history_full(*old(self)) {
                lemma_ids_drop_first(before, self.next_raw_row_id);
            }
            lemma_ids_push(kept, line@, self.next_raw_row_id);
        }
        self.scrollback.push_back(line);
        assert(self.history() =~= kept.push(line@));
        self.total_lines_scrolled = self.total_lines_scrolled.saturating_add(1);
        if self.scroll_offset > 0 {
            self.scroll_offset = if self.scroll_offset < self.scrollback.len() {
                self.scroll_offset + 1
            } else {
                self.scrollback.len()
            };
        }
        self.mark_row_identity_changed();
    }

    /// Appends `line` to the history. The hidden alternate screen keeps none
    /// unless `allow_alt_buffer` says so.
    pub fn push_scrollback_line(&mut self, line: ScrollbackLine, allow_alt_buffer: bool)
        requires
            old(self).core_wf(),
            old(self).next_raw_row_id == 0 || line@.id.raw < old(self).next_raw_row_id,
            is_free(line@.id, old(self).history()),
            is_free(line@.id, old(self).grid@),
            is_free(line@.id, old(self).alt_grid@),
        ensures
            final(self).core_wf(),
            if old(self).use_alt_buffer && !allow_alt_buffer {
                *final(self) == *old(self)
            } else {
                line_archived(*old(self), line@, *final(self))
            },
    {
        if self.use_alt_buffer && !allow_alt_buffer {
            return;
        }
        let ghost new_line = line@;
        self.append_history_line(line);
        proof {
            lemma_archived_names(*old(self), self.grid@, new_line, *self);
        }
    }
}

/// A row under an identity of its own may enter the history.
pub proof fn lemma_archived_names(
    pre: TerminalState,
    screen: Seq<Line>,
    line: Line,
    post: TerminalState,
)
    requires
        pre.loose_wf(),
        rows_named_once(pre.history(), screen, pre.alt_grid@),
        line_archived(pre, line, post),
        is_free(line.id, pre.history()),
        is_free(line.id, screen),
        is_free(line.id, pre.alt_grid@),
    ensures
        rows_named_once(post.history(), screen, post.alt_grid@),
{
    let history = pre.history();
    if history_full(pre) {
        lemma_names_dropped(history, screen, pre.alt_grid@);
        lemma_free_dropped(line.id, history);
        lemma_names_pushed(history.drop_first(), screen, pre.alt_grid@, line);
    } else {
        lemma_names_pushed(history, screen, pre.alt_grid@, line);
    }
}

impl TerminalState {
    /// Appends a copy of a row to the history, under an identity of its own.
    /// The hidden alternate screen keeps none unless `allow_alt_buffer` says
    /// so.
    pub fn push_scrollback_compressed_with_options(
        &mut self,
        line: ScrollbackLine,
        allow_alt_buffer: bool,
    )
        requires
            old(self).core_wf(),
        ensures
            final(self).core_wf(),
            if old(self).use_alt_buffer && !allow_alt_buffer {
                *final(self) == *old(self)
            } else {
                line_archived(
                    TerminalState {
                        next_raw_row_id: next_id_after(old(self).next_raw_row_id),
                        ..*old(self)
                    },
                    Line { id: RawRowId { raw: old(self).next_raw_row_id }, ..line@ },
                    *final(self),
                )
            },
    {
        if self.use_alt_buffer && !allow_alt_buffer {
            return;
        }
        proof {
            lemma_ids_advance(self.grid@, self.next_raw_row_id);
            lemma_ids_advance(self.alt_grid@, self.next_raw_row_id);
            lemma_ids_advance(self.history(), self.next_raw_row_id);
            lemma_next_is_free(self.grid@, self.next_raw_row_id);
            lemma_next_is_free(self.alt_grid@, self.next_raw_row_id);
            lemma_next_is_free(self.history(), self.next_raw_row_id);
        }
        let id = self.fresh_raw_row_id();
        let mut named = line;
        named.set_raw_row_id(id);
        self.push_scrollback_line(named, allow_alt_buffer);
    }

    /// Appends a copy of a row of the primary screen to the history.
    pub fn push_scrollback_compressed(&mut self, line: ScrollbackLine)
        requires
            old(self).core_wf(),
        ensures
            final(self).core_wf(),
            if old(self).use_alt_buffer {
                *final(self) == *old(self)
            } else {
                line_archived(
                    TerminalState {
                        next_raw_row_id: next_id_after(old(self).next_raw_row_id),
                        ..*old(self)
                    },
                    Line { id: RawRowId { raw: old(self).next_raw_row_id }, ..line@ },
                    *final(self),
                )
            },
    {
        self.push_scrollback_compressed_with_options(line, false);
    }

    /// The blank that erased cells become.
    pub fn create_blank_cell(&self) -> (cell: TerminalCell)
        ensures
            cell == self.blank(),
    {
        TerminalCell::blank(self.current_bg)
    }

    /// Moves rows `top..=bottom` of the screen up by one and hands out the row
    /// that left.
    pub fn move_rows_up(&mut self, top: usize, bottom: usize) -> (removed: GridRow)
        requires
            old(self).core_wf(),
            top <= bottom < old(self).rows(),
        ensures
            final(self).core_wf(),
            removed@ == old(self).grid@[top as int],
            grid_moved_up(*old(self), top as int, bottom as int, *final(self)),
            is_free(removed@.id, final(self).history()),
            is_free(removed@.id, final(self).grid@),
            is_free(removed@.id, final(self).alt_grid@),
    {
        let blank = self.create_blank_cell();
        let id = self.fresh_raw_row_id();
        proof {
            let pre = *old(self);
            lemma_scrolled_up(
                pre.grid@,
                top as int,
                bottom as int,
                pre.cols(),
                blank,
                pre.next_raw_row_id,
            );
            let fresh = blank_line(pre.cols(), blank, RawRowId { raw: pre.next_raw_row_id });
            let moved = scrolled_up(pre.grid@, top as int, bottom as int, fresh);
            assert(moved[bottom as int] == fresh);
            lemma_names_replaced(
                pre.history(),
                pre.grid@,
                pre.alt_grid@,
                top as int,
                moved,
                bottom as int,
                pre.next_raw_row_id,
            );
            lemma_ids_advance(pre.alt_grid@, pre.next_raw_row_id);
            lemma_ids_advance(pre.history(), pre.next_raw_row_id);
        }
        let removed = self.grid.scroll_up_one(top, bottom, blank, id);
        self.mark_row_identity_changed();
        self.dirty_region.mark_rows(top, bottom);
        self.mark_rows_dirty(top, bottom);
        removed
    }

    /// Moves rows `top..=bottom` of the screen down by one.
    pub fn move_rows_down(&mut self, top: usize, bottom: usize)
        requires
            old(self).core_wf(),
            top <= bottom < old(self).rows(),
        ensures
            final(self).core_wf(),
            grid_moved_down(*old(self), top as int, bottom as int, *final(self)),
    {
        let blank = self.create_blank_cell();
        let id = self.fresh_raw_row_id();
        proof {
            let pre = *old(self);
            lemma_scrolled_down(
                pre.grid@,
                top as int,
                bottom as int,
                pre.cols(),
                blank,
                pre.next_raw_row_id,
            );
            let fresh = blank_line(pre.cols(), blank, RawRowId { raw: pre.next_raw_row_id });
            let moved = scrolled_down(pre.grid@, top as int, bottom as int, fresh);
            assert(moved[top as int] == fresh);
            lemma_names_replaced(
                pre.history(),
                pre.grid@,
                pre.alt_grid@,
                bottom as int,
                moved,
                top as int,
                pre.next_raw_row_id,
            );
            lemma_ids_advance(pre.alt_grid@, pre.next_raw_row_id);
            lemma_ids_advance(pre.history(), pre.next_raw_row_id);
        }
        self.grid.scroll_down_one(top, bottom, blank, id);
        self.mark_row_identity_changed();
        self.dirty_region.mark_rows(top, bottom);
        self.mark_rows_dirty(top, bottom);
    }

    /// Scrolls rows `top..=bottom` down by one; the bottom row is lost.
    pub fn scroll_region_down(&mut self, top: usize, bottom: usize)
        requires
            old(self).core_wf(),
        ensures
            final(self).core_wf(),
            region_scrolled_down(*old(self), top as int, bottom as int, *final(self)),
    {
        if bottom >= self.grid.rows() || top > bottom {
            return;
        }
        let lost = self.grid.row_id(bottom);
        self.forget_output_provenance_for_raw_row(lost);
        self.move_rows_down(top, bottom);
    }

    /// Scrolls rows `top..=bottom` up by one. A row that leaves the top of the
    /// screen enters the history under its identity; any other is lost.
    pub fn scroll_region_up(&mut self, top: usize, bottom: usize)
        requires
            old(self).core_wf(),
        ensures
            final(self).core_wf(),
            region_scrolled_up(*old(self), top as int, bottom as int, *final(self)),
    {
        if bottom >= self.grid.rows() || top > bottom {
            return;
        }
        if top == 0 && (!self.use_alt_buffer || self.sync_output_active) {
            let removed = self.move_rows_up(top, bottom);
            let ghost mid = *self;
            proof {
                lemma_id_allocated(old(self).grid@, top as int, old(self).next_raw_row_id);
            }
            if !self.use_alt_buffer && bottom + 1 == self.grid.rows() {
                if self.full_screen_scroll_revision != 0 {
                    self.full_screen_scroll_revision =
                    match self.full_screen_scroll_revision.checked_add(1) {
                        Some(next) => next,
                        None => 0,
                    };
                }
            }
            self.push_scrollback_line(ScrollbackLine::from_row(removed), true);
            assert(archived_and_counted(mid, old(self).grid@[top as int], bottom as int, *self));
        } else {
            let lost = self.grid.row_id(top);
            self.forget_output_provenance_for_raw_row(lost);
            let _ = self.move_rows_up(top, bottom);
        }
    }
}

/// A reader above the live edge keeps seeing the same rows while the history
/// grows, for as long as it holds them; a reader at the live edge stays there.
pub proof fn readers_keep_their_place(pre: TerminalState, line: Line, post: TerminalState)
    requires
        pre.core_wf(),
        line_archived(pre, line, post),
        pre.total_lines_scrolled < u64::MAX,
    ensures
        pre.scroll_offset == 0 ==> post.scroll_offset == 0,
        0 < pre.scroll_offset < post.scrollback@.len() ==> post.total_lines_scrolled
            - post.scroll_offset == pre.total_lines_scrolled - pre.scroll_offset,
        0 < pre.scroll_offset < post.scrollback@.len() ==> post.history()[post.scrollback@.len()
            - post.scroll_offset] == pre.history()[pre.scrollback@.len() - pre.scroll_offset],
{
    if 0 < pre.scroll_offset < post.scrollback@.len() {
        let at = pre.scrollback@.len() - pre.scroll_offset;
        let kept = if history_full(pre) {
            pre.history().drop_first()
        } else {
            pre.history()
        };
        assert(post.history().len() == kept.len() + 1);
        let now = post.scrollback@.len() - post.scroll_offset;
        assert(kept.push(line)[now] == kept[now]);
        assert(kept[now] == pre.history()[at]);
    }
}

/// When a row enters the history, the history loses at most its oldest row.
pub proof fn archiving_advances_history(pre: TerminalState, line: Line, post: TerminalState)
    requires
        pre.core_wf(),
        line_archived(pre, line, post),
        pre.total_lines_scrolled < u64::MAX,
    ensures
        history_advanced(
            pre.history(),
            post.history(),
            post.first_line_id() - pre.first_line_id(),
            post.total_lines_scrolled - pre.total_lines_scrolled,
        ),
{
    let evicted: int = if history_full(pre) {
        1
    } else {
        0
    };
    let stay = pre.history().len() - evicted;
    assert(post.history().len() == stay + 1);
    assert(post.history().take(stay) =~= pre.history().skip(evicted));
}

/// A row that scrolls off the top of the primary screen is the newest row of
/// the history, with its identity; the rows below it move up, and no other row
/// changes.
pub proof fn scrolled_rows_enter_the_history(pre: TerminalState, bottom: int, post: TerminalState)
    requires
        pre.core_wf(),
        !pre.use_alt_buffer,
        0 <= bottom < pre.rows(),
        region_scrolled_up(pre, 0, bottom, post),
    ensures
        post.history().last() == pre.grid@[0],
        post.grid@.len() == pre.grid@.len(),
        forall|r: int| 0 <= r < bottom ==> #[trigger] post.grid@[r] == pre.grid@[r + 1],
        forall|r: int| bottom < r < pre.rows() ==> #[trigger] post.grid@[r] == pre.grid@[r],
        post.alt_grid == pre.alt_grid,
{
    let mid = choose|mid: TerminalState|
        {
            &&& #[trigger] grid_moved_up(pre, 0, bottom, mid)
            &&& archived_and_counted(mid, pre.grid@[0], bottom, post)
        };
    assert(grid_moved_up(pre, 0, bottom, mid));
    assert(archived_and_counted(mid, pre.grid@[0], bottom, post));
}

} // verus!
