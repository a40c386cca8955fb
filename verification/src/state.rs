//! The terminal state and its invariant.

use std::collections::VecDeque;
use std::time::Instant;
use vstd::prelude::*;

use crate::caches::ViewCaches;
use crate::cell::blank_cell;
use crate::cell::paired;
use crate::cell::CellRole;
use crate::cell::Color;
use crate::cell::HyperlinkId;
use crate::cell::StyleFlags;
use crate::cell::TerminalCell;
use crate::commands::captured_total;
use crate::commands::outputs_bounded;
use crate::commands::record_models;
use crate::commands::ClearedBlocks;
use crate::commands::CommandLog;
use crate::commands::CommandMark;
use crate::commands::MAX_COMMAND_MARKS;
use crate::grid::blank_line;
use crate::grid::repeated;
use crate::grid::scrolled_down;
use crate::grid::scrolled_up;
use crate::grid::with_cells;
use crate::grid::CursorShape;
use crate::grid::DirtyRegion;
use crate::grid::Line;
use crate::grid::RawRowId;
use crate::grid::TerminalGrid;
use crate::history::history_lines;
use crate::history::ScrollbackLine;
use crate::host::HostState;
use crate::host::MAX_HYPERLINKS;
use crate::modes::TerminalModes;
use crate::projection::ProjectedSelection;
use crate::provenance::OutputProvenance;

verus! {

/// Most rows of history that can be counted together with the screen. No
/// machine has room for as many.
pub const MAX_HISTORY_ROWS: usize = usize::MAX / 2;

/// A character set designated to G0 or G1.
#[derive(Clone, Copy, Debug, PartialEq, Eq, Structural)]
pub enum Charset {
    Ascii,
    DecSpecialGraphics,
}

/// The state of one terminal.
pub struct TerminalState {
    pub grid: TerminalGrid,
    pub alt_grid: TerminalGrid,
    pub scrollback: VecDeque<ScrollbackLine>,
    pub scroll_offset: usize,
    pub max_scrollback: usize,
    pub use_alt_buffer: bool,
    pub cursor_row: usize,
    pub cursor_col: usize,
    pub last_printed_char: Option<char>,
    pub pending_wrap: bool,
    pub current_fg: Color,
    pub current_bg: Color,
    pub current_flags: StyleFlags,
    pub current_hyperlink: HyperlinkId,
    pub scroll_region_top: usize,
    pub scroll_region_bottom: usize,
    pub g0_charset: Charset,
    pub g1_charset: Charset,
    pub active_charset: Charset,
    pub modes: TerminalModes,
    /// Whether printing moves the cells behind the cursor (ANSI mode 4).
    pub insert_mode: bool,
    /// Whether rows are addressed within the scroll region (private mode 6).
    pub origin_mode: bool,
    pub dirty_region: DirtyRegion,
    pub grid_version: u64,
    pub row_versions: Vec<u64>,
    pub caches: ViewCaches,
    pub sync_output_active: bool,
    pub total_lines_scrolled: u64,
    pub next_raw_row_id: u64,
    pub row_identity_revision: u64,
    pub full_screen_scroll_revision: u64,
    pub provenance: OutputProvenance,
    pub log: CommandLog,
    /// What undoing the last clearing of blocks brings back.
    pub cleared_blocks: Option<ClearedBlocks>,
    pub command_marks: VecDeque<CommandMark>,
    pub current_working_dir: Option<String>,
    pub selection: Option<Selection>,
    pub projected_selection: Option<ProjectedSelection>,
    pub selection_revision: u64,
    pub saved: SavedCursors,
    pub tab_stops: Vec<bool>,
    pub cursor_shape: CursorShape,
    pub sync_output_start: Option<u64>,
    pub last_archived_screen_snapshot: Vec<Vec<char>>,
    pub last_synced_primary_screen_snapshot: Vec<Vec<char>>,
    pub keyboard: KeyboardState,
    pub host: HostState,
    pub parser: ParserState,
    pub ime: ImeState,
    /// When this terminal's monotonic clock read zero.
    pub epoch: Instant,
}

/// A point of the machine's monotonic clock (`std::time::Instant`), carried
/// through as it is.
#[verifier::external_type_specification]
#[verifier::external_body]
pub struct ExInstant(Instant);

/// What the input so far is in the middle of.
#[derive(Clone, Copy, Debug, PartialEq, Eq, Structural)]
pub enum ParserMode {
    /// Plain text.
    Ground,
    /// Behind an escape character.
    Escape,
    /// Behind the introducer of a character-set designation.
    Charset,
    /// In a control sequence.
    Csi,
    /// In an operating-system command.
    Osc,
    /// In a string whose contents count for nothing.
    Opaque,
}

/// Input that waits for its continuation.
pub struct ParserState {
    pub mode: ParserMode,
    /// The unfinished escape sequence from its escape character on.
    pub pending: Vec<u8>,
    /// The unfinished multi-byte character.
    pub utf8: Vec<u8>,
}

impl ParserState {
    /// A sequence that has been introduced has its introducer.
    pub open spec fn wf(self) -> bool {
        match self.mode {
            ParserMode::Ground => true,
            ParserMode::Escape => true,
            _ => self.pending@.len() >= 2,
        }
    }
}

/// Text that an input method is composing.
pub struct ImeState {
    pub preedit_text: String,
    pub preedit_cursor: usize,
}

/// How a selection extends between its ends.
#[derive(Clone, Copy, Debug, PartialEq, Eq, Structural)]
pub enum SelectionMode {
    Normal,
    Block,
}

/// A selection between two cells, each given as absolute row and column.
#[derive(Clone, Copy, Debug, PartialEq, Eq)]
pub struct Selection {
    pub anchor: (usize, usize),
    pub active: (usize, usize),
    pub mode: SelectionMode,
}

/// The cursor with everything that goes with it.
#[derive(Clone, Copy, Debug)]
pub struct SavedCursorState {
    pub row: usize,
    pub col: usize,
    pub fg: Color,
    pub bg: Color,
    pub flags: StyleFlags,
    pub g0: Charset,
    pub g1: Charset,
    pub active: Charset,
    pub origin_mode: bool,
    pub autowrap: bool,
    pub pending_wrap: bool,
}

/// Saved cursors: by request, of the primary screen while the alternate one is
/// shown, and where the alternate screen left off.
#[derive(Clone, Copy, Debug)]
pub struct SavedCursors {
    pub requested: Option<SavedCursorState>,
    pub primary: Option<SavedCursorState>,
    pub alt_row: usize,
    pub alt_col: usize,
}

/// Keyboard protocol settings. Each screen has its own enhancement flags; those
/// of the hidden screen wait aside.
pub struct KeyboardState {
    pub enhancement_flags: u16,
    pub enhancement_stack: Vec<u16>,
    pub hidden_flags: u16,
    pub hidden_stack: Vec<u16>,
    pub modify_other_keys: u16,
    pub format_other_keys: u16,
}

/// Every identity in `lines` was handed out by an allocator that now stands at
/// `next`; zero means that the allocator is exhausted.
#[verifier::opaque]
pub open spec fn ids_allocated(lines: Seq<Line>, next: u64) -> bool {
    next == 0 || forall|r: int| 0 <= r < lines.len() ==> (#[trigger] lines[r]).id.raw < next
}

/// No two rows share an identity; rows without one do not count.
pub open spec fn once(lines: Seq<Line>) -> bool {
    forall|i: int, j: int|
        0 <= i < j < lines.len() ==> (#[trigger] lines[i]).id.raw == 0 || lines[i].id != (
        #[trigger] lines[j]).id
}

/// No row of `a` shares its identity with one of `b`.
pub open spec fn apart(a: Seq<Line>, b: Seq<Line>) -> bool {
    forall|i: int, j: int|
        0 <= i < a.len() && 0 <= j < b.len() ==> (#[trigger] a[i]).id.raw == 0 || a[i].id != (
        #[trigger] b[j]).id
}

/// No two rows of the history and the two screens share an identity.
#[verifier::opaque]
pub open spec fn rows_named_once(history: Seq<Line>, screen: Seq<Line>, hidden: Seq<Line>) -> bool {
    &&& once(history)
    &&& once(screen)
    &&& once(hidden)
    &&& apart(history, screen)
    &&& apart(history, hidden)
    &&& apart(screen, hidden)
}

/// Whether no row has an identity, or there is none to have.
pub open spec fn is_free(id: RawRowId, lines: Seq<Line>) -> bool {
    id.raw == 0 || forall|r: int| 0 <= r < lines.len() ==> (#[trigger] lines[r]).id != id
}

/// No row shows the right half of a double-width character without the left.
#[verifier::opaque]
pub open spec fn rows_paired(lines: Seq<Line>) -> bool {
    forall|r: int| 0 <= r < lines.len() ==> paired((#[trigger] lines[r]).cells)
}

/// Cleared commands are complete and keep the limits of the log.
#[verifier::opaque]
pub open spec fn stash_wf(stash: Option<ClearedBlocks>) -> bool {
    match stash {
        Some(blocks) => {
            let records = record_models(blocks.records@);
            &&& 0 < records.len() <= MAX_COMMAND_MARKS
            &&& forall|i: int| 0 <= i < records.len() ==> (#[trigger] records[i]).complete
            &&& outputs_bounded(records)
            &&& blocks.captured_bytes == captured_total(records)
        },
        None => true,
    }
}

impl TerminalState {
    /// Width of the screen.
    pub open spec fn cols(self) -> int {
        self.grid.cols as int
    }

    /// Height of the screen.
    pub open spec fn rows(self) -> int {
        self.grid@.len() as int
    }

    /// The scrollback, oldest row first.
    pub open spec fn history(self) -> Seq<Line> {
        history_lines(self.scrollback@)
    }

    /// Scrollback followed by the screen: the rows by absolute number.
    pub open spec fn document(self) -> Seq<Line> {
        self.history() + self.grid@
    }

    /// What erased cells become: a space on the current background.
    pub open spec fn blank(self) -> TerminalCell {
        blank_cell(self.current_bg)
    }

    /// The cells of screen row `r`.
    pub open spec fn row_cells(self, r: int) -> Seq<TerminalCell> {
        self.grid@[r].cells
    }

    /// What holds of a terminal between any two operations.
    pub open spec fn core_wf(self) -> bool {
        &&& self.loose_wf()
        &&& rows_named_once(self.history(), self.grid@, self.alt_grid@)
    }

    /// What holds even while rows are being moved and may be in two places.
    pub open spec fn loose_wf(self) -> bool {
        &&& self.grid.wf()
        &&& self.alt_grid.wf()
        &&& self.alt_grid.cols == self.grid.cols
        &&& self.alt_grid@.len() == self.grid@.len()
        &&& self.cursor_row < self.rows()
        &&& self.cursor_col < self.cols()
        &&& self.scroll_region_top <= self.scroll_region_bottom < self.rows()
        &&& self.row_versions@.len() == self.rows()
        &&& self.max_scrollback >= 1
        &&& self.scrollback@.len() <= self.max_scrollback
        &&& self.scrollback@.len() <= MAX_HISTORY_ROWS
        &&& self.scrollback@.len() <= self.total_lines_scrolled
        &&& self.scroll_offset <= self.scrollback@.len()
        &&& ids_allocated(self.grid@, self.next_raw_row_id)
        &&& ids_allocated(self.alt_grid@, self.next_raw_row_id)
        &&& ids_allocated(self.history(), self.next_raw_row_id)
        &&& rows_paired(self.grid@)
        &&& rows_paired(self.alt_grid@)
        &&& self.provenance.wf()
        &&& self.log@.wf()
        &&& stash_wf(self.cleared_blocks)
        &&& self.command_marks@.len() <= MAX_COMMAND_MARKS
        &&& self.host.hyperlinks@.len() <= MAX_HYPERLINKS
        &&& self.parser.wf()
        &&& self.caches.wf()
    }
}

/// The allocator after handing out `next`; it stops for good at zero.
pub open spec fn next_id_after(next: u64) -> u64 {
    if next == 0 || next == u64::MAX {
        0
    } else {
        (next + 1) as u64
    }
}

/// Hands out the next row identity; an exhausted allocator hands out the
/// untracked one.
pub fn allocate_raw_row_id_from(next: &mut u64) -> (id: RawRowId)
    ensures
        id == (RawRowId { raw: *old(next) }),
        *final(next) == next_id_after(*old(next)),
{
    if *next == 0 {
        return RawRowId::untracked();
    }
    let id = RawRowId { raw: *next };
    *next = match next.checked_add(1) {
        Some(n) => n,
        None => 0,
    };
    id
}

/// The sum, or the largest `u64`.
pub open spec fn saturating_sum(a: u64, b: int) -> u64 {
    if a + b > u64::MAX {
        u64::MAX
    } else {
        (a + b) as u64
    }
}

/// `n + 1`, starting over after the largest `u64`.
pub open spec fn wrapping_next(n: u64) -> u64 {
    if n == u64::MAX {
        0
    } else {
        (n + 1) as u64
    }
}

/// The version stamps after rows `first..=last` changed in version `version`.
pub open spec fn stamped(versions: Seq<u64>, first: int, last: int, version: u64) -> Seq<u64> {
    Seq::new(versions.len(), |r: int| if first <= r <= last { version } else { versions[r] })
}

/// A row under an already allocated identity may join the others.
pub proof fn lemma_ids_push(lines: Seq<Line>, line: Line, next: u64)
    requires
        ids_allocated(lines, next),
        next == 0 || line.id.raw < next,
    ensures
        ids_allocated(lines.push(line), next),
{
    reveal(ids_allocated);
}

/// Fewer rows need fewer identities.
pub proof fn lemma_ids_drop_first(lines: Seq<Line>, next: u64)
    requires
        ids_allocated(lines, next),
        lines.len() > 0,
    ensures
        ids_allocated(lines.drop_first(), next),
        next == 0 || lines[0].id.raw < next,
{
    reveal(ids_allocated);
}

/// Handing out one more identity keeps the earlier ones allocated.
pub proof fn lemma_ids_advance(lines: Seq<Line>, next: u64)
    requires
        ids_allocated(lines, next),
    ensures
        ids_allocated(lines, next_id_after(next)),
{
    reveal(ids_allocated);
}

/// A row of equal single-width cells splits no character.
pub proof fn lemma_blank_paired(cols: int, blank: TerminalCell)
    requires
        blank.flags.role == CellRole::Single,
    ensures
        paired(repeated(blank, cols)),
{
}

/// Moving rows up with a blank row entering keeps both row invariants.
pub proof fn lemma_scrolled_up(
    lines: Seq<Line>,
    top: int,
    bottom: int,
    cols: int,
    blank: TerminalCell,
    next: u64,
)
    requires
        0 <= top <= bottom < lines.len(),
        blank.flags.role == CellRole::Single,
    ensures
        ids_allocated(lines, next) ==> ids_allocated(
            scrolled_up(lines, top, bottom, blank_line(cols, blank, RawRowId { raw: next })),
            next_id_after(next),
        ),
        rows_paired(lines) ==> rows_paired(
            scrolled_up(lines, top, bottom, blank_line(cols, blank, RawRowId { raw: next })),
        ),
{
    reveal(ids_allocated);
    reveal(rows_paired);
    lemma_blank_paired(cols, blank);
    let fresh = blank_line(cols, blank, RawRowId { raw: next });
    let moved = scrolled_up(lines, top, bottom, fresh);
    assert forall|r: int| 0 <= r < moved.len() implies moved[r] == (if r < top {
        lines[r]
    } else if r < bottom {
        lines[r + 1]
    } else if r == bottom {
        fresh
    } else {
        lines[r]
    }) by {}
}

/// Moving rows down with a blank row entering keeps both row invariants.
pub proof fn lemma_scrolled_down(
    lines: Seq<Line>,
    top: int,
    bottom: int,
    cols: int,
    blank: TerminalCell,
    next: u64,
)
    requires
        0 <= top <= bottom < lines.len(),
        blank.flags.role == CellRole::Single,
    ensures
        ids_allocated(lines, next) ==> ids_allocated(
            scrolled_down(lines, top, bottom, blank_line(cols, blank, RawRowId { raw: next })),
            next_id_after(next),
        ),
        rows_paired(lines) ==> rows_paired(
            scrolled_down(lines, top, bottom, blank_line(cols, blank, RawRowId { raw: next })),
        ),
{
    reveal(ids_allocated);
    reveal(rows_paired);
    lemma_blank_paired(cols, blank);
    let fresh = blank_line(cols, blank, RawRowId { raw: next });
    let moved = scrolled_down(lines, top, bottom, fresh);
    assert forall|r: int| 0 <= r < moved.len() implies moved[r] == (if r < top {
        lines[r]
    } else if r == top {
        fresh
    } else if r <= bottom {
        lines[r - 1]
    } else {
        lines[r]
    }) by {}
}

/// The identity of a retained row was handed out earlier.
pub proof fn lemma_id_allocated(lines: Seq<Line>, r: int, next: u64)
    requires
        ids_allocated(lines, next),
        0 <= r < lines.len(),
    ensures
        next == 0 || lines[r].id.raw < next,
{
    reveal(ids_allocated);
}

/// Replacing the cells of one row by whole characters keeps both row
/// invariants.
pub proof fn lemma_with_cells(lines: Seq<Line>, r: int, cells: Seq<TerminalCell>, next: u64)
    requires
        0 <= r < lines.len(),
    ensures
        ids_allocated(lines, next) ==> ids_allocated(with_cells(lines, r, cells), next),
        rows_paired(lines) && paired(cells) ==> rows_paired(
            with_cells(lines, r, cells),
        ),
{
    reveal(ids_allocated);
    reveal(rows_paired);
}

/// Rows that keep their identities or lose them keep them apart.
pub proof fn lemma_names_kept(
    history: Seq<Line>,
    screen: Seq<Line>,
    hidden: Seq<Line>,
    now: Seq<Line>,
)
    requires
        rows_named_once(history, screen, hidden),
        forall|r: int|
            0 <= r < now.len() ==> (#[trigger] now[r]).id.raw == 0 || (r < screen.len()
                && now[r].id == screen[r].id),
    ensures
        rows_named_once(history, now, hidden),
{
    reveal(rows_named_once);
    assert forall|i: int, j: int| 0 <= i < j < now.len() implies (#[trigger] now[i]).id.raw == 0
        || now[i].id != (#[trigger] now[j]).id by {
        if i < screen.len() && j < screen.len() {
            assert(screen[i].id.raw == 0 || screen[i].id != screen[j].id);
        }
    }
    assert forall|i: int, j: int| 0 <= i < history.len() && 0 <= j < now.len() implies (
    #[trigger] history[i]).id.raw == 0 || history[i].id != (#[trigger] now[j]).id by {
        if j < screen.len() {
            assert(history[i].id.raw == 0 || history[i].id != screen[j].id);
        }
    }
    assert forall|i: int, j: int| 0 <= i < now.len() && 0 <= j < hidden.len() implies (
    #[trigger] now[i]).id.raw == 0 || now[i].id != (#[trigger] hidden[j]).id by {
        if i < screen.len() {
            assert(screen[i].id.raw == 0 || screen[i].id != hidden[j].id);
        }
    }
}

/// A row under an identity that no other has may enter the history.
pub proof fn lemma_names_pushed(
    history: Seq<Line>,
    screen: Seq<Line>,
    hidden: Seq<Line>,
    line: Line,
)
    requires
        rows_named_once(history, screen, hidden),
        is_free(line.id, history),
        is_free(line.id, screen),
        is_free(line.id, hidden),
    ensures
        rows_named_once(history.push(line), screen, hidden),
{
    reveal(rows_named_once);
}

/// The oldest row may leave the history; its identity is free then.
pub proof fn lemma_names_dropped(history: Seq<Line>, screen: Seq<Line>, hidden: Seq<Line>)
    requires
        rows_named_once(history, screen, hidden),
        history.len() > 0,
    ensures
        rows_named_once(history.drop_first(), screen, hidden),
{
    reveal(rows_named_once);
    let rest = history.drop_first();
    assert forall|i: int| 0 <= i < rest.len() implies #[trigger] rest[i] == history[i + 1] by {}
}

/// An identity that is free of some rows is free of fewer.
pub proof fn lemma_free_dropped(id: RawRowId, lines: Seq<Line>)
    requires
        is_free(id, lines),
        lines.len() > 0,
    ensures
        is_free(id, lines.drop_first()),
{
    let rest = lines.drop_first();
    assert forall|i: int| 0 <= i < rest.len() implies #[trigger] rest[i] == lines[i + 1] by {}
}

/// The two screens may be exchanged.
pub proof fn lemma_names_exchanged(history: Seq<Line>, screen: Seq<Line>, hidden: Seq<Line>)
    requires
        rows_named_once(history, screen, hidden),
    ensures
        rows_named_once(history, hidden, screen),
{
    reveal(rows_named_once);
    assert forall|i: int, j: int| 0 <= i < hidden.len() && 0 <= j < screen.len() implies (
    #[trigger] hidden[i]).id.raw == 0 || hidden[i].id != (#[trigger] screen[j]).id by {
        assert(screen[j].id.raw == 0 || screen[j].id != hidden[i].id);
    }
}

/// An identity that has not been handed out is free.
pub proof fn lemma_next_is_free(lines: Seq<Line>, next: u64)
    requires
        ids_allocated(lines, next),
    ensures
        is_free(RawRowId { raw: next }, lines),
{
    reveal(ids_allocated);
}

/// The first row of the screen may go to the history.
pub proof fn lemma_names_handed_over(history: Seq<Line>, screen: Seq<Line>, hidden: Seq<Line>)
    requires
        rows_named_once(history, screen, hidden),
        screen.len() > 0,
    ensures
        rows_named_once(history, screen.drop_first(), hidden),
        is_free(screen[0].id, history),
        is_free(screen[0].id, screen.drop_first()),
        is_free(screen[0].id, hidden),
{
    reveal(rows_named_once);
    let rest = screen.drop_first();
    assert forall|i: int| 0 <= i < rest.len() implies #[trigger] rest[i] == screen[i + 1] by {}
    assert forall|i: int| 0 <= i < history.len() implies (#[trigger] history[i]).id != screen[0].id
        || screen[0].id.raw == 0 by {
        assert(history[i].id.raw == 0 || history[i].id != screen[0].id);
    }
}

/// A fresh row may take the place of one that leaves; the identity of that one
/// is free then.
pub proof fn lemma_names_replaced(
    history: Seq<Line>,
    screen: Seq<Line>,
    hidden: Seq<Line>,
    gone: int,
    now: Seq<Line>,
    fresh: int,
    next: u64,
)
    requires
        rows_named_once(history, screen, hidden),
        ids_allocated(history, next),
        ids_allocated(screen, next),
        ids_allocated(hidden, next),
        0 <= gone < screen.len(),
        now.len() == screen.len(),
        0 <= fresh < now.len(),
        now == screen.remove(gone).insert(fresh, now[fresh]),
        now[fresh].id.raw == next,
    ensures
        rows_named_once(history, now, hidden),
        is_free(screen[gone].id, history),
        is_free(screen[gone].id, now),
        is_free(screen[gone].id, hidden),
{
    reveal(rows_named_once);
    reveal(ids_allocated);
    let from = |r: int|
        {
            let kept = if r < fresh {
                r
            } else {
                r - 1
            };
            if kept < gone {
                kept
            } else {
                kept + 1
            }
        };
    assert forall|r: int| 0 <= r < now.len() && r != fresh implies #[trigger] now[r] == screen[from(
        r,
    )] && 0 <= from(r) < screen.len() && from(r) != gone by {}
    assert forall|i: int, j: int| 0 <= i < j < now.len() implies (#[trigger] now[i]).id.raw == 0
        || now[i].id != (#[trigger] now[j]).id by {
        if i != fresh && j != fresh {
            assert(now[i] == screen[from(i)] && now[j] == screen[from(j)]);
            assert(from(i) < from(j));
        }
    }
    assert forall|i: int, j: int| 0 <= i < history.len() && 0 <= j < now.len() implies (
    #[trigger] history[i]).id.raw == 0 || history[i].id != (#[trigger] now[j]).id by {
        if j != fresh {
            assert(now[j] == screen[from(j)]);
        }
    }
    assert forall|i: int, j: int| 0 <= i < now.len() && 0 <= j < hidden.len() implies (
    #[trigger] now[i]).id.raw == 0 || now[i].id != (#[trigger] hidden[j]).id by {
        if i != fresh {
            assert(now[i] == screen[from(i)]);
        }
    }
    let id = screen[gone].id;
    assert forall|r: int| 0 <= r < now.len() && id.raw != 0 implies (#[trigger] now[r]).id
        != id by {
        if r != fresh {
            assert(now[r] == screen[from(r)]);
            if from(r) < gone {
                assert(screen[from(r)].id.raw == 0 || screen[from(r)].id != screen[gone].id);
            } else {
                assert(screen[gone].id.raw == 0 || screen[gone].id != screen[from(r)].id);
            }
        }
    }
    assert forall|r: int| 0 <= r < history.len() && id.raw != 0 implies (#[trigger] history[r]).id
        != id by {
        assert(history[r].id.raw == 0 || history[r].id != screen[gone].id);
    }
}

/// The next identity belongs to no row, on either screen or in the history.
pub proof fn fresh_identities_are_unused(state: TerminalState, r: int)
    requires
        state.core_wf(),
        state.next_raw_row_id != 0,
    ensures
        0 <= r < state.grid@.len() ==> state.grid@[r].id.raw != state.next_raw_row_id,
        0 <= r < state.alt_grid@.len() ==> state.alt_grid@[r].id.raw != state.next_raw_row_id,
        0 <= r < state.history().len() ==> state.history()[r].id.raw != state.next_raw_row_id,
{
    reveal(ids_allocated);
}

/// No two rows share an identity, wherever they are.
pub proof fn identities_are_distinct(state: TerminalState, i: int, j: int)
    requires
        state.core_wf(),
        0 <= i < j < (state.document() + state.alt_grid@).len(),
        (state.document() + state.alt_grid@)[i].id.raw != 0,
    ensures
        (state.document() + state.alt_grid@)[i].id != (state.document() + state.alt_grid@)[j].id,
{
    reveal(rows_named_once);
}

} // verus!
