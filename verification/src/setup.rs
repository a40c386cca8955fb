//! Making a terminal, resetting it, and bounding its history.

use std::collections::VecDeque;
use std::time::Instant;
use vstd::prelude::*;

use crate::caches::ViewCaches;
use crate::cell::blank_cell;
use crate::cell::no_hyperlink;
use crate::cell::paired;
use crate::cell::plain_flags;
use crate::cell::Color;
use crate::cell::HyperlinkId;
use crate::cell::StyleFlags;
use crate::clipboard::ClipboardReadRequest;
use crate::colors::Rgb;
use crate::commands::outputs_bounded;
use crate::commands::CommandLog;
use crate::commands::CommandMark;
use crate::commands::LogModel;
use crate::commands::PromptInput;
use crate::cursor::default_tab_stops;
use crate::cursor::every_eighth;
use crate::grid::blank_line;
use crate::grid::clamp_terminal_dimensions;
use crate::grid::repeated;
use crate::grid::spec_clamp;
use crate::grid::CursorShape;
use crate::grid::DirtyRegion;
use crate::grid::Line;
use crate::grid::RawRowId;
use crate::grid::TerminalGrid;
use crate::grid::MAX_TERMINAL_COLS;
use crate::grid::MAX_TERMINAL_ROWS;
use crate::history::ScrollbackLine;
use crate::host::HostState;
use crate::modes::modes_are_independent;
use crate::modes::TerminalModes;
use crate::provenance::FinishedOutputOwner;
use crate::provenance::FinishedOutputProvenance;
use crate::provenance::OutputProvenance;
use crate::scrolling::row_lost;
use crate::state::allocate_raw_row_id_from;
use crate::state::ids_allocated;
use crate::state::lemma_blank_paired;
use crate::state::lemma_ids_drop_first;
use crate::state::lemma_names_dropped;
use crate::state::rows_named_once;
use crate::state::rows_paired;
use crate::state::stash_wf;
use crate::state::wrapping_next;
use crate::state::Charset;
use crate::state::ImeState;
use crate::state::KeyboardState;
use crate::state::ParserMode;
use crate::state::ParserState;
use crate::state::SavedCursors;
use crate::state::TerminalState;

verus! {

/// Rows of history that a new terminal keeps.
pub const DEFAULT_MAX_SCROLLBACK: usize = 10000;

/// `Instant::now` of std: a reading of the monotonic clock.
pub assume_specification[ Instant::now ]() -> Instant;

/// The `k`-th identity that an allocator standing at `first` hands out; zero
/// once it is exhausted.
pub open spec fn nth_id(first: u64, k: int) -> u64 {
    if first == 0 || first + k > u64::MAX {
        0
    } else {
        (first + k) as u64
    }
}

/// How many of the first `n` rows have no identity.
pub open spec fn unnamed_before(lines: Seq<Line>, n: int) -> int
    decreases n,
{
    if n <= 0 {
        0
    } else {
        unnamed_before(lines, n - 1) + if lines[n - 1].id.raw == 0 {
            1int
        } else {
            0
        }
    }
}

/// The first `n` rows with identities for those that had none; the others as
/// they are.
pub open spec fn named_up_to(lines: Seq<Line>, first: u64, n: int) -> Seq<Line> {
    Seq::new(
        lines.len(),
        |r: int|
            if r < n && lines[r].id.raw == 0 {
                Line { id: RawRowId { raw: nth_id(first, unnamed_before(lines, r)) }, ..lines[r] }
            } else {
                lines[r]
            },
    )
}

/// The rows with identities for those that had none.
pub open spec fn named(lines: Seq<Line>, first: u64) -> Seq<Line> {
    named_up_to(lines, first, lines.len() as int)
}

/// Where the allocator stands after naming rows.
pub open spec fn after_naming(lines: Seq<Line>, first: u64) -> u64 {
    nth_id(first, unnamed_before(lines, lines.len() as int))
}

/// Naming rows gives each an identity of its own.
pub proof fn lemma_names_named(
    history: Seq<Line>,
    screen: Seq<Line>,
    hidden: Seq<Line>,
    first: u64,
)
    requires
        rows_named_once(history, screen, hidden),
        ids_allocated(history, first),
        ids_allocated(screen, first),
        ids_allocated(hidden, first),
    ensures
        rows_named_once(history, named(screen, first), hidden),
{
    reveal(rows_named_once);
    reveal(ids_allocated);
    let now = named(screen, first);
    assert forall|r: int| 0 <= r < now.len() implies {
        ||| #[trigger] now[r].id == screen[r].id
        ||| screen[r].id.raw == 0 && (now[r].id.raw == 0 || (first != 0 && now[r].id.raw == first
            + unnamed_before(screen, r)))
    } by {
        lemma_unnamed_monotonic(screen, 0, r);
    }
    assert forall|i: int, j: int| 0 <= i < j < now.len() implies (#[trigger] now[i]).id.raw == 0
        || now[i].id != (#[trigger] now[j]).id by {
        lemma_unnamed_monotonic(screen, i + 1, j);
        lemma_unnamed_monotonic(screen, 0, i);
        lemma_unnamed_monotonic(screen, 0, j);
        assert(unnamed_before(screen, i + 1) == unnamed_before(screen, i) + if screen[i].id.raw
            == 0 {
            1int
        } else {
            0
        });
        assert(screen[i].id.raw == 0 || screen[i].id != screen[j].id);
    }
    assert forall|i: int, j: int| 0 <= i < history.len() && 0 <= j < now.len() implies (
    #[trigger] history[i]).id.raw == 0 || history[i].id != (#[trigger] now[j]).id by {
        lemma_unnamed_monotonic(screen, 0, j);
        assert(history[i].id.raw == 0 || history[i].id != screen[j].id);
    }
    assert forall|i: int, j: int| 0 <= i < now.len() && 0 <= j < hidden.len() implies (
    #[trigger] now[i]).id.raw == 0 || now[i].id != (#[trigger] hidden[j]).id by {
        lemma_unnamed_monotonic(screen, 0, i);
        assert(screen[i].id.raw == 0 || screen[i].id != hidden[j].id);
    }
}

/// Naming rows moves the allocator forward, and never past an identity that
/// it handed out.
pub proof fn lemma_named(lines: Seq<Line>, others: Seq<Line>, first: u64)
    requires
        ids_allocated(lines, first),
        ids_allocated(others, first),
    ensures
        ids_allocated(named(lines, first), after_naming(lines, first)),
        ids_allocated(others, after_naming(lines, first)),
{
    reveal(ids_allocated);
    let n = lines.len() as int;
    lemma_unnamed_monotonic(lines, 0, n);
    assert forall|r: int| 0 <= r < lines.len() implies unnamed_before(lines, r)
        <= #[trigger] unnamed_before(lines, r + 1) <= unnamed_before(lines, n) by {
        lemma_unnamed_monotonic(lines, r + 1, n);
    }
    assert forall|r: int| 0 <= r < lines.len() && after_naming(lines, first) != 0 implies (
    #[trigger] named(lines, first)[r]).id.raw < after_naming(lines, first) by {
        assert(unnamed_before(lines, r + 1) <= unnamed_before(lines, n));
        assert(unnamed_before(lines, r + 1) == unnamed_before(lines, r) + if lines[r].id.raw == 0 {
            1int
        } else {
            0
        });
        lemma_unnamed_monotonic(lines, 0, r);
        assert(lines[r].id.raw < first);
    }
}

/// Later rows have at least as many unnamed ones before them.
proof fn lemma_unnamed_monotonic(lines: Seq<Line>, a: int, b: int)
    requires
        0 <= a <= b <= lines.len(),
    ensures
        0 <= unnamed_before(lines, a) <= unnamed_before(lines, b) <= b,
    decreases b,
{
    if a < b {
        lemma_unnamed_monotonic(lines, a, b - 1);
    } else if a > 0 {
        lemma_unnamed_monotonic(lines, a - 1, a - 1);
    }
}

/// Naming changes no cells.
pub proof fn lemma_named_paired(lines: Seq<Line>, first: u64)
    requires
        rows_paired(lines),
    ensures
        rows_paired(named(lines, first)),
{
    reveal(rows_paired);
    let out = named(lines, first);
    assert forall|r: int| 0 <= r < out.len() implies paired((#[trigger] out[r]).cells) by {
        assert(out[r].cells == lines[r].cells);
    }
}

/// Gives every row without an identity a fresh one.
pub fn name_rows(grid: &mut TerminalGrid, next: &mut u64)
    requires
        old(grid).wf(),
    ensures
        final(grid).wf(),
        final(grid).cols == old(grid).cols,
        final(grid)@ == named(old(grid)@, *old(next)),
        *final(next) == after_naming(old(grid)@, *old(next)),
{
    let ghost lines = grid@;
    let ghost first = *next;
    let total: usize = grid.rows.len();
    let mut r: usize = 0;
    assert(named_up_to(lines, first, 0) =~= lines);
    while r < total
        invariant
            r <= total,
            total == lines.len(),
            grid.wf(),
            grid.cols == old(grid).cols,
            grid@ == named_up_to(lines, first, r as int),
            *next == nth_id(first, unnamed_before(lines, r as int)),
        decreases total - r,
    {
        proof {
            lemma_unnamed_monotonic(lines, 0, r as int);
        }
        assert(grid@[r as int] == lines[r as int]);
        if grid.row_id(r).raw == 0 {
            let id = allocate_raw_row_id_from(next);
            grid.set_row_id(r, id);
        }
        assert(grid@ =~= named_up_to(lines, first, r + 1));
        r = r + 1;
    }
    assert(grid@ =~= named(lines, first));
}

/// A screen of default blanks whose rows were named from `first` on.
pub open spec fn fresh_screen(cols: int, rows: int, first: u64) -> Seq<Line> {
    Seq::new(
        rows as nat,
        |r: int|
            blank_line(cols, blank_cell(Color::Default), RawRowId { raw: nth_id(first, r) }),
    )
}

/// The state of the host side of a new terminal.
pub open spec fn fresh_host(host: HostState) -> bool {
    &&& host.window_title@ == Seq::<char>::empty()
    &&& host.icon_title@ == Seq::<char>::empty()
    &&& host.title_stack@.len() == 0
    &&& host.announced_jsh_session_id is None
    &&& host.pending_notifications@.len() == 0
    &&& host.output_buffer@.len() == 0
    &&& host.pending_osc52_clipboard_set is None
    &&& !host.pending_osc52_clipboard_query
    &&& host.dynamic_fg is None
    &&& host.dynamic_bg is None
    &&& host.dynamic_cursor_color is None
    &&& host.dynamic_palette@ == Seq::new(256, |i: int| None::<Rgb>)
    &&& host.pending_clipboard_requests@.len() == 0
    &&& host.pending_paste_grant is None
    &&& host.hyperlinks@.len() == 0
}

/// No command was seen.
pub open spec fn empty_log() -> LogModel {
    LogModel {
        records: Seq::empty(),
        next_sequence: 1,
        consumed_ids: Seq::empty(),
        events: Seq::empty(),
        captured_bytes: 0,
        prompt_input: PromptInput::Clean,
        armed: None,
    }
}

/// No keyboard protocol is in force.
pub open spec fn fresh_keyboard(keyboard: KeyboardState) -> bool {
    &&& keyboard.enhancement_flags == 0
    &&& keyboard.enhancement_stack@.len() == 0
    &&& keyboard.hidden_flags == 0
    &&& keyboard.hidden_stack@.len() == 0
    &&& keyboard.modify_other_keys == 0
    &&& keyboard.format_other_keys == 0
}

/// Both screens of a new terminal.
pub open spec fn fresh_screens(state: TerminalState, cols: int, rows: int, first: u64) -> bool {
    &&& state.grid.cols == cols
    &&& state.alt_grid.cols == cols
    &&& state.grid@ == fresh_screen(cols, rows, first)
    &&& state.alt_grid@ == fresh_screen(cols, rows, nth_id(first, rows))
    &&& state.next_raw_row_id == nth_id(nth_id(first, rows), rows)
    &&& !state.use_alt_buffer
    &&& state.history().len() == 0
    &&& state.scroll_offset == 0
    &&& state.total_lines_scrolled == 0
}

/// The cursor and the settings of a new terminal.
pub open spec fn fresh_settings(state: TerminalState, cols: int, rows: int) -> bool {
    &&& state.cursor_row == 0
    &&& state.cursor_col == 0
    &&& !state.pending_wrap
    &&& state.last_printed_char is None
    &&& state.current_fg == Color::Default
    &&& state.current_bg == Color::Default
    &&& state.current_flags == plain_flags()
    &&& state.current_hyperlink == no_hyperlink()
    &&& state.scroll_region_top == 0
    &&& state.scroll_region_bottom == rows - 1
    &&& state.g0_charset == Charset::Ascii
    &&& state.g1_charset == Charset::Ascii
    &&& state.active_charset == Charset::Ascii
    &&& forall|mode: u16| state.modes.has(mode) == (mode == 25 || mode == 7)
    &&& !state.insert_mode
    &&& !state.origin_mode
    &&& state.saved == (SavedCursors { requested: None, primary: None, alt_row: 0, alt_col: 0 })
    &&& state.tab_stops@ == every_eighth(cols)
    &&& state.cursor_shape == CursorShape::Block
    &&& fresh_keyboard(state.keyboard)
}

/// What a new terminal knows of its contents and remembers of views.
pub open spec fn fresh_bookkeeping(state: TerminalState, rows: int) -> bool {
    &&& state.dirty_region.span == Some((0usize, (rows - 1) as usize))
    &&& state.grid_version == 1
    &&& state.row_versions@ == Seq::new(rows as nat, |r: int| 1u64)
    &&& state.caches.is_empty()
    &&& !state.sync_output_active
    &&& state.sync_output_start is None
    &&& state.last_archived_screen_snapshot@.len() == 0
    &&& state.last_synced_primary_screen_snapshot@.len() == 0
    &&& state.full_screen_scroll_revision == 1
    &&& state.provenance.zones@ == Map::<u64, FinishedOutputProvenance>::empty()
    &&& state.provenance.owner_map() == Map::<u64, Seq<FinishedOutputOwner>>::empty()
    &&& state.provenance.revision == 1
    &&& state.provenance.active is None
    &&& state.cleared_blocks is None
    &&& state.command_marks@.len() == 0
    &&& state.current_working_dir is None
    &&& state.selection is None
    &&& state.projected_selection is None
    &&& state.selection_revision == 1
    &&& state.parser.mode == ParserMode::Ground
    &&& state.parser.pending@.len() == 0
    &&& state.parser.utf8@.len() == 0
    &&& state.ime.preedit_text@ == Seq::<char>::empty()
    &&& state.ime.preedit_cursor == 0
}

/// A new terminal of a given size.
pub open spec fn is_fresh(state: TerminalState, cols: int, rows: int) -> bool {
    &&& fresh_screens(state, cols, rows, 1)
    &&& fresh_settings(state, cols, rows)
    &&& fresh_bookkeeping(state, rows)
    &&& fresh_host(state.host)
    &&& state.host.local_hostname is None
    &&& state.host.app_name@ == "ember"@
    &&& state.log@ == empty_log()
    &&& state.max_scrollback == DEFAULT_MAX_SCROLLBACK
    &&& state.row_identity_revision == 1
}

/// The host side of a new terminal.
fn new_host(local_hostname: Option<String>, app_name: String) -> (host: HostState)
    ensures
        fresh_host(host),
        host.local_hostname == local_hostname,
        host.app_name == app_name,
{
    let palette: [Option<(u8, u8, u8)>; 256] = [None;256];
    assert(palette@ =~= Seq::new(256, |i: int| None::<Rgb>));
    let requests: Vec<ClipboardReadRequest> = Vec::new();
    HostState {
        window_title: String::new(),
        icon_title: String::new(),
        title_stack: Vec::new(),
        announced_jsh_session_id: None,
        local_hostname,
        app_name,
        pending_notifications: Vec::new(),
        output_buffer: Vec::new(),
        pending_osc52_clipboard_set: None,
        pending_osc52_clipboard_query: false,
        dynamic_fg: None,
        dynamic_bg: None,
        dynamic_cursor_color: None,
        dynamic_palette: palette,
        pending_clipboard_requests: requests,
        pending_paste_grant: None,
        hyperlinks: Vec::new(),
    }
}

/// The modes of a new terminal: a visible cursor and automatic wrapping.
fn new_modes() -> (modes: TerminalModes)
    ensures
        forall|mode: u16| modes.has(mode) == (mode == 25 || mode == 7),
{
    let mut modes = TerminalModes::new();
    let ghost none = modes;
    modes.insert(25);
    let ghost one = modes;
    modes.insert(7);
    proof {
        assert forall|mode: u16| modes.has(mode) == (mode == 25 || mode == 7) by {
            modes_are_independent(none, 25, true, mode);
            modes_are_independent(one, 7, true, mode);
        }
    }
    modes
}

/// A blank screen with named rows.
fn new_screen(cols: usize, rows: usize, next: &mut u64) -> (grid: TerminalGrid)
    requires
        1 <= rows <= MAX_TERMINAL_ROWS,
        1 <= cols <= MAX_TERMINAL_COLS,
    ensures
        grid.wf(),
        grid.cols == cols,
        grid@ == fresh_screen(cols as int, rows as int, *old(next)),
        *final(next) == nth_id(*old(next), rows as int),
        ids_allocated(grid@, *final(next)),
        rows_paired(grid@),
{
    let mut grid = TerminalGrid::new(rows, cols);
    let ghost lines = grid@;
    let ghost first = *next;
    name_rows(&mut grid, next);
    proof {
        lemma_all_unnamed(lines, rows as int);
        assert forall|r: int| 0 <= r < rows implies unnamed_before(lines, r) == r by {
            lemma_all_unnamed(lines, r);
        }
        assert(grid@ =~~= fresh_screen(cols as int, rows as int, first));
        reveal(ids_allocated);
        reveal(rows_paired);
        lemma_blank_paired(cols as int, blank_cell(Color::Default));
        let blanks = repeated(blank_cell(Color::Default), cols as int);
        assert(forall|r: int| 0 <= r < grid@.len() ==> (#[trigger] grid@[r]).cells == blanks);
    }
    grid
}

/// Where no row is named, every row before `n` counts.
proof fn lemma_all_unnamed(lines: Seq<Line>, n: int)
    requires
        0 <= n <= lines.len(),
        forall|r: int| 0 <= r < lines.len() ==> (#[trigger] lines[r]).id.raw == 0,
    ensures
        unnamed_before(lines, n) == n,
    decreases n,
{
    if n > 0 {
        lemma_all_unnamed(lines, n - 1);
    }
}

/// Earlier identities stay allocated as the allocator moves on.
proof fn lemma_ids_later(lines: Seq<Line>, first: u64, k: int)
    requires
        ids_allocated(lines, first),
        k >= 0,
    ensures
        ids_allocated(lines, nth_id(first, k)),
{
    reveal(ids_allocated);
}

/// A new terminal whose rows are named from `first` on.
fn build(
    cols: usize,
    rows: usize,
    first: u64,
    epoch: Instant,
    local_hostname: Option<String>,
    app_name: String,
) -> (state: TerminalState)
    requires
        1 <= rows <= MAX_TERMINAL_ROWS,
        1 <= cols <= MAX_TERMINAL_COLS,
    ensures
        state.core_wf(),
        fresh_screens(state, cols as int, rows as int, first),
        fresh_settings(state, cols as int, rows as int),
        fresh_bookkeeping(state, rows as int),
        fresh_host(state.host),
        state.host.local_hostname == local_hostname,
        state.host.app_name == app_name,
        state.log@ == empty_log(),
        state.max_scrollback == DEFAULT_MAX_SCROLLBACK,
        state.row_identity_revision == 1,
        state.epoch == epoch,
{
    let mut next: u64 = first;
    let grid = new_screen(cols, rows, &mut next);
    let ghost mid = next;
    let alt_grid = new_screen(cols, rows, &mut next);
    proof {
        lemma_ids_later(grid@, mid, rows as int);
    }
    let mut dirty_region = DirtyRegion::new();
    dirty_region.mark_all(rows);
    let scrollback: VecDeque<ScrollbackLine> = VecDeque::new();
    let marks: VecDeque<CommandMark> = VecDeque::new();
    let versions: Vec<u64> = vec![1u64; rows];
    assert(versions@ =~= Seq::new(rows as nat, |r: int| 1u64));
    let log = CommandLog::new();
    let state = TerminalState {
        grid,
        alt_grid,
        scrollback,
        scroll_offset: 0,
        max_scrollback: DEFAULT_MAX_SCROLLBACK,
        use_alt_buffer: false,
        cursor_row: 0,
        cursor_col: 0,
        last_printed_char: None,
        pending_wrap: false,
        current_fg: Color::Default,
        current_bg: Color::Default,
        current_flags: StyleFlags::plain(),
        current_hyperlink: HyperlinkId::none(),
        scroll_region_top: 0,
        scroll_region_bottom: rows - 1,
        g0_charset: Charset::Ascii,
        g1_charset: Charset::Ascii,
        active_charset: Charset::Ascii,
        modes: new_modes(),
        insert_mode: false,
        origin_mode: false,
        dirty_region,
        grid_version: 1,
        row_versions: versions,
        caches: ViewCaches::new(),
        sync_output_active: false,
        total_lines_scrolled: 0,
        next_raw_row_id: next,
        row_identity_revision: 1,
        full_screen_scroll_revision: 1,
        provenance: OutputProvenance::new(),
        log,
        cleared_blocks: None,
        command_marks: marks,
        current_working_dir: None,
        selection: None,
        projected_selection: None,
        selection_revision: 1,
        saved: SavedCursors { requested: None, primary: None, alt_row: 0, alt_col: 0 },
        tab_stops: default_tab_stops(cols),
        cursor_shape: CursorShape::Block,
        sync_output_start: None,
        last_archived_screen_snapshot: Vec::new(),
        last_synced_primary_screen_snapshot: Vec::new(),
        keyboard: KeyboardState {
            enhancement_flags: 0,
            enhancement_stack: Vec::new(),
            hidden_flags: 0,
            hidden_stack: Vec::new(),
            modify_other_keys: 0,
            format_other_keys: 0,
        },
        host: new_host(local_hostname, app_name),
        parser: ParserState {
            mode: ParserMode::Ground,
            pending: Vec::new(),
            utf8: Vec::new(),
        },
        ime: ImeState { preedit_text: String::new(), preedit_cursor: 0 },
        epoch,
    };
    proof {
        reveal(ids_allocated);
        reveal(outputs_bounded);
        reveal(stash_wf);
        assert(state.history() =~= Seq::<Line>::empty());
        reveal(rows_named_once);
    }
    state
}

impl TerminalState {
    /// A new terminal. A size out of range is brought into it.
    pub fn new(cols: usize, rows: usize) -> (state: TerminalState)
        ensures
            state.core_wf(),
            is_fresh(
                state,
                spec_clamp(cols, MAX_TERMINAL_COLS) as int,
                spec_clamp(rows, MAX_TERMINAL_ROWS) as int,
            ),
    {
        let (cols, rows) = clamp_terminal_dimensions(cols, rows);
        build(cols, rows, 1, Instant::now(), None, "ember".to_string())
    }
}

/// The log that a reset leaves: reported outcomes and used identities stay.
pub open spec fn log_reset(log: LogModel) -> LogModel {
    let reported = log.reset_interrupted();
    LogModel {
        next_sequence: reported.next_sequence,
        consumed_ids: reported.consumed_ids,
        events: reported.events,
        ..empty_log()
    }
}

/// `post` is `pre` after a full reset. Row identities and command numbers go
/// on where they were, so that nothing old can be taken for something new.
pub open spec fn terminal_reset(pre: TerminalState, post: TerminalState) -> bool {
    &&& fresh_screens(post, pre.cols(), pre.rows(), pre.next_raw_row_id)
    &&& fresh_settings(post, pre.cols(), pre.rows())
    &&& fresh_bookkeeping(post, pre.rows())
    &&& fresh_host(post.host)
    &&& post.host.local_hostname == pre.host.local_hostname
    &&& post.host.app_name == pre.host.app_name
    &&& post.log@ == log_reset(pre.log@)
    &&& post.max_scrollback == pre.max_scrollback
    &&& post.row_identity_revision == wrapping_next(pre.row_identity_revision)
    &&& post.epoch == pre.epoch
}

impl TerminalState {
    /// Brings the terminal back to its initial state.
    pub fn hard_reset(&mut self)
        requires
            old(self).core_wf(),
        ensures
            final(self).core_wf(),
            terminal_reset(*old(self), *final(self)),
    {
        self.log.record_reset_interrupted_agent_command();
        let ghost reported = self.log@;
        let mut log = CommandLog::new();
        std::mem::swap(&mut self.log.events, &mut log.events);
        std::mem::swap(&mut self.log.consumed_ids, &mut log.consumed_ids);
        log.next_sequence = self.log.next_sequence;
        assert(log@ == log_reset(old(self).log@));
        let mut local_hostname: Option<String> = None;
        std::mem::swap(&mut self.host.local_hostname, &mut local_hostname);
        let mut app_name = String::new();
        std::mem::swap(&mut self.host.app_name, &mut app_name);
        let mut fresh = build(
            self.grid.cols,
            self.grid.rows.len(),
            self.next_raw_row_id,
            self.epoch,
            local_hostname,
            app_name,
        );
        fresh.max_scrollback = self.max_scrollback;
        fresh.row_identity_revision = self.row_identity_revision;
        fresh.log = log;
        fresh.mark_row_identity_changed();
        *self = fresh;
    }
}

/// `post` is `pre` without the oldest row of its history.
pub open spec fn oldest_row_dropped(pre: TerminalState, post: TerminalState) -> bool {
    &&& pre.history().len() > 0
    &&& post.history() == pre.history().drop_first()
    &&& row_lost(
        TerminalState { scrollback: post.scrollback, ..pre },
        pre.history()[0].id,
        post,
    )
}

/// `post` is `pre` without the oldest `n` rows of its history.
pub open spec fn oldest_rows_dropped(pre: TerminalState, n: int, post: TerminalState) -> bool
    decreases n,
{
    if n <= 0 {
        post == pre
    } else {
        exists|mid: TerminalState| #[trigger]
            oldest_row_dropped(pre, mid) && oldest_rows_dropped(mid, n - 1, post)
    }
}

impl TerminalState {
    /// Drops the oldest row of the history.
    fn drop_oldest_row(&mut self)
        requires
            old(self).core_wf(),
            old(self).scrollback@.len() > 0,
            old(self).scroll_offset < old(self).scrollback@.len(),
        ensures
            final(self).core_wf(),
            oldest_row_dropped(*old(self), *final(self)),
    {
        let ghost lines = self.history();
        proof {
            lemma_ids_drop_first(lines, self.next_raw_row_id);
            lemma_names_dropped(lines, self.grid@, self.alt_grid@);
        }
        match self.scrollback.pop_front() {
            Some(evicted) => {
                let id = evicted.raw_row_id();
                assert(self.history() =~= lines.drop_first());
                assert(lines[0].id == id);
                self.forget_output_provenance_for_raw_row(id);
            },
            None => {},
        }
    }

    /// Drops the oldest rows of the history until `keep` are left.
    fn drop_oldest_rows(&mut self, keep: usize)
        requires
            old(self).core_wf(),
            old(self).scroll_offset <= keep,
            keep <= old(self).scrollback@.len(),
        ensures
            final(self).core_wf(),
            final(self).scrollback@.len() == keep,
            oldest_rows_dropped(*old(self), old(self).scrollback@.len() - keep, *final(self)),
    {
        let ghost start = *self;
        let ghost all = self.scrollback@.len() - keep;
        while self.scrollback.len() > keep
            invariant
                self.core_wf(),
                self.scroll_offset <= keep <= self.scrollback@.len(),
                all == start.scrollback@.len() - keep,
                start == *old(self),
                forall|post: TerminalState|
                    #[trigger] oldest_rows_dropped(*self, self.scrollback@.len() - keep, post)
                        ==> oldest_rows_dropped(start, all, post),
            decreases self.scrollback@.len(),
        {
            let ghost before = *self;
            let ghost left = self.scrollback@.len() - keep;
            self.drop_oldest_row();
            assert(self.history().len() == before.history().len() - 1);
            assert(self.scrollback@.len() - keep == left - 1);
            assert forall|post: TerminalState| #[trigger]
                oldest_rows_dropped(*self, self.scrollback@.len() - keep, post) implies oldest_rows_dropped(
                start,
                all,
                post,
            ) by {
                assert(oldest_row_dropped(before, *self));
                assert(oldest_rows_dropped(before, left, post));
            }
        }
        assert(oldest_rows_dropped(*self, self.scrollback@.len() - keep, *self));
    }
}

/// The smaller of two numbers.
pub open spec fn smaller(a: int, b: int) -> int {
    if a < b {
        a
    } else {
        b
    }
}

/// `post` is `pre` with a history of at most `limit` rows.
pub open spec fn history_limited(pre: TerminalState, limit: int, post: TerminalState) -> bool {
    let keep = smaller(pre.history().len() as int, limit);
    exists|mid: TerminalState|
        {
            &&& #[trigger] oldest_rows_dropped(
                TerminalState { scroll_offset: smaller(pre.scroll_offset as int, keep) as usize, ..pre },
                pre.history().len() - keep,
                mid,
            )
            &&& post.max_scrollback == limit
            &&& post.caches == if keep < pre.history().len() {
                mid.caches.views_dropped()
            } else {
                mid.caches
            }
            &&& post == TerminalState {
                max_scrollback: post.max_scrollback,
                caches: post.caches,
                ..mid
            }
        }
}

/// `post` is `pre` without any history.
pub open spec fn history_cleared(pre: TerminalState, post: TerminalState) -> bool {
    exists|mid: TerminalState|
        {
            &&& #[trigger] oldest_rows_dropped(
                TerminalState { scroll_offset: 0, ..pre },
                pre.history().len() as int,
                mid,
            )
            &&& post.caches == mid.caches.views_dropped()
            &&& post == TerminalState { caches: post.caches, ..mid }
        }
}

/// Dropping rows and recording the bound limits the history.
proof fn lemma_history_limited(
    pre: TerminalState,
    limit: usize,
    clamped: TerminalState,
    mid: TerminalState,
    post: TerminalState,
)
    requires
        ({
            let keep = smaller(pre.history().len() as int, limit as int);
            &&& clamped == TerminalState {
                scroll_offset: smaller(pre.scroll_offset as int, keep) as usize,
                ..pre
            }
            &&& oldest_rows_dropped(clamped, pre.history().len() - keep, mid)
            &&& post.caches == if keep < pre.history().len() {
                mid.caches.views_dropped()
            } else {
                mid.caches
            }
        }),
        post == (TerminalState { max_scrollback: limit, caches: post.caches, ..mid }),
    ensures
        history_limited(pre, limit as int, post),
{
}

impl TerminalState {
    /// Moves the view down to where `keep` rows of history suffice.
    fn limit_scroll_offset(&mut self, keep: usize)
        requires
            old(self).core_wf(),
            keep <= old(self).scrollback@.len(),
        ensures
            final(self).core_wf(),
            *final(self) == (TerminalState {
                scroll_offset: smaller(old(self).scroll_offset as int, keep as int) as usize,
                ..*old(self)
            }),
    {
        if self.scroll_offset > keep {
            self.scroll_offset = keep;
        }
    }

    /// Records the new bound; views of dropped rows are forgotten.
    fn finish_history_limit(&mut self, dropped: bool, limit: usize)
        requires
            old(self).core_wf(),
            limit >= 1,
            old(self).scrollback@.len() <= limit,
        ensures
            final(self).core_wf(),
            final(self).max_scrollback == limit,
            final(self).caches == if dropped {
                old(self).caches.views_dropped()
            } else {
                old(self).caches
            },
            *final(self) == (TerminalState {
                max_scrollback: final(self).max_scrollback,
                caches: final(self).caches,
                ..*old(self)
            }),
    {
        if dropped {
            self.caches.drop_views();
        }
        self.max_scrollback = limit;
    }

    /// Bounds the history; at least one row is kept.
    pub fn set_max_scrollback(&mut self, max_scrollback: usize)
        requires
            old(self).core_wf(),
        ensures
            final(self).core_wf(),
            history_limited(
                *old(self),
                if max_scrollback == 0 {
                    1
                } else {
                    max_scrollback as int
                },
                *final(self),
            ),
    {
        let limit: usize = if max_scrollback == 0 {
            1
        } else {
            max_scrollback
        };
        let len: usize = self.scrollback.len();
        let keep: usize = if len < limit {
            len
        } else {
            limit
        };
        self.limit_scroll_offset(keep);
        let ghost clamped = *self;
        self.drop_oldest_rows(keep);
        let ghost mid = *self;
        self.finish_history_limit(keep < len, limit);
        proof {
            lemma_history_limited(*old(self), limit, clamped, mid, *self);
        }
    }

    /// Forgets the whole history.
    pub fn clear_scrollback_with_projection_provenance(&mut self)
        requires
            old(self).core_wf(),
        ensures
            final(self).core_wf(),
            history_cleared(*old(self), *final(self)),
    {
        self.scroll_offset = 0;
        self.drop_oldest_rows(0);
        let ghost mid = *self;
        assert(oldest_rows_dropped(
            TerminalState { scroll_offset: 0, ..*old(self) },
            old(self).history().len() as int,
            mid,
        ));
        self.caches.drop_views();
    }
}

/// After a reset no row has an identity that a row had before, and commands go
/// on with the next number. Once identities are used up rows have none.
pub proof fn resets_reuse_nothing(pre: TerminalState, post: TerminalState, r: int)
    requires
        pre.core_wf(),
        terminal_reset(pre, post),
        0 <= r < pre.rows(),
    ensures
        post.grid@[r].id.raw == 0 || post.grid@[r].id.raw >= pre.next_raw_row_id > 0,
        post.alt_grid@[r].id.raw == 0 || post.alt_grid@[r].id.raw >= pre.next_raw_row_id > 0,
        post.next_raw_row_id == 0 || post.next_raw_row_id > pre.next_raw_row_id,
        post.log@.next_sequence == pre.log@.next_sequence,
        post.log@.records.len() == 0,
{
}

} // verus!
